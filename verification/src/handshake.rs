//! Starting an engine: the network file handed to it, and the handshake as a
//! state machine that the caller drives with the engine's output lines.

use vstd::prelude::*;
use crate::engine_setup::{
    EngineSettings, handshake_option_commands, handshake_protocol_sequence, opt_view,
    spec_handshake_sequence,
};
use crate::text::{chars_of, contains_seq, decimal, lower, lower_chars, push_str};

verus! {

/// Code-point order on character sequences (the order of `str` and of
/// file names in a path).
pub open spec fn seq_lt(a: Seq<char>, b: Seq<char>) -> bool
    decreases a.len(),
{
    if a.len() == 0 {
        b.len() > 0
    } else if b.len() == 0 {
        false
    } else if a[0] != b[0] {
        (a[0] as int) < (b[0] as int)
    } else {
        seq_lt(a.drop_first(), b.drop_first())
    }
}

/// No sequence comes before itself.
pub proof fn lemma_seq_lt_irreflexive(a: Seq<char>)
    ensures
        !seq_lt(a, a),
    decreases a.len(),
{
    if a.len() > 0 {
        lemma_seq_lt_irreflexive(a.drop_first());
    }
}

/// The order is transitive.
pub proof fn lemma_seq_lt_transitive(a: Seq<char>, b: Seq<char>, c: Seq<char>)
    requires
        seq_lt(a, b),
        seq_lt(b, c),
    ensures
        seq_lt(a, c),
    decreases a.len(),
{
    if a.len() > 0 && b.len() > 0 && c.len() > 0 && a[0] == b[0] && b[0] == c[0] {
        lemma_seq_lt_transitive(a.drop_first(), b.drop_first(), c.drop_first());
    }
}

/// Whether `a` comes before `b` in code-point order.
pub fn chars_lt(a: &[char], b: &[char]) -> (r: bool)
    ensures
        r == seq_lt(a@, b@),
{
    let mut i: usize = 0;
    assert(a@.skip(0) =~= a@);
    assert(b@.skip(0) =~= b@);
    while i < a.len() && i < b.len()
        invariant
            i <= a@.len(),
            i <= b@.len(),
            seq_lt(a@, b@) == seq_lt(a@.skip(i as int), b@.skip(i as int)),
        decreases a.len() - i,
    {
        if a[i] != b[i] {
            return a[i] < b[i];
        }
        assert(a@.skip(i as int).drop_first() =~= a@.skip(i + 1));
        assert(b@.skip(i as int).drop_first() =~= b@.skip(i + 1));
        i = i + 1;
    }
    i < b.len()
}

/// Every character is ASCII.
pub open spec fn all_ascii(s: Seq<char>) -> bool {
    forall|i: int| 0 <= i < s.len() ==> (s[i] as int) < 128
}

/// Whether every character is ASCII.
pub fn chars_ascii(s: &[char]) -> (r: bool)
    ensures
        r == all_ascii(s@),
{
    let mut i: usize = 0;
    while i < s.len()
        invariant
            i <= s@.len(),
            forall|k: int| 0 <= k < i ==> (s@[k] as int) < 128,
        decreases s.len() - i,
    {
        if s[i] >= (128u8 as char) {
            return false;
        }
        i = i + 1;
    }
    true
}

/// A path separator (`/`, or `\` as Windows writes it).
pub open spec fn is_sep(c: char) -> bool {
    c == '/' || c == '\\'
}

/// The path of file `name` in directory `dir` (`dir` itself when it is empty).
pub open spec fn join_dir(dir: Seq<char>, name: Seq<char>) -> Seq<char> {
    if dir.len() == 0 {
        name
    } else if is_sep(dir.last()) {
        dir + name
    } else {
        dir + "/"@ + name
    }
}

/// `s` with every `\` written as `/`.
pub open spec fn forward_slashes(s: Seq<char>) -> Seq<char> {
    Seq::new(s.len(), |i: int| if s[i] == '\\' { '/' } else { s[i] })
}

/// The path handed to the engine for network file `name` of directory `dir`.
pub open spec fn eval_path(dir: Seq<char>, name: Seq<char>) -> Seq<char> {
    forward_slashes(join_dir(dir, name))
}

/// The network files looked for first, in this order.
pub open spec fn known_eval_names() -> Seq<Seq<char>> {
    seq!["pikafish.nnue"@, "engine.nnue"@, "libpikafish.nnue.so"@]
}

/// A network file name: extension `nnue` (ASCII case ignored, a name before
/// it), or `.nnue.so` anywhere in the lowercased name.
pub open spec fn is_eval_name(name: Seq<char>) -> bool {
    (name.len() > 5 && lower(name).skip(name.len() - 5) == ".nnue"@) || contains_seq(
        lower(name),
        ".nnue.so"@,
    )
}

/// Whether `name` is one of the listed files.
pub open spec fn listed(files: Seq<Seq<char>>, name: Seq<char>) -> bool {
    exists|j: int| 0 <= j < files.len() && files[j] == name
}

/// The first of the known names, from the `k`-th on, that is listed and
/// whose path is ASCII.
pub open spec fn known_eval_pick(dir: Seq<char>, files: Seq<Seq<char>>, k: nat) -> Option<Seq<char>>
    decreases 3 - k,
{
    if k >= 3 {
        None
    } else {
        let name = known_eval_names()[k as int];
        if listed(files, name) && all_ascii(eval_path(dir, name)) {
            Some(eval_path(dir, name))
        } else {
            known_eval_pick(dir, files, k + 1)
        }
    }
}

/// `name` is the first network file name of the listing in code-point order.
pub open spec fn least_eval_name(files: Seq<Seq<char>>, name: Seq<char>) -> bool {
    &&& listed(files, name)
    &&& is_eval_name(name)
    &&& forall|j: int| 0 <= j < files.len() && is_eval_name(files[j]) ==> !seq_lt(files[j], name)
}

fn is_sep_char(c: char) -> (r: bool)
    ensures
        r == is_sep(c),
{
    c == '/' || c == '\\'
}

/// The path of network file `name` in `dir`, as [`eval_path`] writes it.
pub fn eval_file_path(dir: &str, name: &str) -> (r: String)
    ensures
        r@ == eval_path(dir@, name@),
{
    let d = chars_of(dir);
    let mut joined = String::new();
    if d.len() == 0 {
        push_str(&mut joined, name);
    } else if is_sep_char(d[d.len() - 1]) {
        push_str(&mut joined, dir);
        push_str(&mut joined, name);
    } else {
        push_str(&mut joined, dir);
        push_str(&mut joined, "/");
        push_str(&mut joined, name);
    }
    let j = chars_of(joined.as_str());
    let mut out = String::new();
    let mut i: usize = 0;
    while i < j.len()
        invariant
            i <= j@.len(),
            j@ == join_dir(dir@, name@),
            out@ == forward_slashes(j@).take(i as int),
        decreases j.len() - i,
    {
        let c = j[i];
        let w = if c == '\\' { '/' } else { c };
        crate::text::push_char(&mut out, w);
        i = i + 1;
        assert(out@ =~= forward_slashes(j@).take(i as int));
    }
    assert(forward_slashes(j@).take(j@.len() as int) =~= forward_slashes(j@));
    out
}

/// Whether `name` is a network file name (see [`is_eval_name`]).
pub fn eval_name(name: &str) -> (r: bool)
    ensures
        r == is_eval_name(name@),
{
    let c = chars_of(name);
    let l = lower_chars(c.as_slice());
    let ends = if c.len() > 5 {
        let tail = vstd::slice::slice_subrange(l.as_slice(), l.len() - 5, l.len());
        let ext = chars_of(".nnue");
        assert(tail@ =~= lower(name@).skip(name@.len() - 5));
        crate::text::chars_eq(tail, ext.as_slice())
    } else {
        false
    };
    ends || crate::text::contains_str(l.as_slice(), ".nnue.so")
}

fn listed_name(files: &Vec<String>, name: &str) -> (r: bool)
    ensures
        r == listed(files.deep_view(), name@),
{
    let mut j: usize = 0;
    while j < files.len()
        invariant
            j <= files@.len(),
            forall|k: int| 0 <= k < j ==> files.deep_view()[k] != name@,
        decreases files.len() - j,
    {
        if crate::text::str_eq(files[j].as_str(), name) {
            assert(files.deep_view()[j as int] == name@);
            return true;
        }
        j = j + 1;
    }
    false
}

/// The network file handed to the engine, from the names of the regular
/// files in the engine's directory `dir`: the first of `pikafish.nnue`,
/// `engine.nnue`, `libpikafish.nnue.so` that is there with an ASCII path;
/// else the first network file name in code-point order, when its path is
/// ASCII. Paths are written with `/`.
pub fn eval_file(dir: &str, files: &Vec<String>) -> (r: Option<String>)
    ensures
        match known_eval_pick(dir@, files.deep_view(), 0) {
            Some(p) => r matches Some(s) && s@ == p,
            None => match r {
                Some(s) => exists|n: Seq<char>|
                    least_eval_name(files.deep_view(), n) && s@ == eval_path(dir@, n) && all_ascii(s@),
                None => forall|n: Seq<char>|
                    least_eval_name(files.deep_view(), n) ==> !all_ascii(eval_path(dir@, n)),
            },
        },
{
    let known: [&'static str; 3] = ["pikafish.nnue", "engine.nnue", "libpikafish.nnue.so"];
    let mut k: usize = 0;
    while k < 3
        invariant
            k <= 3,
            known@.len() == 3,
            forall|i: int| 0 <= i < 3 ==> known@[i]@ == known_eval_names()[i],
            known_eval_pick(dir@, files.deep_view(), 0) == known_eval_pick(dir@, files.deep_view(), k as nat),
        decreases 3 - k,
    {
        if listed_name(files, known[k]) {
            let p = eval_file_path(dir, known[k]);
            let pc = chars_of(p.as_str());
            if chars_ascii(pc.as_slice()) {
                return Some(p);
            }
        }
        k = k + 1;
    }
    let ghost fv = files.deep_view();
    let mut best: Option<usize> = None;
    let mut j: usize = 0;
    while j < files.len()
        invariant
            j <= files@.len(),
            fv == files.deep_view(),
            best matches Some(b) ==> b < j && is_eval_name(fv[b as int]) && forall|i: int|
                0 <= i < j && is_eval_name(fv[i]) ==> !seq_lt(fv[i], fv[b as int]),
            best is None ==> forall|i: int| 0 <= i < j ==> !is_eval_name(fv[i]),
        decreases files.len() - j,
    {
        if eval_name(files[j].as_str()) {
            let cj = chars_of(files[j].as_str());
            match best {
                None => {
                    proof {
                        lemma_seq_lt_irreflexive(fv[j as int]);
                    }
                    best = Some(j);
                },
                Some(b) => {
                    let cb = chars_of(files[b].as_str());
                    if chars_lt(cj.as_slice(), cb.as_slice()) {
                        proof {
                            lemma_seq_lt_irreflexive(fv[j as int]);
                            assert forall|i: int|
                                0 <= i < j + 1 && is_eval_name(fv[i]) implies !seq_lt(fv[i], fv[j as int]) by {
                                if i < j && seq_lt(fv[i], fv[j as int]) {
                                    lemma_seq_lt_transitive(fv[i], fv[j as int], fv[b as int]);
                                }
                            }
                        }
                        best = Some(j);
                    }
                },
            }
        }
        j = j + 1;
    }
    match best {
        None => {
            proof {
                assert forall|n: Seq<char>| least_eval_name(fv, n) implies !all_ascii(eval_path(dir@, n)) by {
                    let w = choose|w: int| 0 <= w < fv.len() && fv[w] == n;
                    assert(!is_eval_name(fv[w]));
                }
            }
            None
        },
        Some(b) => {
            let p = eval_file_path(dir, files[b].as_str());
            let pc = chars_of(p.as_str());
            proof {
                assert(least_eval_name(fv, fv[b as int]));
                assert forall|n: Seq<char>| least_eval_name(fv, n) implies n == fv[b as int] by {
                    let w = choose|w: int| 0 <= w < fv.len() && fv[w] == n;
                    assert(!seq_lt(fv[b as int], n));
                    assert(!seq_lt(n, fv[b as int]));
                    lemma_seq_lt_total(n, fv[b as int]);
                }
            }
            if chars_ascii(pc.as_slice()) {
                Some(p)
            } else {
                None
            }
        },
    }
}

/// Two different sequences are ordered one way or the other.
pub proof fn lemma_seq_lt_total(a: Seq<char>, b: Seq<char>)
    ensures
        a == b || seq_lt(a, b) || seq_lt(b, a),
    decreases a.len(),
{
    if a.len() > 0 && b.len() > 0 && a[0] == b[0] {
        lemma_seq_lt_total(a.drop_first(), b.drop_first());
        if a.drop_first() == b.drop_first() {
            assert(a =~= seq![a[0]] + a.drop_first());
            assert(b =~= seq![b[0]] + b.drop_first());
        }
    } else if a.len() == 0 && b.len() == 0 {
        assert(a =~= b);
    } else if a.len() > 0 && b.len() > 0 {
        assert((a[0] as int) != (b[0] as int));
    }
}

/// How long the engine has to answer the protocol greeting, in milliseconds.
pub const GREETING_WAIT_MS: u64 = 3000;

/// How long the engine has to answer `isready`, in milliseconds.
pub const READY_WAIT_MS: u64 = 4000;

/// Reported when no protocol was answered.
pub const HANDSHAKE_FAILED: &'static str = "引擎握手失败：请确认可执行文件为中国象棋引擎且支持 UCI 或 UCCI";

/// Reported when `isready` was not answered.
pub const READY_TIMEOUT: &'static str = "isready timeout";

/// The word the engine answers a protocol greeting with (`uciok`, `ucciok`).
pub open spec fn greeting_reply(protocol: Seq<char>) -> Seq<char> {
    protocol + "ok"@
}

/// The lines sent once a protocol is answered: the options, the network
/// file when there is one, and `isready`.
pub open spec fn setup_lines(settings: EngineSettings, eval: Option<Seq<char>>) -> Seq<Seq<char>> {
    seq![
        "setoption name Threads value "@ + decimal(settings.threads as int),
        "setoption name Hash value "@ + decimal(settings.hash_mb as int),
        "setoption name Repetition Rule value "@ + settings.repetition_rule@,
        "setoption name Draw Rule value "@ + settings.draw_rule@,
        "setoption name Skill Level value "@ + decimal(settings.skill_level as int),
    ] + match eval {
        Some(p) => seq!["setoption name EvalFile value "@ + p],
        None => Seq::empty(),
    } + seq!["isready"@]
}

/// Where a handshake stands.
#[derive(Debug, Clone, Copy, PartialEq, Eq)]
pub enum HandshakePhase {
    /// A protocol greeting was sent; its answer is awaited.
    Greeting,
    /// The options and `isready` were sent; `readyok` is awaited.
    Readying,
    /// The engine is ready.
    Ready,
    /// The handshake gave up.
    Failed,
}

/// What the engine did while a handshake waited.
pub enum EngineEvent {
    /// One output line.
    Line(String),
    /// The wait ran out.
    TimedOut,
    /// The engine's output closed.
    Closed,
}

/// What the caller does next.
pub enum HandshakeAction {
    /// Drops unread output when `clear_output` holds, sends `lines`, and
    /// waits up to `wait_ms` for the answer.
    Send { clear_output: bool, lines: Vec<String>, wait_ms: u64 },
    /// `protocol` was answered: sends `lines` and waits up to `wait_ms`.
    Confirmed { protocol: &'static str, lines: Vec<String>, wait_ms: u64 },
    /// Keeps waiting, up to the time set by the last send.
    Wait,
    /// The engine is ready and speaks `protocol`.
    Ready { protocol: &'static str },
    /// The handshake failed with `message`; the engine is to be stopped.
    Failed { message: String },
}

/// A handshake: the protocols to try, the one being tried, and the lines
/// sent once one is answered.
pub struct Handshake {
    pub sequence: Vec<&'static str>,
    pub index: usize,
    pub phase: HandshakePhase,
    pub setup: Vec<String>,
}

impl Handshake {
    /// The protocols tried, as text.
    pub open spec fn protocols(&self) -> Seq<Seq<char>> {
        Seq::new(self.sequence@.len(), |i: int| self.sequence@[i]@)
    }

    /// At least one protocol, each `uci` or `ucci`, the current one among them.
    pub open spec fn wf(&self) -> bool {
        &&& 1 <= self.sequence@.len()
        &&& self.index < self.sequence@.len()
        &&& forall|i: int|
            0 <= i < self.sequence@.len() ==> self.sequence@[i]@ == "uci"@ || self.sequence@[i]@
                == "ucci"@
    }

    /// Starts a handshake with `settings` and the network file `eval` (a
    /// path): greets the engine in the first protocol of
    /// [`spec_handshake_sequence`].
    pub fn start(settings: &EngineSettings, eval: Option<String>) -> (r: (Handshake, HandshakeAction))
        ensures
            r.0.wf(),
            r.0.protocols() == spec_handshake_sequence(
                settings.protocol_preference@,
                opt_view(settings.handshake_protocol_hint),
            ),
            r.0.index == 0,
            r.0.phase == HandshakePhase::Greeting,
            r.0.setup.deep_view() == setup_lines(*settings, opt_view(eval)),
            r.1 matches HandshakeAction::Send { clear_output, lines, wait_ms } && !clear_output
                && lines.deep_view() == seq![r.0.protocols()[0]] && wait_ms == GREETING_WAIT_MS,
    {
        let hint = match &settings.handshake_protocol_hint {
            Some(h) => Some(h.as_str()),
            None => None,
        };
        let sequence = handshake_protocol_sequence(settings.protocol_preference.as_str(), hint);
        let ghost expected = spec_handshake_sequence(
            settings.protocol_preference@,
            opt_view(settings.handshake_protocol_hint),
        );
        proof {
            assert((match hint {
                Some(h) => Some(h@),
                None => None,
            }) == opt_view(settings.handshake_protocol_hint));
            assert(Seq::new(sequence@.len(), |k: int| sequence@[k]@) == expected);
            assert(sequence@.len() == expected.len());
            assert forall|k: int| 0 <= k < sequence@.len() implies sequence@[k]@ == "uci"@ || sequence@[k]@ == "ucci"@ by {
                assert(Seq::new(sequence@.len(), |m: int| sequence@[m]@)[k] == sequence@[k]@);
            }
        }
        let mut setup = handshake_option_commands(settings);
        let ghost options = setup.deep_view();
        match eval {
            Some(p) => {
                let mut line = String::from_str("setoption name EvalFile value ");
                push_str(&mut line, p.as_str());
                setup.push(line);
            },
            None => {},
        }
        setup.push(String::from_str("isready"));
        assert(setup.deep_view() =~= setup_lines(*settings, opt_view(eval)));
        let first = String::from_str(sequence[0]);
        let lines = vec![first];
        let hs = Handshake { sequence, index: 0, phase: HandshakePhase::Greeting, setup };
        assert(hs.protocols() =~= spec_handshake_sequence(
            settings.protocol_preference@,
            opt_view(settings.handshake_protocol_hint),
        ));
        assert(lines.deep_view() =~= seq![hs.protocols()[0]]);
        (hs, HandshakeAction::Send { clear_output: false, lines, wait_ms: GREETING_WAIT_MS })
    }

    /// Takes one event. While greeting: a line holding the current
    /// protocol's reply confirms it and sends the setup lines; a timeout
    /// greets in the next protocol (dropping unread output), or fails when
    /// none is left; a closed output fails. While readying: a line holding
    /// `readyok` ends the handshake; a timeout or a closed output fails.
    /// Other lines, and any event after the end, change nothing.
    pub fn step(&mut self, event: EngineEvent) -> (a: HandshakeAction)
        requires
            old(self).wf(),
        ensures
            final(self).wf(),
            final(self).sequence@ == old(self).sequence@,
            final(self).setup.deep_view() == old(self).setup.deep_view(),
            ({
                let i = old(self).index as int;
                let p = old(self).protocols()[i];
                let unchanged = final(self).phase == old(self).phase && final(self).index
                    == old(self).index;
                match old(self).phase {
                    HandshakePhase::Greeting => match event {
                        EngineEvent::Line(l) => if contains_seq(l@, greeting_reply(p)) {
                            &&& final(self).phase == HandshakePhase::Readying
                            &&& final(self).index == old(self).index
                            &&& a matches HandshakeAction::Confirmed { protocol, lines, wait_ms }
                                && protocol@ == p && lines.deep_view() == old(self).setup.deep_view()
                                && wait_ms == READY_WAIT_MS
                        } else {
                            unchanged && a is Wait
                        },
                        EngineEvent::TimedOut => if i + 1 < old(self).sequence@.len() {
                            &&& final(self).phase == HandshakePhase::Greeting
                            &&& final(self).index == i + 1
                            &&& a matches HandshakeAction::Send { clear_output, lines, wait_ms }
                                && clear_output && lines.deep_view() == seq![old(self).protocols()[i + 1]]
                                && wait_ms == GREETING_WAIT_MS
                        } else {
                            &&& final(self).phase == HandshakePhase::Failed
                            &&& final(self).index == old(self).index
                            &&& a matches HandshakeAction::Failed { message } && message@
                                == HANDSHAKE_FAILED@
                        },
                        EngineEvent::Closed => {
                            &&& final(self).phase == HandshakePhase::Failed
                            &&& final(self).index == old(self).index
                            &&& a matches HandshakeAction::Failed { message } && message@
                                == HANDSHAKE_FAILED@
                        },
                    },
                    HandshakePhase::Readying => match event {
                        EngineEvent::Line(l) => if contains_seq(l@, "readyok"@) {
                            &&& final(self).phase == HandshakePhase::Ready
                            &&& final(self).index == old(self).index
                            &&& a matches HandshakeAction::Ready { protocol } && protocol@ == p
                        } else {
                            unchanged && a is Wait
                        },
                        _ => {
                            &&& final(self).phase == HandshakePhase::Failed
                            &&& final(self).index == old(self).index
                            &&& a matches HandshakeAction::Failed { message } && message@
                                == READY_TIMEOUT@
                        },
                    },
                    _ => unchanged && a is Wait,
                }
            }),
    {
        let i = self.index;
        let p: &'static str = self.sequence[i];
        match self.phase {
            HandshakePhase::Greeting => match event {
                EngineEvent::Line(l) => {
                    let lc = chars_of(l.as_str());
                    let is_uci = crate::text::str_eq(p, "uci");
                    let reply: &'static str = if is_uci { "uciok" } else { "ucciok" };
                    proof {
                        reveal_strlit("uci");
                        reveal_strlit("ucci");
                        reveal_strlit("uciok");
                        reveal_strlit("ucciok");
                        reveal_strlit("ok");
                        assert(reply@ =~= greeting_reply(p@));
                    }
                    if crate::text::contains_str(lc.as_slice(), reply) {
                        self.phase = HandshakePhase::Readying;
                        let lines = crate::engine_info::clone_strings(&self.setup);
                        HandshakeAction::Confirmed { protocol: p, lines, wait_ms: READY_WAIT_MS }
                    } else {
                        HandshakeAction::Wait
                    }
                },
                EngineEvent::TimedOut => {
                    if i < self.sequence.len() - 1 {
                        self.index = i + 1;
                        let next = String::from_str(self.sequence[i + 1]);
                        let lines = vec![next];
                        assert(lines.deep_view() =~= seq![self.protocols()[i + 1]]);
                        HandshakeAction::Send { clear_output: true, lines, wait_ms: GREETING_WAIT_MS }
                    } else {
                        self.phase = HandshakePhase::Failed;
                        HandshakeAction::Failed { message: String::from_str(HANDSHAKE_FAILED) }
                    }
                },
                EngineEvent::Closed => {
                    self.phase = HandshakePhase::Failed;
                    HandshakeAction::Failed { message: String::from_str(HANDSHAKE_FAILED) }
                },
            },
            HandshakePhase::Readying => match event {
                EngineEvent::Line(l) => {
                    let lc = chars_of(l.as_str());
                    if crate::text::contains_str(lc.as_slice(), "readyok") {
                        self.phase = HandshakePhase::Ready;
                        HandshakeAction::Ready { protocol: p }
                    } else {
                        HandshakeAction::Wait
                    }
                },
                _ => {
                    self.phase = HandshakePhase::Failed;
                    HandshakeAction::Failed { message: String::from_str(READY_TIMEOUT) }
                },
            },
            _ => HandshakeAction::Wait,
        }
    }
}

} // verus!
