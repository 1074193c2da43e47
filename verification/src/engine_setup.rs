use vstd::prelude::*;

use crate::text::{
    ascii_lower, chars_eq, chars_of, decimal, is_prefix, lower, push_char, push_decimal_i64,
    push_str, string_from_chars, trim, trim_chars,
};

verus! {

/// The path with surrounding whitespace removed and, when it is wrapped in a
/// matching pair of `"` or `'`, the quotes and the whitespace inside them removed.
pub open spec fn sanitized_path(raw: Seq<char>) -> Seq<char> {
    let s = trim(raw);
    if s.len() >= 2 && ((s[0] == '"' && s.last() == '"') || (s[0] == '\'' && s.last() == '\'')) {
        trim(s.subrange(1, s.len() - 1))
    } else {
        s
    }
}

/// Cleans a user-typed engine path; `None` when nothing is left.
pub fn sanitize_engine_path(raw: &str) -> (r: Option<String>)
    ensures
        r is None <==> sanitized_path(raw@).len() == 0,
        r matches Some(p) ==> p@ == sanitized_path(raw@),
{
    let v = chars_of(raw);
    let s = sanitize_chars(v.as_slice());
    if s.len() == 0 {
        None
    } else {
        Some(string_from_chars(s.as_slice()))
    }
}

fn sanitize_chars(v: &[char]) -> (r: Vec<char>)
    ensures
        r@ == sanitized_path(v@),
{
    let s = trim_chars(v);
    let n = s.len();
    if n >= 2 && ((s[0] == '"' && s[n - 1] == '"') || (s[0] == '\'' && s[n - 1] == '\'')) {
        let mut inner: Vec<char> = Vec::new();
        let mut i: usize = 1;
        while i < n - 1
            invariant
                n == s@.len(),
                n >= 2,
                1 <= i <= n - 1,
                inner@ == s@.subrange(1, i as int),
            decreases n - 1 - i,
        {
            inner.push(s[i]);
            i = i + 1;
            assert(inner@ =~= s@.subrange(1, i as int));
        }
        trim_chars(inner.as_slice())
    } else {
        s
    }
}

/// Path separators unified to `\`.
pub open spec fn backslashed(c: char) -> char {
    if c == '/' {
        '\\'
    } else {
        c
    }
}

/// `s` without trailing `\` characters.
pub open spec fn trim_trailing_backslashes(s: Seq<char>) -> Seq<char>
    decreases s.len(),
{
    if s.len() > 0 && s.last() == '\\' {
        trim_trailing_backslashes(s.drop_last())
    } else {
        s
    }
}

/// The form in which two engine paths are compared: sanitized, `/` turned
/// into `\`, ASCII-lowercased, trailing `\` removed (Windows path rules).
pub open spec fn path_compare_form(raw: Seq<char>) -> Seq<char> {
    let s = sanitized_path(raw);
    trim_trailing_backslashes(Seq::new(s.len(), |i: int| ascii_lower(backslashed(s[i]))))
}

/// The comparison form of an engine path; `None` for an empty path.
pub fn normalize_engine_path_for_compare(raw: &str) -> (r: Option<String>)
    ensures
        r is None <==> sanitized_path(raw@).len() == 0,
        r matches Some(p) ==> p@ == path_compare_form(raw@),
{
    let v = chars_of(raw);
    let s = sanitize_chars(v.as_slice());
    if s.len() == 0 {
        return None;
    }
    let t = normalize_chars(s.as_slice());
    Some(string_from_chars(t.as_slice()))
}

fn normalize_chars(s: &[char]) -> (r: Vec<char>)
    ensures
        r@ == trim_trailing_backslashes(Seq::new(s@.len(), |i: int| ascii_lower(backslashed(s@[i])))),
{
    let ghost target = Seq::new(s@.len(), |i: int| ascii_lower(backslashed(s@[i])));
    let mut t: Vec<char> = Vec::new();
    let mut i: usize = 0;
    while i < s.len()
        invariant
            i <= s@.len(),
            target == Seq::new(s@.len(), |i: int| ascii_lower(backslashed(s@[i]))),
            t@ == target.take(i as int),
        decreases s.len() - i,
    {
        let c = if s[i] == '/' { '\\' } else { s[i] };
        t.push(crate::text::char_lower(c));
        i = i + 1;
        assert(t@ =~= target.take(i as int));
    }
    assert(target.take(s@.len() as int) =~= target);
    while t.len() > 0 && t[t.len() - 1] == '\\'
        invariant
            trim_trailing_backslashes(target) == trim_trailing_backslashes(t@),
        decreases t.len(),
    {
        t.pop();
    }
    t
}

/// Two paths name the same engine when both are nonempty and their comparison forms agree.
pub fn same_engine_path(a: &str, b: &str) -> (r: bool)
    ensures
        r == (sanitized_path(a@).len() > 0 && sanitized_path(b@).len() > 0 && path_compare_form(a@)
            == path_compare_form(b@)),
{
    match (normalize_engine_path_for_compare(a), normalize_engine_path_for_compare(b)) {
        (Some(x), Some(y)) => {
            let xv = chars_of(x.as_str());
            let yv = chars_of(y.as_str());
            chars_eq(xv.as_slice(), yv.as_slice())
        },
        _ => false,
    }
}

/// Some character is outside ASCII.
pub fn has_non_ascii(s: &str) -> (r: bool)
    ensures
        r == !vstd::string::is_ascii(s),
{
    !s.is_ascii()
}

/// Protocols to try in the handshake, in order, for a preference and an
/// optional protocol remembered for this engine path.
pub open spec fn spec_handshake_sequence(pref: Seq<char>, hint: Option<Seq<char>>) -> Seq<Seq<char>> {
    if pref == "uci_only"@ {
        seq!["uci"@]
    } else if pref == "ucci_only"@ {
        seq!["ucci"@]
    } else if pref == "prefer_uci"@ {
        if hint == Some("ucci"@) {
            seq!["ucci"@, "uci"@]
        } else {
            seq!["uci"@, "ucci"@]
        }
    } else {
        if hint == Some("uci"@) {
            seq!["uci"@, "ucci"@]
        } else {
            seq!["ucci"@, "uci"@]
        }
    }
}

/// The handshake tries one protocol when the preference says `uci_only` or
/// `ucci_only`, else both, each once: UCI first under `prefer_uci` and UCCI
/// first otherwise, unless the protocol remembered for the engine is the
/// other one, which then goes first.
pub proof fn lemma_handshake_order(pref: Seq<char>, hint: Option<Seq<char>>)
    ensures
        ({
            let q = spec_handshake_sequence(pref, hint);
            let first: Seq<char> = if pref == "prefer_uci"@ {
                if hint == Some("ucci"@) { "ucci"@ } else { "uci"@ }
            } else {
                if hint == Some("uci"@) { "uci"@ } else { "ucci"@ }
            };
            &&& pref == "uci_only"@ ==> q == seq!["uci"@]
            &&& pref == "ucci_only"@ && pref != "uci_only"@ ==> q == seq!["ucci"@]
            &&& pref != "uci_only"@ && pref != "ucci_only"@ ==> {
                &&& q.len() == 2
                &&& q[0] == first
                &&& q.contains("uci"@) && q.contains("ucci"@)
            }
        }),
{
    let q = spec_handshake_sequence(pref, hint);
    if pref != "uci_only"@ && pref != "ucci_only"@ {
        assert(q[0] == "uci"@ || q[1] == "uci"@);
        assert(q[0] == "ucci"@ || q[1] == "ucci"@);
    }
}

/// Protocols to try in the handshake (`uci` / `ucci`), in order.
pub fn handshake_protocol_sequence(pref: &str, hint: Option<&str>) -> (r: Vec<&'static str>)
    ensures
        Seq::new(r@.len(), |i: int| r@[i]@) == spec_handshake_sequence(
            pref@,
            match hint {
                Some(h) => Some(h@),
                None => None,
            },
        ),
{
    let hint_uci = match hint {
        Some(h) => crate::text::str_eq(h, "uci"),
        None => false,
    };
    let hint_ucci = match hint {
        Some(h) => crate::text::str_eq(h, "ucci"),
        None => false,
    };
    let r: Vec<&'static str> = if crate::text::str_eq(pref, "uci_only") {
        vec!["uci"]
    } else if crate::text::str_eq(pref, "ucci_only") {
        vec!["ucci"]
    } else if crate::text::str_eq(pref, "prefer_uci") {
        if hint_ucci {
            vec!["ucci", "uci"]
        } else {
            vec!["uci", "ucci"]
        }
    } else {
        if hint_uci {
            vec!["uci", "ucci"]
        } else {
            vec!["ucci", "uci"]
        }
    };
    assert(Seq::new(r@.len(), |i: int| r@[i]@) =~= spec_handshake_sequence(
        pref@,
        match hint {
            Some(h) => Some(h@),
            None => None,
        },
    ));
    r
}

/// Text protocol variant used for the engine handshake.
pub trait EngineProtocol {
    /// Command that starts the handshake.
    fn init_command(&self) -> &'static str;

    /// Output word that means the handshake succeeded.
    fn handshake_done_token(&self) -> &'static str;

    /// Name recorded for the protocol (`uci` / `ucci`).
    fn protocol_id(&self) -> &'static str;
}

/// The UCI protocol.
#[derive(Debug, Clone, Copy, Default)]
pub struct Uci;

/// The UCCI protocol.
#[derive(Debug, Clone, Copy, Default)]
pub struct Ucci;

impl EngineProtocol for Uci {
    fn init_command(&self) -> (r: &'static str)
        ensures
            r@ == "uci"@,
    {
        "uci"
    }

    fn handshake_done_token(&self) -> (r: &'static str)
        ensures
            r@ == "uciok"@,
    {
        "uciok"
    }

    fn protocol_id(&self) -> (r: &'static str)
        ensures
            r@ == "uci"@,
    {
        "uci"
    }
}

impl EngineProtocol for Ucci {
    fn init_command(&self) -> (r: &'static str)
        ensures
            r@ == "ucci"@,
    {
        "ucci"
    }

    fn handshake_done_token(&self) -> (r: &'static str)
        ensures
            r@ == "ucciok"@,
    {
        "ucciok"
    }

    fn protocol_id(&self) -> (r: &'static str)
        ensures
            r@ == "ucci"@,
    {
        "ucci"
    }
}

/// The move as shown to the user (the engine notation is kept as it is).
pub fn move_human_from_fen(fen: &str, uci: &str) -> (r: String)
    ensures
        r@ == uci@,
{
    String::from_str(uci)
}

/// The side to move in a FEN is red when its second word is `w`, `W`, `r`
/// or `R`, or when the FEN has no second word.
pub open spec fn spec_side_to_move_is_red(fen: Seq<char>) -> bool {
    let words = crate::text::split_ws(fen);
    if words.len() < 2 {
        true
    } else {
        words[1] == "w"@ || words[1] == "W"@ || words[1] == "r"@ || words[1] == "R"@
    }
}

/// Whether red is to move in `fen`.
pub fn side_to_move_is_red(fen: &str) -> (r: bool)
    ensures
        r == spec_side_to_move_is_red(fen@),
{
    let v = chars_of(fen);
    let words = crate::text::split_whitespace_chars(v.as_slice());
    if words.len() < 2 {
        return true;
    }
    assert(words@[1]@ =~= words.deep_view()[1]);
    let w = &words[1];
    proof {
        reveal_strlit("w");
        reveal_strlit("W");
        reveal_strlit("r");
        reveal_strlit("R");
        assert("w"@ =~= seq!['w']);
        assert("W"@ =~= seq!['W']);
        assert("r"@ =~= seq!['r']);
        assert("R"@ =~= seq!['R']);
        if w@.len() == 1 {
            assert(w@ =~= seq![w@[0]]);
        }
    }
    w.len() == 1 && (w[0] == 'w' || w[0] == 'W' || w[0] == 'r' || w[0] == 'R')
}

/// Options sent to the engine, as set from the settings page.
pub struct EngineConfigureRequest {
    pub engine_path: Option<String>,
    pub threads: Option<i32>,
    pub hash_mb: Option<i32>,
    pub repetition_rule: Option<String>,
    pub draw_rule: Option<String>,
    pub skill_level: Option<i32>,
    pub engine_protocol_preference: Option<String>,
    pub engine_config_path: Option<String>,
    pub protocol_detected_for_path: Option<String>,
    pub protocol_detected: Option<String>,
}

/// One search request.
pub struct EngineAnalyzeRequest<'a> {
    pub fen: &'a str,
    pub depth: Option<i32>,
    pub movetime_ms: Option<i32>,
    pub search_moves: Option<&'a [String]>,
    pub search_nodes: Option<i32>,
    pub multipv_override: Option<i32>,
}

/// The engine options kept between searches (everything but the process itself).
pub struct EngineSettings {
    pub engine_path: Option<String>,
    pub threads: i32,
    pub hash_mb: i32,
    pub repetition_rule: String,
    pub draw_rule: String,
    pub skill_level: i32,
    /// `auto` (UCCI first) | `prefer_ucci` | `prefer_uci` | `uci_only` | `ucci_only`
    pub protocol_preference: String,
    pub engine_config_path: Option<String>,
    pub handshake_protocol_hint: Option<String>,
}

pub open spec fn opt_view(o: Option<String>) -> Option<Seq<char>> {
    match o {
        Some(s) => Some(s@),
        None => None,
    }
}

/// A known protocol preference in its canonical form, or `None`.
pub open spec fn normalized_preference(p: Seq<char>) -> Option<Seq<char>> {
    let q = lower(trim(p));
    if q == "auto"@ || q == "uci_only"@ || q == "ucci_only"@ || q == "prefer_ucci"@ || q
        == "prefer_uci"@ {
        Some(q)
    } else {
        None
    }
}

pub open spec fn clamp(v: int, lo: int, hi: int) -> int {
    if v < lo {
        lo
    } else if v > hi {
        hi
    } else {
        v
    }
}

impl EngineSettings {
    /// Defaults: 8 threads, 512 MB hash, `AsianRule`, draw rule `None`, skill 20, protocol `auto`.
    pub fn new(default_path: Option<String>) -> (r: EngineSettings)
        ensures
            opt_view(r.engine_path) == opt_view(default_path),
            r.threads == 8,
            r.hash_mb == 512,
            r.repetition_rule@ == "AsianRule"@,
            r.draw_rule@ == "None"@,
            r.skill_level == 20,
            r.protocol_preference@ == "auto"@,
            r.engine_config_path is None,
            r.handshake_protocol_hint is None,
    {
        EngineSettings {
            engine_path: default_path,
            threads: 8,
            hash_mb: 512,
            repetition_rule: String::from_str("AsianRule"),
            draw_rule: String::from_str("None"),
            skill_level: 20,
            protocol_preference: String::from_str("auto"),
            engine_config_path: None,
            handshake_protocol_hint: None,
        }
    }

    /// Applies a settings request. A given path is sanitized; the protocol
    /// remembered for a path is used as a hint only when that path is the
    /// engine's path and the protocol is `uci` or `ucci`; counts are bounded
    /// (threads at least 1, hash at least 16, skill within 0..=20); empty rule
    /// names and unknown preferences leave the old value.
    pub fn configure(&mut self, req: EngineConfigureRequest)
        ensures
            opt_view(final(self).engine_path) == match req.engine_path {
                Some(p) => if sanitized_path(p@).len() == 0 { None } else { Some(sanitized_path(p@)) },
                None => opt_view(old(self).engine_path),
            },
            opt_view(final(self).engine_config_path) == opt_view(req.engine_config_path),
            opt_view(final(self).handshake_protocol_hint) == match (
                req.protocol_detected_for_path,
                req.protocol_detected,
                final(self).engine_path,
            ) {
                (Some(path), Some(proto), Some(ep)) => if sanitized_path(ep@).len() > 0
                    && sanitized_path(path@).len() > 0 && path_compare_form(ep@) == path_compare_form(
                    path@,
                ) && (proto@ == "uci"@ || proto@ == "ucci"@) {
                    Some(proto@)
                } else {
                    None
                },
                _ => None,
            },
            final(self).threads == match req.threads {
                Some(t) => if t < 1 { 1 } else { t },
                None => old(self).threads,
            },
            final(self).hash_mb == match req.hash_mb {
                Some(h) => if h < 16 { 16 } else { h },
                None => old(self).hash_mb,
            },
            final(self).repetition_rule@ == match req.repetition_rule {
                Some(r) => if r@.len() > 0 { r@ } else { old(self).repetition_rule@ },
                None => old(self).repetition_rule@,
            },
            final(self).draw_rule@ == match req.draw_rule {
                Some(d) => if d@.len() > 0 { d@ } else { old(self).draw_rule@ },
                None => old(self).draw_rule@,
            },
            final(self).skill_level as int == match req.skill_level {
                Some(s) => clamp(s as int, 0, 20),
                None => old(self).skill_level as int,
            },
            final(self).protocol_preference@ == match req.engine_protocol_preference {
                Some(p) => match normalized_preference(p@) {
                    Some(q) => q,
                    None => old(self).protocol_preference@,
                },
                None => old(self).protocol_preference@,
            },
    {
        if let Some(p) = req.engine_path {
            self.engine_path = sanitize_engine_path(p.as_str());
        }
        self.engine_config_path = req.engine_config_path;
        let hint = match (req.protocol_detected_for_path, req.protocol_detected) {
            (Some(path), Some(proto)) => {
                let same = match &self.engine_path {
                    Some(ep) => same_engine_path(ep.as_str(), path.as_str()),
                    None => false,
                };
                if same && (crate::text::str_eq(proto.as_str(), "uci") || crate::text::str_eq(
                    proto.as_str(),
                    "ucci",
                )) {
                    Some(proto)
                } else {
                    None
                }
            },
            _ => None,
        };
        self.handshake_protocol_hint = hint;
        if let Some(t) = req.threads {
            self.threads = if t < 1 { 1 } else { t };
        }
        if let Some(h) = req.hash_mb {
            self.hash_mb = if h < 16 { 16 } else { h };
        }
        if let Some(r) = req.repetition_rule {
            if r.as_str().unicode_len() > 0 {
                self.repetition_rule = r;
            }
        }
        if let Some(d) = req.draw_rule {
            if d.as_str().unicode_len() > 0 {
                self.draw_rule = d;
            }
        }
        if let Some(s) = req.skill_level {
            self.skill_level = if s < 0 { 0 } else if s > 20 { 20 } else { s };
        }
        if let Some(p) = req.engine_protocol_preference {
            let raw = chars_of(p.as_str());
            let t = trim_chars(raw.as_slice());
            let q = crate::text::lower_chars(t.as_slice());
            let qs = string_from_chars(q.as_slice());
            let known = crate::text::str_eq(qs.as_str(), "auto") || crate::text::str_eq(qs.as_str(), "uci_only")
                || crate::text::str_eq(qs.as_str(), "ucci_only") || crate::text::str_eq(
                qs.as_str(),
                "prefer_ucci",
            ) || crate::text::str_eq(qs.as_str(), "prefer_uci");
            if known {
                self.protocol_preference = qs;
            }
        }
    }
}

/// `setoption name MultiPV value <n>`.
pub fn multipv_command(n: i32) -> (r: String)
    ensures
        r@ == "setoption name MultiPV value "@ + decimal(n as int),
{
    let mut s = String::from_str("setoption name MultiPV value ");
    push_decimal_i64(&mut s, n as i64);
    s
}

/// `position fen <fen>` for the trimmed FEN, or `position startpos` when it is empty.
pub fn position_command(fen: &str) -> (r: String)
    ensures
        r@ == if trim(fen@).len() > 0 { "position fen "@ + trim(fen@) } else { "position startpos"@ },
{
    let t = crate::text::trim_str(fen);
    if t.as_str().unicode_len() > 0 {
        let mut s = String::from_str("position fen ");
        push_str(&mut s, t.as_str());
        s
    } else {
        String::from_str("position startpos")
    }
}

/// Trimmed, nonempty moves of `moves`, in order.
pub open spec fn search_move_list(moves: Seq<Seq<char>>) -> Seq<Seq<char>>
    decreases moves.len(),
{
    if moves.len() == 0 {
        Seq::empty()
    } else if trim(moves.last()).len() > 0 {
        search_move_list(moves.drop_last()).push(trim(moves.last()))
    } else {
        search_move_list(moves.drop_last())
    }
}

/// The words of `ws` joined by single spaces.
pub open spec fn join_spaced(ws: Seq<Seq<char>>) -> Seq<char>
    decreases ws.len(),
{
    if ws.len() == 0 {
        Seq::empty()
    } else if ws.len() == 1 {
        ws[0]
    } else {
        join_spaced(ws.drop_last()) + " "@ + ws.last()
    }
}

/// ` searchmoves m1 m2 ...` when moves are given, else nothing.
pub open spec fn search_moves_suffix(moves: Option<Seq<Seq<char>>>) -> Seq<char> {
    match moves {
        Some(m) => if search_move_list(m).len() > 0 {
            " searchmoves "@ + join_spaced(search_move_list(m))
        } else {
            Seq::empty()
        },
        None => Seq::empty(),
    }
}

/// The `go` command of a search: a positive move time wins, then a positive
/// node count, else a depth (8 when none is given, at least 1).
pub open spec fn spec_go_command(
    depth: Option<i32>,
    movetime_ms: Option<i32>,
    search_nodes: Option<i32>,
    moves: Option<Seq<Seq<char>>>,
) -> Seq<char> {
    let suffix = search_moves_suffix(moves);
    match movetime_ms {
        Some(mt) if mt > 0 => "go movetime "@ + decimal(mt as int) + suffix,
        _ => match search_nodes {
            Some(n) if n > 0 => "go nodes "@ + decimal(n as int) + suffix,
            _ => {
                let d = match depth {
                    Some(d) => d as int,
                    None => 8,
                };
                "go depth "@ + decimal(if d < 1 { 1 } else { d }) + suffix
            },
        },
    }
}

/// What a search is asked to do: a positive move time wins; else a positive
/// node count; else the depth asked for (a depth below 1 counts as 1), and
/// depth 8 only when no depth is given. Any listed moves follow as
/// ` searchmoves ...`.
pub proof fn lemma_go_command_limits(
    depth: Option<i32>,
    movetime_ms: Option<i32>,
    search_nodes: Option<i32>,
    moves: Option<Seq<Seq<char>>>,
)
    ensures
        ({
            let cmd = spec_go_command(depth, movetime_ms, search_nodes, moves);
            let suffix = search_moves_suffix(moves);
            let timed = movetime_ms is Some && movetime_ms->0 > 0;
            let counted = search_nodes is Some && search_nodes->0 > 0;
            &&& timed ==> cmd == "go movetime "@ + decimal(movetime_ms->0 as int) + suffix
            &&& !timed && counted ==> cmd == "go nodes "@ + decimal(search_nodes->0 as int) + suffix
            &&& !timed && !counted && depth is Some && depth->0 >= 1 ==> cmd == "go depth "@ + decimal(
                depth->0 as int,
            ) + suffix
            &&& !timed && !counted && depth is Some && depth->0 < 1 ==> cmd == "go depth "@ + decimal(1)
                + suffix
            &&& !timed && !counted && depth is None ==> cmd == "go depth "@ + decimal(8) + suffix
            &&& moves is None ==> suffix.len() == 0
        }),
{
}

fn searchmoves_suffix(moves: Option<&[String]>) -> (r: String)
    ensures
        r@ == search_moves_suffix(
            match moves {
                Some(m) => Some(m.deep_view()),
                None => None,
            },
        ),
{
    let m = match moves {
        Some(m) => m,
        None => return String::new(),
    };
    let mut list: Vec<String> = Vec::new();
    let mut i: usize = 0;
    while i < m.len()
        invariant
            i <= m@.len(),
            list.deep_view() == search_move_list(m.deep_view().take(i as int)),
        decreases m.len() - i,
    {
        assert(m.deep_view().take(i as int + 1).drop_last() =~= m.deep_view().take(i as int));
        let t = crate::text::trim_str(m[i].as_str());
        if t.as_str().unicode_len() > 0 {
            let ghost old_list = list.deep_view();
            let ghost tv = t@;
            list.push(t);
            assert(list.deep_view() =~= old_list.push(tv));
        }
        i = i + 1;
    }
    assert(m.deep_view().take(m@.len() as int) =~= m.deep_view());
    if list.len() == 0 {
        return String::new();
    }
    let mut s = String::from_str(" searchmoves ");
    let ghost prefix = s@;
    let mut j: usize = 0;
    while j < list.len()
        invariant
            j <= list@.len(),
            prefix == " searchmoves "@,
            s@ == prefix + join_spaced(list.deep_view().take(j as int)),
        decreases list.len() - j,
    {
        assert(list.deep_view().take(j as int + 1).drop_last() =~= list.deep_view().take(j as int));
        if j > 0 {
            push_str(&mut s, " ");
        }
        push_str(&mut s, list[j].as_str());
        proof {
            if j == 0 {
                assert(join_spaced(list.deep_view().take(1)) == list.deep_view()[0]);
                assert(join_spaced(list.deep_view().take(0)) =~= Seq::<char>::empty());
            }
        }
        assert(s@ =~= prefix + join_spaced(list.deep_view().take(j as int + 1)));
        j = j + 1;
    }
    assert(list.deep_view().take(list@.len() as int) =~= list.deep_view());
    s
}

/// The `go` command for a search request.
pub fn go_command(
    depth: Option<i32>,
    movetime_ms: Option<i32>,
    search_nodes: Option<i32>,
    search_moves: Option<&[String]>,
) -> (r: String)
    ensures
        r@ == spec_go_command(
            depth,
            movetime_ms,
            search_nodes,
            match search_moves {
                Some(m) => Some(m.deep_view()),
                None => None,
            },
        ),
{
    let suffix = searchmoves_suffix(search_moves);
    let mut s: String;
    match movetime_ms {
        Some(mt) if mt > 0 => {
            s = String::from_str("go movetime ");
            push_decimal_i64(&mut s, mt as i64);
        },
        _ => match search_nodes {
            Some(n) if n > 0 => {
                s = String::from_str("go nodes ");
                push_decimal_i64(&mut s, n as i64);
            },
            _ => {
                let d: i32 = match depth {
                    Some(d) => d,
                    None => 8,
                };
                let d: i32 = if d < 1 { 1 } else { d };
                s = String::from_str("go depth ");
                push_decimal_i64(&mut s, d as i64);
            },
        },
    }
    push_str(&mut s, suffix.as_str());
    s
}

/// The `setoption` commands sent after a successful handshake: threads, hash,
/// repetition rule, draw rule and skill level.
pub fn handshake_option_commands(settings: &EngineSettings) -> (r: Vec<String>)
    ensures
        r.deep_view() == seq![
            "setoption name Threads value "@ + decimal(settings.threads as int),
            "setoption name Hash value "@ + decimal(settings.hash_mb as int),
            "setoption name Repetition Rule value "@ + settings.repetition_rule@,
            "setoption name Draw Rule value "@ + settings.draw_rule@,
            "setoption name Skill Level value "@ + decimal(settings.skill_level as int),
        ],
{
    let mut r: Vec<String> = Vec::new();
    let mut a = String::from_str("setoption name Threads value ");
    push_decimal_i64(&mut a, settings.threads as i64);
    r.push(a);
    let mut b = String::from_str("setoption name Hash value ");
    push_decimal_i64(&mut b, settings.hash_mb as i64);
    r.push(b);
    let mut c = String::from_str("setoption name Repetition Rule value ");
    push_str(&mut c, settings.repetition_rule.as_str());
    r.push(c);
    let mut d = String::from_str("setoption name Draw Rule value ");
    push_str(&mut d, settings.draw_rule.as_str());
    r.push(d);
    let mut e = String::from_str("setoption name Skill Level value ");
    push_decimal_i64(&mut e, settings.skill_level as i64);
    r.push(e);
    assert(r.deep_view() =~= seq![
        "setoption name Threads value "@ + decimal(settings.threads as int),
        "setoption name Hash value "@ + decimal(settings.hash_mb as int),
        "setoption name Repetition Rule value "@ + settings.repetition_rule@,
        "setoption name Draw Rule value "@ + settings.draw_rule@,
        "setoption name Skill Level value "@ + decimal(settings.skill_level as int),
    ]);
    r
}

/// MultiPV used for an infinite search: the setting bounded to `1..=5`.
pub fn infinite_multipv(multi_pv: i32) -> (r: i32)
    ensures
        r as int == clamp(multi_pv as int, 1, 5),
{
    if multi_pv < 1 {
        1
    } else if multi_pv > 5 {
        5
    } else {
        multi_pv
    }
}

/// The search made for an AI move: depth 12, 500 ms, a single line.
pub fn autoplay_request(fen: &str) -> (r: EngineAnalyzeRequest<'_>)
    ensures
        r.fen == fen,
        r.depth == Some(12i32),
        r.movetime_ms == Some(500i32),
        r.search_moves is None,
        r.search_nodes is None,
        r.multipv_override == Some(1i32),
{
    EngineAnalyzeRequest {
        fen,
        depth: Some(12),
        movetime_ms: Some(500),
        search_moves: None,
        search_nodes: None,
        multipv_override: Some(1),
    }
}

} // verus!
