use vstd::prelude::*;

use crate::engine_setup::opt_view;
use crate::text::{chars_eq, chars_of, lower, lower_chars, owned, str_eq, string_from_chars, trim, trim_chars};

verus! {

/// Where opening moves come from and how one is picked.
#[derive(Debug)]
pub struct BookConfig {
    pub local_path: String,
    pub local_enabled: bool,
    pub cloud_enabled: bool,
    pub pick_mode: String,
    pub max_halfmoves: u16,
}

impl Default for BookConfig {
    fn default() -> (r: Self)
        ensures
            r.local_path@ == Seq::<char>::empty(),
            r.local_enabled,
            !r.cloud_enabled,
            r.pick_mode@ == "positive_random"@,
            r.max_halfmoves == 999,
    {
        BookConfig {
            local_path: String::new(),
            local_enabled: true,
            cloud_enabled: false,
            pick_mode: owned("positive_random"),
            max_halfmoves: 999,
        }
    }
}

impl BookConfig {
    /// A field-by-field copy.
    pub fn copy(&self) -> (r: BookConfig)
        ensures
            r.local_path@ == self.local_path@,
            r.local_enabled == self.local_enabled,
            r.cloud_enabled == self.cloud_enabled,
            r.pick_mode@ == self.pick_mode@,
            r.max_halfmoves == self.max_halfmoves,
    {
        BookConfig {
            local_path: self.local_path.clone(),
            local_enabled: self.local_enabled,
            cloud_enabled: self.cloud_enabled,
            pick_mode: self.pick_mode.clone(),
            max_halfmoves: self.max_halfmoves,
        }
    }
}

/// An exact number `num / den`, as book scores and win rates are read.
#[derive(Clone, Copy, Debug, PartialEq, Eq, Structural)]
pub struct Ratio {
    pub num: i64,
    pub den: u64,
}

impl Ratio {
    pub open spec fn wf(self) -> bool {
        0 < self.den
    }

    /// Whether `self` is smaller than `other` as numbers.
    pub open spec fn spec_less(self, other: Ratio) -> bool {
        self.num * other.den < other.num * self.den
    }

    /// Whether the two name the same number.
    pub open spec fn spec_same(self, other: Ratio) -> bool {
        self.num * other.den == other.num * self.den
    }

    /// The whole number `n`.
    pub fn whole(n: i64) -> (r: Ratio)
        ensures
            r.num == n,
            r.den == 1,
            r.wf(),
    {
        Ratio { num: n, den: 1 }
    }

    proof fn lemma_cross_bounds(self, other: Ratio)
        ensures
            -0x8000_0000_0000_0000_0000_0000_0000_0000 < self.num * other.den
                < 0x8000_0000_0000_0000_0000_0000_0000_0000,
            -0x8000_0000_0000_0000_0000_0000_0000_0000 < other.num * self.den
                < 0x8000_0000_0000_0000_0000_0000_0000_0000,
    {
        let a = self.num as int;
        let b = other.den as int;
        let c = other.num as int;
        let d = self.den as int;
        assert(-0x8000_0000_0000_0000_0000_0000_0000_0000 < a * b
            < 0x8000_0000_0000_0000_0000_0000_0000_0000) by (nonlinear_arith)
            requires
                -0x8000_0000_0000_0000 <= a < 0x8000_0000_0000_0000,
                0 <= b < 0x1_0000_0000_0000_0000,
        ;
        assert(-0x8000_0000_0000_0000_0000_0000_0000_0000 < c * d
            < 0x8000_0000_0000_0000_0000_0000_0000_0000) by (nonlinear_arith)
            requires
                -0x8000_0000_0000_0000 <= c < 0x8000_0000_0000_0000,
                0 <= d < 0x1_0000_0000_0000_0000,
        ;
    }

    /// Exact comparison: `self < other`.
    pub fn less(self, other: Ratio) -> (r: bool)
        ensures
            r == self.spec_less(other),
    {
        proof {
            self.lemma_cross_bounds(other);
        }
        (self.num as i128) * (other.den as i128) < (other.num as i128) * (self.den as i128)
    }

    /// Exact comparison: `self == other` as numbers.
    pub fn same(self, other: Ratio) -> (r: bool)
        ensures
            r == self.spec_same(other),
    {
        proof {
            self.lemma_cross_bounds(other);
        }
        (self.num as i128) * (other.den as i128) == (other.num as i128) * (self.den as i128)
    }
}

pub open spec fn opt_ratio_wf(r: Option<Ratio>) -> bool {
    match r {
        Some(x) => x.wf(),
        None => true,
    }
}

/// What a [`BookCandidate`] holds.
pub struct CandidateView {
    pub move_uci: Option<Seq<char>>,
    pub rank: Option<i64>,
    pub score: Option<Ratio>,
    pub winrate: Option<Ratio>,
    pub winrate_raw: Option<Seq<char>>,
}

impl CandidateView {
    pub open spec fn wf(self) -> bool {
        opt_ratio_wf(self.score) && opt_ratio_wf(self.winrate)
    }
}

/// One book move with its rank, score and win rate (in percent).
#[derive(Debug, Default)]
pub struct BookCandidate {
    pub move_uci: Option<String>,
    pub rank: Option<i64>,
    pub score: Option<Ratio>,
    pub winrate: Option<Ratio>,
    pub winrate_raw: Option<String>,
}

impl View for BookCandidate {
    type V = CandidateView;

    open spec fn view(&self) -> CandidateView {
        CandidateView {
            move_uci: opt_view(self.move_uci),
            rank: self.rank,
            score: self.score,
            winrate: self.winrate,
            winrate_raw: opt_view(self.winrate_raw),
        }
    }
}

/// A copy of an optional string.
pub fn clone_opt(o: &Option<String>) -> (r: Option<String>)
    ensures
        opt_view(r) == opt_view(*o),
{
    match o {
        Some(s) => Some(s.clone()),
        None => None,
    }
}

impl BookCandidate {
    /// A field-by-field copy.
    pub fn copy(&self) -> (r: BookCandidate)
        ensures
            r@ == self@,
    {
        BookCandidate {
            move_uci: clone_opt(&self.move_uci),
            rank: self.rank,
            score: self.score,
            winrate: self.winrate,
            winrate_raw: clone_opt(&self.winrate_raw),
        }
    }
}

/// Views of a list of candidates.
pub open spec fn cand_views(v: Seq<BookCandidate>) -> Seq<CandidateView> {
    Seq::new(v.len(), |i: int| v[i]@)
}

pub open spec fn all_wf(c: Seq<CandidateView>) -> bool {
    forall|i: int| 0 <= i < c.len() ==> #[trigger] c[i].wf()
}

/// What a [`BookResponse`] holds.
pub struct ResponseView {
    pub move_uci: Option<Seq<char>>,
    pub best_move: Option<Seq<char>>,
    pub best_winrate: Option<Ratio>,
    pub move_eval: Option<CandidateView>,
    pub candidates: Seq<CandidateView>,
    pub source: Seq<char>,
    pub error: Option<Seq<char>>,
}

/// The answer of a book: its moves, the move it suggests and, when a move was
/// asked about, that move's own line.
#[derive(Debug, Default)]
pub struct BookResponse {
    pub move_uci: Option<String>,
    pub best_move: Option<String>,
    pub best_winrate: Option<Ratio>,
    pub move_eval: Option<BookCandidate>,
    pub candidates: Vec<BookCandidate>,
    pub source: String,
    pub error: Option<String>,
}

pub open spec fn opt_cand_view(c: Option<BookCandidate>) -> Option<CandidateView> {
    match c {
        Some(x) => Some(x@),
        None => None,
    }
}

impl View for BookResponse {
    type V = ResponseView;

    open spec fn view(&self) -> ResponseView {
        ResponseView {
            move_uci: opt_view(self.move_uci),
            best_move: opt_view(self.best_move),
            best_winrate: self.best_winrate,
            move_eval: opt_cand_view(self.move_eval),
            candidates: cand_views(self.candidates@),
            source: self.source@,
            error: opt_view(self.error),
        }
    }
}

/// A response of `source` with nothing in it.
pub open spec fn empty_view(source: Seq<char>) -> ResponseView {
    ResponseView {
        move_uci: None,
        best_move: None,
        best_winrate: None,
        move_eval: None,
        candidates: Seq::empty(),
        source,
        error: None,
    }
}

impl BookResponse {
    /// An empty answer from `source`.
    pub fn empty(source: &str) -> (r: BookResponse)
        ensures
            r@ == empty_view(source@),
    {
        let r = BookResponse {
            move_uci: None,
            best_move: None,
            best_winrate: None,
            move_eval: None,
            candidates: Vec::new(),
            source: owned(source),
            error: None,
        };
        assert(r@.candidates =~= Seq::<CandidateView>::empty());
        r
    }

    /// An empty answer from `source` that reports `error`.
    pub fn failed(source: &str, error: &str) -> (r: BookResponse)
        ensures
            r@ == (ResponseView { error: Some(error@), ..empty_view(source@) }),
    {
        let mut r = BookResponse::empty(source);
        r.error = Some(owned(error));
        r
    }
}

/// The move asked about: the first four characters of the trimmed text.
pub open spec fn move_key(m: Option<Seq<char>>) -> Seq<char> {
    let t = trim(
        match m {
            Some(s) => s,
            None => Seq::empty(),
        },
    );
    if t.len() <= 4 {
        t
    } else {
        t.take(4)
    }
}

/// The first candidate whose move is `key`, searching from `i`.
pub open spec fn find_move_from(c: Seq<CandidateView>, key: Seq<char>, i: int) -> Option<CandidateView>
    decreases c.len() - i,
{
    if i < 0 || i >= c.len() {
        None
    } else if c[i].move_uci == Some(key) {
        Some(c[i])
    } else {
        find_move_from(c, key, i + 1)
    }
}

/// The answer built from ranked `cands`: the first one is the best move; when
/// a move is asked about, the answer names it and carries its line if the
/// book has it; else the answer names the best move.
pub open spec fn spec_with_move_eval(c: Seq<CandidateView>, move_uci: Option<Seq<char>>, source: Seq<char>) -> ResponseView {
    let key = move_key(move_uci);
    let best_move = if c.len() > 0 { c[0].move_uci } else { None };
    let best_winrate = if c.len() > 0 { c[0].winrate } else { None };
    ResponseView {
        move_uci: if key.len() == 0 { best_move } else { Some(key) },
        best_move,
        best_winrate,
        move_eval: if key.len() == 0 { None } else { find_move_from(c, key, 0) },
        candidates: c,
        source,
        error: None,
    }
}

/// First four characters of `v`, or all of them.
fn first_four(v: &[char]) -> (r: Vec<char>)
    ensures
        r@ == (if v@.len() <= 4 { v@ } else { v@.take(4) }),
{
    let mut r: Vec<char> = Vec::new();
    let mut i: usize = 0;
    while i < v.len() && i < 4
        invariant
            i <= v@.len(),
            i <= 4,
            r@ == v@.take(i as int),
        decreases v.len() - i,
    {
        r.push(v[i]);
        i = i + 1;
        assert(r@ =~= v@.take(i as int));
    }
    assert(v@.len() <= 4 ==> v@.take(v@.len() as int) =~= v@);
    r
}

/// The move asked about, as [`move_key`] gives it.
pub fn move_key_of(m: &Option<String>) -> (r: String)
    ensures
        r@ == move_key(opt_view(*m)),
{
    let v: Vec<char> = match m {
        Some(s) => chars_of(s.as_str()),
        None => Vec::new(),
    };
    assert(v@ == match opt_view(*m) {
        Some(s) => s,
        None => Seq::<char>::empty(),
    });
    let t = trim_chars(v.as_slice());
    let k = first_four(t.as_slice());
    string_from_chars(k.as_slice())
}

/// The first candidate whose move is `key`, copied.
pub(crate) fn find_move(c: &Vec<BookCandidate>, key: &str) -> (r: Option<BookCandidate>)
    ensures
        opt_cand_view(r) == find_move_from(cand_views(c@), key@, 0),
{
    let ghost cv = cand_views(c@);
    let mut i: usize = 0;
    while i < c.len()
        invariant
            cv == cand_views(c@),
            i <= c@.len(),
            find_move_from(cv, key@, 0) == find_move_from(cv, key@, i as int),
        decreases c.len() - i,
    {
        let hit = match &c[i].move_uci {
            Some(m) => str_eq(m.as_str(), key),
            None => false,
        };
        if hit {
            return Some(c[i].copy());
        }
        i = i + 1;
    }
    None
}

/// The first candidate's move and win rate.
fn first_move_and_rate(c: &Vec<BookCandidate>) -> (r: (Option<String>, Option<Ratio>))
    ensures
        opt_view(r.0) == (if c@.len() > 0 { cand_views(c@)[0].move_uci } else { None }),
        r.1 == (if c@.len() > 0 { cand_views(c@)[0].winrate } else { None }),
{
    if c.len() > 0 {
        (clone_opt(&c[0].move_uci), c[0].winrate)
    } else {
        (None, None)
    }
}

impl BookResponse {
    /// The answer built from ranked candidates and the move asked about.
    pub fn with_move_eval(candidates: Vec<BookCandidate>, move_uci: Option<String>, source: &str) -> (r: BookResponse)
        ensures
            r@ == spec_with_move_eval(cand_views(candidates@), opt_view(move_uci), source@),
    {
        let key = move_key_of(&move_uci);
        let (best_move, best_winrate) = first_move_and_rate(&candidates);
        if key.as_str().unicode_len() == 0 {
            let mv = clone_opt(&best_move);
            return BookResponse {
                move_uci: mv,
                best_move,
                best_winrate,
                move_eval: None,
                candidates,
                source: owned(source),
                error: None,
            };
        }
        let move_eval = find_move(&candidates, key.as_str());
        BookResponse {
            move_uci: Some(key),
            best_move,
            best_winrate,
            move_eval,
            candidates,
            source: owned(source),
            error: None,
        }
    }
}

/// The answer marked as coming from `source`, its best move filled from the
/// move it names when it had none.
pub open spec fn spec_unified_shape(r: ResponseView, source: Seq<char>) -> ResponseView {
    ResponseView {
        source,
        best_move: if r.best_move is None { r.move_uci } else { r.best_move },
        ..r
    }
}

/// Marks `response` as coming from `source` and fills its best move.
pub fn ensure_unified_opening_book_shape(response: BookResponse, source: &str) -> (r: BookResponse)
    ensures
        r@ == spec_unified_shape(response@, source@),
{
    let mut response = response;
    response.source = owned(source);
    if response.best_move.is_none() {
        response.best_move = clone_opt(&response.move_uci);
    }
    response
}


/// A candidate that looks good for the side to move: a positive score, or a
/// win rate above one half (a percentage above 50, or a fraction above 0.5 and
/// at most 1).
pub open spec fn candidate_positive(c: CandidateView) -> bool {
    ||| (c.score matches Some(s) && s.num > 0)
    ||| (c.winrate matches Some(w) && (w.num > 50 * w.den || (2 * w.num > w.den && w.num <= w.den)))
}

/// Indices below `n` of the positive candidates, in order.
pub open spec fn positive_indices(c: Seq<CandidateView>, n: int) -> Seq<int>
    decreases n,
{
    if n <= 0 {
        Seq::empty()
    } else if candidate_positive(c[n - 1]) {
        positive_indices(c, n - 1).push(n - 1)
    } else {
        positive_indices(c, n - 1)
    }
}

/// The candidates a pick is drawn from: the positive ones, or all when none is.
pub open spec fn pick_pool(c: Seq<CandidateView>) -> Seq<int> {
    if positive_indices(c, c.len() as int).len() > 0 {
        positive_indices(c, c.len() as int)
    } else {
        Seq::new(c.len(), |i: int| i)
    }
}

proof fn lemma_positive_indices(c: Seq<CandidateView>, n: int)
    requires
        0 <= n <= c.len(),
    ensures
        forall|k: int|
            0 <= k < positive_indices(c, n).len() ==> 0 <= #[trigger] positive_indices(c, n)[k] < n
                && candidate_positive(c[positive_indices(c, n)[k]]),
        (exists|i: int| 0 <= i < n && candidate_positive(#[trigger] c[i])) ==> positive_indices(c, n).len() > 0,
    decreases n,
{
    if n > 0 {
        lemma_positive_indices(c, n - 1);
        if !candidate_positive(c[n - 1]) {
            if exists|i: int| 0 <= i < n && candidate_positive(#[trigger] c[i]) {
                let i = choose|i: int| 0 <= i < n && candidate_positive(#[trigger] c[i]);
                assert(i < n - 1);
            }
        }
    }
}

/// A random pick draws a move that looks good for the side to move whenever
/// the book has one: every entry of the pool then names a positive
/// candidate; and every entry names some candidate.
pub proof fn lemma_pick_pool_positive(c: Seq<CandidateView>)
    ensures
        forall|k: int| 0 <= k < pick_pool(c).len() ==> 0 <= #[trigger] pick_pool(c)[k] < c.len(),
        (exists|i: int| 0 <= i < c.len() && candidate_positive(#[trigger] c[i])) ==> forall|k: int|
            0 <= k < pick_pool(c).len() ==> candidate_positive(c[#[trigger] pick_pool(c)[k]]),
{
    lemma_positive_indices(c, c.len() as int);
}

/// Whether the pick mode draws a move: only for a plain query (no move asked
/// about), with candidates, in the mode `positive_random`.
pub open spec fn pick_applies(r: ResponseView, mode: Seq<char>, for_move_eval: bool) -> bool {
    !for_move_eval && r.candidates.len() > 0 && mode == "positive_random"@
}

/// The answer after drawing entry `index` of the pool: it names the drawn
/// candidate's move as the move to play and its win rate as the best one.
pub open spec fn spec_apply_pick(r: ResponseView, mode: Seq<char>, for_move_eval: bool, index: int) -> ResponseView {
    if !pick_applies(r, mode, for_move_eval) {
        r
    } else {
        let chosen = r.candidates[pick_pool(r.candidates)[index]];
        ResponseView {
            move_uci: chosen.move_uci,
            best_move: chosen.move_uci,
            best_winrate: chosen.winrate,
            ..r
        }
    }
}

/// Whether the candidate looks good for the side to move.
pub fn is_candidate_positive(c: &BookCandidate) -> (r: bool)
    ensures
        r == candidate_positive(c@),
{
    if let Some(s) = c.score {
        if s.num > 0 {
            return true;
        }
    }
    if let Some(w) = c.winrate {
        let num = w.num as i128;
        let den = w.den as i128;
        if num > 50 * den {
            return true;
        }
        if 2 * num > den && num <= den {
            return true;
        }
    }
    false
}

proof fn lemma_positive_indices_bounds(c: Seq<CandidateView>, n: int)
    requires
        0 <= n <= c.len(),
    ensures
        forall|i: int| 0 <= i < positive_indices(c, n).len() ==> 0 <= #[trigger] positive_indices(c, n)[i] < n,
        positive_indices(c, n).len() <= n,
    decreases n,
{
    if n > 0 {
        lemma_positive_indices_bounds(c, n - 1);
    }
}

/// The pool of candidate indices to draw from.
fn pick_pool_of(c: &Vec<BookCandidate>) -> (r: Vec<usize>)
    ensures
        r@.len() == pick_pool(cand_views(c@)).len(),
        forall|i: int| 0 <= i < r@.len() ==> r@[i] as int == #[trigger] pick_pool(cand_views(c@))[i],
{
    let ghost cv = cand_views(c@);
    let mut pos: Vec<usize> = Vec::new();
    let mut i: usize = 0;
    while i < c.len()
        invariant
            cv == cand_views(c@),
            i <= c@.len(),
            pos@.len() == positive_indices(cv, i as int).len(),
            forall|j: int| 0 <= j < pos@.len() ==> pos@[j] as int == #[trigger] positive_indices(cv, i as int)[j],
        decreases c.len() - i,
    {
        if is_candidate_positive(&c[i]) {
            pos.push(i);
        }
        i = i + 1;
    }
    if pos.len() > 0 {
        return pos;
    }
    let mut all: Vec<usize> = Vec::new();
    let mut k: usize = 0;
    while k < c.len()
        invariant
            cv == cand_views(c@),
            k <= c@.len(),
            all@.len() == k,
            forall|j: int| 0 <= j < k ==> all@[j] as int == j,
        decreases c.len() - k,
    {
        all.push(k);
        k = k + 1;
    }
    all
}

/// The answer with the pool's entry `index` drawn, when the pick mode applies.
pub fn apply_pick_at(response: BookResponse, pick_mode: &str, for_move_eval: bool, index: usize) -> (r: BookResponse)
    requires
        pick_applies(response@, pick_mode@, for_move_eval) ==> index < pick_pool(response@.candidates).len(),
    ensures
        r@ == spec_apply_pick(response@, pick_mode@, for_move_eval, index as int),
{
    proof {
        reveal_strlit("positive_random");
    }
    if for_move_eval || response.candidates.len() == 0 || !str_eq(pick_mode, "positive_random") {
        return response;
    }
    let pool = pick_pool_of(&response.candidates);
    let ghost cv = cand_views(response.candidates@);
    proof {
        lemma_positive_indices_bounds(cv, cv.len() as int);
        assert(pick_pool(cv)[index as int] == pool@[index as int] as int);
    }
    let pick = pool[index];
    let chosen = response.candidates[pick].copy();
    let mut response = response;
    response.move_uci = clone_opt(&chosen.move_uci);
    response.best_move = chosen.move_uci;
    response.best_winrate = chosen.winrate;
    response
}

/// A random number from the operating system (`getrandom::fill` over eight
/// bytes, read in native byte order); `None` when it fails. Nothing is stated
/// of the number.
#[verifier::external_body]
fn os_random_u64() -> Option<u64> {
    let mut buffer = [0u8; 8];
    match getrandom::fill(&mut buffer) {
        Ok(()) => Some(u64::from_ne_bytes(buffer)),
        Err(_) => None,
    }
}

#[verifier::external_type_specification]
#[verifier::external_body]
pub struct ExSystemTime(std::time::SystemTime);

/// `SystemTime::now`: the clock's present time. Nothing is stated of it.
#[verifier::external_body]
fn system_time_now() -> std::time::SystemTime {
    std::time::SystemTime::now()
}

/// `SystemTime::duration_since` with `UNIX_EPOCH`: the time since the epoch,
/// `None` when `t` stands before it. Nothing is stated of the duration.
#[verifier::external_body]
fn since_unix_epoch(t: &std::time::SystemTime) -> Option<core::time::Duration> {
    match t.duration_since(std::time::UNIX_EPOCH) {
        Ok(d) => Some(d),
        Err(_) => None,
    }
}

/// `Duration::as_nanos`: the whole nanoseconds of `d`. Nothing is stated of the number.
#[verifier::external_body]
fn duration_nanos(d: &core::time::Duration) -> u128 {
    d.as_nanos()
}

/// Nanoseconds since the Unix epoch, cut to their low 64 bits; `None` when
/// the clock stands before the epoch.
fn clock_nanos() -> Option<u64> {
    let now = system_time_now();
    match since_unix_epoch(&now) {
        Some(d) => {
            let n: u128 = duration_nanos(&d);
            Some((n % 0x1_0000_0000_0000_0000u128) as u64)
        },
        None => None,
    }
}

/// Index drawn from a random number: `random % len`, or 0 when `len` is 0.
pub fn index_from_random(len: usize, random: u64) -> (r: usize)
    ensures
        r as int == (if len == 0 { 0 } else { random as int % len as int }),
{
    if len == 0 {
        return 0;
    }
    (random % (len as u64)) as usize
}

/// A random index below `len` (0 when `len` is 0): from the operating
/// system's randomness, else from the clock.
pub fn pick_pool_index(len: usize) -> (r: usize)
    ensures
        len == 0 ==> r == 0,
        len > 0 ==> r < len,
{
    let random: u64 = match os_random_u64() {
        Some(v) => v,
        None => match clock_nanos() {
            Some(n) => n,
            None => 12_345,
        },
    };
    index_from_random(len, random)
}

/// The answer after the configured pick mode: in `positive_random`, for a plain
/// query, the move to play is drawn at random among the positive candidates
/// (among all when none is positive).
pub fn apply_opening_book_pick_mode(response: BookResponse, cfg: &BookConfig, for_move_eval: bool) -> (r: BookResponse)
    ensures
        !pick_applies(response@, cfg.pick_mode@, for_move_eval) ==> r@ == response@,
        pick_applies(response@, cfg.pick_mode@, for_move_eval) ==> exists|i: int|
            0 <= i < pick_pool(response@.candidates).len() && r@ == spec_apply_pick(
                response@,
                cfg.pick_mode@,
                for_move_eval,
                i,
            ),
{
    let ghost cv = response@.candidates;
    let pool_len: usize = if response.candidates.len() > 0 {
        let pool = pick_pool_of(&response.candidates);
        pool.len()
    } else {
        0
    };
    let index = pick_pool_index(pool_len);
    proof {
        if pick_applies(response@, cfg.pick_mode@, for_move_eval) {
            assert(pick_pool(cv).len() > 0);
        }
    }
    let r = apply_pick_at(response, cfg.pick_mode.as_str(), for_move_eval, index);
    r
}


/// Which books a query consults, in order.
#[derive(Clone, Copy, Debug, PartialEq, Eq, Structural)]
pub enum BookRoute {
    /// The local book, then the cloud book when the local one has no move.
    LocalThenCloud,
    Local,
    Cloud,
    /// No book: the answer is empty, from source `none`.
    Off,
}

/// The route of a query: a query that ignores the play settings tries the
/// local book (when a path is set) and then the cloud; otherwise the local
/// book when it is set and enabled, else the cloud when enabled, else none.
pub open spec fn spec_book_route(local_path: Seq<char>, local_enabled: bool, cloud_enabled: bool, ignore_play_opening_settings: bool) -> BookRoute {
    let path_nonempty = trim(local_path).len() > 0;
    if ignore_play_opening_settings {
        if path_nonempty {
            BookRoute::LocalThenCloud
        } else {
            BookRoute::Cloud
        }
    } else if path_nonempty && local_enabled {
        BookRoute::Local
    } else if cloud_enabled {
        BookRoute::Cloud
    } else {
        BookRoute::Off
    }
}

/// The books that a query with `cfg` consults.
pub fn book_route(cfg: &BookConfig, ignore_play_opening_settings: bool) -> (r: BookRoute)
    ensures
        r == spec_book_route(cfg.local_path@, cfg.local_enabled, cfg.cloud_enabled, ignore_play_opening_settings),
{
    let path = chars_of(cfg.local_path.as_str());
    let path_nonempty = trim_chars(path.as_slice()).len() > 0;
    if ignore_play_opening_settings {
        if path_nonempty {
            BookRoute::LocalThenCloud
        } else {
            BookRoute::Cloud
        }
    } else if path_nonempty && cfg.local_enabled {
        BookRoute::Local
    } else if cfg.cloud_enabled {
        BookRoute::Cloud
    } else {
        BookRoute::Off
    }
}

/// The format of a local book file.
#[derive(Clone, Copy, Debug, PartialEq, Eq, Structural)]
pub enum LocalBookKind {
    /// An `.xqb` book.
    Xqb,
    /// A SQLite `.obk`/`.db` book (any other extension).
    Obk,
}

/// The format given by a file's extension: `xqb` in any letter case is an
/// `.xqb` book, anything else an `.obk` one.
pub fn local_book_kind(extension: Option<&str>) -> (r: LocalBookKind)
    ensures
        r == (if extension matches Some(e) && lower(e@) == "xqb"@ {
            LocalBookKind::Xqb
        } else {
            LocalBookKind::Obk
        }),
{
    proof {
        reveal_strlit("xqb");
    }
    match extension {
        Some(e) => {
            let v = chars_of(e);
            let l = lower_chars(v.as_slice());
            let x = chars_of("xqb");
            if chars_eq(l.as_slice(), x.as_slice()) {
                LocalBookKind::Xqb
            } else {
                LocalBookKind::Obk
            }
        },
        None => LocalBookKind::Obk,
    }
}

/// What a book query is for.
#[derive(Clone, Copy, Debug, PartialEq, Eq, Structural)]
pub enum BookQueryKind {
    /// To show the book's moves (and hold back the engine stream meanwhile).
    Display,
    /// To look for a book move before the engine plays.
    Autoplay,
}

/// A query to the opening books.
#[derive(Debug)]
pub struct BookQuery<'a> {
    pub fen: &'a str,
    pub move_uci: Option<String>,
    pub ignore_play_opening_settings: bool,
}

/// The service that answers [`BookQuery`]s.
#[derive(Debug, Default, Clone, Copy)]
pub struct BookService;

/// What building an `.obk` book's key index produced: where the index went
/// and how many rows it holds or left out (rows whose key is no integer).
#[derive(Debug)]
pub struct ObkOptimizeResult {
    pub idx_path: String,
    pub indexed_rows: usize,
    pub skipped_rows: usize,
}

impl ObkOptimizeResult {
    /// A result for the index at `idx_path`, with no row counted yet.
    pub fn new(idx_path: String) -> (r: ObkOptimizeResult)
        ensures
            r.idx_path == idx_path,
            r.indexed_rows == 0,
            r.skipped_rows == 0,
    {
        ObkOptimizeResult { idx_path, indexed_rows: 0, skipped_rows: 0 }
    }

    /// Counts one row of the book: indexed when it has a key, skipped otherwise.
    pub fn count_row(&mut self, indexed: bool)
        requires
            old(self).indexed_rows < usize::MAX,
            old(self).skipped_rows < usize::MAX,
        ensures
            final(self).idx_path == old(self).idx_path,
            final(self).indexed_rows == old(self).indexed_rows + if indexed { 1int } else { 0int },
            final(self).skipped_rows == old(self).skipped_rows + if indexed { 0int } else { 1int },
    {
        if indexed {
            self.indexed_rows = self.indexed_rows + 1;
        } else {
            self.skipped_rows = self.skipped_rows + 1;
        }
    }
}

} // verus!
