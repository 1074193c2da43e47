//! The moves of a `bhobk` opening book: the rows read for a position (and
//! for its mirror image), the best row kept for each move, and the answer
//! ranked from them.
use vstd::prelude::*;

use crate::book::{BookCandidate, BookResponse, CandidateView, Ratio, cand_views, spec_with_move_eval};
use crate::chessdb::first4;
use crate::engine_setup::opt_view;
use crate::input::{byte_len, fewer_bytes_than};
use crate::text::{chars_of, owned, string_from_chars};
use crate::xqb::{percent_one_decimal, percent_text};

verus! {

/// A row of a `bhobk` book: the move as decoded from the book (none when it
/// does not decode), its score, and the games won, drawn and lost after it.
#[derive(Debug)]
pub struct ObkRow {
    pub move_uci: Option<String>,
    pub score: i32,
    pub win: i32,
    pub draw: i32,
    pub lost: i32,
}

/// A book move with its score, its win rate in percent, and that rate as text.
#[derive(Debug)]
pub struct ObkLine {
    pub move_uci: String,
    pub score: i32,
    pub winrate: Ratio,
    pub winrate_raw: String,
}

/// What an [`ObkLine`] holds.
pub struct ObkLineView {
    pub move_uci: Seq<char>,
    pub score: i32,
    pub winrate: Ratio,
    pub winrate_raw: Seq<char>,
}

impl View for ObkLine {
    type V = ObkLineView;

    open spec fn view(&self) -> ObkLineView {
        ObkLineView {
            move_uci: self.move_uci@,
            score: self.score,
            winrate: self.winrate,
            winrate_raw: self.winrate_raw@,
        }
    }
}

/// The views of a list of lines.
pub open spec fn line_views(v: Seq<ObkLine>) -> Seq<ObkLineView> {
    Seq::new(v.len(), |i: int| v[i]@)
}

/// The counts of a row add up (wins and draws first) within `i32`.
pub open spec fn counts_fit(w: i32, d: i32, l: i32) -> bool {
    i32::MIN <= w + d <= i32::MAX && i32::MIN <= w + d + l <= i32::MAX
}

/// Every row's counts add up within `i32`.
pub open spec fn rows_fit(rows: Seq<ObkRow>) -> bool {
    forall|i: int| 0 <= i < rows.len() ==> counts_fit(#[trigger] rows[i].win, rows[i].draw, rows[i].lost)
}

/// The win rate in percent after `w` wins, `d` draws and `l` losses (a draw
/// counting half), at most 100; 0 without games.
pub open spec fn obk_winrate(w: i32, d: i32, l: i32) -> Ratio {
    let t = w + d + l;
    if t <= 0 {
        Ratio { num: 0, den: 1 }
    } else if 2 * w + d > 2 * t {
        Ratio { num: 100, den: 1 }
    } else {
        Ratio { num: (100 * (2 * w + d)) as i64, den: (2 * t) as u64 }
    }
}

/// The text of that win rate: one decimal and `%`, or `0%` without games.
pub open spec fn obk_winrate_text(w: i32, d: i32, l: i32) -> Seq<char> {
    if w + d + l <= 0 {
        "0%"@
    } else {
        percent_text(obk_winrate(w, d, l).num as int, obk_winrate(w, d, l).den as int)
    }
}

/// The win rate of a row and its text.
pub fn winrate_from_counts(w: i32, d: i32, l: i32) -> (r: (Ratio, String))
    requires
        counts_fit(w, d, l),
    ensures
        r.0 == obk_winrate(w, d, l),
        r.0.wf(),
        r.1@ == obk_winrate_text(w, d, l),
{
    let t: i32 = w + d + l;
    if t <= 0 {
        return (Ratio { num: 0, den: 1 }, owned("0%"));
    }
    let twice: i64 = 2 * w as i64 + d as i64;
    let rate = if twice > 2 * t as i64 {
        Ratio { num: 100, den: 1 }
    } else {
        Ratio { num: 100 * twice, den: (2 * t as i64) as u64 }
    };
    let text = percent_one_decimal(rate.num, rate.den);
    (rate, text)
}

/// The line of a row: its move cut to four characters, kept when it decodes
/// and those take at least four bytes.
pub open spec fn row_line(r: ObkRow) -> Option<ObkLineView> {
    match r.move_uci {
        None => None,
        Some(m) => {
            let mv = first4(m@);
            if byte_len(mv) < 4 {
                None
            } else {
                Some(
                    ObkLineView {
                        move_uci: mv,
                        score: r.score,
                        winrate: obk_winrate(r.win, r.draw, r.lost),
                        winrate_raw: obk_winrate_text(r.win, r.draw, r.lost),
                    },
                )
            }
        },
    }
}

/// The lines of the rows, in order.
pub open spec fn rows_lines(rows: Seq<ObkRow>) -> Seq<ObkLineView>
    decreases rows.len(),
{
    if rows.len() == 0 {
        Seq::empty()
    } else {
        let before = rows_lines(rows.drop_last());
        match row_line(rows.last()) {
            Some(l) => before.push(l),
            None => before,
        }
    }
}

fn first_four_chars(v: &[char]) -> (r: Vec<char>)
    ensures
        r@ == first4(v@),
{
    let mut r: Vec<char> = Vec::new();
    let mut i: usize = 0;
    while i < v.len() && i < 4
        invariant
            i <= v@.len(),
            i <= 4,
            r@ == v@.take(i as int),
        decreases v.len() - i,
    {
        r.push(v[i]);
        i = i + 1;
        assert(r@ =~= v@.take(i as int));
    }
    assert(v@.len() <= 4 ==> v@.take(i as int) =~= v@);
    r
}

/// The lines of the rows (see [`row_line`]), appended to `out`.
pub fn rows_to_lines(rows: &Vec<ObkRow>, out: &mut Vec<ObkLine>)
    requires
        rows_fit(rows@),
    ensures
        line_views(final(out)@) == line_views(old(out)@) + rows_lines(rows@),
{
    let ghost start = line_views(out@);
    let mut i: usize = 0;
    while i < rows.len()
        invariant
            i <= rows@.len(),
            rows_fit(rows@),
            line_views(out@) == start + rows_lines(rows@.take(i as int)),
        decreases rows.len() - i,
    {
        let ghost before = line_views(out@);
        assert(rows@.take(i as int + 1).drop_last() =~= rows@.take(i as int));
        assert(rows@.take(i as int + 1).last() == rows@[i as int]);
        let row = &rows[i];
        assert(counts_fit(rows@[i as int].win, rows@[i as int].draw, rows@[i as int].lost));
        match &row.move_uci {
            Some(m) => {
                let cs = chars_of(m.as_str());
                let mv = first_four_chars(cs.as_slice());
                if !fewer_bytes_than(mv.as_slice(), 4) {
                    let (rate, raw) = winrate_from_counts(row.win, row.draw, row.lost);
                    let line = ObkLine {
                        move_uci: string_from_chars(mv.as_slice()),
                        score: row.score,
                        winrate: rate,
                        winrate_raw: raw,
                    };
                    out.push(line);
                    assert(line_views(out@) =~= before.push(line@));
                }
            },
            None => {},
        }
        i = i + 1;
    }
    assert(rows@.take(rows@.len() as int) =~= rows@);
}

/// The first line from `i` on whose move is `m`.
pub open spec fn find_line(s: Seq<ObkLineView>, m: Seq<char>, i: int) -> Option<int>
    decreases s.len() - i,
{
    if i < 0 || i >= s.len() {
        None
    } else if s[i].move_uci == m {
        Some(i)
    } else {
        find_line(s, m, i + 1)
    }
}

proof fn lemma_find_line_range(s: Seq<ObkLineView>, m: Seq<char>, i: int)
    ensures
        find_line(s, m, i) matches Some(j) ==> i <= j < s.len() && s[j].move_uci == m,
    decreases s.len() - i,
{
    if 0 <= i < s.len() && s[i].move_uci != m {
        lemma_find_line_range(s, m, i + 1);
    }
}

/// `s` with the line `x` merged in: it takes the place of the line of the
/// same move when its win rate is higher, and is added after the others
/// when its move is new.
pub open spec fn merge_line(s: Seq<ObkLineView>, x: ObkLineView) -> Seq<ObkLineView> {
    match find_line(s, x.move_uci, 0) {
        Some(j) => if s[j].winrate.spec_less(x.winrate) {
            s.update(j, x)
        } else {
            s
        },
        None => s.push(x),
    }
}

/// One line per move, the one with the highest win rate (the first of
/// equals), moves in the order they first appear.
pub open spec fn best_lines(s: Seq<ObkLineView>) -> Seq<ObkLineView>
    decreases s.len(),
{
    if s.len() == 0 {
        s
    } else {
        merge_line(best_lines(s.drop_last()), s.last())
    }
}

/// Keeps, for each move, its line with the highest win rate.
pub fn merge_best_lines(lines: Vec<ObkLine>) -> (r: Vec<ObkLine>)
    ensures
        line_views(r@) == best_lines(line_views(lines@)),
{
    let ghost orig = line_views(lines@);
    let n = lines.len();
    let mut src = lines;
    let mut out: Vec<ObkLine> = Vec::new();
    let mut k: usize = 0;
    assert(orig.take(0) =~= Seq::<ObkLineView>::empty());
    assert(line_views(out@) =~= Seq::<ObkLineView>::empty());
    while src.len() > 0
        invariant
            n == orig.len(),
            k <= orig.len(),
            line_views(src@) == orig.skip(k as int),
            line_views(out@) == best_lines(orig.take(k as int)),
        decreases src.len(),
    {
        let ghost src_before = src@;
        assert(line_views(src_before).len() == src_before.len());
        assert(line_views(src_before)[0] == src_before[0]@);
        let x = src.remove(0);
        let ghost before = line_views(out@);
        assert(x@ == orig[k as int]);
        assert(line_views(src@) =~= line_views(src_before).skip(1));
        let mut j: usize = 0;
        while j < out.len() && !crate::text::str_eq(out[j].move_uci.as_str(), x.move_uci.as_str())
            invariant
                line_views(out@) == before,
                j <= out@.len(),
                find_line(before, x@.move_uci, 0) == find_line(before, x@.move_uci, j as int),
            decreases out.len() - j,
        {
            assert(before[j as int] == out@[j as int]@);
            j = j + 1;
        }
        if j < out.len() {
            assert(before[j as int] == out@[j as int]@);
            assert(find_line(before, x@.move_uci, 0) == Some(j as int));
            if out[j].winrate.less(x.winrate) {
                let ghost xv = x@;
                out.set(j, x);
                assert(line_views(out@) =~= before.update(j as int, xv));
            }
        } else {
            let ghost xv = x@;
            out.push(x);
            assert(line_views(out@) =~= before.push(xv));
        }
        proof {
            assert(orig.take(k as int + 1).drop_last() =~= orig.take(k as int));
            assert(orig.take(k as int + 1).last() == orig[k as int]);
            assert(line_views(src@) =~= orig.skip(k as int + 1));
        }
        k = k + 1;
    }
    assert(orig.take(k as int) =~= orig);
    out
}

proof fn lemma_find_line_none(s: Seq<ObkLineView>, m: Seq<char>, i: int, k: int)
    requires
        0 <= i <= k < s.len(),
        find_line(s, m, i) is None,
    ensures
        s[k].move_uci != m,
    decreases k - i,
{
    if i < k {
        lemma_find_line_none(s, m, i + 1, k);
    }
}

/// The book's answer lists each move once: the lines kept have pairwise
/// different moves.
pub proof fn lemma_best_lines_one_per_move(s: Seq<ObkLineView>)
    ensures
        forall|i: int, j: int|
            0 <= i < j < best_lines(s).len() ==> #[trigger] best_lines(s)[i].move_uci != #[trigger] best_lines(
                s,
            )[j].move_uci,
    decreases s.len(),
{
    if s.len() > 0 {
        let prev = best_lines(s.drop_last());
        let x = s.last();
        lemma_best_lines_one_per_move(s.drop_last());
        lemma_find_line_range(prev, x.move_uci, 0);
        match find_line(prev, x.move_uci, 0) {
            Some(k) => {},
            None => {
                assert forall|i: int| 0 <= i < prev.len() implies prev[i].move_uci != x.move_uci by {
                    lemma_find_line_none(prev, x.move_uci, 0, i);
                }
            },
        }
    }
}

/// `a` ranks before `b`: a higher win rate, else a higher score.
pub open spec fn line_before(a: ObkLineView, b: ObkLineView) -> bool {
    b.winrate.spec_less(a.winrate) || (b.winrate.spec_same(a.winrate) && a.score > b.score)
}

/// Where `x` goes into the ranked `s`: before the first line it ranks before.
pub open spec fn insert_pos(s: Seq<ObkLineView>, x: ObkLineView, i: int) -> int
    decreases s.len() - i,
{
    if i < 0 || i >= s.len() {
        s.len() as int
    } else if line_before(x, s[i]) {
        i
    } else {
        insert_pos(s, x, i + 1)
    }
}

/// The lines ranked by [`line_before`], lines that rank alike keeping their order.
pub open spec fn rank_lines(s: Seq<ObkLineView>) -> Seq<ObkLineView>
    decreases s.len(),
{
    if s.len() == 0 {
        s
    } else {
        let r = rank_lines(s.drop_last());
        r.insert(insert_pos(r, s.last(), 0), s.last())
    }
}

proof fn lemma_insert_pos_bounds(s: Seq<ObkLineView>, x: ObkLineView, i: int)
    requires
        0 <= i <= s.len(),
    ensures
        i <= insert_pos(s, x, i) <= s.len(),
    decreases s.len() - i,
{
    if i < s.len() && !line_before(x, s[i]) {
        lemma_insert_pos_bounds(s, x, i + 1);
    }
}

proof fn lemma_rank_lines_len(s: Seq<ObkLineView>)
    ensures
        rank_lines(s).len() == s.len(),
    decreases s.len(),
{
    if s.len() > 0 {
        lemma_rank_lines_len(s.drop_last());
        lemma_insert_pos_bounds(rank_lines(s.drop_last()), s.last(), 0);
    }
}

fn ranks_before(a: &ObkLine, b: &ObkLine) -> (r: bool)
    ensures
        r == line_before(a@, b@),
{
    b.winrate.less(a.winrate) || (b.winrate.same(a.winrate) && a.score > b.score)
}

/// The lines ranked as [`rank_lines`] says.
pub fn sort_lines(lines: Vec<ObkLine>) -> (r: Vec<ObkLine>)
    ensures
        line_views(r@) == rank_lines(line_views(lines@)),
{
    let ghost orig = line_views(lines@);
    let n = lines.len();
    let mut src = lines;
    let mut out: Vec<ObkLine> = Vec::new();
    let mut k: usize = 0;
    assert(orig.take(0) =~= Seq::<ObkLineView>::empty());
    assert(line_views(out@) =~= Seq::<ObkLineView>::empty());
    while src.len() > 0
        invariant
            n == orig.len(),
            k <= orig.len(),
            line_views(src@) == orig.skip(k as int),
            line_views(out@) == rank_lines(orig.take(k as int)),
        decreases src.len(),
    {
        proof {
            lemma_rank_lines_len(orig.take(k as int));
        }
        let ghost src_before = src@;
        assert(line_views(src_before).len() == src_before.len());
        assert(line_views(src_before)[0] == src_before[0]@);
        let x = src.remove(0);
        assert(x@ == orig[k as int]);
        assert(line_views(src@) =~= line_views(src_before).skip(1));
        let ghost before = line_views(out@);
        let mut j: usize = 0;
        while j < out.len() && !ranks_before(&x, &out[j])
            invariant
                line_views(out@) == before,
                j <= out@.len(),
                insert_pos(before, x@, 0) == insert_pos(before, x@, j as int),
            decreases out.len() - j,
        {
            assert(before[j as int] == out@[j as int]@);
            j = j + 1;
        }
        if j < out.len() {
            assert(before[j as int] == out@[j as int]@);
        }
        assert(insert_pos(before, x@, 0) == j as int);
        let ghost xv = x@;
        out.insert(j, x);
        assert(line_views(out@) =~= before.insert(j as int, xv));
        proof {
            assert(orig.take(k as int + 1).drop_last() =~= orig.take(k as int));
            assert(orig.take(k as int + 1).last() == orig[k as int]);
            assert(line_views(src@) =~= orig.skip(k as int + 1));
        }
        k = k + 1;
    }
    assert(orig.take(k as int) =~= orig);
    out
}

/// The candidate of the line ranked `i` (from 0).
pub open spec fn line_candidate(l: ObkLineView, i: int) -> CandidateView {
    CandidateView {
        move_uci: Some(l.move_uci),
        rank: Some((i + 1) as i64),
        score: Some(Ratio { num: l.score as i64, den: 1 }),
        winrate: Some(l.winrate),
        winrate_raw: Some(l.winrate_raw),
    }
}

/// The candidates of the first five ranked lines.
pub open spec fn top_candidates(s: Seq<ObkLineView>) -> Seq<CandidateView> {
    Seq::new(if s.len() < 5 { s.len() } else { 5 }, |i: int| line_candidate(s[i], i))
}

/// The answer from the book's lines: ranked by win rate, then score, the
/// first five as candidates, and the move asked about looked up among them.
pub fn rows_to_response(lines: Vec<ObkLine>, move_uci: Option<String>, source: &str) -> (r: BookResponse)
    ensures
        r@ == spec_with_move_eval(top_candidates(rank_lines(line_views(lines@))), opt_view(move_uci), source@),
{
    let ghost read = line_views(lines@);
    let ranked = sort_lines(lines);
    let ghost all = line_views(ranked@);
    proof {
        lemma_rank_lines_len(read);
    }
    let mut src = ranked;
    let mut cands: Vec<BookCandidate> = Vec::new();
    let mut i: usize = 0;
    let ghost want = top_candidates(all);
    while src.len() > 0 && i < 5
        invariant
            i <= 5,
            i <= all.len(),
            want == top_candidates(all),
            line_views(src@) == all.skip(i as int),
            cand_views(cands@) == want.take(i as int),
        decreases src.len(),
    {
        let ghost src_before = src@;
        assert(line_views(src_before).len() == src_before.len());
        assert(line_views(src_before)[0] == src_before[0]@);
        let l = src.remove(0);
        assert(l@ == all[i as int]);
        assert(line_views(src@) =~= line_views(src_before).skip(1));
        let ghost prev = cands@;
        assert(cand_views(prev).len() == prev.len());
        let c = BookCandidate {
            move_uci: Some(l.move_uci),
            rank: Some(i as i64 + 1),
            score: Some(Ratio { num: l.score as i64, den: 1 }),
            winrate: Some(l.winrate),
            winrate_raw: Some(l.winrate_raw),
        };
        assert(c@ == line_candidate(all[i as int], i as int));
        cands.push(c);
        assert(cands@ == prev.push(c));
        assert(cand_views(cands@) =~= want.take(i as int + 1)) by {
            assert forall|j: int| 0 <= j < i as int + 1 implies #[trigger] cand_views(cands@)[j] == want.take(
                i as int + 1,
            )[j] by {
                if j < i {
                    assert(cands@[j] == prev[j]);
                    assert(cand_views(prev)[j] == want.take(i as int)[j]);
                } else {
                    assert(cands@[j] == c);
                }
            }
        }
        assert(line_views(src@) =~= all.skip(i as int + 1));
        i = i + 1;
    }
    assert(want.take(i as int) =~= want);
    BookResponse::with_move_eval(cands, move_uci, source)
}

/// The answer of a `bhobk` book from the rows read for a position and for
/// its mirror image: the lines of both, the best line kept for each move,
/// ranked, and the first five returned.
pub fn obk_response(rows: &Vec<ObkRow>, mirrored: &Vec<ObkRow>, move_uci: Option<String>, source: &str) -> (r: BookResponse)
    requires
        rows_fit(rows@),
        rows_fit(mirrored@),
    ensures
        r@ == spec_with_move_eval(
            top_candidates(rank_lines(best_lines(rows_lines(rows@) + rows_lines(mirrored@)))),
            opt_view(move_uci),
            source@,
        ),
{
    let mut lines: Vec<ObkLine> = Vec::new();
    assert(line_views(lines@) =~= Seq::<ObkLineView>::empty());
    rows_to_lines(rows, &mut lines);
    assert(Seq::<ObkLineView>::empty() + rows_lines(rows@) =~= rows_lines(rows@));
    rows_to_lines(mirrored, &mut lines);
    let best = merge_best_lines(lines);
    rows_to_response(best, move_uci, source)
}

/// The kinds of SQLite opening book, told apart by their tables.
#[derive(Clone, Copy, Debug, PartialEq, Eq, Structural)]
pub enum ObkKind {
    /// A `bhobk` table: the kind that is read.
    Bhobk,
    /// An older layout (`pfBook` or `xfen_book`) that is not read.
    Unsupported,
}

/// The kind of a book with the tables `names`: `bhobk` first, then the older
/// layouts; none for anything else.
pub open spec fn spec_book_kind(names: Seq<Seq<char>>) -> Option<ObkKind> {
    if names.contains("bhobk"@) {
        Some(ObkKind::Bhobk)
    } else if names.contains("pfBook"@) || names.contains("xfen_book"@) {
        Some(ObkKind::Unsupported)
    } else {
        None
    }
}

fn has_name(names: &Vec<String>, name: &str) -> (r: bool)
    ensures
        r == names.deep_view().contains(name@),
{
    let mut i: usize = 0;
    while i < names.len()
        invariant
            i <= names@.len(),
            forall|k: int| 0 <= k < i ==> names.deep_view()[k] != name@,
        decreases names.len() - i,
    {
        assert(names.deep_view()[i as int] == names@[i as int]@);
        if crate::text::str_eq(names[i].as_str(), name) {
            assert(names.deep_view()[i as int] == name@);
            return true;
        }
        i = i + 1;
    }
    proof {
        if names.deep_view().contains(name@) {
            let k = choose|k: int| 0 <= k < names.deep_view().len() && names.deep_view()[k] == name@;
            assert(names.deep_view()[k] != name@);
        }
    }
    false
}

/// The kind of a book from the names of its tables.
pub fn detect_kind(names: &Vec<String>) -> (r: Option<ObkKind>)
    ensures
        r == spec_book_kind(names.deep_view()),
{
    if has_name(names, "bhobk") {
        Some(ObkKind::Bhobk)
    } else if has_name(names, "pfBook") || has_name(names, "xfen_book") {
        Some(ObkKind::Unsupported)
    } else {
        None
    }
}

/// Why a book is not given a key index.
#[derive(Clone, Copy, Debug, PartialEq, Eq, Structural)]
pub enum IndexRefusal {
    /// The path names no file.
    BookNotFound,
    /// The file's tables are of no known book.
    UnsupportedSchema,
    /// A book of a kind that is not read.
    UnsupportedBookKind,
    /// The book has its key index already.
    IdxAlreadyExists,
}

impl IndexRefusal {
    /// The error text of the refusal.
    pub fn code(&self) -> (r: &'static str)
        ensures
            r@ == match *self {
                IndexRefusal::BookNotFound => "book_not_found"@,
                IndexRefusal::UnsupportedSchema => "unsupported_sqlite_schema"@,
                IndexRefusal::UnsupportedBookKind => "unsupported_book_kind"@,
                IndexRefusal::IdxAlreadyExists => "idx_already_exists"@,
            },
    {
        match self {
            IndexRefusal::BookNotFound => "book_not_found",
            IndexRefusal::UnsupportedSchema => "unsupported_sqlite_schema",
            IndexRefusal::UnsupportedBookKind => "unsupported_book_kind",
            IndexRefusal::IdxAlreadyExists => "idx_already_exists",
        }
    }
}

/// The first reason, in the order they are checked, not to build a key
/// index: no file, tables of no known book, a book kind that is not read, an
/// index already there.
pub open spec fn spec_index_refusal(book_is_file: bool, kind: Option<ObkKind>, has_idx: bool) -> Option<
    IndexRefusal,
> {
    if !book_is_file {
        Some(IndexRefusal::BookNotFound)
    } else {
        match kind {
            None => Some(IndexRefusal::UnsupportedSchema),
            Some(ObkKind::Unsupported) => Some(IndexRefusal::UnsupportedBookKind),
            Some(ObkKind::Bhobk) => if has_idx {
                Some(IndexRefusal::IdxAlreadyExists)
            } else {
                None
            },
        }
    }
}

/// Whether a key index may be built for a book: the file is there, its kind
/// (from its tables) is the one read, and it has no index yet.
pub fn index_refusal(book_is_file: bool, kind: Option<ObkKind>, has_idx: bool) -> (r: Option<IndexRefusal>)
    ensures
        r == spec_index_refusal(book_is_file, kind, has_idx),
{
    if !book_is_file {
        return Some(IndexRefusal::BookNotFound);
    }
    match kind {
        None => Some(IndexRefusal::UnsupportedSchema),
        Some(ObkKind::Unsupported) => Some(IndexRefusal::UnsupportedBookKind),
        Some(ObkKind::Bhobk) => if has_idx {
            Some(IndexRefusal::IdxAlreadyExists)
        } else {
            None
        },
    }
}

/// How many rows pass between progress reports while a key index of
/// `total_rows` rows is built: a two-hundredth of them, at least 10000.
pub fn progress_stride(total_rows: usize) -> (r: usize)
    ensures
        r == if total_rows / 200 > 10000 { total_rows / 200 } else { 10000 },
        r >= 1,
{
    let part = total_rows / 200;
    if part > 10000 {
        part
    } else {
        10000
    }
}

/// Whether progress is reported after `processed` rows: at the last row and
/// at every multiple of the stride.
pub fn progress_due(processed: usize, total_rows: usize, stride: usize) -> (r: bool)
    ensures
        r == (processed == total_rows || (stride > 0 && processed % stride == 0)),
{
    processed == total_rows || (stride > 0 && processed % stride == 0)
}

} // verus!
