use vstd::prelude::*;

use crate::engine_setup::{side_to_move_is_red, spec_side_to_move_is_red};
use crate::text::{
    chars_of, is_ws, push_char, push_str, split_char, split_char_chars, split_char_from, split_ws, split_ws_from,
    split_whitespace_chars,
};

verus! {

/// The side to move.
#[derive(Clone, Copy, Debug, PartialEq, Eq, Structural)]
pub enum Side {
    Red,
    Black,
}

impl Side {
    pub fn is_red(self) -> (r: bool)
        ensures
            r == (self == Side::Red),
    {
        match self {
            Side::Red => true,
            Side::Black => false,
        }
    }

    pub open spec fn spec_other(self) -> Side {
        match self {
            Side::Red => Side::Black,
            Side::Black => Side::Red,
        }
    }

    /// The other side.
    pub fn other(self) -> (r: Side)
        ensures
            r == self.spec_other(),
    {
        match self {
            Side::Red => Side::Black,
            Side::Black => Side::Red,
        }
    }
}

/// The start position of Xiangqi.
pub const STARTPOS_FEN: &'static str = "rnbakabnr/9/1c5c1/p1p1p1p1p/9/9/P1P1P1P1P/1C5C1/9/RNBAKABNR w - - 0 1";

/// Cell code of a FEN piece letter: `RNBAKCP` 1 to 7 (red), `rnbakcp` 9 to 15 (black).
pub open spec fn fen_piece_code(c: char) -> Option<u8> {
    if c == 'R' {
        Some(1)
    } else if c == 'N' {
        Some(2)
    } else if c == 'B' {
        Some(3)
    } else if c == 'A' {
        Some(4)
    } else if c == 'K' {
        Some(5)
    } else if c == 'C' {
        Some(6)
    } else if c == 'P' {
        Some(7)
    } else if c == 'r' {
        Some(9)
    } else if c == 'n' {
        Some(10)
    } else if c == 'b' {
        Some(11)
    } else if c == 'a' {
        Some(12)
    } else if c == 'k' {
        Some(13)
    } else if c == 'c' {
        Some(14)
    } else if c == 'p' {
        Some(15)
    } else {
        None
    }
}

/// The FEN letter of a piece code.
pub open spec fn code_letter(p: u8) -> char {
    if p == 1 {
        'R'
    } else if p == 2 {
        'N'
    } else if p == 3 {
        'B'
    } else if p == 4 {
        'A'
    } else if p == 5 {
        'K'
    } else if p == 6 {
        'C'
    } else if p == 7 {
        'P'
    } else if p == 9 {
        'r'
    } else if p == 10 {
        'n'
    } else if p == 11 {
        'b'
    } else if p == 12 {
        'a'
    } else if p == 13 {
        'k'
    } else if p == 14 {
        'c'
    } else {
        'p'
    }
}

/// A cell code: 0 (empty) or a piece.
pub open spec fn valid_code(p: u8) -> bool {
    p == 0 || (1 <= p <= 7) || (9 <= p <= 15)
}

pub open spec fn zeros(n: nat) -> Seq<u8> {
    Seq::new(n, |i: int| 0u8)
}

/// The cells of one FEN rank: a digit from 1 to 9 stands for that many empty
/// cells, a piece letter for one piece; `None` for any other character.
pub open spec fn rank_cells(s: Seq<char>) -> Option<Seq<u8>>
    decreases s.len(),
{
    if s.len() == 0 {
        Some(Seq::empty())
    } else {
        match rank_cells(s.drop_last()) {
            None => None,
            Some(prev) => {
                let c = s.last();
                if '1' <= c && c <= '9' {
                    Some(prev + zeros((c as int - '0' as int) as nat))
                } else {
                    match fen_piece_code(c) {
                        Some(p) => Some(prev.push(p)),
                        None => None,
                    }
                }
            },
        }
    }
}

/// The cells of FEN ranks, each of which must fill nine cells.
pub open spec fn ranks_cells(ranks: Seq<Seq<char>>) -> Option<Seq<u8>>
    decreases ranks.len(),
{
    if ranks.len() == 0 {
        Some(Seq::empty())
    } else {
        match (ranks_cells(ranks.drop_last()), rank_cells(ranks.last())) {
            (Some(a), Some(b)) => if b.len() == 9 {
                Some(a + b)
            } else {
                None
            },
            _ => None,
        }
    }
}

/// The cells of a FEN board field: ten ranks of nine cells, top rank first.
pub open spec fn board_cells(board: Seq<char>) -> Option<Seq<u8>> {
    let ranks = split_char(board, '/');
    if ranks.len() != 10 {
        None
    } else {
        ranks_cells(ranks)
    }
}

/// The position of a FEN: the cells of its first word and the side to move.
pub open spec fn spec_from_fen(fen: Seq<char>) -> Option<(Seq<u8>, Side)> {
    let words = split_ws(fen);
    if words.len() == 0 {
        None
    } else {
        match board_cells(words[0]) {
            None => None,
            Some(cells) => Some(
                (cells, if spec_side_to_move_is_red(fen) { Side::Red } else { Side::Black }),
            ),
        }
    }
}

/// A Xiangqi board: 90 cells, row 0 the top rank (rank 9, black's back
/// rank), column 0 file `a`; each cell 0 or a piece code.
#[derive(Clone, Debug)]
pub struct Board90 {
    pub cells: Vec<u8>,
}

impl Board90 {
    pub open spec fn wf(&self) -> bool {
        &&& self.cells@.len() == 90
        &&& forall|i: int| 0 <= i < 90 ==> valid_code(#[trigger] self.cells@[i])
    }

    pub open spec fn at(&self, rank: int, file: int) -> u8 {
        self.cells@[rank * 9 + file]
    }

    /// Whether the cell at `file` and `rank` (row from the top) is empty.
    pub fn is_empty(&self, file: u8, rank: u8) -> (r: bool)
        requires
            self.cells@.len() == 90,
            file < 9,
            rank < 10,
        ensures
            r == (self.at(rank as int, file as int) == 0),
    {
        self.cells[rank as usize * 9 + file as usize] == 0
    }

    /// Whether the cell at `file` and `rank` holds a red piece.
    pub fn is_red_piece(&self, file: u8, rank: u8) -> (r: bool)
        requires
            self.cells@.len() == 90,
            file < 9,
            rank < 10,
        ensures
            r == (1 <= self.at(rank as int, file as int) <= 7),
    {
        let p = self.cells[rank as usize * 9 + file as usize];
        1 <= p && p <= 7
    }

    /// The cell code at `file` and `rank`.
    pub fn get(&self, file: u8, rank: u8) -> (r: u8)
        requires
            self.cells@.len() == 90,
            file < 9,
            rank < 10,
        ensures
            r == self.at(rank as int, file as int),
    {
        self.cells[rank as usize * 9 + file as usize]
    }
}

/// The cells of one rank text, as [`rank_cells`] reads them.
fn rank_cells_exec(s: &[char]) -> (r: Option<Vec<u8>>)
    ensures
        match r {
            Some(v) => rank_cells(s@) == Some(v@) && v@.len() <= 9,
            None => rank_cells(s@) is None || rank_cells(s@)->0.len() > 9,
        },
{
    let mut out: Vec<u8> = Vec::new();
    let mut i: usize = 0;
    while i < s.len()
        invariant
            i <= s@.len(),
            rank_cells(s@.take(i as int)) == Some(out@),
            out@.len() <= 9,
        decreases s.len() - i,
    {
        let c = s[i];
        assert(s@.take(i as int + 1).drop_last() =~= s@.take(i as int));
        if '1' <= c && c <= '9' {
            let d: usize = ((c as u32) - 48) as usize;
            if out.len() + d > 9 {
                proof {
                    lemma_rank_cells_grows(s@, i as int + 1);
                }
                return None;
            }
            let mut k: usize = 0;
            let ghost prev = out@;
            while k < d
                invariant
                    k <= d,
                    out@ == prev + zeros(k as nat),
                decreases d - k,
            {
                out.push(0);
                k = k + 1;
                assert(out@ =~= prev + zeros(k as nat));
            }
        } else {
            let code: u8 = if c == 'R' {
                1
            } else if c == 'N' {
                2
            } else if c == 'B' {
                3
            } else if c == 'A' {
                4
            } else if c == 'K' {
                5
            } else if c == 'C' {
                6
            } else if c == 'P' {
                7
            } else if c == 'r' {
                9
            } else if c == 'n' {
                10
            } else if c == 'b' {
                11
            } else if c == 'a' {
                12
            } else if c == 'k' {
                13
            } else if c == 'c' {
                14
            } else if c == 'p' {
                15
            } else {
                0
            };
            if code == 0 {
                proof {
                    lemma_rank_cells_none_grows(s@, i as int + 1);
                }
                return None;
            }
            if out.len() >= 9 {
                proof {
                    lemma_rank_cells_grows(s@, i as int + 1);
                }
                return None;
            }
            out.push(code);
        }
        i = i + 1;
    }
    assert(s@.take(s@.len() as int) =~= s@);
    Some(out)
}

/// Once a rank prefix fails, the whole rank fails.
proof fn lemma_rank_cells_none_grows(s: Seq<char>, k: int)
    requires
        0 <= k <= s.len(),
        rank_cells(s.take(k)) is None,
    ensures
        rank_cells(s) is None,
    decreases s.len() - k,
{
    if k < s.len() {
        assert(s.take(k + 1).drop_last() =~= s.take(k));
        lemma_rank_cells_none_grows(s, k + 1);
    } else {
        assert(s.take(k) =~= s);
    }
}

/// Cells only grow along a rank: a prefix with more than nine cells makes
/// the rank fail or exceed nine cells.
proof fn lemma_rank_cells_grows(s: Seq<char>, k: int)
    requires
        0 <= k <= s.len(),
        rank_cells(s.take(k)) is None || rank_cells(s.take(k))->0.len() > 9,
    ensures
        rank_cells(s) is None || rank_cells(s)->0.len() > 9,
    decreases s.len() - k,
{
    if k < s.len() {
        assert(s.take(k + 1).drop_last() =~= s.take(k));
        lemma_rank_cells_grows(s, k + 1);
    } else {
        assert(s.take(k) =~= s);
    }
}

proof fn lemma_rank_cells_valid(s: Seq<char>)
    ensures
        rank_cells(s) matches Some(v) ==> forall|i: int| 0 <= i < v.len() ==> valid_code(#[trigger] v[i]),
    decreases s.len(),
{
    if s.len() > 0 {
        lemma_rank_cells_valid(s.drop_last());
    }
}

proof fn lemma_ranks_cells_valid(r: Seq<Seq<char>>)
    ensures
        ranks_cells(r) matches Some(v) ==> v.len() == 9 * r.len() && forall|i: int| 0 <= i < v.len() ==> valid_code(#[trigger] v[i]),
    decreases r.len(),
{
    if r.len() > 0 {
        lemma_ranks_cells_valid(r.drop_last());
        lemma_rank_cells_valid(r.last());
        if let Some(v) = ranks_cells(r) {
            let a = ranks_cells(r.drop_last())->0;
            let b = rank_cells(r.last())->0;
            assert forall|i: int| 0 <= i < v.len() implies valid_code(#[trigger] v[i]) by {
                if i < a.len() {
                    assert(v[i] == a[i]);
                } else {
                    assert(v[i] == b[i - a.len()]);
                }
            }
        }
    }
}

impl Board90 {
    /// The position of `fen`: its board and the side to move; `None` when the
    /// board field is not ten ranks of nine cells of known pieces.
    pub fn from_fen_with_side(fen: &str) -> (r: Option<(Board90, Side)>)
        ensures
            match r {
                Some((b, side)) => b.wf() && spec_from_fen(fen@) == Some((b.cells@, side)),
                None => spec_from_fen(fen@) is None,
            },
    {
        let v = chars_of(fen);
        let words = split_whitespace_chars(v.as_slice());
        if words.len() == 0 {
            return None;
        }
        assert(words@[0]@ == words.deep_view()[0]);
        let ranks = split_char_chars(words[0].as_slice(), '/');
        if ranks.len() != 10 {
            return None;
        }
        let ghost rv = ranks.deep_view();
        let mut cells: Vec<u8> = Vec::new();
        let mut i: usize = 0;
        while i < ranks.len()
            invariant
                rv == ranks.deep_view(),
                split_ws(fen@).len() > 0,
                rv == split_char(split_ws(fen@)[0], '/'),
                rv.len() == 10,
                i <= 10,
                ranks_cells(rv.take(i as int)) == Some(cells@),
            decreases 10 - i,
        {
            assert(rv.take(i as int + 1).drop_last() =~= rv.take(i as int));
            assert(rv.take(i as int + 1).last() == ranks@[i as int]@);
            match rank_cells_exec(ranks[i].as_slice()) {
                None => {
                    proof {
                        lemma_ranks_none_grows(rv, i as int + 1);
                    }
                    return None;
                },
                Some(rc) => {
                    if rc.len() != 9 {
                        proof {
                            lemma_ranks_none_grows(rv, i as int + 1);
                        }
                        return None;
                    }
                    let mut k: usize = 0;
                    let ghost prev = cells@;
                    while k < 9
                        invariant
                            k <= 9,
                            rc@.len() == 9,
                            cells@ == prev + rc@.take(k as int),
                        decreases 9 - k,
                    {
                        cells.push(rc[k]);
                        k = k + 1;
                        assert(cells@ =~= prev + rc@.take(k as int));
                    }
                    assert(rc@.take(9) =~= rc@);
                },
            }
            i = i + 1;
        }
        assert(rv.take(10) =~= rv);
        proof {
            lemma_ranks_cells_valid(rv);
        }
        let side = if side_to_move_is_red(fen) { Side::Red } else { Side::Black };
        Some((Board90 { cells }, side))
    }
}

proof fn lemma_ranks_none_grows(r: Seq<Seq<char>>, k: int)
    requires
        0 <= k <= r.len(),
        ranks_cells(r.take(k)) is None,
    ensures
        ranks_cells(r) is None,
    decreases r.len() - k,
{
    if k < r.len() {
        assert(r.take(k + 1).drop_last() =~= r.take(k));
        lemma_ranks_none_grows(r, k + 1);
    } else {
        assert(r.take(k) =~= r);
    }
}


/// A run of `run` empty cells in FEN (nothing for none).
pub open spec fn run_text(run: nat) -> Seq<char> {
    if run == 0 {
        Seq::empty()
    } else {
        seq![(48 + run) as char]
    }
}

/// FEN text of the rest of a rank, `run` empty cells pending.
pub open spec fn rank_text_acc(row: Seq<u8>, run: nat) -> Seq<char>
    decreases row.len(),
{
    if row.len() == 0 {
        run_text(run)
    } else if row[0] == 0 {
        rank_text_acc(row.drop_first(), run + 1)
    } else {
        run_text(run) + seq![code_letter(row[0])] + rank_text_acc(row.drop_first(), 0)
    }
}

/// The cells of row `r`.
pub open spec fn row_of(cells: Seq<u8>, r: int) -> Seq<u8> {
    cells.subrange(r * 9, r * 9 + 9)
}

/// FEN text of rows `r` to 9, separated by `/`.
pub open spec fn board_text(cells: Seq<u8>, r: int) -> Seq<char>
    decreases 10 - r,
{
    if r >= 9 || r < 0 {
        rank_text_acc(row_of(cells, 9), 0)
    } else {
        rank_text_acc(row_of(cells, r), 0) + seq!['/'] + board_text(cells, r + 1)
    }
}

/// The FEN of a position: the board, the side to move, and `- - 0 1`.
pub open spec fn spec_to_fen(cells: Seq<u8>, side: Side) -> Seq<char> {
    board_text(cells, 0) + (if side == Side::Red { " w"@ } else { " b"@ }) + " - - 0 1"@
}

fn push_run(s: &mut String, run: u8)
    requires
        run <= 9,
    ensures
        final(s)@ == old(s)@ + run_text(run as nat),
{
    if run > 0 {
        push_char(s, (48u8 + run) as char);
        assert(final(s)@ =~= old(s)@ + run_text(run as nat));
    } else {
        assert(final(s)@ =~= old(s)@ + run_text(run as nat));
    }
}

fn letter_of(p: u8) -> (c: char)
    ensures
        c == code_letter(p),
{
    if p == 1 {
        'R'
    } else if p == 2 {
        'N'
    } else if p == 3 {
        'B'
    } else if p == 4 {
        'A'
    } else if p == 5 {
        'K'
    } else if p == 6 {
        'C'
    } else if p == 7 {
        'P'
    } else if p == 9 {
        'r'
    } else if p == 10 {
        'n'
    } else if p == 11 {
        'b'
    } else if p == 12 {
        'a'
    } else if p == 13 {
        'k'
    } else if p == 14 {
        'c'
    } else {
        'p'
    }
}

fn push_rank(s: &mut String, cells: &Vec<u8>, r: usize)
    requires
        cells@.len() == 90,
        r < 10,
    ensures
        final(s)@ == old(s)@ + rank_text_acc(row_of(cells@, r as int), 0),
{
    let ghost row = row_of(cells@, r as int);
    let ghost target = old(s)@ + rank_text_acc(row, 0);
    let mut run: u8 = 0;
    let mut c: usize = 0;
    assert(row.skip(0) =~= row);
    while c < 9
        invariant
            cells@.len() == 90,
            r < 10,
            row == row_of(cells@, r as int),
            c <= 9,
            run as int <= c,
            s@ + rank_text_acc(row.skip(c as int), run as nat) == target,
        decreases 9 - c,
    {
        let p = cells[r * 9 + c];
        assert(row.skip(c as int)[0] == p);
        assert(row.skip(c as int).drop_first() =~= row.skip(c as int + 1));
        if p == 0 {
            run = run + 1;
        } else {
            let ghost before = s@;
            push_run(s, run);
            push_char(s, letter_of(p));
            assert(s@ =~= before + (run_text(run as nat) + seq![code_letter(p)]));
            run = 0;
        }
        c = c + 1;
    }
    assert(row.skip(9).len() == 0);
    push_run(s, run);
}

impl Board90 {
    /// The FEN of this board with `side` to move, as [`spec_to_fen`] writes it.
    pub fn to_fen(&self, side: Side) -> (r: String)
        requires
            self.wf(),
        ensures
            r@ == spec_to_fen(self.cells@, side),
    {
        let mut s = String::new();
        let mut r: usize = 0;
        while r < 9
            invariant
                self.wf(),
                r <= 9,
                s@ + board_text(self.cells@, r as int) == board_text(self.cells@, 0),
            decreases 9 - r,
        {
            let ghost before = s@;
            push_rank(&mut s, &self.cells, r);
            push_char(&mut s, '/');
            assert(s@ + board_text(self.cells@, r + 1) =~= before + board_text(self.cells@, r as int));
            r = r + 1;
        }
        push_rank(&mut s, &self.cells, 9);
        if side.is_red() {
            push_str(&mut s, " w");
        } else {
            push_str(&mut s, " b");
        }
        push_str(&mut s, " - - 0 1");
        s
    }

    /// The cells of the start position.
    pub open spec fn start_cells() -> Seq<u8> {
        Seq::new(90, |i: int| start_code(i / 9, i % 9))
    }

    /// The start position.
    pub fn startpos() -> (r: Board90)
        ensures
            r.wf(),
            r.cells@ == Board90::start_cells(),
    {
        let mut cells: Vec<u8> = Vec::new();
        let mut i: usize = 0;
        while i < 90
            invariant
                i <= 90,
                cells@.len() == i,
                forall|j: int| 0 <= j < i ==> #[trigger] cells@[j] == start_code(j / 9, j % 9),
            decreases 90 - i,
        {
            cells.push(start_code_exec(i / 9, i % 9));
            i = i + 1;
        }
        assert(cells@ =~= Board90::start_cells());
        Board90 { cells }
    }
}

/// The piece on row `r`, column `c` of the start position.
pub open spec fn start_code(r: int, c: int) -> u8 {
    let back: u8 = if c == 0 || c == 8 {
        1
    } else if c == 1 || c == 7 {
        2
    } else if c == 2 || c == 6 {
        3
    } else if c == 3 || c == 5 {
        4
    } else {
        5
    };
    if r == 0 {
        (back + 8) as u8
    } else if r == 9 {
        back
    } else if r == 2 && (c == 1 || c == 7) {
        14
    } else if r == 7 && (c == 1 || c == 7) {
        6
    } else if r == 3 && c % 2 == 0 {
        15
    } else if r == 6 && c % 2 == 0 {
        7
    } else {
        0
    }
}

fn start_code_exec(r: usize, c: usize) -> (p: u8)
    ensures
        p == start_code(r as int, c as int),
{
    let back: u8 = if c == 0 || c == 8 {
        1
    } else if c == 1 || c == 7 {
        2
    } else if c == 2 || c == 6 {
        3
    } else if c == 3 || c == 5 {
        4
    } else {
        5
    };
    if r == 0 {
        back + 8
    } else if r == 9 {
        back
    } else if r == 2 && (c == 1 || c == 7) {
        14
    } else if r == 7 && (c == 1 || c == 7) {
        6
    } else if r == 3 && c % 2 == 0 {
        15
    } else if r == 6 && c % 2 == 0 {
        7
    } else {
        0
    }
}

/// The text of a square: the file letter and the rank digit (row 0 is rank 9).
pub open spec fn square_label(file: int, rank: int) -> Seq<char> {
    seq![('a' as int + file) as char, ('0' as int + (9 - rank)) as char]
}

/// The move text from (`from_rank`, `from_file`) to (`to_rank`, `to_file`).
pub fn uci_from_coords(from_rank: usize, from_file: usize, to_rank: usize, to_file: usize) -> (r: String)
    requires
        from_rank < 10,
        from_file < 9,
        to_rank < 10,
        to_file < 9,
    ensures
        r@ == square_label(from_file as int, from_rank as int) + square_label(to_file as int, to_rank as int),
{
    let mut s = String::new();
    push_char(&mut s, (97u8 + from_file as u8) as char);
    push_char(&mut s, (48u8 + (9 - from_rank) as u8) as char);
    push_char(&mut s, (97u8 + to_file as u8) as char);
    push_char(&mut s, (48u8 + (9 - to_rank) as u8) as char);
    assert(s@ =~= square_label(from_file as int, from_rank as int) + square_label(to_file as int, to_rank as int));
    s
}

/// The text of the square at `file` and `rank` (row from the top).
pub fn uci_cell_label(file: u8, rank: u8) -> (r: String)
    requires
        file < 9,
        rank < 10,
    ensures
        r@ == square_label(file as int, rank as int),
{
    let mut s = String::new();
    push_char(&mut s, (97u8 + file) as char);
    push_char(&mut s, (48u8 + (9 - rank)) as char);
    assert(s@ =~= square_label(file as int, rank as int));
    s
}

/// The coordinates of a move text `[a-i][0-9][a-i][0-9]`: from row, from
/// column, to row, to column (row 0 is rank 9).
pub open spec fn spec_parse_uci_coords(u: Seq<char>) -> Option<(usize, usize, usize, usize)> {
    if u.len() == 4 && 'a' <= u[0] <= 'i' && '0' <= u[1] <= '9' && 'a' <= u[2] <= 'i' && '0' <= u[3] <= '9' {
        Some(
            (
                (9 - (u[1] as int - '0' as int)) as usize,
                (u[0] as int - 'a' as int) as usize,
                (9 - (u[3] as int - '0' as int)) as usize,
                (u[2] as int - 'a' as int) as usize,
            ),
        )
    } else {
        None
    }
}

/// The coordinates of a move text, as [`spec_parse_uci_coords`] reads them.
pub fn parse_uci_coords(uci: &str) -> (r: Option<(usize, usize, usize, usize)>)
    ensures
        r == spec_parse_uci_coords(uci@),
{
    let u = chars_of(uci);
    if u.len() != 4 {
        return None;
    }
    if !('a' <= u[0] && u[0] <= 'i' && '0' <= u[1] && u[1] <= '9' && 'a' <= u[2] && u[2] <= 'i'
        && '0' <= u[3] && u[3] <= '9') {
        return None;
    }
    let r1: usize = 9 - ((u[1] as u32) - 48) as usize;
    let c1: usize = ((u[0] as u32) - 97) as usize;
    let r2: usize = 9 - ((u[3] as u32) - 48) as usize;
    let c2: usize = ((u[2] as u32) - 97) as usize;
    Some((r1, c1, r2, c2))
}

/// Board coordinates of a screen cell: unchanged, or turned half a circle
/// when the board is shown rotated.
pub open spec fn spec_flip(file: int, row: int, rotated: bool) -> (u8, u8) {
    if rotated {
        ((8 - file) as u8, (9 - row) as u8)
    } else {
        (file as u8, row as u8)
    }
}

/// The board cell shown at screen `file` and `screen_row`.
pub fn screen_to_internal(file: u8, screen_row: u8, rotated: bool) -> (r: (u8, u8))
    requires
        file <= 8,
        screen_row <= 9,
    ensures
        r == spec_flip(file as int, screen_row as int, rotated),
{
    if rotated {
        (8 - file, 9 - screen_row)
    } else {
        (file, screen_row)
    }
}

/// The screen cell that shows board `file` and `rank`.
pub fn internal_to_screen(file: u8, rank: u8, rotated: bool) -> (r: (u8, u8))
    requires
        file <= 8,
        rank <= 9,
    ensures
        r == spec_flip(file as int, rank as int, rotated),
{
    if rotated {
        (8 - file, 9 - rank)
    } else {
        (file, rank)
    }
}

/// Turning the view twice gives the cell back.
pub proof fn lemma_flip_involution(file: int, row: int, rotated: bool)
    requires
        0 <= file <= 8,
        0 <= row <= 9,
    ensures
        spec_flip(spec_flip(file, row, rotated).0 as int, spec_flip(file, row, rotated).1 as int, rotated)
            == (file as u8, row as u8),
{
}

/// A character that FEN ranks are written with: a count of empty cells or a
/// piece letter.
pub open spec fn rank_char(c: char) -> bool {
    ('1' <= c && c <= '9') || fen_piece_code(c) is Some
}

proof fn lemma_letter_code(p: u8)
    requires
        valid_code(p),
        p != 0,
    ensures
        fen_piece_code(code_letter(p)) == Some(p),
{
}

proof fn lemma_run_text(run: nat)
    requires
        run <= 9,
    ensures
        rank_cells(run_text(run)) == Some(zeros(run)),
        forall|i: int| 0 <= i < run_text(run).len() ==> rank_char(#[trigger] run_text(run)[i]),
{
    if run == 0 {
        assert(zeros(0) =~= Seq::<u8>::empty());
    } else {
        let t = run_text(run);
        let c = (48 + run) as char;
        assert(c as int == 48 + run);
        assert(t.drop_last() =~= Seq::<char>::empty());
        assert(rank_cells(Seq::<char>::empty()) == Some(Seq::<u8>::empty()));
        assert(t.last() == c);
        assert('1' <= c && c <= '9');
        assert(Seq::<u8>::empty() + zeros(run) =~= zeros(run));
    }
}

/// Reading two texts one after the other gives the cells of both.
proof fn lemma_rank_cells_concat(a: Seq<char>, b: Seq<char>)
    requires
        rank_cells(a) is Some,
        rank_cells(b) is Some,
    ensures
        rank_cells(a + b) == Some(rank_cells(a)->0 + rank_cells(b)->0),
    decreases b.len(),
{
    if b.len() == 0 {
        assert(a + b =~= a);
        assert(rank_cells(a)->0 + rank_cells(b)->0 =~= rank_cells(a)->0);
    } else {
        assert((a + b).drop_last() =~= a + b.drop_last());
        assert((a + b).last() == b.last());
        lemma_rank_cells_concat(a, b.drop_last());
        let x = rank_cells(a)->0;
        let y = rank_cells(b.drop_last())->0;
        let c = b.last();
        if '1' <= c && c <= '9' {
            let z = zeros((c as int - '0' as int) as nat);
            assert(x + y + z =~= x + (y + z));
        } else {
            let q = fen_piece_code(c)->0;
            assert((x + y).push(q) =~= x + y.push(q));
        }
    }
}

/// The text written for a rank (with `run` empty cells before it) is read
/// back as those cells, and uses only rank characters.
proof fn lemma_rank_text_reads_back(row: Seq<u8>, run: nat)
    requires
        run + row.len() <= 9,
        forall|i: int| 0 <= i < row.len() ==> valid_code(#[trigger] row[i]),
    ensures
        rank_cells(rank_text_acc(row, run)) == Some(zeros(run) + row),
        forall|i: int|
            0 <= i < rank_text_acc(row, run).len() ==> rank_char(#[trigger] rank_text_acc(row, run)[i]),
    decreases row.len(),
{
    if row.len() == 0 {
        lemma_run_text(run);
        assert(zeros(run) + row =~= zeros(run));
    } else if row[0] == 0 {
        let rest = row.drop_first();
        lemma_rank_text_reads_back(rest, run + 1);
        assert(zeros(run + 1) + rest =~= zeros(run) + row);
    } else {
        let rest = row.drop_first();
        let p = row[0];
        lemma_run_text(run);
        lemma_letter_code(p);
        lemma_rank_text_reads_back(rest, 0);
        let l = seq![code_letter(p)];
        assert(l.drop_last() =~= Seq::<char>::empty());
        assert(rank_cells(l) == Some(seq![p])) by {
            assert(rank_cells(Seq::<char>::empty()) == Some(Seq::<u8>::empty()));
            assert(l.last() == code_letter(p));
            assert(!('1' <= code_letter(p) && code_letter(p) <= '9'));
            assert(Seq::<u8>::empty().push(p) =~= seq![p]);
        }
        lemma_rank_cells_concat(run_text(run), l);
        lemma_rank_cells_concat(run_text(run) + l, rank_text_acc(rest, 0));
        assert(zeros(run) + seq![p] + (zeros(0) + rest) =~= zeros(run) + row);
        let t = rank_text_acc(row, run);
        assert(t =~= run_text(run) + l + rank_text_acc(rest, 0));
        assert forall|i: int| 0 <= i < t.len() implies rank_char(#[trigger] t[i]) by {
            if i < run_text(run).len() {
                assert(t[i] == run_text(run)[i]);
            } else if i == run_text(run).len() {
                assert(t[i] == code_letter(p));
            } else {
                assert(t[i] == rank_text_acc(rest, 0)[i - run_text(run).len() - 1]);
            }
        }
    }
}

/// Text without the separator continues the current piece.
proof fn lemma_split_char_piece(a: Seq<char>, rest: Seq<char>, c: char, cur: Seq<char>, acc: Seq<Seq<char>>)
    requires
        forall|i: int| 0 <= i < a.len() ==> a[i] != c,
    ensures
        split_char_from(a + rest, c, cur, acc) == split_char_from(rest, c, cur + a, acc),
    decreases a.len(),
{
    if a.len() == 0 {
        assert(a + rest =~= rest);
        assert(cur + a =~= cur);
    } else {
        assert((a + rest).drop_first() =~= a.drop_first() + rest);
        assert((a + rest)[0] == a[0]);
        lemma_split_char_piece(a.drop_first(), rest, c, cur.push(a[0]), acc);
        assert(cur.push(a[0]) + a.drop_first() =~= cur + a);
    }
}

/// The FEN text of row `r` of a board.
pub open spec fn rank_text(cells: Seq<u8>, r: int) -> Seq<char> {
    rank_text_acc(row_of(cells, r), 0)
}

proof fn lemma_row_text(cells: Seq<u8>, r: int)
    requires
        cells.len() == 90,
        forall|i: int| 0 <= i < 90 ==> valid_code(#[trigger] cells[i]),
        0 <= r < 10,
    ensures
        rank_cells(rank_text(cells, r)) == Some(row_of(cells, r)),
        forall|i: int| 0 <= i < rank_text(cells, r).len() ==> rank_char(#[trigger] rank_text(cells, r)[i]),
{
    let row = row_of(cells, r);
    assert forall|i: int| 0 <= i < row.len() implies valid_code(#[trigger] row[i]) by {
        assert(row[i] == cells[r * 9 + i]);
    }
    lemma_rank_text_reads_back(row, 0);
    assert(zeros(0) + row =~= row);
}

/// Splitting the board text of rows `r` to 9 at `/` gives their rank texts.
proof fn lemma_board_text_split(cells: Seq<u8>, r: int, acc: Seq<Seq<char>>)
    requires
        cells.len() == 90,
        forall|i: int| 0 <= i < 90 ==> valid_code(#[trigger] cells[i]),
        0 <= r <= 9,
    ensures
        split_char_from(board_text(cells, r), '/', Seq::empty(), acc) == acc + Seq::new(
            (10 - r) as nat,
            |i: int| rank_text(cells, r + i),
        ),
    decreases 10 - r,
{
    let t = rank_text(cells, r);
    lemma_row_text(cells, r);
    assert forall|i: int| 0 <= i < t.len() implies t[i] != '/' by {
        assert(rank_char(t[i]));
    }
    if r == 9 {
        assert(board_text(cells, 9) =~= t + Seq::<char>::empty());
        lemma_split_char_piece(t, Seq::empty(), '/', Seq::empty(), acc);
        assert(Seq::<char>::empty() + t =~= t);
        assert(acc.push(t) =~= acc + Seq::new(1, |i: int| rank_text(cells, 9 + i)));
    } else {
        let tail = seq!['/'] + board_text(cells, r + 1);
        assert(board_text(cells, r) =~= t + tail);
        lemma_split_char_piece(t, tail, '/', Seq::empty(), acc);
        assert(Seq::<char>::empty() + t =~= t);
        assert(tail.drop_first() =~= board_text(cells, r + 1));
        lemma_board_text_split(cells, r + 1, acc.push(t));
        assert(acc.push(t) + Seq::new((10 - (r + 1)) as nat, |i: int| rank_text(cells, r + 1 + i)) =~= acc
            + Seq::new((10 - r) as nat, |i: int| rank_text(cells, r + i)));
    }
}

/// The rank texts of the first `k` rows read back as their cells.
proof fn lemma_ranks_read_back(cells: Seq<u8>, k: int)
    requires
        cells.len() == 90,
        forall|i: int| 0 <= i < 90 ==> valid_code(#[trigger] cells[i]),
        0 <= k <= 10,
    ensures
        ranks_cells(Seq::new(k as nat, |i: int| rank_text(cells, i))) == Some(cells.take(9 * k)),
    decreases k,
{
    let texts = Seq::new(k as nat, |i: int| rank_text(cells, i));
    if k == 0 {
        assert(cells.take(0) =~= Seq::<u8>::empty());
    } else {
        assert(texts.drop_last() =~= Seq::new((k - 1) as nat, |i: int| rank_text(cells, i)));
        lemma_ranks_read_back(cells, k - 1);
        lemma_row_text(cells, k - 1);
        assert(cells.take(9 * (k - 1)) + row_of(cells, k - 1) =~= cells.take(9 * k));
    }
}

/// Text without whitespace continues the current word.
proof fn lemma_split_ws_word(a: Seq<char>, rest: Seq<char>, cur: Seq<char>, acc: Seq<Seq<char>>)
    requires
        forall|i: int| 0 <= i < a.len() ==> !is_ws(#[trigger] a[i]),
    ensures
        split_ws_from(a + rest, cur, acc) == split_ws_from(rest, cur + a, acc),
    decreases a.len(),
{
    if a.len() == 0 {
        assert(a + rest =~= rest);
        assert(cur + a =~= cur);
    } else {
        assert((a + rest).drop_first() =~= a.drop_first() + rest);
        assert((a + rest)[0] == a[0]);
        lemma_split_ws_word(a.drop_first(), rest, cur.push(a[0]), acc);
        assert(cur.push(a[0]) + a.drop_first() =~= cur + a);
    }
}

/// The words found so far stay at the front.
proof fn lemma_split_ws_keeps(s: Seq<char>, cur: Seq<char>, acc: Seq<Seq<char>>)
    ensures
        split_ws_from(s, cur, acc).len() >= acc.len(),
        split_ws_from(s, cur, acc).take(acc.len() as int) == acc,
    decreases s.len(),
{
    if s.len() == 0 {
        assert(acc.push(cur).take(acc.len() as int) =~= acc);
    } else if is_ws(s[0]) {
        let next = if cur.len() > 0 {
            acc.push(cur)
        } else {
            acc
        };
        lemma_split_ws_keeps(s.drop_first(), Seq::empty(), next);
        assert(split_ws_from(s, cur, acc).take(next.len() as int).take(acc.len() as int) =~= split_ws_from(
            s,
            cur,
            acc,
        ).take(acc.len() as int));
        assert(next.take(acc.len() as int) =~= acc);
    } else {
        lemma_split_ws_keeps(s.drop_first(), cur.push(s[0]), acc);
    }
}

/// Reading back a written FEN gives the same position: for a board of
/// ninety valid cells and either side to move, the FEN that
/// [`Board90::to_fen`] writes is read by [`Board90::from_fen_with_side`] as
/// that board and that side.
pub proof fn lemma_fen_round_trip(cells: Seq<u8>, side: Side)
    requires
        cells.len() == 90,
        forall|i: int| 0 <= i < 90 ==> valid_code(#[trigger] cells[i]),
    ensures
        spec_from_fen(spec_to_fen(cells, side)) == Some((cells, side)),
{
    let b = board_text(cells, 0);
    reveal_strlit(" w");
    reveal_strlit(" b");
    reveal_strlit(" - - 0 1");
    reveal_strlit("w");
    reveal_strlit("W");
    reveal_strlit("r");
    reveal_strlit("R");
    // The board field splits into its ten rank texts and reads back as the cells.
    lemma_board_text_split(cells, 0, Seq::empty());
    let texts = Seq::new(10, |i: int| rank_text(cells, i));
    assert(split_char(b, '/') =~= texts);
    lemma_ranks_read_back(cells, 10);
    assert(cells.take(90) =~= cells);
    assert(board_cells(b) == Some(cells));
    // The board field holds no whitespace, so it is the first word.
    assert forall|i: int| 0 <= i < b.len() implies !is_ws(#[trigger] b[i]) by {
        lemma_board_chars(cells, 0, i);
    }
    let letter = if side == Side::Red {
        'w'
    } else {
        'b'
    };
    let tail = seq![' ', letter, ' ', '-', ' ', '-', ' ', '0', ' ', '1'];
    assert(spec_to_fen(cells, side) =~= b + tail);
    lemma_split_ws_word(b, tail, Seq::empty(), Seq::empty());
    assert(Seq::<char>::empty() + b =~= b);
    assert(b.len() > 0) by {
        lemma_board_text_len(cells, 0);
    }
    let after_space = tail.drop_first();
    assert(after_space =~= seq![letter] + after_space.drop_first());
    lemma_split_ws_word(seq![letter], after_space.drop_first(), Seq::empty(), seq![b]);
    assert(Seq::<char>::empty() + seq![letter] =~= seq![letter]);
    let rest = after_space.drop_first();
    assert(is_ws(rest[0]));
    lemma_split_ws_keeps(rest.drop_first(), Seq::empty(), seq![b, seq![letter]]);
    assert(seq![b].push(seq![letter]) =~= seq![b, seq![letter]]);
    let words = split_ws(spec_to_fen(cells, side));
    assert(words.take(2) =~= seq![b, seq![letter]]);
    assert(words[0] == b);
    assert(words[1] == seq![letter]);
    if side == Side::Red {
        assert(words[1] =~= "w"@);
    } else {
        assert(words[1] != "w"@ && words[1] != "W"@ && words[1] != "r"@ && words[1] != "R"@) by {
            assert(words[1][0] == 'b');
        }
    }
}

proof fn lemma_board_text_len(cells: Seq<u8>, r: int)
    requires
        0 <= r,
    ensures
        board_text(cells, r).len() > 0 || r >= 9,
{
    if r < 9 {
        assert(board_text(cells, r) == rank_text_acc(row_of(cells, r), 0) + seq!['/'] + board_text(cells, r + 1));
    }
}

/// The board text of rows `r` to 9 holds rank characters and `/` only.
proof fn lemma_board_chars(cells: Seq<u8>, r: int, i: int)
    requires
        cells.len() == 90,
        forall|j: int| 0 <= j < 90 ==> valid_code(#[trigger] cells[j]),
        0 <= r <= 9,
        0 <= i < board_text(cells, r).len(),
    ensures
        !is_ws(board_text(cells, r)[i]),
    decreases 10 - r,
{
    lemma_row_text(cells, r);
    let t = rank_text(cells, r);
    if r == 9 {
        assert(rank_char(t[i]));
    } else {
        let bt = board_text(cells, r);
        assert(bt == t + seq!['/'] + board_text(cells, r + 1));
        if i < t.len() {
            assert(bt[i] == t[i]);
            assert(rank_char(t[i]));
        } else if i == t.len() {
            assert(bt[i] == '/');
        } else {
            assert(bt[i] == board_text(cells, r + 1)[i - t.len() - 1]);
            lemma_board_chars(cells, r + 1, i - t.len() - 1);
        }
    }
}

/// A FEN that reads gives a full board: ninety cells, each empty or a piece.
pub proof fn lemma_from_fen_cells(fen: Seq<char>)
    ensures
        spec_from_fen(fen) matches Some((cells, _)) ==> cells.len() == 90 && forall|i: int|
            0 <= i < 90 ==> valid_code(#[trigger] cells[i]),
{
    let words = split_ws(fen);
    if words.len() > 0 {
        lemma_ranks_cells_valid(split_char(words[0], '/'));
    }
}

} // verus!
