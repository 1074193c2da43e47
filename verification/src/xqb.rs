use vstd::prelude::*;

use crate::book::{BookCandidate, BookResponse, CandidateView, Ratio, cand_views, spec_with_move_eval};
use crate::text::{chars_of, decimal_nat, push_char, push_decimal_u64};

verus! {

/// First position at or after `i` holding `c`.
pub open spec fn find_char(s: Seq<char>, c: char, i: int) -> Option<int>
    decreases s.len() - i,
{
    if i < 0 || i >= s.len() {
        None
    } else if s[i] == c {
        Some(i)
    } else {
        find_char(s, c, i + 1)
    }
}

/// The board part of a FEN: everything before the first space.
pub open spec fn fen_board(fen: Seq<char>) -> Seq<char> {
    match find_char(fen, ' ', 0) {
        Some(i) => fen.take(i),
        None => fen,
    }
}

/// The side-to-move letter: first character after the first space, if any.
pub open spec fn fen_turn(fen: Seq<char>) -> Option<char> {
    match find_char(fen, ' ', 0) {
        Some(i) => if i + 1 < fen.len() && fen[i + 1] != ' ' { Some(fen[i + 1]) } else { None },
        None => None,
    }
}

/// Number of `/` in `s`.
pub open spec fn count_slashes(s: Seq<char>) -> nat
    decreases s.len(),
{
    if s.len() == 0 {
        0
    } else {
        count_slashes(s.drop_last()) + if s.last() == '/' { 1nat } else { 0nat }
    }
}

/// Width of a FEN rank text: digits count as that many cells, other characters as one.
pub open spec fn rank_width(s: Seq<char>) -> nat
    decreases s.len(),
{
    if s.len() == 0 {
        0
    } else {
        rank_width(s.drop_last()) + if '0' <= s.last() && s.last() <= '9' {
            (s.last() as int - '0' as int) as nat
        } else {
            1nat
        }
    }
}

/// Rows of the board (one more than its `/`) and columns (width of its first rank).
pub open spec fn spec_rows_cols(fen: Seq<char>) -> (nat, nat) {
    let board = fen_board(fen);
    let first_rank = match find_char(board, '/', 0) {
        Some(i) => board.take(i),
        None => board,
    };
    (count_slashes(board) + 1, rank_width(first_rank))
}

pub(crate) proof fn lemma_find_char_bounds(s: Seq<char>, c: char, i: int)
    ensures
        find_char(s, c, i) matches Some(j) ==> i <= j < s.len() && s[j] == c && forall|k: int| i <= k < j ==> s[k] != c,
        find_char(s, c, i) is None ==> forall|k: int| 0 <= i <= k < s.len() ==> s[k] != c,
    decreases s.len() - i,
{
    if 0 <= i < s.len() && s[i] != c {
        lemma_find_char_bounds(s, c, i + 1);
    }
}

pub(crate) fn find_char_exec(s: &[char], c: char) -> (r: Option<usize>)
    ensures
        r matches Some(i) ==> find_char(s@, c, 0) == Some(i as int),
        r is None ==> find_char(s@, c, 0) is None,
{
    let mut i: usize = 0;
    while i < s.len()
        invariant
            i <= s@.len(),
            find_char(s@, c, 0) == find_char(s@, c, i as int),
        decreases s.len() - i,
    {
        if s[i] == c {
            return Some(i);
        }
        i = i + 1;
    }
    None
}

pub(crate) fn take_chars(s: &[char], n: usize) -> (r: Vec<char>)
    requires
        n <= s@.len(),
    ensures
        r@ == s@.take(n as int),
{
    let mut r: Vec<char> = Vec::new();
    let mut i: usize = 0;
    while i < n
        invariant
            i <= n <= s@.len(),
            r@ == s@.take(i as int),
        decreases n - i,
    {
        r.push(s[i]);
        i = i + 1;
        assert(r@ =~= s@.take(i as int));
    }
    r
}

/// Board part of a FEN.
fn board_chars(fen: &[char]) -> (r: Vec<char>)
    ensures
        r@ == fen_board(fen@),
{
    match find_char_exec(fen, ' ') {
        Some(i) => {
            proof {
                lemma_find_char_bounds(fen@, ' ', 0);
            }
            take_chars(fen, i)
        },
        None => {
            let mut r: Vec<char> = Vec::new();
            let mut k: usize = 0;
            while k < fen.len()
                invariant
                    k <= fen@.len(),
                    r@ == fen@.take(k as int),
                decreases fen.len() - k,
            {
                r.push(fen[k]);
                k = k + 1;
                assert(r@ =~= fen@.take(k as int));
            }
            assert(fen@.take(fen@.len() as int) =~= fen@);
            r
        },
    }
}

/// Rows and columns of the board described by `fen`.
pub fn get_rows_and_cols(fen: &str) -> (r: (usize, usize))
    requires
        fen@.len() <= usize::MAX / 16,
    ensures
        r.0 as nat == spec_rows_cols(fen@).0,
        r.1 as nat == spec_rows_cols(fen@).1,
{
    let f = chars_of(fen);
    rows_cols_chars(f.as_slice())
}

fn rows_cols_chars(f: &[char]) -> (r: (usize, usize))
    requires
        f@.len() <= usize::MAX / 16,
    ensures
        r.0 as nat == spec_rows_cols(f@).0,
        r.1 as nat == spec_rows_cols(f@).1,
{
    let board = board_chars(f);
    proof {
        lemma_find_char_bounds(f@, ' ', 0);
    }
    let ghost b = board@;
    let mut rows: usize = 1;
    let mut cols: usize = 0;
    let mut calc_cols = true;
    let mut i: usize = 0;
    let ghost slash = find_char(b, '/', 0);
    proof {
        lemma_find_char_bounds(b, '/', 0);
    }
    while i < board.len()
        invariant
            b == board@,
            b.len() <= usize::MAX / 16,
            i <= b.len(),
            slash == find_char(b, '/', 0),
            slash matches Some(j) ==> 0 <= j < b.len() && b[j] == '/' && forall|k: int| 0 <= k < j ==> b[k] != '/',
            slash is None ==> forall|k: int| 0 <= k < b.len() ==> b[k] != '/',
            rows as nat == count_slashes(b.take(i as int)) + 1,
            rows <= i + 1,
            calc_cols == match slash {
                Some(j) => i <= j,
                None => true,
            },
            cols as nat == rank_width(b.take(match slash {
                Some(j) => if i <= j { i as int } else { j },
                None => i as int,
            })),
            cols <= 9 * i,
        decreases b.len() - i,
    {
        let ch = board[i];
        assert(b.take(i as int + 1).drop_last() =~= b.take(i as int));
        if ch == '/' {
            rows = rows + 1;
            calc_cols = false;
        } else if calc_cols {
            if '0' <= ch && ch <= '9' {
                cols = cols + ((ch as u32) - 48) as usize;
            } else {
                cols = cols + 1;
            }
        }
        i = i + 1;
    }
    assert(b.take(b.len() as int) =~= b);
    (rows, cols)
}

/// `ch` with its ASCII letter case swapped when black is to move (the key is
/// always taken from the mover's point of view).
pub open spec fn turn_case(turn: char, ch: char) -> char {
    if turn == 'b' && (('a' <= ch && ch <= 'z') || ('A' <= ch && ch <= 'Z')) {
        (((ch as u8) ^ 0x20u8) as u8) as char
    } else {
        ch
    }
}

/// Piece code of a FEN letter: `X`/`x` 0, `RNBAKCP` 1 to 7, `rnbakcp` 9 to 15.
pub open spec fn piece_code(c: char) -> Option<u8> {
    if c == 'X' || c == 'x' {
        Some(0)
    } else if c == 'R' {
        Some(1)
    } else if c == 'N' {
        Some(2)
    } else if c == 'B' {
        Some(3)
    } else if c == 'A' {
        Some(4)
    } else if c == 'K' {
        Some(5)
    } else if c == 'C' {
        Some(6)
    } else if c == 'P' {
        Some(7)
    } else if c == 'r' {
        Some(9)
    } else if c == 'n' {
        Some(10)
    } else if c == 'b' {
        Some(11)
    } else if c == 'a' {
        Some(12)
    } else if c == 'k' {
        Some(13)
    } else if c == 'c' {
        Some(14)
    } else if c == 'p' {
        Some(15)
    } else {
        None
    }
}

pub open spec fn spec_map_piece(turn: char, ch: char) -> Option<u8> {
    piece_code(turn_case(turn, ch))
}

/// The piece codes of the book format: `R N B A K C P` are 1 to 7 in that
/// order, `r n b a k c p` 9 to 15, `X`/`x` 0, any other character none. Seen
/// from black the colours trade codes; seen from red they are as written.
pub proof fn lemma_piece_codes()
    ensures
        forall|i: int|
            0 <= i < 7 ==> {
                &&& piece_code(#[trigger] "RNBAKCP"@[i]) == Some((i + 1) as u8)
                &&& piece_code("rnbakcp"@[i]) == Some((i + 9) as u8)
                &&& spec_map_piece('w', "RNBAKCP"@[i]) == Some((i + 1) as u8)
                &&& spec_map_piece('w', "rnbakcp"@[i]) == Some((i + 9) as u8)
                &&& spec_map_piece('b', "RNBAKCP"@[i]) == Some((i + 9) as u8)
                &&& spec_map_piece('b', "rnbakcp"@[i]) == Some((i + 1) as u8)
            },
        piece_code('X') == Some(0u8),
        piece_code('x') == Some(0u8),
        forall|ch: char| !"RNBAKCPXrnbakcpx"@.contains(ch) ==> piece_code(ch) is None,
{
    reveal_strlit("RNBAKCP");
    reveal_strlit("rnbakcp");
    reveal_strlit("RNBAKCPXrnbakcpx");
    let up = "RNBAKCP"@;
    let lo = "rnbakcp"@;
    assert forall|i: int|
        0 <= i < 7 implies {
            &&& piece_code(#[trigger] up[i]) == Some((i + 1) as u8)
            &&& piece_code(lo[i]) == Some((i + 9) as u8)
            &&& spec_map_piece('w', up[i]) == Some((i + 1) as u8)
            &&& spec_map_piece('w', lo[i]) == Some((i + 9) as u8)
            &&& spec_map_piece('b', up[i]) == Some((i + 9) as u8)
            &&& spec_map_piece('b', lo[i]) == Some((i + 1) as u8)
        } by {
        let u = up[i];
        let l = lo[i];
        let xu = u as u8;
        let xl = l as u8;
        assert(u as int == xu as int && l as int == xl as int);
        assert(xu ^ 0x20u8 == xl && xl ^ 0x20u8 == xu) by (bit_vector)
            requires
                xl == xu + 32,
                65 <= xu <= 90,
        ;
    }
    let all = "RNBAKCPXrnbakcpx"@;
    assert forall|ch: char| !all.contains(ch) implies piece_code(ch) is None by {
        if piece_code(ch) is Some {
            let k: int = if ch == 'R' { 0 } else if ch == 'N' { 1 } else if ch == 'B' { 2 } else if ch == 'A' { 3 }
                else if ch == 'K' { 4 } else if ch == 'C' { 5 } else if ch == 'P' { 6 } else if ch == 'X' { 7 }
                else if ch == 'r' { 8 } else if ch == 'n' { 9 } else if ch == 'b' { 10 } else if ch == 'a' { 11 }
                else if ch == 'k' { 12 } else if ch == 'c' { 13 } else if ch == 'p' { 14 } else { 15 };
            assert(all[k] == ch);
        }
    }
}

/// The bits of a cell in the key: one `0` bit for an empty cell; for a piece
/// a `1` bit, then its code in four bits, most significant first.
pub proof fn lemma_cell_bits_code(cell: u8)
    requires
        cell == EMPTY_CELL || cell < 16,
    ensures
        cell == EMPTY_CELL ==> cell_bits(cell) == seq![false],
        cell < 16 ==> {
            let b = cell_bits(cell);
            &&& b.len() == 5
            &&& b[0]
            &&& (if b[1] { 8int } else { 0 }) + (if b[2] { 4int } else { 0 }) + (if b[3] { 2int } else { 0 }) + (
            if b[4] { 1int } else { 0 }) == cell
        },
{
}

/// Piece code of `ch` seen from the side `turn`.
pub fn map_piece(turn: char, ch: char) -> (r: Option<u8>)
    ensures
        r == spec_map_piece(turn, ch),
{
    let mapped: char = if turn == 'b' && (('a' <= ch && ch <= 'z') || ('A' <= ch && ch <= 'Z')) {
        ((ch as u8) ^ 0x20u8) as char
    } else {
        ch
    };
    if mapped == 'X' || mapped == 'x' {
        Some(0)
    } else if mapped == 'R' {
        Some(1)
    } else if mapped == 'N' {
        Some(2)
    } else if mapped == 'B' {
        Some(3)
    } else if mapped == 'A' {
        Some(4)
    } else if mapped == 'K' {
        Some(5)
    } else if mapped == 'C' {
        Some(6)
    } else if mapped == 'P' {
        Some(7)
    } else if mapped == 'r' {
        Some(9)
    } else if mapped == 'n' {
        Some(10)
    } else if mapped == 'b' {
        Some(11)
    } else if mapped == 'a' {
        Some(12)
    } else if mapped == 'k' {
        Some(13)
    } else if mapped == 'c' {
        Some(14)
    } else if mapped == 'p' {
        Some(15)
    } else {
        None
    }
}

/// Marker of an empty cell in the key array.
pub const EMPTY_CELL: u8 = 255;

/// Fills the cell array from the board text `b` starting at cell `idx`:
/// `/` is skipped, a digit skips that many cells, a piece letter fills one
/// cell; `None` for an unknown letter or a piece past the last cell.
pub open spec fn fill_cells(b: Seq<char>, turn: char, size: int, idx: int, ary: Seq<u8>) -> Option<Seq<u8>>
    decreases b.len(),
{
    if b.len() == 0 {
        Some(ary)
    } else if b[0] == '/' {
        fill_cells(b.drop_first(), turn, size, idx, ary)
    } else if '0' <= b[0] && b[0] <= '9' {
        fill_cells(b.drop_first(), turn, size, idx + (b[0] as int - '0' as int), ary)
    } else {
        match spec_map_piece(turn, b[0]) {
            None => None,
            Some(v) => if idx >= size {
                None
            } else {
                fill_cells(b.drop_first(), turn, size, idx + 1, ary.update(idx, v))
            },
        }
    }
}

/// The cell array of a FEN of `size` cells, all empty before filling.
pub open spec fn initial_cells(size: int) -> Seq<u8> {
    Seq::new(size as nat, |i: int| EMPTY_CELL)
}

fn fill_cells_exec(b: &[char], turn: char, size: usize) -> (r: Option<Vec<u8>>)
    requires
        b@.len() <= usize::MAX / 16,
    ensures
        r matches Some(v) ==> v@.len() == size,
        r matches Some(v) ==> fill_cells(b@, turn, size as int, 0, initial_cells(size as int)) == Some(v@),
        r is None ==> fill_cells(b@, turn, size as int, 0, initial_cells(size as int)) is None,
{
    let mut ary: Vec<u8> = Vec::new();
    let mut k: usize = 0;
    while k < size
        invariant
            k <= size,
            ary@ == initial_cells(size as int).take(k as int),
        decreases size - k,
    {
        ary.push(EMPTY_CELL);
        k = k + 1;
        assert(ary@ =~= initial_cells(size as int).take(k as int));
    }
    assert(initial_cells(size as int).take(size as int) =~= initial_cells(size as int));
    let mut index: usize = 0;
    let mut i: usize = 0;
    assert(b@.skip(0) =~= b@);
    while i < b.len()
        invariant
            i <= b@.len(),
            b@.len() <= usize::MAX / 16,
            index <= 9 * i,
            ary@.len() == size,
            fill_cells(b@, turn, size as int, 0, initial_cells(size as int)) == fill_cells(
                b@.skip(i as int),
                turn,
                size as int,
                index as int,
                ary@,
            ),
        decreases b.len() - i,
    {
        let ch = b[i];
        assert(b@.skip(i as int).drop_first() =~= b@.skip(i as int + 1));
        if ch == '/' {
        } else if '0' <= ch && ch <= '9' {
            index = index + ((ch as u32) - 48) as usize;
        } else {
            match map_piece(turn, ch) {
                None => return None,
                Some(v) => {
                    if index >= size {
                        return None;
                    }
                    ary.set(index, v);
                    index = index + 1;
                },
            }
        }
        i = i + 1;
    }
    Some(ary)
}

proof fn lemma_cell_index(r: int, c: int, rows: int, cols: int)
    requires
        0 <= r < rows,
        0 <= c < cols,
    ensures
        0 <= r * cols + c < rows * cols,
        (r * cols + c) / cols == r,
        (r * cols + c) % cols == c,
        0 <= (rows - 1 - r) * cols + (cols - 1 - c) < rows * cols,
{
    assert(0 <= r * cols + c < rows * cols) by (nonlinear_arith)
        requires
            0 <= r < rows,
            0 <= c < cols,
    ;
    assert(0 <= (rows - 1 - r) * cols + (cols - 1 - c) < rows * cols) by (nonlinear_arith)
        requires
            0 <= r < rows,
            0 <= c < cols,
    ;
    vstd::arithmetic::div_mod::lemma_fundamental_div_mod_converse(r * cols + c, cols, r, c);
}

/// The cells turned half a circle (rows mirrored from the outside in; with an
/// odd number of rows the middle row stays as it is).
pub open spec fn rotated(ary: Seq<u8>, rows: int, cols: int) -> Seq<u8> {
    Seq::new(
        ary.len(),
        |i: int|
            {
                let r = i / cols;
                let c = i % cols;
                if r < rows / 2 || r >= rows - rows / 2 {
                    ary[(rows - 1 - r) * cols + (cols - 1 - c)]
                } else {
                    ary[i]
                }
            },
    )
}

/// The cells mirrored left to right (with an odd number of columns the middle
/// column stays as it is).
pub open spec fn mirrored(ary: Seq<u8>, rows: int, cols: int) -> Seq<u8> {
    Seq::new(
        ary.len(),
        |i: int|
            {
                let r = i / cols;
                let c = i % cols;
                if c < cols / 2 || c >= cols - cols / 2 {
                    ary[r * cols + (cols - 1 - c)]
                } else {
                    ary[i]
                }
            },
    )
}

/// Rebuilds the cell array, taking each cell from the rotated or mirrored position.
fn remap_cells(ary: &Vec<u8>, rows: usize, cols: usize, rotate: bool) -> (r: Vec<u8>)
    requires
        ary@.len() == rows * cols,
    ensures
        rotate ==> r@ == rotated(ary@, rows as int, cols as int),
        !rotate ==> r@ == mirrored(ary@, rows as int, cols as int),
{
    let ghost target = if rotate {
        rotated(ary@, rows as int, cols as int)
    } else {
        mirrored(ary@, rows as int, cols as int)
    };
    let size = ary.len();
    let mut out: Vec<u8> = Vec::new();
    let mut k: usize = 0;
    let mut r: usize = 0;
    let mut c: usize = 0;
    while k < size
        invariant
            size == ary@.len(),
            size == rows * cols,
            k <= size,
            k == r * cols + c,
            k < size ==> r < rows && c < cols,
            out@ == target.take(k as int),
            target == if rotate {
                rotated(ary@, rows as int, cols as int)
            } else {
                mirrored(ary@, rows as int, cols as int)
            },
        decreases size - k,
    {
        proof {
            lemma_cell_index(r as int, c as int, rows as int, cols as int);
            lemma_cell_index(r as int, cols - 1 - c, rows as int, cols as int);
        }
        let v: u8 = if rotate {
            if r < rows / 2 || r >= rows - rows / 2 {
                ary[(rows - 1 - r) * cols + (cols - 1 - c)]
            } else {
                ary[k]
            }
        } else {
            if c < cols / 2 || c >= cols - cols / 2 {
                ary[r * cols + (cols - 1 - c)]
            } else {
                ary[k]
            }
        };
        out.push(v);
        assert(out@ =~= target.take(k as int + 1));
        k = k + 1;
        if c + 1 == cols {
            assert((r + 1) * cols == r * cols + cols) by (nonlinear_arith);
            r = r + 1;
            c = 0;
            proof {
                if k < size {
                    assert(r < rows) by (nonlinear_arith)
                        requires
                            k == r * cols,
                            k < rows * cols,
                            cols > 0,
                    ;
                }
            }
        } else {
            c = c + 1;
        }
    }
    assert(target.take(size as int) =~= target);
    out
}

/// Comparison value of a cell: an empty cell counts below every piece.
pub open spec fn order_value(cell: u8) -> int {
    if cell == EMPTY_CELL {
        -1
    } else {
        cell as int
    }
}

/// Whether to mirror left to right: at the first pair of mirror cells (row by
/// row, left half against right half) that differ, mirror when the right one
/// compares higher; never when all pairs agree.
pub open spec fn lr_scan(ary: Seq<u8>, rows: int, cols: int, r: int, c: int) -> bool
    decreases rows - r, cols / 2 - c,
{
    if r < 0 || r >= rows || c < 0 {
        false
    } else if c >= cols / 2 {
        lr_scan(ary, rows, cols, r + 1, 0)
    } else {
        let i1 = r * cols + c;
        let i2 = r * cols + (cols - 1 - c);
        if ary[i1] != ary[i2] {
            order_value(ary[i2]) > order_value(ary[i1])
        } else {
            lr_scan(ary, rows, cols, r, c + 1)
        }
    }
}

/// Whether some pair of mirror cells differs, from row `r`, column `c` on
/// (in the order [`lr_scan`] visits them).
pub open spec fn lr_differs(ary: Seq<u8>, rows: int, cols: int, r: int, c: int) -> bool
    decreases rows - r, cols / 2 - c,
{
    if r < 0 || r >= rows || c < 0 {
        false
    } else if c >= cols / 2 {
        lr_differs(ary, rows, cols, r + 1, 0)
    } else {
        let i1 = r * cols + c;
        let i2 = r * cols + (cols - 1 - c);
        if ary[i1] != ary[i2] {
            true
        } else {
            lr_differs(ary, rows, cols, r, c + 1)
        }
    }
}

/// The cells in the left-right orientation the key uses: mirrored when the
/// scan asks for it.
pub open spec fn lr_canonical(ary: Seq<u8>, rows: int, cols: int) -> Seq<u8> {
    if lr_scan(ary, rows, cols, 0, 0) {
        mirrored(ary, rows, cols)
    } else {
        ary
    }
}

pub(crate) proof fn lemma_row_index(r: int, c: int, cols: int)
    requires
        cols > 0,
        r >= 0,
        0 <= c < cols,
    ensures
        (r * cols + c) / cols == r,
        (r * cols + c) % cols == c,
        0 <= r * cols + c,
{
    vstd::arithmetic::div_mod::lemma_fundamental_div_mod_converse(r * cols + c, cols, r, c);
    assert(r * cols >= 0) by (nonlinear_arith)
        requires
            r >= 0,
            cols > 0,
    ;
}

pub(crate) proof fn lemma_cell_in_range(r: int, c: int, rows: int, cols: int)
    requires
        cols > 0,
        0 <= r < rows,
        0 <= c < cols,
    ensures
        0 <= r * cols + c < rows * cols,
{
    assert(0 <= r * cols + c < rows * cols) by (nonlinear_arith)
        requires
            cols > 0,
            0 <= r < rows,
            0 <= c < cols,
    ;
}

/// Mirror cells of a row trade places in the mirror image.
proof fn lemma_mirror_pair(a: Seq<u8>, rows: int, cols: int, r: int, c: int)
    requires
        cols > 0,
        a.len() == rows * cols,
        0 <= r < rows,
        0 <= c < cols / 2,
    ensures
        mirrored(a, rows, cols)[r * cols + c] == a[r * cols + (cols - 1 - c)],
        mirrored(a, rows, cols)[r * cols + (cols - 1 - c)] == a[r * cols + c],
{
    lemma_row_index(r, c, cols);
    lemma_row_index(r, cols - 1 - c, cols);
    lemma_cell_in_range(r, c, rows, cols);
    lemma_cell_in_range(r, cols - 1 - c, rows, cols);
}

/// The scan of the mirror image finds the same first differing pair and
/// decides the other way.
pub(crate) proof fn lemma_lr_scan_of_mirror(a: Seq<u8>, rows: int, cols: int, r: int, c: int)
    requires
        cols > 0,
        a.len() == rows * cols,
        r >= 0,
        c >= 0,
    ensures
        lr_differs(mirrored(a, rows, cols), rows, cols, r, c) == lr_differs(a, rows, cols, r, c),
        lr_scan(mirrored(a, rows, cols), rows, cols, r, c) == (lr_differs(a, rows, cols, r, c) && !lr_scan(
            a,
            rows,
            cols,
            r,
            c,
        )),
        lr_scan(a, rows, cols, r, c) ==> lr_differs(a, rows, cols, r, c),
    decreases rows - r, cols / 2 - c,
{
    if r >= rows {
    } else if c >= cols / 2 {
        lemma_lr_scan_of_mirror(a, rows, cols, r + 1, 0);
    } else {
        lemma_mirror_pair(a, rows, cols, r, c);
        let i1 = r * cols + c;
        let i2 = r * cols + (cols - 1 - c);
        if a[i1] == a[i2] {
            lemma_lr_scan_of_mirror(a, rows, cols, r, c + 1);
        }
    }
}

/// Without a differing pair from (`r`, `c`) on, every later pair is equal.
proof fn lemma_no_difference(a: Seq<u8>, rows: int, cols: int, r: int, c: int, r0: int, c0: int)
    requires
        cols > 0,
        a.len() == rows * cols,
        0 <= r,
        0 <= c,
        !lr_differs(a, rows, cols, r, c),
        0 <= r0 < rows,
        0 <= c0 < cols / 2,
        r < r0 || (r == r0 && c <= c0),
    ensures
        a[r0 * cols + c0] == a[r0 * cols + (cols - 1 - c0)],
    decreases rows - r, cols / 2 - c,
{
    if c >= cols / 2 {
        lemma_no_difference(a, rows, cols, r + 1, 0, r0, c0);
    } else if r == r0 && c == c0 {
    } else {
        lemma_no_difference(a, rows, cols, r, c + 1, r0, c0);
    }
}

/// Mirroring twice gives the cells back; cells with no differing mirror
/// pair are their own mirror image.
pub(crate) proof fn lemma_mirrored_facts(a: Seq<u8>, rows: int, cols: int)
    requires
        cols > 0,
        rows >= 0,
        a.len() == rows * cols,
    ensures
        mirrored(mirrored(a, rows, cols), rows, cols) == a,
        !lr_differs(a, rows, cols, 0, 0) ==> mirrored(a, rows, cols) == a,
{
    let m = mirrored(a, rows, cols);
    assert forall|i: int| 0 <= i < a.len() implies #[trigger] mirrored(m, rows, cols)[i] == a[i] && (!lr_differs(
        a,
        rows,
        cols,
        0,
        0,
    ) ==> m[i] == a[i]) by {
        let r = i / cols;
        let c = i % cols;
        vstd::arithmetic::div_mod::lemma_fundamental_div_mod(i, cols);
        assert(0 <= c < cols) by {
            vstd::arithmetic::div_mod::lemma_mod_bound(i, cols);
        }
        assert(r >= 0) by {
            vstd::arithmetic::div_mod::lemma_div_pos_is_pos(i, cols);
        }
        assert(i == r * cols + c) by (nonlinear_arith)
            requires
                i == cols * r + c,
        ;
        assert(r < rows) by (nonlinear_arith)
            requires
                i == r * cols + c,
                0 <= c,
                i < rows * cols,
                cols > 0,
        ;
        if c < cols / 2 {
            lemma_mirror_pair(a, rows, cols, r, c);
            lemma_mirror_pair(m, rows, cols, r, c);
            if !lr_differs(a, rows, cols, 0, 0) {
                lemma_no_difference(a, rows, cols, 0, 0, r, c);
            }
        } else if c >= cols - cols / 2 {
            let c2 = cols - 1 - c;
            lemma_mirror_pair(a, rows, cols, r, c2);
            lemma_mirror_pair(m, rows, cols, r, c2);
            if !lr_differs(a, rows, cols, 0, 0) {
                lemma_no_difference(a, rows, cols, 0, 0, r, c2);
            }
        } else {
            lemma_row_index(r, c, cols);
        }
    }
    assert(mirrored(m, rows, cols) =~= a);
    if !lr_differs(a, rows, cols, 0, 0) {
        assert(m =~= a);
    }
}

/// A board and its left-right mirror image give the same key cells: the
/// key takes the cells in the orientation the scan chooses, and the scan of
/// the mirror image chooses the other one.
pub proof fn lemma_mirror_same_key_cells(a: Seq<u8>, rows: int, cols: int)
    requires
        cols > 0,
        rows >= 0,
        a.len() == rows * cols,
    ensures
        lr_canonical(mirrored(a, rows, cols), rows, cols) == lr_canonical(a, rows, cols),
{
    lemma_lr_scan_of_mirror(a, rows, cols, 0, 0);
    lemma_mirrored_facts(a, rows, cols);
}

/// Row `r`, column `c` (in the left half) is where the cells and their
/// left-right mirror image first differ, reading row by row from (`r0`, `c0`):
/// the pair there differs and every pair read before it is equal.
pub open spec fn first_mirror_difference(a: Seq<u8>, rows: int, cols: int, r0: int, c0: int, r: int, c: int) -> bool {
    &&& 0 <= r < rows
    &&& 0 <= c < cols / 2
    &&& (r0 < r || (r0 == r && c0 <= c))
    &&& a[r * cols + c] != a[r * cols + (cols - 1 - c)]
    &&& forall|r2: int, c2: int|
        0 <= c2 < cols / 2 && (r0 < r2 || (r0 == r2 && c0 <= c2)) && (r2 < r || (r2 == r && c2 < c)) ==> #[trigger] a[r2
            * cols + c2] == a[r2 * cols + (cols - 1 - c2)]
}

/// The right cell of the pair at (`r`, `c`) compares higher than the left one.
pub open spec fn right_higher(a: Seq<u8>, cols: int, r: int, c: int) -> bool {
    order_value(a[r * cols + (cols - 1 - c)]) > order_value(a[r * cols + c])
}

proof fn lemma_same_first(a: Seq<u8>, rows: int, cols: int, r0: int, c0: int, r1: int, c1: int)
    requires
        forall|r: int, c: int|
            first_mirror_difference(a, rows, cols, r0, c0, r, c) == first_mirror_difference(a, rows, cols, r1, c1, r, c),
    ensures
        (exists|r: int, c: int| #[trigger] first_mirror_difference(a, rows, cols, r0, c0, r, c) && right_higher(a, cols, r, c))
            == (exists|r: int, c: int| #[trigger] first_mirror_difference(a, rows, cols, r1, c1, r, c) && right_higher(a, cols, r, c)),
        (exists|r: int, c: int| #[trigger] first_mirror_difference(a, rows, cols, r0, c0, r, c)) == (exists|r: int, c: int|
            #[trigger] first_mirror_difference(a, rows, cols, r1, c1, r, c)),
{
    if exists|r: int, c: int| #[trigger] first_mirror_difference(a, rows, cols, r0, c0, r, c) && right_higher(a, cols, r, c) {
        let (r, c) = choose|r: int, c: int| #[trigger] first_mirror_difference(a, rows, cols, r0, c0, r, c) && right_higher(a, cols, r, c);
        assert(first_mirror_difference(a, rows, cols, r1, c1, r, c));
    }
    if exists|r: int, c: int| #[trigger] first_mirror_difference(a, rows, cols, r1, c1, r, c) && right_higher(a, cols, r, c) {
        let (r, c) = choose|r: int, c: int| #[trigger] first_mirror_difference(a, rows, cols, r1, c1, r, c) && right_higher(a, cols, r, c);
        assert(first_mirror_difference(a, rows, cols, r0, c0, r, c));
    }
    if exists|r: int, c: int| #[trigger] first_mirror_difference(a, rows, cols, r0, c0, r, c) {
        let (r, c) = choose|r: int, c: int| #[trigger] first_mirror_difference(a, rows, cols, r0, c0, r, c);
        assert(first_mirror_difference(a, rows, cols, r1, c1, r, c));
    }
    if exists|r: int, c: int| #[trigger] first_mirror_difference(a, rows, cols, r1, c1, r, c) {
        let (r, c) = choose|r: int, c: int| #[trigger] first_mirror_difference(a, rows, cols, r1, c1, r, c);
        assert(first_mirror_difference(a, rows, cols, r0, c0, r, c));
    }
}

proof fn lemma_lr_scan_first(a: Seq<u8>, rows: int, cols: int, r0: int, c0: int)
    requires
        0 <= r0,
        0 <= c0,
    ensures
        lr_scan(a, rows, cols, r0, c0) == exists|r: int, c: int|
            #[trigger] first_mirror_difference(a, rows, cols, r0, c0, r, c) && right_higher(a, cols, r, c),
        lr_differs(a, rows, cols, r0, c0) == exists|r: int, c: int| #[trigger] first_mirror_difference(a, rows, cols, r0, c0, r, c),
    decreases rows - r0, cols / 2 - c0,
{
    if r0 >= rows {
        assert forall|r: int, c: int| !first_mirror_difference(a, rows, cols, r0, c0, r, c) by {}
    } else if c0 >= cols / 2 {
        lemma_lr_scan_first(a, rows, cols, r0 + 1, 0);
        assert forall|r: int, c: int|
            first_mirror_difference(a, rows, cols, r0, c0, r, c) == first_mirror_difference(a, rows, cols, r0 + 1, 0, r, c) by {
            if first_mirror_difference(a, rows, cols, r0 + 1, 0, r, c) {
                assert forall|r2: int, c2: int|
                    0 <= c2 < cols / 2 && (r0 < r2 || (r0 == r2 && c0 <= c2)) && (r2 < r || (r2 == r && c2 < c)) implies #[trigger] a[r2
                        * cols + c2] == a[r2 * cols + (cols - 1 - c2)] by {
                    assert(r0 + 1 < r2 || (r0 + 1 == r2 && 0 <= c2));
                }
            }
        }
        lemma_same_first(a, rows, cols, r0, c0, r0 + 1, 0);
    } else {
        let i1 = r0 * cols + c0;
        let i2 = r0 * cols + (cols - 1 - c0);
        if a[i1] != a[i2] {
            assert(first_mirror_difference(a, rows, cols, r0, c0, r0, c0));
            assert forall|r: int, c: int| #[trigger] first_mirror_difference(a, rows, cols, r0, c0, r, c) implies r == r0 && c == c0 by {
                if r != r0 || c != c0 {
                    assert(a[r0 * cols + c0] == a[r0 * cols + (cols - 1 - c0)]);
                }
            }
        } else {
            lemma_lr_scan_first(a, rows, cols, r0, c0 + 1);
            assert forall|r: int, c: int|
                first_mirror_difference(a, rows, cols, r0, c0, r, c) == first_mirror_difference(a, rows, cols, r0, c0 + 1, r, c) by {
                if first_mirror_difference(a, rows, cols, r0, c0, r, c) {
                    if r == r0 && c == c0 {
                        assert(false);
                    }
                }
                if first_mirror_difference(a, rows, cols, r0, c0 + 1, r, c) {
                    assert forall|r2: int, c2: int|
                        0 <= c2 < cols / 2 && (r0 < r2 || (r0 == r2 && c0 <= c2)) && (r2 < r || (r2 == r && c2 < c)) implies #[trigger] a[r2
                            * cols + c2] == a[r2 * cols + (cols - 1 - c2)] by {
                        if r2 == r0 && c2 == c0 {
                        }
                    }
                }
            }
            lemma_same_first(a, rows, cols, r0, c0, r0, c0 + 1);
        }
    }
}

/// The left-right choice of the key: the cells are mirrored exactly when, at
/// the first pair of mirror cells (row by row, left half against right half)
/// that differ, the right one compares higher (an empty cell lowest); so in
/// the cells the key uses, at the first differing pair the left one is higher.
pub proof fn lemma_lr_choice(a: Seq<u8>, rows: int, cols: int)
    requires
        cols > 0,
        rows >= 0,
        a.len() == rows * cols,
    ensures
        lr_scan(a, rows, cols, 0, 0) == exists|r: int, c: int|
            #[trigger] first_mirror_difference(a, rows, cols, 0, 0, r, c) && right_higher(a, cols, r, c),
        forall|r: int, c: int|
            #[trigger] first_mirror_difference(lr_canonical(a, rows, cols), rows, cols, 0, 0, r, c) ==> order_value(
                lr_canonical(a, rows, cols)[r * cols + c],
            ) > order_value(lr_canonical(a, rows, cols)[r * cols + (cols - 1 - c)]),
{
    lemma_lr_scan_first(a, rows, cols, 0, 0);
    let k = lr_canonical(a, rows, cols);
    lemma_mirror_same_key_cells(a, rows, cols);
    lemma_lr_scan_of_mirror(a, rows, cols, 0, 0);
    lemma_mirrored_facts(a, rows, cols);
    assert(k.len() == a.len());
    assert(!lr_scan(k, rows, cols, 0, 0)) by {
        if lr_scan(a, rows, cols, 0, 0) {
            assert(k == mirrored(a, rows, cols));
        }
    }
    lemma_lr_scan_first(k, rows, cols, 0, 0);
    assert forall|r: int, c: int|
        #[trigger] first_mirror_difference(k, rows, cols, 0, 0, r, c) implies order_value(k[r * cols + c]) > order_value(
            k[r * cols + (cols - 1 - c)],
        ) by {
        assert(k[r * cols + c] != k[r * cols + (cols - 1 - c)]);
        if k[r * cols + c] != EMPTY_CELL && k[r * cols + (cols - 1 - c)] != EMPTY_CELL {
        }
    }
}

/// The comparison value of a cell (see [`order_value`]).
pub fn mirror_compare_value(cell: u8) -> (r: i16)
    ensures
        r as int == order_value(cell),
{
    if cell == EMPTY_CELL {
        -1
    } else {
        cell as i16
    }
}

fn decide_mirror(ary: &Vec<u8>, rows: usize, cols: usize) -> (m: bool)
    requires
        ary@.len() == rows * cols,
    ensures
        m == lr_scan(ary@, rows as int, cols as int, 0, 0),
{
    let half = cols / 2;
    let total = ary.len();
    let mut r: usize = 0;
    let mut c: usize = 0;
    while r < rows
        invariant
            ary@.len() == rows * cols,
            total == ary@.len(),
            half == cols / 2,
            r <= rows,
            c <= half,
            lr_scan(ary@, rows as int, cols as int, 0, 0) == lr_scan(ary@, rows as int, cols as int, r as int, c as int),
        decreases rows - r, half - c,
    {
        if c >= half {
            r = r + 1;
            c = 0;
        } else {
            assert(c < cols);
            proof {
                lemma_cell_index(r as int, c as int, rows as int, cols as int);
                lemma_cell_index(r as int, (cols - 1 - c) as int, rows as int, cols as int);
            }
            let i1 = r * cols + c;
            let i2 = r * cols + (cols - 1 - c);
            if ary[i1] != ary[i2] {
                let v1 = mirror_compare_value(ary[i1]);
                let v2 = mirror_compare_value(ary[i2]);
                return v2 > v1;
            }
            c = c + 1;
        }
    }
    false
}

/// Bits of one cell: `0` for an empty cell, `1` and the four-bit code for a piece.
pub open spec fn cell_bits(cell: u8) -> Seq<bool> {
    if cell == EMPTY_CELL {
        seq![false]
    } else {
        seq![
            true,
            (cell / 8) % 2 == 1,
            (cell / 4) % 2 == 1,
            (cell / 2) % 2 == 1,
            cell % 2 == 1,
        ]
    }
}

/// Bits of all cells in order.
pub open spec fn cells_bits(ary: Seq<u8>) -> Seq<bool>
    decreases ary.len(),
{
    if ary.len() == 0 {
        Seq::empty()
    } else {
        cells_bits(ary.drop_last()) + cell_bits(ary.last())
    }
}

/// Value of `n` bits from `start`, most significant first; missing bits count as 0.
pub open spec fn bits_value(bits: Seq<bool>, start: int, n: nat) -> nat
    decreases n,
{
    if n == 0 {
        0
    } else {
        bits_value(bits, start, (n - 1) as nat) * 2 + if 0 <= start + n - 1 < bits.len() && bits[start
            + n - 1] {
            1nat
        } else {
            0nat
        }
    }
}

/// The bits packed into bytes, most significant bit first, the last byte padded with zeros.
pub open spec fn pack_bits(bits: Seq<bool>) -> Seq<u8> {
    Seq::new(((bits.len() + 7) / 8) as nat, |k: int| bits_value(bits, 8 * k, 8) as u8)
}

/// The bits of the cells are the bits of each cell, one cell after another in order.
pub proof fn lemma_cells_bits_concat(a: Seq<u8>, b: Seq<u8>)
    ensures
        cells_bits(a + b) == cells_bits(a) + cells_bits(b),
        forall|x: u8| #[trigger] cells_bits(seq![x]) == cell_bits(x),
    decreases b.len(),
{
    assert forall|x: u8| #[trigger] cells_bits(seq![x]) == cell_bits(x) by {
        assert(seq![x].drop_last() =~= Seq::<u8>::empty());
        assert(cells_bits(Seq::<u8>::empty()) =~= Seq::<bool>::empty());
        assert(Seq::<bool>::empty() + cell_bits(x) =~= cell_bits(x));
    }
    if b.len() == 0 {
        assert(a + b =~= a);
        assert(cells_bits(a) + cells_bits(b) =~= cells_bits(a));
    } else {
        assert((a + b).drop_last() =~= a + b.drop_last());
        assert((a + b).last() == b.last());
        lemma_cells_bits_concat(a, b.drop_last());
        assert(cells_bits(a + b) =~= cells_bits(a) + cells_bits(b));
    }
}

/// Bit `i` of `bits` as a number, 0 past the end.
pub open spec fn bit_at(bits: Seq<bool>, i: int) -> int {
    if 0 <= i < bits.len() && bits[i] {
        1
    } else {
        0
    }
}

/// The key bytes: byte `k` holds bits `8k` to `8k + 7`, the first of them as
/// its most significant bit; there are just enough bytes for all the bits,
/// the last one padded with zero bits.
pub proof fn lemma_pack_bits_bytes(bits: Seq<bool>)
    ensures
        pack_bits(bits).len() * 8 >= bits.len(),
        pack_bits(bits).len() * 8 < bits.len() + 8,
        forall|k: int|
            0 <= k < pack_bits(bits).len() ==> #[trigger] pack_bits(bits)[k] as int == 128 * bit_at(bits, 8 * k) + 64
                * bit_at(bits, 8 * k + 1) + 32 * bit_at(bits, 8 * k + 2) + 16 * bit_at(bits, 8 * k + 3) + 8 * bit_at(
                bits,
                8 * k + 4,
            ) + 4 * bit_at(bits, 8 * k + 5) + 2 * bit_at(bits, 8 * k + 6) + bit_at(bits, 8 * k + 7),
{
    assert forall|k: int|
        0 <= k < pack_bits(bits).len() implies #[trigger] pack_bits(bits)[k] as int == 128 * bit_at(bits, 8 * k) + 64
            * bit_at(bits, 8 * k + 1) + 32 * bit_at(bits, 8 * k + 2) + 16 * bit_at(bits, 8 * k + 3) + 8 * bit_at(
            bits,
            8 * k + 4,
        ) + 4 * bit_at(bits, 8 * k + 5) + 2 * bit_at(bits, 8 * k + 6) + bit_at(bits, 8 * k + 7) by {
        let st = 8 * k;
        reveal_with_fuel(bits_value, 9);
        let v = bits_value(bits, st, 8);
        assert(v == 128 * bit_at(bits, st) + 64 * bit_at(bits, st + 1) + 32 * bit_at(bits, st + 2) + 16 * bit_at(
            bits,
            st + 3,
        ) + 8 * bit_at(bits, st + 4) + 4 * bit_at(bits, st + 5) + 2 * bit_at(bits, st + 6) + bit_at(bits, st + 7));
        assert(v < 256);
    }
}

proof fn lemma_bits_value_bound(bits: Seq<bool>, start: int, n: nat)
    ensures
        bits_value(bits, start, n) < vstd::arithmetic::power2::pow2(n),
    decreases n,
{
    if n > 0 {
        lemma_bits_value_bound(bits, start, (n - 1) as nat);
        vstd::arithmetic::power2::lemma_pow2_unfold(n);
    } else {
        vstd::arithmetic::power2::lemma2_to64();
    }
}

fn cell_bits_exec(out: &mut Vec<bool>, cell: u8)
    ensures
        final(out)@ == old(out)@ + cell_bits(cell),
{
    if cell == EMPTY_CELL {
        out.push(false);
        assert(final(out)@ =~= old(out)@ + cell_bits(cell));
    } else {
        out.push(true);
        out.push((cell / 8) % 2 == 1);
        out.push((cell / 4) % 2 == 1);
        out.push((cell / 2) % 2 == 1);
        out.push(cell % 2 == 1);
        assert(final(out)@ =~= old(out)@ + cell_bits(cell));
    }
}

fn pack_bits_exec(bits: &Vec<bool>) -> (r: Vec<u8>)
    requires
        bits@.len() <= usize::MAX / 2,
    ensures
        r@ == pack_bits(bits@),
{
    let n = bits.len();
    let nbytes: usize = n / 8 + if n % 8 == 0 { 0 } else { 1 };
    assert(nbytes as int == (n + 7) / 8);
    let mut out: Vec<u8> = Vec::new();
    let mut k: usize = 0;
    while k < nbytes
        invariant
            n == bits@.len(),
            nbytes as int == (n + 7) / 8,
            n <= usize::MAX / 2,
            k <= nbytes,
            out@ == pack_bits(bits@).take(k as int),
        decreases nbytes - k,
    {
        let mut v: u32 = 0;
        let mut j: usize = 0;
        assert(8 * k <= n + 7);
        while j < 8
            invariant
                n == bits@.len(),
                j <= 8,
                n <= usize::MAX / 2,
                8 * k <= n + 7,
                v as nat == bits_value(bits@, 8 * k, j as nat),
                v < 256,
            decreases 8 - j,
        {
            let idx = 8 * k + j;
            let b: u32 = if idx < n && bits[idx] { 1 } else { 0 };
            proof {
                lemma_bits_value_bound(bits@, 8 * k, (j + 1) as nat);
                vstd::arithmetic::power2::lemma2_to64();
                if j + 1 < 8 {
                    vstd::arithmetic::power2::lemma_pow2_strictly_increases((j + 1) as nat, 8);
                }
            }
            v = v * 2 + b;
            j = j + 1;
        }
        out.push(v as u8);
        assert(out@ =~= pack_bits(bits@).take(k as int + 1));
        k = k + 1;
    }
    assert(pack_bits(bits@).take(nbytes as int) =~= pack_bits(bits@));
    out
}


/// Bits of the first `n` cells followed by those of cell `n`.
proof fn lemma_cells_bits_step(ary: Seq<u8>, n: int)
    requires
        0 <= n < ary.len(),
    ensures
        cells_bits(ary.take(n + 1)) == cells_bits(ary.take(n)) + cell_bits(ary[n]),
        cells_bits(ary.take(n + 1)).len() <= cells_bits(ary.take(n)).len() + 5,
{
    assert(ary.take(n + 1).drop_last() =~= ary.take(n));
}

/// A position key of an `.xqb` book: the packed cells of the board seen from
/// the side to move, with the flags that say how the board was turned.
pub struct XqKey {
    pub key: Vec<u8>,
    pub mirror_ud: bool,
    pub mirror_lr: bool,
    pub rows: usize,
    pub cols: usize,
}

/// Cells of the key of `fen` together with the two turn flags: filled from
/// the board text, turned half a circle when black is to move, then mirrored
/// left to right when the scan asks for it.
pub open spec fn key_cells(fen: Seq<char>) -> Option<(Seq<u8>, bool, bool)> {
    match fen_turn(fen) {
        None => None,
        Some(turn) => {
            let rows = spec_rows_cols(fen).0 as int;
            let cols = spec_rows_cols(fen).1 as int;
            match fill_cells(fen_board(fen), turn, rows * cols, 0, initial_cells(rows * cols)) {
                None => None,
                Some(a0) => {
                    let ud = turn == 'b';
                    let a1 = if ud { rotated(a0, rows, cols) } else { a0 };
                    let lr = lr_scan(a1, rows, cols, 0, 0);
                    let a2 = if lr { mirrored(a1, rows, cols) } else { a1 };
                    Some((a2, ud, lr))
                },
            }
        },
    }
}

/// Key of the position `fen`; `None` where the FEN has no side to move, holds
/// an unknown piece letter or places a piece past the last cell.
pub fn fen_to_key(fen: &str) -> (r: Option<XqKey>)
    requires
        fen@.len() <= usize::MAX / 16,
        spec_rows_cols(fen@).0 * spec_rows_cols(fen@).1 <= usize::MAX / 16,
    ensures
        r is None <==> key_cells(fen@) is None,
        r matches Some(k) ==> key_cells(fen@) matches Some((cells, ud, lr)) && {
            &&& k.rows as nat == spec_rows_cols(fen@).0
            &&& k.cols as nat == spec_rows_cols(fen@).1
            &&& k.mirror_ud == ud
            &&& k.mirror_lr == lr
            &&& k.key@ == pack_bits(cells_bits(cells))
        },
{
    let f = chars_of(fen);
    let turn: char = match find_char_exec(f.as_slice(), ' ') {
        None => {
            return None;
        },
        Some(i) => {
            proof {
                lemma_find_char_bounds(f@, ' ', 0);
            }
            if i + 1 < f.len() && f[i + 1] != ' ' {
                f[i + 1]
            } else {
                return None;
            }
        },
    };
    assert(fen_turn(fen@) == Some(turn));
    let (rows, cols) = rows_cols_chars(f.as_slice());
    let size = rows * cols;
    let board = board_chars(f.as_slice());
    assert(board@.len() <= f@.len()) by {
        lemma_find_char_bounds(f@, ' ', 0);
    }
    let a0 = match fill_cells_exec(board.as_slice(), turn, size) {
        None => {
            return None;
        },
        Some(a) => a,
    };
    let ud = turn == 'b';
    let a1 = if ud {
        remap_cells(&a0, rows, cols, true)
    } else {
        a0
    };
    let lr = decide_mirror(&a1, rows, cols);
    let a2 = if lr {
        remap_cells(&a1, rows, cols, false)
    } else {
        a1
    };
    let ghost cells = a2@;
    assert(cells.len() == size);
    let mut bits: Vec<bool> = Vec::new();
    let mut k: usize = 0;
    while k < a2.len()
        invariant
            cells == a2@,
            cells.len() == size,
            size <= usize::MAX / 16,
            k <= cells.len(),
            bits@ == cells_bits(cells.take(k as int)),
            bits@.len() <= 5 * k,
        decreases a2.len() - k,
    {
        proof {
            lemma_cells_bits_step(cells, k as int);
        }
        cell_bits_exec(&mut bits, a2[k]);
        k = k + 1;
    }
    assert(cells.take(size as int) =~= cells);
    let key = pack_bits_exec(&bits);
    Some(XqKey { key, mirror_ud: ud, mirror_lr: lr, rows, cols })
}


/// The fields of a stored move as they are read: the from row (every bit
/// above the lower twelve, the sign included), then the from column, the to
/// row and the to column (four bits each).
pub open spec fn move_fields(mv: i32) -> (int, int, int, int) {
    ((mv >> 12i32) as int, ((mv >> 8i32) & 0xFi32) as int, ((mv >> 4i32) & 0xFi32) as int, (mv & 0xFi32) as int)
}

/// A field taken as an index (a negative one wraps round, as the cast does).
pub open spec fn as_index(v: int) -> int {
    (v as usize) as int
}

/// The fields mapped back to the board the key was taken from: turned half a
/// circle when `ud`, then mirrored left to right when `lr`.
pub open spec fn mirrored_fields(mv: i32, ud: bool, lr: bool, rows: int, cols: int) -> (int, int, int, int) {
    let (fr, fc, tr, tc) = move_fields(mv);
    let (fr1, fc1, tr1, tc1) = if ud {
        (rows - 1 - as_index(fr), cols - 1 - fc, rows - 1 - tr, cols - 1 - tc)
    } else {
        (as_index(fr), fc, tr, tc)
    };
    let (fc2, tc2) = if lr {
        (cols - 1 - fc1, cols - 1 - tc1)
    } else {
        (fc1, tc1)
    };
    (fr1, fc2, tr1, tc2)
}

/// Four fields packed into a move: each cut to 32 bits, shifted to its place
/// and or-ed with the others.
pub open spec fn pack_move(fr: int, fc: int, tr: int, tc: int) -> i32 {
    ((fr as i32) << 12i32) | ((fc as i32) << 8i32) | ((tr as i32) << 4i32) | (tc as i32)
}

/// The stored move `mv` mapped back to the board as it was before the key
/// turned it (unchanged when neither flag is set).
pub open spec fn spec_mirror_move(mv: i32, ud: bool, lr: bool, rows: int, cols: int) -> i32 {
    if !ud && !lr {
        mv
    } else {
        let (a, b, c, d) = mirrored_fields(mv, ud, lr, rows, cols);
        pack_move(a, b, c, d)
    }
}

/// The inputs that `mirror_move` maps without a subtraction going below
/// zero: turning needs both squares on the board, mirroring alone needs both
/// columns on it.
pub open spec fn mirror_move_ok(mv: i32, ud: bool, lr: bool, rows: int, cols: int) -> bool {
    let (fr, fc, tr, tc) = move_fields(mv);
    &&& ud ==> as_index(fr) < rows && tr < rows && fc < cols && tc < cols
    &&& (lr && !ud) ==> fc < cols && tc < cols
}

proof fn lemma_low_fields(mv: i32)
    ensures
        0 <= (mv >> 8i32) & 0xFi32 < 16,
        0 <= (mv >> 4i32) & 0xFi32 < 16,
        0 <= mv & 0xFi32 < 16,
{
    assert(0 <= (mv >> 8i32) & 0xFi32 < 16 && 0 <= (mv >> 4i32) & 0xFi32 < 16 && 0 <= mv & 0xFi32 < 16)
        by (bit_vector);
}

proof fn lemma_pack_small(a: i32, b: i32, c: i32, d: i32)
    requires
        0 <= a < 16,
        0 <= b < 16,
        0 <= c < 16,
        0 <= d < 16,
    ensures
        0 <= (a << 12i32) | (b << 8i32) | (c << 4i32) | d < 0x10000,
        ((a << 12i32) | (b << 8i32) | (c << 4i32) | d) >> 12i32 == a,
        (((a << 12i32) | (b << 8i32) | (c << 4i32) | d) >> 8i32) & 0xFi32 == b,
        (((a << 12i32) | (b << 8i32) | (c << 4i32) | d) >> 4i32) & 0xFi32 == c,
        ((a << 12i32) | (b << 8i32) | (c << 4i32) | d) & 0xFi32 == d,
{
    assert(0 <= (a << 12i32) | (b << 8i32) | (c << 4i32) | d < 0x10000 && ((a << 12i32) | (b << 8i32) | (c
        << 4i32) | d) >> 12i32 == a && (((a << 12i32) | (b << 8i32) | (c << 4i32) | d) >> 8i32) & 0xFi32 == b
        && (((a << 12i32) | (b << 8i32) | (c << 4i32) | d) >> 4i32) & 0xFi32 == c && ((a << 12i32) | (b
        << 8i32) | (c << 4i32) | d) & 0xFi32 == d) by (bit_vector)
        requires
            0 <= a < 16,
            0 <= b < 16,
            0 <= c < 16,
            0 <= d < 16,
    ;
}

proof fn lemma_unpack_small(mv: i32)
    requires
        0 <= mv < 0x10000,
    ensures
        0 <= mv >> 12i32 < 16,
        ((mv >> 12i32) << 12i32) | (((mv >> 8i32) & 0xFi32) << 8i32) | (((mv >> 4i32) & 0xFi32) << 4i32) | (mv
            & 0xFi32) == mv,
{
    assert(0 <= mv >> 12i32 < 16 && ((mv >> 12i32) << 12i32) | (((mv >> 8i32) & 0xFi32) << 8i32) | (((mv
        >> 4i32) & 0xFi32) << 4i32) | (mv & 0xFi32) == mv) by (bit_vector)
        requires
            0 <= mv < 0x10000,
    ;
}

/// Mapping a stored move back twice with the same flags gives the move
/// again, for a move of sixteen bits on a board of at most 16 rows and
/// columns: turning the board half a circle and mirroring it left to right
/// each undo themselves and do not interfere.
pub proof fn lemma_mirror_twice(mv: i32, ud: bool, lr: bool, rows: int, cols: int)
    requires
        0 <= mv < 0x10000,
        rows <= 16,
        cols <= 16,
        mirror_move_ok(mv, ud, lr, rows, cols),
    ensures
        mirror_move_ok(spec_mirror_move(mv, ud, lr, rows, cols), ud, lr, rows, cols),
        spec_mirror_move(spec_mirror_move(mv, ud, lr, rows, cols), ud, lr, rows, cols) == mv,
{
    if ud || lr {
        lemma_unpack_small(mv);
        lemma_low_fields(mv);
        let (fr, fc, tr, tc) = move_fields(mv);
        assert(as_index(fr) == fr);
        let (a, b, c, d) = mirrored_fields(mv, ud, lr, rows, cols);
        assert(0 <= a < 16 && 0 <= b < 16 && 0 <= c < 16 && 0 <= d < 16);
        lemma_pack_small(a as i32, b as i32, c as i32, d as i32);
        let m1 = pack_move(a, b, c, d);
        assert(move_fields(m1) == (a, b, c, d));
        assert(as_index(a) == a);
        assert(mirrored_fields(m1, ud, lr, rows, cols) == (fr, fc, tr, tc));
        assert(pack_move(fr, fc, tr, tc) == mv);
    }
}

/// `mv` as the move on the board that the key was taken from.
pub fn mirror_move(mv: i32, mirror_ud: bool, mirror_lr: bool, rows: usize, cols: usize) -> (r: i32)
    requires
        mirror_move_ok(mv, mirror_ud, mirror_lr, rows as int, cols as int),
    ensures
        r == spec_mirror_move(mv, mirror_ud, mirror_lr, rows as int, cols as int),
{
    if mirror_ud || mirror_lr {
        proof {
            lemma_low_fields(mv);
        }
        let mut from_row = (mv >> 12) as usize;
        let mut from_col = ((mv >> 8) & 0xF) as usize;
        let mut to_row = ((mv >> 4) & 0xF) as usize;
        let mut to_col = (mv & 0xF) as usize;
        if mirror_ud {
            from_row = rows - 1 - from_row;
            to_row = rows - 1 - to_row;
            from_col = cols - 1 - from_col;
            to_col = cols - 1 - to_col;
        }
        if mirror_lr {
            from_col = cols - 1 - from_col;
            to_col = cols - 1 - to_col;
        }
        ((from_row as i32) << 12) | ((from_col as i32) << 8) | ((to_row as i32) << 4) | (to_col as i32)
    } else {
        mv
    }
}

/// The four bits of `mv` that start at bit `shift`.
pub open spec fn nibble(mv: i32, shift: i32) -> int {
    ((mv >> shift) & 0xFi32) as int
}

/// The ICCS text of the square at `row` (counted from the top) and `col`;
/// `None` off a 10 by 9 board.
pub open spec fn square_text(row: int, col: int) -> Option<Seq<char>> {
    if row > 9 || col > 8 {
        None
    } else {
        Some(seq![('a' as int + col) as char, ('0' as int + (9 - row)) as char])
    }
}

/// The move text of a stored move: its from square, then its to square.
pub open spec fn spec_nibble_move(mv: i32) -> Option<Seq<char>> {
    match (square_text(nibble(mv, 12), nibble(mv, 8)), square_text(nibble(mv, 4), nibble(mv, 0))) {
        (Some(a), Some(b)) => Some(a + b),
        _ => None,
    }
}

fn push_square(s: &mut String, row: u8, col: u8) -> (ok: bool)
    ensures
        ok == (square_text(row as int, col as int) is Some),
        ok ==> final(s)@ == old(s)@ + square_text(row as int, col as int)->0,
        !ok ==> final(s)@ == old(s)@,
{
    if row > 9 || col > 8 {
        return false;
    }
    push_char(s, (97u8 + col) as char);
    push_char(s, (48u8 + (9 - row)) as char);
    assert(final(s)@ =~= old(s)@ + square_text(row as int, col as int)->0);
    true
}

/// A stored move holds from-row, from-column, to-row and to-column in four
/// bits each, from the high bits down (`row * 4096 + col * 256 + ...`), rows
/// counted from the top. Its text is file letter `a + col` and rank digit
/// `9 - row` of each square; mapped back from the key's board it is turned
/// half a circle when `ud` (rows and columns counted from the other end) and
/// mirrored left to right when `lr` (columns counted from the other end).
pub proof fn lemma_stored_move(fr: int, fc: int, tr: int, tc: int, ud: bool, lr: bool)
    requires
        0 <= fr <= 9,
        0 <= fc <= 8,
        0 <= tr <= 9,
        0 <= tc <= 8,
    ensures
        ({
            let mv = (fr * 4096 + fc * 256 + tr * 16 + tc) as i32;
            let fr1 = if ud { 9 - fr } else { fr };
            let tr1 = if ud { 9 - tr } else { tr };
            let fc1 = if ud != lr { 8 - fc } else { fc };
            let tc1 = if ud != lr { 8 - tc } else { tc };
            &&& spec_nibble_move(mv) == Some(
                seq![
                    ('a' as int + fc) as char,
                    ('0' as int + 9 - fr) as char,
                    ('a' as int + tc) as char,
                    ('0' as int + 9 - tr) as char,
                ],
            )
            &&& spec_mirror_move(mv, ud, lr, 10, 9) == (fr1 * 4096 + fc1 * 256 + tr1 * 16 + tc1) as i32
        }),
{
    let a = fr as i32;
    let b = fc as i32;
    let c = tr as i32;
    let d = tc as i32;
    let mv = (fr * 4096 + fc * 256 + tr * 16 + tc) as i32;
    assert(mv == a * 4096 + b * 256 + c * 16 + d);
    assert((mv >> 12i32) & 0xFi32 == a && (mv >> 8i32) & 0xFi32 == b && (mv >> 4i32) & 0xFi32 == c && (mv >> 0i32) & 0xFi32 == d
        && mv & 0xFi32 == d && mv >> 12i32 == a) by (bit_vector)
        requires
            mv == a * 4096 + b * 256 + c * 16 + d,
            0 <= a <= 9,
            0 <= b <= 8,
            0 <= c <= 9,
            0 <= d <= 8,
    ;
    assert(nibble(mv, 12) == fr && nibble(mv, 8) == fc && nibble(mv, 4) == tr && nibble(mv, 0) == tc);
    assert(as_index(fr) == fr);
    let fr1 = if ud { 9 - fr } else { fr };
    let tr1 = if ud { 9 - tr } else { tr };
    let fc1 = if ud != lr { 8 - fc } else { fc };
    let tc1 = if ud != lr { 8 - tc } else { tc };
    if ud || lr {
        let a1 = fr1 as i32;
        let b1 = fc1 as i32;
        let c1 = tr1 as i32;
        let d1 = tc1 as i32;
        assert((a1 << 12i32) | (b1 << 8i32) | (c1 << 4i32) | d1 == a1 * 4096 + b1 * 256 + c1 * 16 + d1) by (bit_vector)
            requires
                0 <= a1 <= 9,
                0 <= b1 <= 8,
                0 <= c1 <= 9,
                0 <= d1 <= 8,
        ;
    }
}

/// The move text of a stored move; `None` when a square lies off a 10 by 9 board.
pub fn nibble_move_to_uci(mv: i32) -> (r: Option<String>)
    ensures
        r is None <==> spec_nibble_move(mv) is None,
        r matches Some(t) ==> spec_nibble_move(mv) == Some(t@),
{
    let from_row = ((mv >> 12) & 0xF) as u8;
    let from_col = ((mv >> 8) & 0xF) as u8;
    let to_row = ((mv >> 4) & 0xF) as u8;
    let to_col = (mv & 0xF) as u8;
    assert(0 <= (mv >> 12) & 0xF < 16 && 0 <= (mv >> 8) & 0xF < 16 && 0 <= (mv >> 4) & 0xF < 16
        && 0 <= mv & 0xF < 16) by (bit_vector);
    assert(mv == mv >> 0) by (bit_vector);
    let mut s = String::new();
    if !push_square(&mut s, from_row, from_col) {
        return None;
    }
    if !push_square(&mut s, to_row, to_col) {
        return None;
    }
    Some(s)
}


/// Whether [`mirror_move`] accepts these inputs.
pub fn mirror_move_allowed(mv: i32, mirror_ud: bool, mirror_lr: bool, rows: usize, cols: usize) -> (r: bool)
    ensures
        r == mirror_move_ok(mv, mirror_ud, mirror_lr, rows as int, cols as int),
{
    proof {
        lemma_low_fields(mv);
    }
    let fr = (mv >> 12) as usize;
    let fc = ((mv >> 8) & 0xF) as usize;
    let tr = ((mv >> 4) & 0xF) as usize;
    let tc = (mv & 0xF) as usize;
    if mirror_ud {
        fr < rows && tr < rows && fc < cols && tc < cols
    } else if mirror_lr {
        fc < cols && tc < cols
    } else {
        true
    }
}

/// `round(n / d)` with halves going to the even neighbour.
pub open spec fn round_half_even(n: nat, d: nat) -> nat
    recommends
        d > 0,
{
    let q = n / d;
    let r = n % d;
    if 2 * r > d {
        q + 1
    } else if 2 * r < d {
        q
    } else if q % 2 == 0 {
        q
    } else {
        q + 1
    }
}

/// `num / den` written with one decimal and a percent sign, as `{:.1}%`
/// writes a number (halves going to the even digit).
pub open spec fn percent_text(num: int, den: int) -> Seq<char> {
    let mag = if num < 0 { -num } else { num };
    let t = round_half_even((10 * mag) as nat, den as nat);
    (if num < 0 { seq!['-'] } else { Seq::<char>::empty() }) + decimal_nat(t / 10) + seq![
        '.',
        ((t % 10) + 48) as char,
        '%',
    ]
}

/// The text of [`percent_text`].
pub fn percent_one_decimal(num: i64, den: u64) -> (r: String)
    requires
        0 < den,
    ensures
        r@ == percent_text(num as int, den as int),
{
    let wide: i128 = num as i128;
    let mag: u128 = if wide < 0 { (-wide) as u128 } else { wide as u128 };
    assert(mag == (if num < 0 { -num } else { num as int }));
    let n: u128 = 10 * mag;
    let q: u128 = n / (den as u128);
    let rem: u128 = n % (den as u128);
    assert(q <= n) by (nonlinear_arith)
        requires
            q == n / (den as u128),
            den > 0,
    ;
    let t: u128 = if 2 * rem > den as u128 {
        q + 1
    } else if 2 * rem < den as u128 {
        q
    } else if q % 2 == 0 {
        q
    } else {
        q + 1
    };
    assert(t / 10 <= mag) by (nonlinear_arith)
        requires
            t <= 10 * mag + 1,
    ;
    let whole: u64 = (t / 10) as u64;
    let digit: u8 = (t % 10) as u8;
    let mut s = String::new();
    if num < 0 {
        push_char(&mut s, '-');
    }
    push_decimal_u64(&mut s, whole);
    push_char(&mut s, '.');
    push_char(&mut s, (digit + 48) as char);
    push_char(&mut s, '%');
    assert((digit + 48) as char == ((t % 10) + 48) as char);
    assert(s@ =~= percent_text(num as int, den as int));
    s
}

/// A row of an `.xqb` book as stored: the packed move, its score, the games
/// won, drawn and lost after it, and whether the row is valid.
#[derive(Clone, Copy, Debug, PartialEq, Eq, Structural)]
pub struct XqbRow {
    pub mv: i32,
    pub score: i32,
    pub win: i32,
    pub draw: i32,
    pub lost: i32,
    pub valid: i32,
}

/// A book move read from an `.xqb` row.
#[derive(Debug)]
pub struct XqbLine {
    pub move_uci: String,
    pub score: i32,
    pub win: i32,
    pub draw: i32,
    pub lost: i32,
}

/// Whether every valid row's move can be mapped back with the key's flags.
pub open spec fn rows_mirrorable(rows: Seq<XqbRow>, ud: bool, lr: bool, nrows: int, ncols: int) -> bool {
    forall|i: int|
        0 <= i < rows.len() && rows[i].valid != 0 ==> mirror_move_ok(
            #[trigger] rows[i].mv,
            ud,
            lr,
            nrows,
            ncols,
        )
}

/// The move of a valid row, mapped back to the board and written as text;
/// `None` when the row is invalid or its move leaves the board.
pub open spec fn row_move(row: XqbRow, ud: bool, lr: bool, nrows: int, ncols: int) -> Option<Seq<char>> {
    if row.valid == 0 {
        None
    } else {
        spec_nibble_move(spec_mirror_move(row.mv, ud, lr, nrows, ncols))
    }
}

/// The rows that give a move, in order, each with its move text.
pub open spec fn row_moves(rows: Seq<XqbRow>, ud: bool, lr: bool, nrows: int, ncols: int) -> Seq<(XqbRow, Seq<char>)>
    decreases rows.len(),
{
    if rows.len() == 0 {
        Seq::empty()
    } else {
        let prev = row_moves(rows.drop_last(), ud, lr, nrows, ncols);
        match row_move(rows.last(), ud, lr, nrows, ncols) {
            Some(m) => prev.push((rows.last(), m)),
            None => prev,
        }
    }
}

/// Whether `lines` are the moves read from `rows`.
pub open spec fn lines_match(lines: Seq<XqbLine>, moves: Seq<(XqbRow, Seq<char>)>) -> bool {
    &&& lines.len() == moves.len()
    &&& forall|i: int|
        0 <= i < lines.len() ==> {
            let (row, m) = #[trigger] moves[i];
            &&& lines[i].move_uci@ == m
            &&& lines[i].score == row.score
            &&& lines[i].win == row.win
            &&& lines[i].draw == row.draw
            &&& lines[i].lost == row.lost
        }
}

/// The book moves of `rows` for a position with key `key`: invalid rows and
/// moves that leave the board are dropped.
pub fn xqb_lines(rows: &Vec<XqbRow>, key: &XqKey) -> (r: Vec<XqbLine>)
    requires
        rows_mirrorable(rows@, key.mirror_ud, key.mirror_lr, key.rows as int, key.cols as int),
    ensures
        lines_match(r@, row_moves(rows@, key.mirror_ud, key.mirror_lr, key.rows as int, key.cols as int)),
{
    let ghost (ud, lr, nr, nc) = (key.mirror_ud, key.mirror_lr, key.rows as int, key.cols as int);
    let mut out: Vec<XqbLine> = Vec::new();
    let mut i: usize = 0;
    while i < rows.len()
        invariant
            ud == key.mirror_ud,
            lr == key.mirror_lr,
            nr == key.rows as int,
            nc == key.cols as int,
            rows_mirrorable(rows@, ud, lr, nr, nc),
            i <= rows@.len(),
            lines_match(out@, row_moves(rows@.take(i as int), ud, lr, nr, nc)),
        decreases rows.len() - i,
    {
        let row = rows[i];
        assert(rows@.take(i as int + 1).drop_last() =~= rows@.take(i as int));
        assert(rows@.take(i as int + 1).last() == row);
        if row.valid != 0 {
            assert(mirror_move_ok(rows@[i as int].mv, ud, lr, nr, nc));
            let mirrored = mirror_move(row.mv, key.mirror_ud, key.mirror_lr, key.rows, key.cols);
            match nibble_move_to_uci(mirrored) {
                Some(uci) => {
                    out.push(
                        XqbLine {
                            move_uci: uci,
                            score: row.score,
                            win: row.win,
                            draw: row.draw,
                            lost: row.lost,
                        },
                    );
                },
                None => {},
            }
        }
        i = i + 1;
    }
    assert(rows@.take(rows@.len() as int) =~= rows@);
    out
}

/// Numerator and denominator of a line's share of points (a draw counts
/// half); `(0, 1)` when it has no games.
pub open spec fn line_rate(l: XqbLine) -> (int, int) {
    let t = l.win + l.draw + l.lost;
    if t > 0 {
        (2 * l.win + l.draw, 2 * t)
    } else {
        (0, 1)
    }
}

/// Whether `a` ranks before `b`: a higher share of points, then a higher score.
pub open spec fn line_before(a: XqbLine, b: XqbLine) -> bool {
    let (an, ad) = line_rate(a);
    let (bn, bd) = line_rate(b);
    an * bd > bn * ad || (an * bd == bn * ad && a.score > b.score)
}

/// Where `x` goes into the ranked `s`: before the first line it ranks before.
pub open spec fn insert_pos(s: Seq<XqbLine>, x: XqbLine, i: int) -> int
    decreases s.len() - i,
{
    if i < 0 || i >= s.len() {
        s.len() as int
    } else if line_before(x, s[i]) {
        i
    } else {
        insert_pos(s, x, i + 1)
    }
}

/// The lines ranked by [`line_before`], lines that rank alike keeping their order.
pub open spec fn rank_lines(s: Seq<XqbLine>) -> Seq<XqbLine>
    decreases s.len(),
{
    if s.len() == 0 {
        s
    } else {
        let r = rank_lines(s.drop_last());
        r.insert(insert_pos(r, s.last(), 0), s.last())
    }
}

proof fn lemma_insert_pos_bounds(s: Seq<XqbLine>, x: XqbLine, i: int)
    requires
        0 <= i <= s.len(),
    ensures
        i <= insert_pos(s, x, i) <= s.len(),
    decreases s.len() - i,
{
    if i < s.len() && !line_before(x, s[i]) {
        lemma_insert_pos_bounds(s, x, i + 1);
    }
}

proof fn lemma_rank_lines_len(s: Seq<XqbLine>)
    ensures
        rank_lines(s).len() == s.len(),
    decreases s.len(),
{
    if s.len() > 0 {
        lemma_rank_lines_len(s.drop_last());
        lemma_insert_pos_bounds(rank_lines(s.drop_last()), s.last(), 0);
    }
}

/// Games of a line: wins, draws and losses.
pub open spec fn games(l: XqbLine) -> int {
    l.win + l.draw + l.lost
}

/// `a` has at least the share of points of `b` (a draw counting half a win,
/// no share without games), and on an equal share at least its score.
pub open spec fn ranks_no_lower(a: XqbLine, b: XqbLine) -> bool {
    // twice the points (a draw counting half a win) over the games, 0 without games
    let pa = if games(a) > 0 { 2 * a.win + a.draw } else { 0 };
    let pb = if games(b) > 0 { 2 * b.win + b.draw } else { 0 };
    let da = if games(a) > 0 { games(a) } else { 1 };
    let db = if games(b) > 0 { games(b) } else { 1 };
    &&& pa * db >= pb * da
    &&& pa * db == pb * da ==> a.score >= b.score
}

proof fn lemma_before_order(a: XqbLine, b: XqbLine, c: XqbLine)
    ensures
        line_before(a, b) ==> !line_before(b, a),
        line_before(a, b) && line_before(b, c) ==> line_before(a, c),
        !line_before(b, a) == ranks_no_lower(a, b),
{
    let an = line_rate(a).0;
    let ad = line_rate(a).1;
    let bn = line_rate(b).0;
    let bd = line_rate(b).1;
    let cn = line_rate(c).0;
    let cd = line_rate(c).1;
    assert(ad > 0 && bd > 0 && cd > 0);
    assert(an * bd > bn * ad && bn * cd > cn * bd ==> an * cd > cn * ad) by (nonlinear_arith)
        requires
            ad > 0,
            bd > 0,
            cd > 0,
    ;
    assert(an * bd > bn * ad && bn * cd == cn * bd ==> an * cd > cn * ad) by (nonlinear_arith)
        requires
            ad > 0,
            bd > 0,
            cd > 0,
    ;
    assert(an * bd == bn * ad && bn * cd > cn * bd ==> an * cd > cn * ad) by (nonlinear_arith)
        requires
            ad > 0,
            bd > 0,
            cd > 0,
    ;
    assert(an * bd == bn * ad && bn * cd == cn * bd ==> an * cd == cn * ad) by (nonlinear_arith)
        requires
            ad > 0,
            bd > 0,
            cd > 0,
    ;
    let pa = if games(a) > 0 { 2 * a.win + a.draw } else { 0 };
    let pb = if games(b) > 0 { 2 * b.win + b.draw } else { 0 };
    let da = if games(a) > 0 { games(a) } else { 1 };
    let db = if games(b) > 0 { games(b) } else { 1 };
    assert((an * bd > bn * ad) == (pa * db > pb * da) && (an * bd == bn * ad) == (pa * db == pb * da)) by {
        if games(a) > 0 && games(b) > 0 {
            assert(an == pa && ad == 2 * da && bn == pb && bd == 2 * db);
            assert(an * bd == 2 * (pa * db) && bn * ad == 2 * (pb * da)) by (nonlinear_arith)
                requires
                    an == pa,
                    ad == 2 * da,
                    bn == pb,
                    bd == 2 * db,
            ;
        } else if games(a) > 0 {
            assert(an == pa && ad == 2 * da && bn == 0 && pb == 0 && bd == 1 && db == 1);
        } else if games(b) > 0 {
            assert(an == 0 && pa == 0 && ad == 1 && da == 1 && bn == pb && bd == 2 * db);
            assert(bn * ad == pb * da);
            assert(an * bd == 0 && pa * db == 0);
        } else {
            assert(an == 0 && pa == 0 && bn == 0 && pb == 0);
        }
    }
}

proof fn lemma_insert_pos_before(s: Seq<XqbLine>, x: XqbLine, i: int)
    requires
        0 <= i <= s.len(),
    ensures
        forall|k: int| i <= k < insert_pos(s, x, i) && k < s.len() ==> !line_before(x, #[trigger] s[k]),
        insert_pos(s, x, i) < s.len() ==> line_before(x, s[insert_pos(s, x, i)]),
    decreases s.len() - i,
{
    if i < s.len() && !line_before(x, s[i]) {
        lemma_insert_pos_before(s, x, i + 1);
    }
}

/// The lines the book ranks are its lines, each as often as given, ordered
/// by share of points (a draw counting half a win), then by score: no line
/// comes after one it ranks higher than.
pub proof fn lemma_rank_lines_order(s: Seq<XqbLine>)
    ensures
        rank_lines(s).to_multiset() == s.to_multiset(),
        rank_lines(s).len() == s.len(),
        forall|i: int, j: int|
            0 <= i < j < rank_lines(s).len() ==> ranks_no_lower(#[trigger] rank_lines(s)[i], #[trigger] rank_lines(s)[j]),
    decreases s.len(),
{
    broadcast use vstd::seq_lib::to_multiset_insert, vstd::seq_lib::to_multiset_build;

    lemma_rank_lines_len(s);
    if s.len() > 0 {
        let t = s.drop_last();
        let x = s.last();
        lemma_rank_lines_order(t);
        let r = rank_lines(t);
        lemma_insert_pos_bounds(r, x, 0);
        lemma_insert_pos_before(r, x, 0);
        let p = insert_pos(r, x, 0);
        let q = r.insert(p, x);
        assert(s =~= t.push(x));
        assert forall|i: int, j: int| 0 <= i < j < q.len() implies ranks_no_lower(#[trigger] q[i], #[trigger] q[j]) by {
            if j < p {
                lemma_before_order(q[i], q[j], x);
            } else if j == p {
                lemma_before_order(q[i], x, x);
            } else if i < p {
                assert(q[j] == r[j - 1]);
                assert(q[i] == r[i]);
                lemma_before_order(r[i], r[j - 1], x);
            } else if i == p {
                assert(q[j] == r[j - 1]);
                lemma_before_order(x, r[j - 1], r[p]);
                lemma_before_order(r[j - 1], x, r[p]);
                lemma_before_order(r[p], r[j - 1], x);
                if j - 1 > p {
                    lemma_before_order(r[p], r[j - 1], r[p]);
                }
            } else {
                assert(q[j] == r[j - 1]);
                assert(q[i] == r[i - 1]);
                lemma_before_order(r[i - 1], r[j - 1], x);
            }
        }
    }
}

/// Whether `a` ranks before `b`.
fn ranks_before(a: &XqbLine, b: &XqbLine) -> (r: bool)
    ensures
        r == line_before(*a, *b),
{
    let at: i64 = a.win as i64 + a.draw as i64 + a.lost as i64;
    let bt: i64 = b.win as i64 + b.draw as i64 + b.lost as i64;
    let (an, ad): (i64, i64) = if at > 0 { (2 * a.win as i64 + a.draw as i64, 2 * at) } else { (0, 1) };
    let (bn, bd): (i64, i64) = if bt > 0 { (2 * b.win as i64 + b.draw as i64, 2 * bt) } else { (0, 1) };
    assert(-0x10_0000_0000_0000_0000_0000 < an * bd < 0x10_0000_0000_0000_0000_0000) by (nonlinear_arith)
        requires
            -0x4_0000_0000 < an < 0x4_0000_0000,
            0 < bd < 0x8_0000_0000,
    ;
    assert(-0x10_0000_0000_0000_0000_0000 < bn * ad < 0x10_0000_0000_0000_0000_0000) by (nonlinear_arith)
        requires
            -0x4_0000_0000 < bn < 0x4_0000_0000,
            0 < ad < 0x8_0000_0000,
    ;
    let lhs: i128 = an as i128 * bd as i128;
    let rhs: i128 = bn as i128 * ad as i128;
    lhs > rhs || (lhs == rhs && a.score > b.score)
}

/// The lines ranked as [`rank_lines`] says.
pub fn sort_lines(lines: Vec<XqbLine>) -> (r: Vec<XqbLine>)
    ensures
        r@ == rank_lines(lines@),
{
    let ghost orig = lines@;
    let n = lines.len();
    let mut src = lines;
    let mut out: Vec<XqbLine> = Vec::new();
    let mut k: usize = 0;
    while src.len() > 0
        invariant
            n == orig.len(),
            k <= orig.len(),
            src@ == orig.skip(k as int),
            out@ == rank_lines(orig.take(k as int)),
        decreases src.len(),
    {
        proof {
            lemma_rank_lines_len(orig.take(k as int));
        }
        assert(src@.len() == orig.len() - k);
        let x = src.remove(0);
        assert(x == orig[k as int]);
        let ghost before = out@;
        let mut j: usize = 0;
        while j < out.len() && !ranks_before(&x, &out[j])
            invariant
                out@ == before,
                j <= out@.len(),
                insert_pos(before, x, 0) == insert_pos(before, x, j as int),
            decreases out.len() - j,
        {
            j = j + 1;
        }
        assert(insert_pos(before, x, 0) == j as int);
        out.insert(j, x);
        proof {
            assert(orig.take(k as int + 1).drop_last() =~= orig.take(k as int));
            assert(orig.take(k as int + 1).last() == x);
            assert(src@ =~= orig.skip(k as int + 1));
        }
        k = k + 1;
    }
    assert(k == orig.len());
    assert(orig.take(orig.len() as int) =~= orig);
    out
}

/// Win rate of a line in percent: `100 * (win + draw / 2) / games`, 0 without games.
pub open spec fn line_winrate(l: XqbLine) -> Ratio {
    let (n, d) = line_rate(l);
    if d == 1 {
        Ratio { num: 0, den: 1 }
    } else {
        Ratio { num: (100 * n) as i64, den: d as u64 }
    }
}

/// The candidate of the line ranked `index` (from 0).
pub open spec fn line_candidate(l: XqbLine, index: int) -> CandidateView {
    let w = line_winrate(l);
    CandidateView {
        move_uci: Some(l.move_uci@),
        rank: Some((index + 1) as i64),
        score: Some(Ratio { num: l.score as i64, den: 1 }),
        winrate: Some(w),
        winrate_raw: Some(percent_text(w.num as int, w.den as int)),
    }
}

/// The candidates of ranked lines, in order.
pub open spec fn lines_candidates(s: Seq<XqbLine>) -> Seq<CandidateView> {
    Seq::new(s.len(), |i: int| line_candidate(s[i], i))
}

/// The candidates of ranked lines: the `i`-th is ranked `i + 1`, plays its
/// line's move, carries its score, and shows as win rate the share of points
/// in percent, `100 * (2 * win + draw) / (2 * games)` (a draw counting half a
/// win), 0 without games.
pub proof fn lemma_lines_candidates(s: Seq<XqbLine>)
    ensures
        lines_candidates(s).len() == s.len(),
        forall|i: int|
            0 <= i < s.len() ==> {
                let c = #[trigger] lines_candidates(s)[i];
                let l = s[i];
                &&& c.rank == Some((i + 1) as i64)
                &&& c.move_uci == Some(l.move_uci@)
                &&& c.score == Some(Ratio { num: l.score as i64, den: 1 })
                &&& games(l) > 0 ==> c.winrate == Some(
                    Ratio { num: (100 * (2 * l.win + l.draw)) as i64, den: (2 * games(l)) as u64 },
                )
                &&& games(l) <= 0 ==> c.winrate == Some(Ratio { num: 0, den: 1 })
            },
{
}

/// The answer of an `.xqb` book from its rows for the position with key
/// `key`: the moves ranked by share of points, then score, and the move asked
/// about looked up among them.
pub fn xqb_response(rows: &Vec<XqbRow>, key: &XqKey, move_uci: Option<String>) -> (r: BookResponse)
    requires
        rows@.len() < i64::MAX,
        rows_mirrorable(rows@, key.mirror_ud, key.mirror_lr, key.rows as int, key.cols as int),
    ensures
        exists|lines: Seq<XqbLine>|
            lines_match(lines, row_moves(rows@, key.mirror_ud, key.mirror_lr, key.rows as int, key.cols as int))
                && r@ == spec_with_move_eval(lines_candidates(rank_lines(lines)), opt_view_of(move_uci), "xqb"@),
{
    let lines = xqb_lines(rows, key);
    let ghost read = lines@;
    let ranked = sort_lines(lines);
    proof {
        lemma_rank_lines_len(read);
    }
    assert(ranked@.len() <= rows@.len()) by {
        lemma_row_moves_len(rows@, key.mirror_ud, key.mirror_lr, key.rows as int, key.cols as int);
    }
    let mut cands: Vec<BookCandidate> = Vec::new();
    let total = ranked.len();
    let mut src = ranked;
    let ghost all = src@;
    let mut i: usize = 0;
    while src.len() > 0
        invariant
            total == all.len(),
            i <= all.len(),
            all.len() <= rows@.len(),
            rows@.len() < i64::MAX,
            src@ == all.skip(i as int),
            cand_views(cands@) == lines_candidates(all).take(i as int),
        decreases src.len(),
    {
        assert(src@.len() == all.len() - i);
        let ghost prev = cands@;
        let l = src.remove(0);
        assert(l == all[i as int]);
        let t: i64 = l.win as i64 + l.draw as i64 + l.lost as i64;
        let w: Ratio = if t > 0 {
            Ratio { num: 100 * (2 * l.win as i64 + l.draw as i64), den: (2 * t) as u64 }
        } else {
            Ratio { num: 0, den: 1 }
        };
        let raw = percent_one_decimal(w.num, w.den);
        let c = BookCandidate {
            move_uci: Some(l.move_uci),
            rank: Some(i as i64 + 1),
            score: Some(Ratio { num: l.score as i64, den: 1 }),
            winrate: Some(w),
            winrate_raw: Some(raw),
        };
        assert(c@ == line_candidate(all[i as int], i as int));
        cands.push(c);
        assert(cands@ == prev.push(c));
        assert(cand_views(prev).len() == i);
        assert(prev.len() == i);
        assert forall|j: int| 0 <= j < i as int + 1 implies #[trigger] cand_views(cands@)[j]
            == lines_candidates(all).take(i as int + 1)[j] by {
            if j < i {
                assert(cands@[j] == prev[j]);
                assert(cand_views(prev)[j] == prev[j]@);
                assert(cand_views(prev)[j] == lines_candidates(all).take(i as int)[j]);
            } else {
                assert(cands@[j] == c);
            }
        }
        assert(cand_views(cands@) =~= lines_candidates(all).take(i as int + 1));
        assert(src@ =~= all.skip(i as int + 1));
        i = i + 1;
    }
    assert(lines_candidates(all).take(all.len() as int) =~= lines_candidates(all));
    proof {
        reveal_strlit("xqb");
    }
    BookResponse::with_move_eval(cands, move_uci, "xqb")
}

proof fn lemma_row_moves_len(rows: Seq<XqbRow>, ud: bool, lr: bool, nr: int, nc: int)
    ensures
        row_moves(rows, ud, lr, nr, nc).len() <= rows.len(),
    decreases rows.len(),
{
    if rows.len() > 0 {
        lemma_row_moves_len(rows.drop_last(), ud, lr, nr, nc);
    }
}

pub open spec fn opt_view_of(o: Option<String>) -> Option<Seq<char>> {
    crate::engine_setup::opt_view(o)
}

} // verus!
