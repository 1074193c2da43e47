use vstd::prelude::*;

use crate::xiangqi::{
    Board90, Side, lemma_fen_round_trip, lemma_from_fen_cells, parse_uci_coords, spec_from_fen,
    spec_parse_uci_coords, spec_to_fen, valid_code,
};

verus! {

/// The cell at row `r`, column `c` (row 0 is the top rank).
pub open spec fn cell(b: Seq<u8>, r: int, c: int) -> u8 {
    b[r * 9 + c]
}

pub open spec fn on_board(r: int, c: int) -> bool {
    0 <= r < 10 && 0 <= c < 9
}

/// Whether `side` owns the piece code `p`.
pub open spec fn owns(side: Side, p: u8) -> bool {
    match side {
        Side::Red => 1 <= p <= 7,
        Side::Black => 9 <= p <= 15,
    }
}

/// The kind of a piece: 1 rook, 2 horse, 3 elephant, 4 advisor, 5 king, 6 cannon, 7 pawn.
pub open spec fn kind(p: u8) -> int {
    if p >= 9 {
        p - 8
    } else {
        p as int
    }
}

pub open spec fn side_of(p: u8) -> Side {
    if p >= 9 {
        Side::Black
    } else {
        Side::Red
    }
}

/// The palace of `side`: columns 3 to 5 of its own three back rows (red at the bottom).
pub open spec fn in_palace(side: Side, r: int, c: int) -> bool {
    3 <= c <= 5 && match side {
        Side::Red => 7 <= r <= 9,
        Side::Black => 0 <= r <= 2,
    }
}

/// Row `r` is on `side`'s half of the board (before the river).
pub open spec fn own_half(side: Side, r: int) -> bool {
    match side {
        Side::Red => r >= 5,
        Side::Black => r <= 4,
    }
}

pub open spec fn abs(x: int) -> int {
    if x < 0 {
        -x
    } else {
        x
    }
}

/// Occupied cells of row `r` strictly between columns `lo` and `hi`.
pub open spec fn count_row(b: Seq<u8>, r: int, lo: int, hi: int) -> int
    decreases hi - lo,
{
    if hi <= lo + 1 {
        0
    } else {
        count_row(b, r, lo, hi - 1) + if cell(b, r, hi - 1) != 0 { 1int } else { 0int }
    }
}

/// Occupied cells of column `c` strictly between rows `lo` and `hi`.
pub open spec fn count_col(b: Seq<u8>, c: int, lo: int, hi: int) -> int
    decreases hi - lo,
{
    if hi <= lo + 1 {
        0
    } else {
        count_col(b, c, lo, hi - 1) + if cell(b, hi - 1, c) != 0 { 1int } else { 0int }
    }
}

/// Occupied cells strictly between two cells of one row or one column.
pub open spec fn between(b: Seq<u8>, fr: int, fc: int, tr: int, tc: int) -> int {
    if fr == tr {
        count_row(b, fr, if fc < tc { fc } else { tc }, if fc < tc { tc } else { fc })
    } else {
        count_col(b, fc, if fr < tr { fr } else { tr }, if fr < tr { tr } else { fr })
    }
}

/// Whether the piece on (`fr`, `fc`) can reach (`tr`, `tc`) by the way it
/// moves, leaving aside what stands on the target: a rook slides along a
/// free line; a horse steps one orthogonally and one diagonally unless its
/// leg is blocked; an elephant moves two diagonally on its own half unless
/// its eye is blocked; an advisor moves one diagonally and a king one
/// orthogonally, both inside their palace; a cannon slides along a free line
/// to an empty cell or jumps exactly one piece to take; a pawn steps forward,
/// or sideways once it has crossed the river.
pub open spec fn piece_moves(b: Seq<u8>, fr: int, fc: int, tr: int, tc: int) -> bool {
    let p = cell(b, fr, fc);
    let s = side_of(p);
    let dr = tr - fr;
    let dc = tc - fc;
    let k = kind(p);
    if k == 1 {
        (dr == 0 || dc == 0) && !(dr == 0 && dc == 0) && between(b, fr, fc, tr, tc) == 0
    } else if k == 2 {
        ||| (abs(dr) == 2 && abs(dc) == 1 && cell(b, fr + dr / 2, fc) == 0)
        ||| (abs(dr) == 1 && abs(dc) == 2 && cell(b, fr, fc + dc / 2) == 0)
    } else if k == 3 {
        abs(dr) == 2 && abs(dc) == 2 && cell(b, fr + dr / 2, fc + dc / 2) == 0 && own_half(s, tr)
    } else if k == 4 {
        abs(dr) == 1 && abs(dc) == 1 && in_palace(s, tr, tc)
    } else if k == 5 {
        abs(dr) + abs(dc) == 1 && in_palace(s, tr, tc)
    } else if k == 6 {
        (dr == 0 || dc == 0) && !(dr == 0 && dc == 0) && (if cell(b, tr, tc) == 0 {
            between(b, fr, fc, tr, tc) == 0
        } else {
            between(b, fr, fc, tr, tc) == 1
        })
    } else if k == 7 {
        let fwd = if s == Side::Red { -1int } else { 1int };
        (dr == fwd && dc == 0) || (!own_half(s, fr) && dr == 0 && abs(dc) == 1)
    } else {
        false
    }
}

/// A move of `side` that its piece can make onto an empty or enemy cell.
pub open spec fn pseudo_legal(b: Seq<u8>, side: Side, fr: int, fc: int, tr: int, tc: int) -> bool {
    &&& on_board(fr, fc)
    &&& on_board(tr, tc)
    &&& owns(side, cell(b, fr, fc))
    &&& !owns(side, cell(b, tr, tc))
    &&& piece_moves(b, fr, fc, tr, tc)
}

/// The cells after moving the piece on (`fr`, `fc`) to (`tr`, `tc`).
pub open spec fn apply_move(b: Seq<u8>, fr: int, fc: int, tr: int, tc: int) -> Seq<u8> {
    b.update(tr * 9 + tc, cell(b, fr, fc)).update(fr * 9 + fc, 0)
}

pub open spec fn king_code(side: Side) -> u8 {
    match side {
        Side::Red => 5,
        Side::Black => 13,
    }
}

/// Cell `j` threatens `side`'s king on cell `k`: an enemy piece there can
/// move onto it, or it holds the enemy king facing it on an open file.
pub open spec fn threat(b: Seq<u8>, side: Side, j: int, k: int) -> bool {
    ||| (owns(side.spec_other(), b[j]) && piece_moves(b, j / 9, j % 9, k / 9, k % 9))
    ||| (b[j] == king_code(side.spec_other()) && j % 9 == k % 9 && count_col(
        b,
        k % 9,
        if j < k { j / 9 } else { k / 9 },
        if j < k { k / 9 } else { j / 9 },
    ) == 0)
}

/// `side`'s king on cell `k` is threatened.
pub open spec fn king_threatened(b: Seq<u8>, side: Side, k: int) -> bool {
    exists|j: int| 0 <= j < 90 && #[trigger] threat(b, side, j, k)
}

/// `side` is in check: one of its kings is threatened.
pub open spec fn in_check(b: Seq<u8>, side: Side) -> bool {
    exists|k: int| 0 <= k < 90 && b[k] == king_code(side) && #[trigger] king_threatened(b, side, k)
}

/// A legal move: possible for the piece, and not leaving the mover in check.
pub open spec fn legal(b: Seq<u8>, side: Side, fr: int, fc: int, tr: int, tc: int) -> bool {
    pseudo_legal(b, side, fr, fc, tr, tc) && !in_check(apply_move(b, fr, fc, tr, tc), side)
}

pub open spec fn board_wf(b: Seq<u8>) -> bool {
    b.len() == 90 && forall|i: int| 0 <= i < 90 ==> valid_code(#[trigger] b[i])
}

fn count_row_exec(b: &Vec<u8>, r: usize, lo: usize, hi: usize) -> (n: usize)
    requires
        b@.len() == 90,
        r < 10,
        lo <= hi <= 9,
    ensures
        n as int == count_row(b@, r as int, lo as int, hi as int),
        n <= 9,
{
    let mut n: usize = 0;
    let mut c: usize = lo + 1;
    if hi <= lo + 1 {
        return 0;
    }
    while c < hi
        invariant
            b@.len() == 90,
            r < 10,
            lo < c <= hi <= 9,
            n as int == count_row(b@, r as int, lo as int, c as int),
            n <= c,
        decreases hi - c,
    {
        if b[r * 9 + c] != 0 {
            n = n + 1;
        }
        c = c + 1;
    }
    n
}

fn count_col_exec(b: &Vec<u8>, c: usize, lo: usize, hi: usize) -> (n: usize)
    requires
        b@.len() == 90,
        c < 9,
        lo <= hi <= 10,
    ensures
        n as int == count_col(b@, c as int, lo as int, hi as int),
        n <= 10,
{
    let mut n: usize = 0;
    let mut r: usize = lo + 1;
    if hi <= lo + 1 {
        return 0;
    }
    while r < hi
        invariant
            b@.len() == 90,
            c < 9,
            lo < r <= hi <= 10,
            n as int == count_col(b@, c as int, lo as int, r as int),
            n <= r,
        decreases hi - r,
    {
        assert(r * 9 + c < 90) by (nonlinear_arith)
            requires
                r < 10,
                c < 9,
        ;
        if b[r * 9 + c] != 0 {
            n = n + 1;
        }
        r = r + 1;
    }
    n
}

fn between_exec(b: &Vec<u8>, fr: usize, fc: usize, tr: usize, tc: usize) -> (n: usize)
    requires
        b@.len() == 90,
        on_board(fr as int, fc as int),
        on_board(tr as int, tc as int),
        fr == tr || fc == tc,
    ensures
        n as int == between(b@, fr as int, fc as int, tr as int, tc as int),
{
    if fr == tr {
        let (lo, hi) = if fc < tc { (fc, tc) } else { (tc, fc) };
        count_row_exec(b, fr, lo, hi)
    } else {
        let (lo, hi) = if fr < tr { (fr, tr) } else { (tr, fr) };
        count_col_exec(b, fc, lo, hi)
    }
}

proof fn lemma_index(r: int, c: int)
    requires
        on_board(r, c),
    ensures
        0 <= r * 9 + c < 90,
        (r * 9 + c) / 9 == r,
        (r * 9 + c) % 9 == c,
{
    assert(0 <= r * 9 + c < 90) by (nonlinear_arith)
        requires
            on_board(r, c),
    ;
    vstd::arithmetic::div_mod::lemma_fundamental_div_mod_converse(r * 9 + c, 9, r, c);
}

fn in_palace_exec(side: Side, r: usize, c: usize) -> (ok: bool)
    ensures
        ok == in_palace(side, r as int, c as int),
{
    3 <= c && c <= 5 && match side {
        Side::Red => 7 <= r && r <= 9,
        Side::Black => r <= 2,
    }
}

fn own_half_exec(side: Side, r: usize) -> (ok: bool)
    ensures
        ok == own_half(side, r as int),
{
    match side {
        Side::Red => r >= 5,
        Side::Black => r <= 4,
    }
}

/// Whether the piece on (`fr`, `fc`) can reach (`tr`, `tc`), as [`piece_moves`] says.
fn piece_moves_exec(b: &Vec<u8>, fr: usize, fc: usize, tr: usize, tc: usize) -> (ok: bool)
    requires
        b@.len() == 90,
        on_board(fr as int, fc as int),
        on_board(tr as int, tc as int),
    ensures
        ok == piece_moves(b@, fr as int, fc as int, tr as int, tc as int),
{
    proof {
        lemma_index(fr as int, fc as int);
        lemma_index(tr as int, tc as int);
    }
    let p = b[fr * 9 + fc];
    let side = if p >= 9 { Side::Black } else { Side::Red };
    let k: u8 = if p >= 9 { p - 8 } else { p };
    let dr: i32 = tr as i32 - fr as i32;
    let dc: i32 = tc as i32 - fc as i32;
    let adr: i32 = if dr < 0 { -dr } else { dr };
    let adc: i32 = if dc < 0 { -dc } else { dc };
    if k == 1 || k == 6 {
        if !((dr == 0 || dc == 0) && !(dr == 0 && dc == 0)) {
            return false;
        }
        let n = between_exec(b, fr, fc, tr, tc);
        if k == 1 {
            n == 0
        } else if b[tr * 9 + tc] == 0 {
            n == 0
        } else {
            n == 1
        }
    } else if k == 2 {
        if adr == 2 && adc == 1 {
            let lr: usize = if dr < 0 { fr - 1 } else { fr + 1 };
            proof {
                lemma_index(lr as int, fc as int);
            }
            b[lr * 9 + fc] == 0
        } else if adr == 1 && adc == 2 {
            let lc: usize = if dc < 0 { fc - 1 } else { fc + 1 };
            proof {
                lemma_index(fr as int, lc as int);
            }
            b[fr * 9 + lc] == 0
        } else {
            false
        }
    } else if k == 3 {
        if adr == 2 && adc == 2 {
            let er: usize = if dr < 0 { fr - 1 } else { fr + 1 };
            let ec: usize = if dc < 0 { fc - 1 } else { fc + 1 };
            proof {
                lemma_index(er as int, ec as int);
            }
            b[er * 9 + ec] == 0 && own_half_exec(side, tr)
        } else {
            false
        }
    } else if k == 4 {
        adr == 1 && adc == 1 && in_palace_exec(side, tr, tc)
    } else if k == 5 {
        adr + adc == 1 && in_palace_exec(side, tr, tc)
    } else if k == 7 {
        let fwd: i32 = if p >= 9 { 1 } else { -1 };
        (dr == fwd && dc == 0) || (!own_half_exec(side, fr) && dr == 0 && adc == 1)
    } else {
        false
    }
}

fn owns_exec(side: Side, p: u8) -> (ok: bool)
    ensures
        ok == owns(side, p),
{
    match side {
        Side::Red => 1 <= p && p <= 7,
        Side::Black => 9 <= p && p <= 15,
    }
}

fn king_code_exec(side: Side) -> (k: u8)
    ensures
        k == king_code(side),
{
    match side {
        Side::Red => 5,
        Side::Black => 13,
    }
}

/// Whether cell `j` threatens `side`'s king on cell `k`.
fn threat_exec(b: &Vec<u8>, side: Side, j: usize, k: usize) -> (t: bool)
    requires
        b@.len() == 90,
        j < 90,
        k < 90,
    ensures
        t == threat(b@, side, j as int, k as int),
{
    let other = side.other();
    let p = b[j];
    if owns_exec(other, p) && piece_moves_exec(b, j / 9, j % 9, k / 9, k % 9) {
        return true;
    }
    if p == king_code_exec(other) && j % 9 == k % 9 {
        let (lo, hi) = if j < k { (j / 9, k / 9) } else { (k / 9, j / 9) };
        return count_col_exec(b, k % 9, lo, hi) == 0;
    }
    false
}

/// Whether `side`'s king on cell `k` is threatened.
fn king_threatened_exec(b: &Vec<u8>, side: Side, k: usize) -> (t: bool)
    requires
        b@.len() == 90,
        k < 90,
    ensures
        t == king_threatened(b@, side, k as int),
{
    let mut j: usize = 0;
    while j < 90
        invariant
            b@.len() == 90,
            k < 90,
            j <= 90,
            forall|i: int| 0 <= i < j ==> !#[trigger] threat(b@, side, i, k as int),
        decreases 90 - j,
    {
        if threat_exec(b, side, j, k) {
            return true;
        }
        j = j + 1;
    }
    false
}

/// Whether `side` is in check on the cells `b`.
pub fn in_check_exec(b: &Vec<u8>, side: Side) -> (t: bool)
    requires
        b@.len() == 90,
    ensures
        t == in_check(b@, side),
{
    let king = king_code_exec(side);
    let mut k: usize = 0;
    while k < 90
        invariant
            b@.len() == 90,
            king == king_code(side),
            k <= 90,
            forall|i: int| 0 <= i < k && b@[i] == king_code(side) ==> !#[trigger] king_threatened(b@, side, i),
        decreases 90 - k,
    {
        if b[k] == king {
            if king_threatened_exec(b, side, k) {
                return true;
            }
        }
        k = k + 1;
    }
    false
}

/// Whether the move is legal for `side` on the cells `b`.
pub fn legal_exec(b: &Vec<u8>, side: Side, fr: usize, fc: usize, tr: usize, tc: usize) -> (ok: bool)
    requires
        b@.len() == 90,
    ensures
        ok == legal(b@, side, fr as int, fc as int, tr as int, tc as int),
{
    if !(fr < 10 && fc < 9 && tr < 10 && tc < 9) {
        return false;
    }
    proof {
        lemma_index(fr as int, fc as int);
        lemma_index(tr as int, tc as int);
    }
    if !owns_exec(side, b[fr * 9 + fc]) || owns_exec(side, b[tr * 9 + tc]) {
        return false;
    }
    if !piece_moves_exec(b, fr, fc, tr, tc) {
        return false;
    }
    let mut after = b.clone();
    assert(after@ == b@);
    let p = b[fr * 9 + fc];
    after.set(tr * 9 + tc, p);
    after.set(fr * 9 + fc, 0);
    assert(after@ == apply_move(b@, fr as int, fc as int, tr as int, tc as int));
    !in_check_exec(&after, side)
}

/// The FEN after the move `uci` in the position `fen`: `None` when the FEN or
/// the move text cannot be read or the move is not legal.
pub open spec fn spec_try_apply(fen: Seq<char>, uci: Seq<char>) -> Option<Seq<char>> {
    match (spec_from_fen(fen), spec_parse_uci_coords(uci)) {
        (Some((b, side)), Some((fr, fc, tr, tc))) => if legal(b, side, fr as int, fc as int, tr as int, tc as int) {
            Some(spec_to_fen(apply_move(b, fr as int, fc as int, tr as int, tc as int), side.spec_other()))
        } else {
            None
        },
        _ => None,
    }
}

proof fn lemma_apply_valid(b: Seq<u8>, fr: int, fc: int, tr: int, tc: int)
    requires
        board_wf(b),
        on_board(fr, fc),
        on_board(tr, tc),
    ensures
        board_wf(apply_move(b, fr, fc, tr, tc)),
{
    lemma_index(fr, fc);
    lemma_index(tr, tc);
    let a = apply_move(b, fr, fc, tr, tc);
    assert forall|i: int| 0 <= i < 90 implies valid_code(#[trigger] a[i]) by {
        if i != fr * 9 + fc && i != tr * 9 + tc {
            assert(a[i] == b[i]);
        }
    }
}

/// The position after a fully legal move, as [`spec_try_apply`] says.
pub fn try_apply_fully_legal_uci(fen: &str, uci: &str) -> (r: Option<String>)
    ensures
        match r {
            Some(f) => spec_try_apply(fen@, uci@) == Some(f@),
            None => spec_try_apply(fen@, uci@) is None,
        },
{
    let (board, side) = match Board90::from_fen_with_side(fen) {
        Some(x) => x,
        None => {
            return None;
        },
    };
    let (fr, fc, tr, tc) = match parse_uci_coords(uci) {
        Some(x) => x,
        None => {
            return None;
        },
    };
    if !legal_exec(&board.cells, side, fr, fc, tr, tc) {
        return None;
    }
    proof {
        lemma_index(fr as int, fc as int);
        lemma_index(tr as int, tc as int);
        lemma_apply_valid(board.cells@, fr as int, fc as int, tr as int, tc as int);
    }
    let mut cells = board.cells.clone();
    assert(cells@ == board.cells@);
    let p = cells[fr * 9 + fc];
    cells.set(tr * 9 + tc, p);
    cells.set(fr * 9 + fc, 0);
    let next = Board90 { cells };
    assert(next.cells@ == apply_move(board.cells@, fr as int, fc as int, tr as int, tc as int));
    Some(next.to_fen(side.other()))
}

/// `side` has a legal move on the cells `b`.
pub open spec fn has_legal_move(b: Seq<u8>, side: Side) -> bool {
    exists|from: int, to: int|
        0 <= from < 90 && 0 <= to < 90 && #[trigger] legal(b, side, from / 9, from % 9, to / 9, to % 9)
}

/// Whether `side` has a legal move on the cells `b`.
pub fn has_legal_move_exec(b: &Vec<u8>, side: Side) -> (ok: bool)
    requires
        b@.len() == 90,
    ensures
        ok == has_legal_move(b@, side),
{
    let mut from: usize = 0;
    while from < 90
        invariant
            b@.len() == 90,
            from <= 90,
            forall|f: int, t: int|
                0 <= f < from && 0 <= t < 90 ==> !#[trigger] legal(b@, side, f / 9, f % 9, t / 9, t % 9),
        decreases 90 - from,
    {
        let mut to: usize = 0;
        while to < 90
            invariant
                b@.len() == 90,
                from < 90,
                to <= 90,
                forall|f: int, t: int|
                    0 <= f < from && 0 <= t < 90 ==> !#[trigger] legal(b@, side, f / 9, f % 9, t / 9, t % 9),
                forall|t: int| 0 <= t < to ==> !#[trigger] legal(b@, side, from as int / 9, from as int % 9, t / 9, t % 9),
            decreases 90 - to,
        {
            if legal_exec(b, side, from / 9, from % 9, to / 9, to % 9) {
                assert(legal(b@, side, from as int / 9, from as int % 9, to as int / 9, to as int % 9));
                return true;
            }
            to = to + 1;
        }
        from = from + 1;
    }
    false
}

/// A move the rules accept leads to a position that reads back as the board
/// after the move, with the other side to move, a full board, and the
/// mover's king not in check.
pub proof fn lemma_accepted_move(fen: Seq<char>, uci: Seq<char>)
    requires
        spec_try_apply(fen, uci) is Some,
    ensures
        ({
            let (b, side) = spec_from_fen(fen)->0;
            let (fr, fc, tr, tc) = spec_parse_uci_coords(uci)->0;
            let after = apply_move(b, fr as int, fc as int, tr as int, tc as int);
            &&& spec_from_fen(spec_try_apply(fen, uci)->0) == Some((after, side.spec_other()))
            &&& board_wf(after)
            &&& !in_check(after, side)
            &&& owns(side, cell(b, fr as int, fc as int))
        }),
{
    let (b, side) = spec_from_fen(fen)->0;
    let (fr, fc, tr, tc) = spec_parse_uci_coords(uci)->0;
    lemma_from_fen_cells(fen);
    lemma_apply_valid(b, fr as int, fc as int, tr as int, tc as int);
    let after = apply_move(b, fr as int, fc as int, tr as int, tc as int);
    lemma_fen_round_trip(after, side.spec_other());
}

/// No piece stands in row `r` strictly between columns `c1` and `c2`.
pub open spec fn clear_row(b: Seq<u8>, r: int, c1: int, c2: int) -> bool {
    forall|c: int| (c1 < c < c2 || c2 < c < c1) ==> #[trigger] cell(b, r, c) == 0
}

/// No piece stands in column `c` strictly between rows `r1` and `r2`.
pub open spec fn clear_col(b: Seq<u8>, c: int, r1: int, r2: int) -> bool {
    forall|r: int| (r1 < r < r2 || r2 < r < r1) ==> #[trigger] cell(b, r, c) == 0
}

/// Exactly one piece stands in row `r` strictly between columns `c1` and `c2`.
pub open spec fn one_in_row(b: Seq<u8>, r: int, c1: int, c2: int) -> bool {
    exists|s: int|
        (c1 < s < c2 || c2 < s < c1) && #[trigger] cell(b, r, s) != 0 && forall|c: int|
            (c1 < c < c2 || c2 < c < c1) && c != s ==> #[trigger] cell(b, r, c) == 0
}

/// Exactly one piece stands in column `c` strictly between rows `r1` and `r2`.
pub open spec fn one_in_col(b: Seq<u8>, c: int, r1: int, r2: int) -> bool {
    exists|s: int|
        (r1 < s < r2 || r2 < s < r1) && #[trigger] cell(b, s, c) != 0 && forall|r: int|
            (r1 < r < r2 || r2 < r < r1) && r != s ==> #[trigger] cell(b, r, c) == 0
}

proof fn lemma_count_row(b: Seq<u8>, r: int, lo: int, hi: int)
    requires
        lo <= hi,
    ensures
        count_row(b, r, lo, hi) >= 0,
        count_row(b, r, lo, hi) == 0 <==> clear_row(b, r, lo, hi),
        count_row(b, r, lo, hi) == 1 <==> one_in_row(b, r, lo, hi),
    decreases hi - lo,
{
    if hi > lo + 1 {
        lemma_count_row(b, r, lo, hi - 1);
        if count_row(b, r, lo, hi) == 1 {
            if cell(b, r, hi - 1) != 0 {
                assert forall|c: int| (lo < c < hi || hi < c < lo) && c != hi - 1 implies #[trigger] cell(b, r, c) == 0 by {
                    assert(lo < c < hi - 1);
                }
            } else {
                let s0 = choose|s0: int|
                    (lo < s0 < hi - 1 || hi - 1 < s0 < lo) && #[trigger] cell(b, r, s0) != 0 && forall|c: int|
                        (lo < c < hi - 1 || hi - 1 < c < lo) && c != s0 ==> #[trigger] cell(b, r, c) == 0;
                assert(cell(b, r, s0) != 0);
            }
        }
        if clear_row(b, r, lo, hi) {
            assert(cell(b, r, hi - 1) == 0);
        }
        if one_in_row(b, r, lo, hi) {
            let s0 = choose|s0: int|
                (lo < s0 < hi || hi < s0 < lo) && #[trigger] cell(b, r, s0) != 0 && forall|c: int|
                    (lo < c < hi || hi < c < lo) && c != s0 ==> #[trigger] cell(b, r, c) == 0;
            if s0 == hi - 1 {
                assert forall|c: int| (lo < c < hi - 1 || hi - 1 < c < lo) implies #[trigger] cell(b, r, c) == 0 by {
                    assert(c != s0);
                }
                assert(clear_row(b, r, lo, hi - 1));
            } else {
                assert(cell(b, r, hi - 1) == 0);
                assert(one_in_row(b, r, lo, hi - 1)) by {
                    assert(cell(b, r, s0) != 0);
                }
            }
        }
    } else {
        if one_in_row(b, r, lo, hi) {
            let s0 = choose|s0: int|
                (lo < s0 < hi || hi < s0 < lo) && #[trigger] cell(b, r, s0) != 0 && forall|c: int|
                    (lo < c < hi || hi < c < lo) && c != s0 ==> #[trigger] cell(b, r, c) == 0;
            assert(false);
        }
    }
}

proof fn lemma_count_col(b: Seq<u8>, c: int, lo: int, hi: int)
    requires
        lo <= hi,
    ensures
        count_col(b, c, lo, hi) >= 0,
        count_col(b, c, lo, hi) == 0 <==> clear_col(b, c, lo, hi),
        count_col(b, c, lo, hi) == 1 <==> one_in_col(b, c, lo, hi),
    decreases hi - lo,
{
    if hi > lo + 1 {
        lemma_count_col(b, c, lo, hi - 1);
        if count_col(b, c, lo, hi) == 1 {
            if cell(b, hi - 1, c) != 0 {
                assert forall|r: int| (lo < r < hi || hi < r < lo) && r != hi - 1 implies #[trigger] cell(b, r, c) == 0 by {
                    assert(lo < r < hi - 1);
                }
            } else {
                let s0 = choose|s0: int|
                    (lo < s0 < hi - 1 || hi - 1 < s0 < lo) && #[trigger] cell(b, s0, c) != 0 && forall|r: int|
                        (lo < r < hi - 1 || hi - 1 < r < lo) && r != s0 ==> #[trigger] cell(b, r, c) == 0;
                assert(cell(b, s0, c) != 0);
            }
        }
        if clear_col(b, c, lo, hi) {
            assert(cell(b, hi - 1, c) == 0);
        }
        if one_in_col(b, c, lo, hi) {
            let s0 = choose|s0: int|
                (lo < s0 < hi || hi < s0 < lo) && #[trigger] cell(b, s0, c) != 0 && forall|r: int|
                    (lo < r < hi || hi < r < lo) && r != s0 ==> #[trigger] cell(b, r, c) == 0;
            if s0 == hi - 1 {
                assert forall|r: int| (lo < r < hi - 1 || hi - 1 < r < lo) implies #[trigger] cell(b, r, c) == 0 by {
                    assert(r != s0);
                }
                assert(clear_col(b, c, lo, hi - 1));
            } else {
                assert(cell(b, hi - 1, c) == 0);
                assert(one_in_col(b, c, lo, hi - 1)) by {
                    assert(cell(b, s0, c) != 0);
                }
            }
        }
    } else {
        if one_in_col(b, c, lo, hi) {
            let s0 = choose|s0: int|
                (lo < s0 < hi || hi < s0 < lo) && #[trigger] cell(b, s0, c) != 0 && forall|r: int|
                    (lo < r < hi || hi < r < lo) && r != s0 ==> #[trigger] cell(b, r, c) == 0;
            assert(false);
        }
    }
}

/// How the piece on (`fr`, `fc`) may move to (`tr`, `tc`) (red at the
/// bottom, rows 0 to 9 from the top): a rook slides along a row or a column
/// over empty cells only; a horse moves two and one, its leg (the cell next
/// to it in the long direction) empty; an elephant moves two diagonally, its
/// eye (the cell passed over) empty, without crossing the river; an advisor
/// steps one diagonally and a king one orthogonally, both staying in their
/// palace; a cannon slides over empty cells onto an empty cell, or takes by
/// jumping exactly one piece; a pawn steps forward, or sideways once across
/// the river.
pub open spec fn move_rule(b: Seq<u8>, fr: int, fc: int, tr: int, tc: int) -> bool {
    let p = cell(b, fr, fc);
    let dr = tr - fr;
    let dc = tc - fc;
    &&& (p == 1 || p == 9) ==> (dr == 0 && dc != 0 && clear_row(b, fr, fc, tc)) || (dc == 0 && dr != 0
        && clear_col(b, fc, fr, tr))
    &&& (p == 2 || p == 10) ==> ((dr == 2 || dr == -2) && (dc == 1 || dc == -1) && cell(
        b,
        if dr > 0 { fr + 1 } else { fr - 1 },
        fc,
    ) == 0) || ((dc == 2 || dc == -2) && (dr == 1 || dr == -1) && cell(
        b,
        fr,
        if dc > 0 { fc + 1 } else { fc - 1 },
    ) == 0)
    &&& (p == 3 || p == 11) ==> (dr == 2 || dr == -2) && (dc == 2 || dc == -2) && cell(
        b,
        (fr + tr) / 2,
        (fc + tc) / 2,
    ) == 0 && (p == 3 ==> tr >= 5) && (p == 11 ==> tr <= 4)
    &&& (p == 4 || p == 12) ==> (dr == 1 || dr == -1) && (dc == 1 || dc == -1) && 3 <= tc <= 5 && (p == 4
        ==> tr >= 7) && (p == 12 ==> tr <= 2)
    &&& (p == 5 || p == 13) ==> ((dr == 0 && (dc == 1 || dc == -1)) || (dc == 0 && (dr == 1 || dr == -1)))
        && 3 <= tc <= 5 && (p == 5 ==> tr >= 7) && (p == 13 ==> tr <= 2)
    &&& (p == 6 || p == 14) ==> (dr == 0) != (dc == 0) && (cell(b, tr, tc) == 0 ==> (if dr == 0 {
        clear_row(b, fr, fc, tc)
    } else {
        clear_col(b, fc, fr, tr)
    })) && (cell(b, tr, tc) != 0 ==> (if dr == 0 {
        one_in_row(b, fr, fc, tc)
    } else {
        one_in_col(b, fc, fr, tr)
    }))
    &&& p == 7 ==> (dr == -1 && dc == 0) || (fr <= 4 && dr == 0 && (dc == 1 || dc == -1))
    &&& p == 15 ==> (dr == 1 && dc == 0) || (fr >= 5 && dr == 0 && (dc == 1 || dc == -1))
}

/// A legal move is exactly this: the mover moves one of its own pieces
/// (red 1 to 7, black 9 to 15) from a cell of the board onto a cell of the
/// board not its own, as [`move_rule`] lets that piece move, and afterwards
/// its king is not in check.
pub proof fn lemma_legal_moves(b: Seq<u8>, side: Side, fr: int, fc: int, tr: int, tc: int)
    ensures
        legal(b, side, fr, fc, tr, tc) == ({
            &&& 0 <= fr < 10 && 0 <= fc < 9 && 0 <= tr < 10 && 0 <= tc < 9
            &&& (side == Side::Red ==> 1 <= cell(b, fr, fc) <= 7) && (side == Side::Black ==> 9 <= cell(
                b,
                fr,
                fc,
            ) <= 15)
            &&& (side == Side::Red ==> !(1 <= cell(b, tr, tc) <= 7))
            &&& (side == Side::Black ==> !(9 <= cell(b, tr, tc) <= 15))
            &&& move_rule(b, fr, fc, tr, tc)
            &&& !in_check(apply_move(b, fr, fc, tr, tc), side)
        }),
{
    let p = cell(b, fr, fc);
    if on_board(fr, fc) && on_board(tr, tc) && ((1 <= p <= 7) || (9 <= p <= 15)) {
        lemma_piece_moves_rule(b, fr, fc, tr, tc);
    }
}

/// [`piece_moves`] is [`move_rule`] for a piece on the board.
proof fn lemma_piece_moves_rule(b: Seq<u8>, fr: int, fc: int, tr: int, tc: int)
    requires
        on_board(fr, fc),
        on_board(tr, tc),
        (1 <= cell(b, fr, fc) <= 7) || (9 <= cell(b, fr, fc) <= 15),
    ensures
        piece_moves(b, fr, fc, tr, tc) == move_rule(b, fr, fc, tr, tc),
{
    let p = cell(b, fr, fc);
    let k = kind(p);
    if k == 1 || k == 6 {
        if fr == tr {
            let (lo, hi) = if fc < tc { (fc, tc) } else { (tc, fc) };
            lemma_count_row(b, fr, lo, hi);
            assert(clear_row(b, fr, lo, hi) == clear_row(b, fr, fc, tc));
            assert(one_in_row(b, fr, lo, hi) == one_in_row(b, fr, fc, tc));
        } else {
            let (lo, hi) = if fr < tr { (fr, tr) } else { (tr, fr) };
            lemma_count_col(b, fc, lo, hi);
            assert(clear_col(b, fc, lo, hi) == clear_col(b, fc, fr, tr));
            assert(one_in_col(b, fc, lo, hi) == one_in_col(b, fc, fr, tr));
        }
    } else if k == 2 {
        assert(piece_moves(b, fr, fc, tr, tc) == move_rule(b, fr, fc, tr, tc));
    } else if k == 3 {
        assert(piece_moves(b, fr, fc, tr, tc) == move_rule(b, fr, fc, tr, tc));
    } else {
        assert(piece_moves(b, fr, fc, tr, tc) == move_rule(b, fr, fc, tr, tc));
    }
}

/// The two kings never face each other on an open file after a legal move:
/// a move that would leave them so is refused.
pub proof fn lemma_no_facing_kings(b: Seq<u8>, side: Side, fr: int, fc: int, tr: int, tc: int, j: int, k: int)
    requires
        legal(b, side, fr, fc, tr, tc),
        0 <= j < 90,
        0 <= k < 90,
    ensures
        ({
            let a = apply_move(b, fr, fc, tr, tc);
            !(a[k] == king_code(side) && a[j] == king_code(side.spec_other()) && j % 9 == k % 9 && clear_col(
                a,
                k % 9,
                j / 9,
                k / 9,
            ))
        }),
{
    let a = apply_move(b, fr, fc, tr, tc);
    if a[k] == king_code(side) && a[j] == king_code(side.spec_other()) && j % 9 == k % 9 && clear_col(a, k % 9, j / 9, k / 9) {
        let lo = if j < k { j / 9 } else { k / 9 };
        let hi = if j < k { k / 9 } else { j / 9 };
        assert(j / 9 <= k / 9 <==> j <= k) by {
            vstd::arithmetic::div_mod::lemma_fundamental_div_mod(j, 9);
            vstd::arithmetic::div_mod::lemma_fundamental_div_mod(k, 9);
        }
        lemma_count_col(a, k % 9, lo, hi);
        assert(clear_col(a, k % 9, lo, hi));
        assert(threat(a, side, j, k));
        assert(king_threatened(a, side, k));
        assert(in_check(a, side));
    }
}

/// The piece on (`er`, `ec`) attacks `side`'s king on (`kr`, `kc`): it is an
/// enemy piece (red 1 to 7 and black 9 to 15) that could move there by the
/// move rules, or the enemy king (red 5, black 13) facing it on the same
/// file with nothing between.
pub open spec fn attacks(a: Seq<u8>, side: Side, er: int, ec: int, kr: int, kc: int) -> bool {
    let e = cell(a, er, ec);
    let enemy = if side == Side::Red { 9 <= e <= 15 } else { 1 <= e <= 7 };
    let enemy_king: u8 = if side == Side::Red { 13 } else { 5 };
    &&& on_board(er, ec)
    &&& on_board(kr, kc)
    &&& cell(a, kr, kc) == (if side == Side::Red { 5u8 } else { 13u8 })
    &&& ((enemy && move_rule(a, er, ec, kr, kc)) || (e == enemy_king && ec == kc && clear_col(a, kc, er, kr)))
}

proof fn lemma_split90(j: int)
    requires
        0 <= j < 90,
    ensures
        j == (j / 9) * 9 + j % 9,
        on_board(j / 9, j % 9),
{
    vstd::arithmetic::div_mod::lemma_fundamental_div_mod(j, 9);
}

/// A side is in check exactly when some piece attacks one of its kings.
pub proof fn lemma_in_check_attacks(a: Seq<u8>, side: Side)
    requires
        a.len() == 90,
    ensures
        in_check(a, side) == exists|er: int, ec: int, kr: int, kc: int| #[trigger] attacks(a, side, er, ec, kr, kc),
{
    if in_check(a, side) {
        let k = choose|k: int| 0 <= k < 90 && a[k] == king_code(side) && #[trigger] king_threatened(a, side, k);
        let j = choose|j: int| 0 <= j < 90 && #[trigger] threat(a, side, j, k);
        lemma_split90(j);
        lemma_split90(k);
        let (er, ec, kr, kc) = (j / 9, j % 9, k / 9, k % 9);
        if owns(side.spec_other(), a[j]) && piece_moves(a, er, ec, kr, kc) {
            lemma_piece_moves_rule(a, er, ec, kr, kc);
        } else {
            let lo = if j < k { j / 9 } else { k / 9 };
            let hi = if j < k { k / 9 } else { j / 9 };
            lemma_count_col(a, k % 9, lo, hi);
            assert(clear_col(a, kc, lo, hi) == clear_col(a, kc, er, kr));
        }
        assert(attacks(a, side, er, ec, kr, kc));
    }
    if exists|er: int, ec: int, kr: int, kc: int| #[trigger] attacks(a, side, er, ec, kr, kc) {
        let (er, ec, kr, kc) = choose|er: int, ec: int, kr: int, kc: int| #[trigger] attacks(a, side, er, ec, kr, kc);
        lemma_index(er, ec);
        lemma_index(kr, kc);
        let j = er * 9 + ec;
        let k = kr * 9 + kc;
        let e = cell(a, er, ec);
        if (if side == Side::Red { 9 <= e <= 15 } else { 1 <= e <= 7 }) && move_rule(a, er, ec, kr, kc) {
            lemma_piece_moves_rule(a, er, ec, kr, kc);
            assert(threat(a, side, j, k));
        } else {
            assert(j / 9 <= k / 9 <==> j <= k);
            let lo = if j < k { j / 9 } else { k / 9 };
            let hi = if j < k { k / 9 } else { j / 9 };
            lemma_count_col(a, k % 9, lo, hi);
            assert(clear_col(a, kc, lo, hi) == clear_col(a, kc, er, kr));
            assert(threat(a, side, j, k));
        }
        assert(king_threatened(a, side, k));
    }
}

/// A side has a legal move exactly when some move from a cell of the board
/// to a cell of the board is legal; without one the game is over.
pub proof fn lemma_has_legal_move(b: Seq<u8>, side: Side)
    ensures
        has_legal_move(b, side) == exists|fr: int, fc: int, tr: int, tc: int| #[trigger] legal(b, side, fr, fc, tr, tc),
{
    if has_legal_move(b, side) {
        let (f, t) = choose|f: int, t: int| 0 <= f < 90 && 0 <= t < 90 && #[trigger] legal(b, side, f / 9, f % 9, t / 9, t % 9);
        assert(legal(b, side, f / 9, f % 9, t / 9, t % 9));
    }
    if exists|fr: int, fc: int, tr: int, tc: int| #[trigger] legal(b, side, fr, fc, tr, tc) {
        let (fr, fc, tr, tc) = choose|fr: int, fc: int, tr: int, tc: int| #[trigger] legal(b, side, fr, fc, tr, tc);
        lemma_index(fr, fc);
        lemma_index(tr, tc);
        let f = fr * 9 + fc;
        let t = tr * 9 + tc;
        assert(legal(b, side, f / 9, f % 9, t / 9, t % 9));
    }
}

} // verus!
