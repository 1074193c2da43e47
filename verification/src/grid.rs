use vstd::prelude::*;

use crate::game::BoardArrow;
use crate::text::{chars_of, push_char, push_str};
use crate::xiangqi::{Board90, screen_to_internal, spec_flip};
use crate::xqb::find_char;
use crate::config::lines_of;

verus! {

/// Columns of the rank axis left of the board.
pub const AXIS_W: usize = 2;

/// Share of a cell (in percent, in each direction) that a piece block fills.
pub const PIECE_FILL_PERCENT: usize = 80;

/// The river is drawn after screen row 4.
pub const RIVER_AFTER_SCREEN_ROW: u8 = 4;

/// Sizes of a drawn board: cells, piece blocks inside them, and the padding
/// that centres the grid.
#[derive(Clone, Copy, Debug)]
pub struct GridMetrics {
    pub cell_w: usize,
    pub cell_h: usize,
    pub piece_w: usize,
    pub piece_h: usize,
    pub piece_pad_w: usize,
    pub piece_pad_h: usize,
    pub glyph_sub: usize,
    pub pad_left: u16,
    pub pad_top: u16,
}

/// Lines of the river band.
pub open spec fn spec_river_sep_lines(cell_h: int) -> int {
    cell_h + 2
}

/// Lines of the whole grid: top border, ten ranks, eight separators, the
/// river, the bottom border and the file axis.
pub open spec fn spec_grid_line_count(cell_h: int) -> int {
    1 + 10 * cell_h + 8 + spec_river_sep_lines(cell_h) + 1 + 1
}

/// Columns of the whole grid: the axis, the left border, nine cells, eight
/// separators and the right border.
pub open spec fn spec_line_cols(cell_w: int) -> int {
    AXIS_W + 1 + cell_w * 9 + 8 + 1
}

/// Lines of the river band for cells `cell_h` high.
pub fn river_sep_lines(cell_h: usize) -> (r: usize)
    requires
        cell_h <= usize::MAX - 2,
    ensures
        r == spec_river_sep_lines(cell_h as int),
{
    cell_h + 2
}

/// Lines of the whole grid for cells `cell_h` high.
pub fn grid_line_count(cell_h: usize) -> (r: usize)
    requires
        spec_grid_line_count(cell_h as int) <= usize::MAX,
    ensures
        r == spec_grid_line_count(cell_h as int),
{
    1 + 10 * cell_h + 8 + river_sep_lines(cell_h) + 1 + 1
}

/// Columns of the whole grid for cells `cell_w` wide.
pub fn line_cols_for_cell_w(cell_w: usize) -> (r: usize)
    requires
        spec_line_cols(cell_w as int) <= usize::MAX,
    ensures
        r == spec_line_cols(cell_w as int),
{
    AXIS_W + 1 + cell_w * 9 + 8 + 1
}

/// Inner width of the river band.
pub fn river_inner_w(cell_w: usize) -> (r: usize)
    requires
        cell_w * 9 + 8 <= usize::MAX,
    ensures
        r == cell_w * 9 + 8,
{
    cell_w * 9 + 8
}

/// The tallest cell (at least 1) whose grid fits `inner_h` lines.
pub fn max_cell_h_for_inner_h(inner_h: usize) -> (r: usize)
    requires
        inner_h <= usize::MAX / 2,
    ensures
        r >= 1,
        r == 1 || spec_grid_line_count(r as int) <= inner_h,
        spec_grid_line_count(r + 1) > inner_h,
{
    let mut h: usize = 1;
    while grid_line_count(h + 1) <= inner_h
        invariant
            inner_h <= usize::MAX / 2,
            h >= 1,
            h <= inner_h / 11 + 1,
            h == 1 || spec_grid_line_count(h as int) <= inner_h,
        decreases inner_h - h,
    {
        h = h + 1;
    }
    h
}

/// Size and place of a piece block in a cell: 80% of the cell each way
/// (at least 2 wide and 1 high, at most the cell), centred; and the line of
/// its glyph, the middle line of the block.
pub open spec fn spec_piece_layout(cell_w: int, cell_h: int) -> (int, int, int, int, int) {
    let pw0 = cell_w * 80 / 100;
    let pw1 = if pw0 < 2 { 2 } else { pw0 };
    let pw = if pw1 > cell_w { cell_w } else { pw1 };
    let ph0 = cell_h * 80 / 100;
    let ph1 = if ph0 < 1 { 1 } else { ph0 };
    let ph = if ph1 > cell_h { cell_h } else { ph1 };
    let pad_w = (cell_w - pw) / 2;
    let pad_h = (cell_h - ph) / 2;
    (pw, ph, pad_w, pad_h, pad_h + ph / 2)
}

/// The piece block of a cell, as [`spec_piece_layout`] gives it.
pub fn piece_layout_in_cell(cell_w: usize, cell_h: usize) -> (r: (usize, usize, usize, usize, usize))
    requires
        cell_w <= usize::MAX / 100,
        cell_h <= usize::MAX / 100,
    ensures
        (r.0 as int, r.1 as int, r.2 as int, r.3 as int, r.4 as int) == spec_piece_layout(
            cell_w as int,
            cell_h as int,
        ),
{
    let pw0 = cell_w * PIECE_FILL_PERCENT / 100;
    let pw1 = if pw0 < 2 { 2 } else { pw0 };
    let piece_w = if pw1 > cell_w { cell_w } else { pw1 };
    let ph0 = cell_h * PIECE_FILL_PERCENT / 100;
    let ph1 = if ph0 < 1 { 1 } else { ph0 };
    let piece_h = if ph1 > cell_h { cell_h } else { ph1 };
    let piece_pad_w = (cell_w - piece_w) / 2;
    let piece_pad_h = (cell_h - piece_h) / 2;
    let glyph_sub = piece_pad_h + piece_h / 2;
    (piece_w, piece_h, piece_pad_w, piece_pad_h, glyph_sub)
}

/// How far a grid of `cw`×`ch` cells is from a 9:10 outline on a terminal
/// whose characters are twice as high as wide: the outline's width over
/// height is `cols / (2 lines)`, and its distance from 9/10 is this value
/// over `10 lines`.
pub open spec fn aspect_gap(cw: int, ch: int) -> int {
    let d = 5 * spec_line_cols(cw) - 9 * spec_grid_line_count(ch);
    if d < 0 {
        -d
    } else {
        d
    }
}

/// Cells `a` (width, height) are preferred to cells `b`: the outline is
/// closer to 9:10, else it takes fewer lines, else the cells are larger.
pub open spec fn fits_better(a: (int, int), b: (int, int)) -> bool {
    let la = spec_grid_line_count(a.1);
    let lb = spec_grid_line_count(b.1);
    let ea = aspect_gap(a.0, a.1) * lb;
    let eb = aspect_gap(b.0, b.1) * la;
    ||| ea < eb
    ||| ea == eb && la < lb
    ||| ea == eb && la == lb && a.0 * a.1 > b.0 * b.1
}

/// Cells `c` can be chosen: within the limits, and the grid fits the area.
pub open spec fn cell_fits(c: (int, int), inner_w: int, inner_h: int, max_w: int, max_h: int) -> bool {
    &&& 2 <= c.0 <= max_w
    &&& 1 <= c.1 <= max_h
    &&& spec_line_cols(c.0) <= inner_w
    &&& spec_grid_line_count(c.1) <= inner_h
}

/// `r` is the choice among the cells that fit: preferred to every other one,
/// or `(2, 1)` when none fits.
pub open spec fn best_cells(r: (int, int), inner_w: int, inner_h: int, max_w: int, max_h: int) -> bool {
    if exists|c: (int, int)| #[trigger] cell_fits(c, inner_w, inner_h, max_w, max_h) {
        &&& cell_fits(r, inner_w, inner_h, max_w, max_h)
        &&& forall|c: (int, int)|
            #[trigger] cell_fits(c, inner_w, inner_h, max_w, max_h) && c != r ==> fits_better(r, c)
    } else {
        r == (2int, 1int)
    }
}

proof fn lemma_cross_order(ga: int, la: int, gb: int, lb: int, gc: int, lc: int)
    requires
        la > 0,
        lb > 0,
        lc > 0,
        ga >= 0,
        gb >= 0,
        gc >= 0,
    ensures
        ga * lb <= gb * la && gb * lc <= gc * lb ==> ga * lc <= gc * la,
        ga * lb < gb * la && gb * lc <= gc * lb ==> ga * lc < gc * la,
        ga * lb <= gb * la && gb * lc < gc * lb ==> ga * lc < gc * la,
{
    if ga * lb <= gb * la && gb * lc <= gc * lb {
        assert(ga * lb * lc <= gb * la * lc) by (nonlinear_arith)
            requires
                ga * lb <= gb * la,
                lc > 0,
        ;
        assert(gb * lc * la <= gc * lb * la) by (nonlinear_arith)
            requires
                gb * lc <= gc * lb,
                la > 0,
        ;
        assert(ga * lc * lb <= gc * la * lb) by (nonlinear_arith)
            requires
                ga * lb * lc <= gb * la * lc,
                gb * lc * la <= gc * lb * la,
        ;
        assert(ga * lc <= gc * la) by (nonlinear_arith)
            requires
                ga * lc * lb <= gc * la * lb,
                lb > 0,
        ;
        if ga * lb < gb * la || gb * lc < gc * lb {
            assert(ga * lc * lb < gc * la * lb) by (nonlinear_arith)
                requires
                    ga * lb <= gb * la,
                    gb * lc <= gc * lb,
                    ga * lb < gb * la || gb * lc < gc * lb,
                    la > 0,
                    lb > 0,
                    lc > 0,
            ;
            assert(ga * lc < gc * la) by (nonlinear_arith)
                requires
                    ga * lc * lb < gc * la * lb,
                    lb > 0,
            ;
        }
    }
}

/// The preference between cells is transitive.
proof fn lemma_fits_better_transitive(a: (int, int), b: (int, int), c: (int, int))
    requires
        a.1 >= 1,
        b.1 >= 1,
        c.1 >= 1,
        fits_better(a, b),
        fits_better(b, c),
    ensures
        fits_better(a, c),
{
    lemma_cross_order(
        aspect_gap(a.0, a.1),
        spec_grid_line_count(a.1),
        aspect_gap(b.0, b.1),
        spec_grid_line_count(b.1),
        aspect_gap(c.0, c.1),
        spec_grid_line_count(c.1),
    );
    lemma_cross_order(
        aspect_gap(c.0, c.1),
        spec_grid_line_count(c.1),
        aspect_gap(b.0, b.1),
        spec_grid_line_count(b.1),
        aspect_gap(a.0, a.1),
        spec_grid_line_count(a.1),
    );
    let la = spec_grid_line_count(a.1);
    let lb = spec_grid_line_count(b.1);
    let lc = spec_grid_line_count(c.1);
    let ga = aspect_gap(a.0, a.1);
    let gb = aspect_gap(b.0, b.1);
    let gc = aspect_gap(c.0, c.1);
    assert(ga * lb == lb * ga && gb * la == la * gb && gb * lc == lc * gb && gc * lb == lb * gc && ga * lc
        == lc * ga && gc * la == la * gc) by (nonlinear_arith);
}

/// Two different cell sizes are always ordered one way or the other.
proof fn lemma_fits_better_total(a: (int, int), b: (int, int))
    requires
        a.1 >= 1,
        b.1 >= 1,
        a != b,
        !fits_better(a, b),
    ensures
        fits_better(b, a),
{
    let la = spec_grid_line_count(a.1);
    let lb = spec_grid_line_count(b.1);
    let ga = aspect_gap(a.0, a.1);
    let gb = aspect_gap(b.0, b.1);
    assert(ga * lb == lb * ga && gb * la == la * gb) by (nonlinear_arith);
    if ga * lb == gb * la && la == lb {
        assert(a.1 == b.1);
        if a.0 * a.1 == b.0 * b.1 {
            assert(a.0 == b.0) by (nonlinear_arith)
                requires
                    a.0 * a.1 == b.0 * b.1,
                    a.1 == b.1,
                    a.1 >= 1,
            ;
        }
    }
}

/// [`aspect_gap`] of cells whose grid has at most `usize::MAX` columns and lines.
fn aspect_gap_exec(cw: usize, ch: usize) -> (g: u128)
    requires
        spec_line_cols(cw as int) <= usize::MAX,
        spec_grid_line_count(ch as int) <= usize::MAX,
    ensures
        g == aspect_gap(cw as int, ch as int),
        g < 0x100_0000_0000_0000_0000,
{
    let cols: u128 = 9 * (cw as u128) + 12;
    let lines: u128 = 11 * (ch as u128) + 13;
    let a: u128 = 5 * cols;
    let b: u128 = 9 * lines;
    if a >= b {
        a - b
    } else {
        b - a
    }
}

/// Comparing `ga / la` with `gb / lb` by whole parts, then by remainders.
proof fn lemma_cross_compare(ga: int, la: int, gb: int, lb: int)
    requires
        ga >= 0,
        gb >= 0,
        la > 0,
        lb > 0,
    ensures
        (ga * lb < gb * la) == (ga / la < gb / lb || (ga / la == gb / lb && (ga % la) * lb < (gb % lb) * la)),
        (ga * lb == gb * la) == (ga / la == gb / lb && (ga % la) * lb == (gb % lb) * la),
{
    let qa = ga / la;
    let ra = ga % la;
    let qb = gb / lb;
    let rb = gb % lb;
    assert(ga == qa * la + ra && 0 <= ra < la) by (nonlinear_arith)
        requires
            la > 0,
            qa == ga / la,
            ra == ga % la,
    ;
    assert(gb == qb * lb + rb && 0 <= rb < lb) by (nonlinear_arith)
        requires
            lb > 0,
            qb == gb / lb,
            rb == gb % lb,
    ;
    let p = la * lb;
    assert(ga * lb == qa * p + ra * lb && gb * la == qb * p + rb * la) by (nonlinear_arith)
        requires
            ga == qa * la + ra,
            gb == qb * lb + rb,
            p == la * lb,
    ;
    assert(0 <= ra * lb < p && 0 <= rb * la < p) by (nonlinear_arith)
        requires
            0 <= ra < la,
            0 <= rb < lb,
            p == la * lb,
            la > 0,
            lb > 0,
    ;
    assert(qa < qb ==> qa * p + p <= qb * p) by (nonlinear_arith)
        requires
            p > 0,
    ;
    assert(qb < qa ==> qb * p + p <= qa * p) by (nonlinear_arith)
        requires
            p > 0,
    ;
}

/// [`fits_better`] for cells whose grid has at most `usize::MAX` columns and lines.
fn prefer_cells(a: (usize, usize), b: (usize, usize)) -> (r: bool)
    requires
        spec_line_cols(a.0 as int) <= usize::MAX,
        spec_grid_line_count(a.1 as int) <= usize::MAX,
        spec_line_cols(b.0 as int) <= usize::MAX,
        spec_grid_line_count(b.1 as int) <= usize::MAX,
    ensures
        r == fits_better((a.0 as int, a.1 as int), (b.0 as int, b.1 as int)),
{
    let la: u128 = 11 * (a.1 as u128) + 13;
    let lb: u128 = 11 * (b.1 as u128) + 13;
    let ga = aspect_gap_exec(a.0, a.1);
    let gb = aspect_gap_exec(b.0, b.1);
    let qa = ga / la;
    let ra = ga % la;
    let qb = gb / lb;
    let rb = gb % lb;
    assert(ra * lb < 0x1_0000_0000_0000_0000_0000_0000_0000_0000 && rb * la
        < 0x1_0000_0000_0000_0000_0000_0000_0000_0000) by (nonlinear_arith)
        requires
            ra < la,
            rb < lb,
            la <= 0x1_0000_0000_0000_0000,
            lb <= 0x1_0000_0000_0000_0000,
    ;
    let xa: u128 = ra * lb;
    let xb: u128 = rb * la;
    proof {
        lemma_cross_compare(ga as int, la as int, gb as int, lb as int);
        assert(ga * lb == aspect_gap(a.0 as int, a.1 as int) * spec_grid_line_count(b.1 as int));
        assert(gb * la == aspect_gap(b.0 as int, b.1 as int) * spec_grid_line_count(a.1 as int));
    }
    let e_less = qa < qb || (qa == qb && xa < xb);
    let e_same = qa == qb && xa == xb;
    assert((a.0 as u128) * (a.1 as u128) < 0x1_0000_0000_0000_0000_0000_0000_0000_0000 && (b.0 as u128) * (
    b.1 as u128) < 0x1_0000_0000_0000_0000_0000_0000_0000_0000) by (nonlinear_arith)
        requires
            a.0 < 0x1_0000_0000_0000_0000,
            a.1 < 0x1_0000_0000_0000_0000,
            b.0 < 0x1_0000_0000_0000_0000,
            b.1 < 0x1_0000_0000_0000_0000,
    ;
    let area_a: u128 = (a.0 as u128) * (a.1 as u128);
    let area_b: u128 = (b.0 as u128) * (b.1 as u128);
    e_less || (e_same && la < lb) || (e_same && la == lb && area_a > area_b)
}

/// Cells `c` come before cells `(cw, ch)` in the search, row by row.
pub open spec fn searched(c: (int, int), cw: int, ch: int) -> bool {
    c.1 < ch || (c.1 == ch && c.0 < cw)
}

/// What the search knows after looking at every cell size before `(cw, ch)`.
pub open spec fn search_state(
    found: bool,
    best: (int, int),
    cw: int,
    ch: int,
    inner_w: int,
    inner_h: int,
    max_w: int,
    max_h: int,
) -> bool {
    if found {
        &&& cell_fits(best, inner_w, inner_h, max_w, max_h)
        &&& searched(best, cw, ch)
        &&& forall|c: (int, int)|
            #[trigger] cell_fits(c, inner_w, inner_h, max_w, max_h) && searched(c, cw, ch) && c != best
                ==> fits_better(best, c)
    } else {
        &&& best == (2int, 1int)
        &&& forall|c: (int, int)|
            #[trigger] cell_fits(c, inner_w, inner_h, max_w, max_h) ==> !searched(c, cw, ch)
    }
}

/// The cell size for an area: of the sizes within the limits whose grid fits,
/// the one whose outline is closest to 9:10, then with the fewest lines, then
/// with the largest cells; `(2, 1)` when none fits.
pub fn fit_board_cells(inner_w: usize, inner_h: usize, max_cell_w: usize, max_cell_h: usize) -> (r: (
    usize,
    usize,
))
    ensures
        best_cells((r.0 as int, r.1 as int), inner_w as int, inner_h as int, max_cell_w as int, max_cell_h as int),
{
    let ghost (iw, ih, mw, mh) = (inner_w as int, inner_h as int, max_cell_w as int, max_cell_h as int);
    // No wider or taller cell than these fits the area.
    let fit_w: usize = if inner_w < 12 { 0 } else { (inner_w - 12) / 9 };
    let lim_w: usize = if max_cell_w < fit_w { max_cell_w } else { fit_w };
    let fit_h: usize = if inner_h < 13 { 0 } else { (inner_h - 13) / 11 };
    let lim_h: usize = if max_cell_h < fit_h { max_cell_h } else { fit_h };
    assert forall|c: (int, int)| #[trigger] cell_fits(c, iw, ih, mw, mh) implies c.0 <= lim_w && c.1 <= lim_h by {}
    let mut best: (usize, usize) = (2, 1);
    let mut found = false;
    let mut ch: usize = 1;
    while ch <= lim_h
        invariant
            1 <= ch <= lim_h + 1 || ch == 1,
            lim_w <= max_cell_w,
            lim_h <= max_cell_h,
            9 * lim_w + 12 <= inner_w || lim_w == 0,
            11 * lim_h + 13 <= inner_h || lim_h == 0,
            found ==> best.0 <= lim_w && best.1 <= lim_h,
            iw == inner_w,
            ih == inner_h,
            mw == max_cell_w,
            mh == max_cell_h,
            forall|c: (int, int)| #[trigger] cell_fits(c, iw, ih, mw, mh) ==> c.0 <= lim_w && c.1 <= lim_h,
            search_state(found, (best.0 as int, best.1 as int), 2, ch as int, iw, ih, mw, mh),
        decreases lim_h + 1 - ch,
    {
        let mut cw: usize = 2;
        while cw <= lim_w
            invariant
                1 <= ch <= lim_h,
                2 <= cw,
                cw <= lim_w + 1 || cw == 2,
                lim_w <= max_cell_w,
                lim_h <= max_cell_h,
                9 * lim_w + 12 <= inner_w || lim_w == 0,
                11 * lim_h + 13 <= inner_h,
                found ==> best.0 <= lim_w && best.1 <= lim_h,
                iw == inner_w,
                ih == inner_h,
                mw == max_cell_w,
                mh == max_cell_h,
                forall|c: (int, int)| #[trigger] cell_fits(c, iw, ih, mw, mh) ==> c.0 <= lim_w && c.1 <= lim_h,
                search_state(found, (best.0 as int, best.1 as int), cw as int, ch as int, iw, ih, mw, mh),
            decreases lim_w + 1 - cw,
        {
            let ghost cur = (cw as int, ch as int);
            let ghost old_best = (best.0 as int, best.1 as int);
            let ghost old_found = found;
            if line_cols_for_cell_w(cw) <= inner_w && grid_line_count(ch) <= inner_h {
                assert(cell_fits(cur, iw, ih, mw, mh));
                if !found || prefer_cells((cw, ch), best) {
                    proof {
                        assert forall|c: (int, int)|
                            #[trigger] cell_fits(c, iw, ih, mw, mh) && searched(c, cw + 1, ch as int) && c
                                != cur implies fits_better(cur, c) by {
                            assert(searched(c, cw as int, ch as int));
                            if old_found && c != old_best {
                                lemma_fits_better_transitive(cur, old_best, c);
                            }
                        }
                    }
                    best = (cw, ch);
                    found = true;
                } else {
                    proof {
                        lemma_fits_better_total(cur, old_best);
                        assert forall|c: (int, int)|
                            #[trigger] cell_fits(c, iw, ih, mw, mh) && searched(c, cw + 1, ch as int) && c
                                != old_best implies fits_better(old_best, c) by {
                            if c != cur {
                                assert(searched(c, cw as int, ch as int));
                            }
                        }
                    }
                }
            } else {
                proof {
                    assert(!cell_fits(cur, iw, ih, mw, mh));
                    assert forall|c: (int, int)|
                        #[trigger] cell_fits(c, iw, ih, mw, mh) && searched(c, cw + 1, ch as int) implies searched(
                        c,
                        cw as int,
                        ch as int,
                    ) by {
                        if c == cur {
                        }
                    }
                }
            }
            cw = cw + 1;
        }
        proof {
            let cw_end = cw as int;
            assert forall|c: (int, int)|
                #[trigger] cell_fits(c, iw, ih, mw, mh) implies (searched(c, 2, ch + 1) == searched(
                c,
                cw_end,
                ch as int,
            )) by {}
        }
        ch = ch + 1;
    }
    proof {
        assert forall|c: (int, int)| #[trigger] cell_fits(c, iw, ih, mw, mh) implies searched(c, 2, ch as int) by {}
    }
    best
}

/// The tallest cell tried for an area `inner_h` lines high: the tallest
/// whose grid fits, and at least 1.
pub open spec fn spec_max_cell_h(inner_h: int) -> int {
    if inner_h >= 35 {
        (inner_h - 13) / 11
    } else {
        1
    }
}

/// Half of what `used` leaves of `total` (nothing when it leaves nothing).
pub open spec fn half_left(total: int, used: int) -> int {
    if total > used {
        (total - used) / 2
    } else {
        0
    }
}

/// The metrics of a board drawn in an area `width`×`height` (each taken as
/// at least 12): the cells that [`fit_board_cells`] chooses within the widest
/// cell that leaves room for the axis and borders (at least 2) and the
/// tallest one whose grid fits, their piece blocks, and the padding that
/// centres the grid.
pub open spec fn area_metrics(width: int, height: int, m: GridMetrics) -> bool {
    let iw = if width < 12 {
        12
    } else {
        width
    };
    let ih = if height < 12 {
        12
    } else {
        height
    };
    let mw0 = (iw - 12) / 9;
    let mw = if mw0 < 2 {
        2
    } else {
        mw0
    };
    &&& best_cells((m.cell_w as int, m.cell_h as int), iw, ih, mw, spec_max_cell_h(ih))
    &&& (m.piece_w as int, m.piece_h as int, m.piece_pad_w as int, m.piece_pad_h as int, m.glyph_sub as int)
        == spec_piece_layout(m.cell_w as int, m.cell_h as int)
    &&& m.pad_left == half_left(iw, spec_line_cols(m.cell_w as int))
    &&& m.pad_top == half_left(ih, spec_grid_line_count(m.cell_h as int))
}

impl GridMetrics {
    /// Columns of the grid drawn with these cells.
    pub fn line_cols(&self) -> (r: usize)
        requires
            spec_line_cols(self.cell_w as int) <= usize::MAX,
        ensures
            r == spec_line_cols(self.cell_w as int),
    {
        line_cols_for_cell_w(self.cell_w)
    }

    /// The metrics of a board drawn in an area `width`×`height`.
    pub fn from_area(width: u16, height: u16) -> (m: GridMetrics)
        ensures
            area_metrics(width as int, height as int, m),
    {
        let inner_w: usize = if width < 12 {
            12
        } else {
            width as usize
        };
        let inner_h: usize = if height < 12 {
            12
        } else {
            height as usize
        };
        let mw0: usize = (inner_w - (AXIS_W + 1 + 8 + 1)) / 9;
        let max_cell_w: usize = if mw0 < 2 {
            2
        } else {
            mw0
        };
        let max_cell_h = max_cell_h_for_inner_h(inner_h);
        assert(max_cell_h == spec_max_cell_h(inner_h as int));
        let (cell_w, cell_h) = fit_board_cells(inner_w, inner_h, max_cell_w, max_cell_h);
        proof {
            let iw = inner_w as int;
            let ih = inner_h as int;
            if exists|c: (int, int)| #[trigger] cell_fits(c, iw, ih, max_cell_w as int, max_cell_h as int) {
                assert(cell_fits((cell_w as int, cell_h as int), iw, ih, max_cell_w as int, max_cell_h as int));
            }
        }
        let (piece_w, piece_h, piece_pad_w, piece_pad_h, glyph_sub) = piece_layout_in_cell(cell_w, cell_h);
        let grid_cols = line_cols_for_cell_w(cell_w);
        let grid_lines = grid_line_count(cell_h);
        let pad_left: u16 = if inner_w > grid_cols {
            ((inner_w - grid_cols) / 2) as u16
        } else {
            0
        };
        let pad_top: u16 = if inner_h > grid_lines {
            ((inner_h - grid_lines) / 2) as u16
        } else {
            0
        };
        GridMetrics { cell_w, cell_h, piece_w, piece_h, piece_pad_w, piece_pad_h, glyph_sub, pad_left, pad_top }
    }
}

/// First grid line of screen row `r` (0 to 9) with cells `ch` lines high:
/// below the top border, each row and its separator, the river after row 4.
pub open spec fn row_start(r: int, ch: int) -> int {
    1 + r * (ch + 1) + if r > RIVER_AFTER_SCREEN_ROW { ch + 1 } else { 0 }
}

/// The screen row drawn on grid line `rel_row`; `None` on borders,
/// separators and the river.
pub open spec fn spec_screen_row_at_line(cell_h: int, rel_row: int) -> Option<u8> {
    if exists|r: int| #[trigger] on_row(r, cell_h, rel_row) {
        Some((choose|r: int| #[trigger] on_row(r, cell_h, rel_row)) as u8)
    } else {
        None
    }
}

/// Grid line `rel_row` lies in screen row `r`.
pub open spec fn on_row(r: int, cell_h: int, rel_row: int) -> bool {
    0 <= r < 10 && row_start(r, cell_h) <= rel_row < row_start(r, cell_h) + cell_h
}

proof fn lemma_row_start_increasing(a: int, b: int, ch: int)
    requires
        0 <= a < b < 10,
        ch >= 0,
    ensures
        row_start(a, ch) + ch < row_start(b, ch),
{
    assert(a * (ch + 1) + ch + 1 <= b * (ch + 1)) by (nonlinear_arith)
        requires
            0 <= a < b,
            ch >= 0,
    ;
}

/// The screen row drawn on grid line `rel_row`.
pub fn screen_row_at_line(m: &GridMetrics, rel_row: u16) -> (r: Option<u8>)
    requires
        m.cell_h <= 5000,
    ensures
        r == spec_screen_row_at_line(m.cell_h as int, rel_row as int),
{
    let ch = m.cell_h as u16;
    let mut line: u16 = 1;
    let mut screen_row: u8 = 0;
    while screen_row < 10
        invariant
            ch as int == m.cell_h,
            ch <= 5000,
            screen_row <= 10,
            screen_row < 10 ==> line as int == row_start(screen_row as int, ch as int),
            forall|r: int| 0 <= r < screen_row ==> !#[trigger] on_row(r, ch as int, rel_row as int),
        decreases 10 - screen_row,
    {
        proof {
            assert(row_start(screen_row as int, ch as int) <= 1 + 9 * (ch + 1) + ch + 1) by (nonlinear_arith)
                requires
                    screen_row < 10,
                    ch >= 0,
            ;
        }
        if rel_row >= line && rel_row < line + ch {
            proof {
                assert(on_row(screen_row as int, ch as int, rel_row as int));
                assert forall|r: int| #[trigger] on_row(r, ch as int, rel_row as int) implies r == screen_row by {
                    if r < screen_row {
                    } else if r > screen_row {
                        lemma_row_start_increasing(screen_row as int, r, ch as int);
                    }
                }
            }
            return Some(screen_row);
        }
        proof {
            assert(row_start(screen_row as int, ch as int) <= 1 + 9 * (ch + 1) + ch + 1) by (nonlinear_arith)
                requires
                    screen_row < 10,
                    ch >= 0,
            ;
        }
        line = line + ch;
        if screen_row == 9 {
            screen_row = 10;
        } else {
            if screen_row == RIVER_AFTER_SCREEN_ROW {
                line = line + river_sep_lines(m.cell_h) as u16;
            } else {
                line = line + 1;
            }
            screen_row = screen_row + 1;
            assert(line as int == row_start(screen_row as int, ch as int)) by (nonlinear_arith)
                requires
                    line as int == row_start(screen_row - 1, ch as int) + ch + (if screen_row - 1
                        == RIVER_AFTER_SCREEN_ROW {
                        ch + 2
                    } else {
                        1
                    }),
                    1 <= screen_row <= 9,
            ;
        }
    }
    None
}

/// The file under grid column `rel_col`: after the axis and the left border,
/// each file takes its cell and the separator to its right (the last file
/// only its cell).
pub open spec fn spec_file_at_column(cell_w: int, rel_col: int) -> Option<u8> {
    let origin = AXIS_W + 1;
    if rel_col < origin {
        None
    } else {
        let x = rel_col - origin;
        let f = x / (cell_w + 1);
        let off = x % (cell_w + 1);
        if f < 8 {
            Some(f as u8)
        } else if f == 8 && off < cell_w {
            Some(8)
        } else {
            None
        }
    }
}

/// The file under grid column `rel_col`.
pub fn file_at_column(m: &GridMetrics, rel_col: u16) -> (r: Option<u8>)
    requires
        m.cell_w <= 0xFFFE,
    ensures
        r == spec_file_at_column(m.cell_w as int, rel_col as int),
{
    let origin: u16 = 3;
    if rel_col < origin {
        return None;
    }
    let x: u32 = (rel_col - origin) as u32;
    let band: u32 = m.cell_w as u32 + 1;
    let f: u32 = x / band;
    let off: u32 = x % band;
    if f < 8 {
        Some(f as u8)
    } else if f == 8 && off < m.cell_w as u32 {
        Some(8)
    } else {
        None
    }
}

/// Display width of a character (`UnicodeWidthChar::width`), `None` for control characters.
pub uninterp spec fn char_display_width(c: char) -> Option<usize>;

/// `unicode_width::UnicodeWidthChar::width`: the columns a terminal gives `c`
/// (`None` for control characters).
#[verifier::external_body]
fn display_width(c: char) -> (r: Option<usize>)
    ensures
        r == char_display_width(c),
{
    unicode_width::UnicodeWidthChar::width(c)
}

/// Display width of a text (`UnicodeWidthStr::width`).
pub uninterp spec fn str_display_width(s: Seq<char>) -> usize;

/// `unicode_width::UnicodeWidthStr::width`: the columns a terminal gives the
/// text `s`.
#[verifier::external_body]
pub(crate) fn str_width(s: &str) -> (r: usize)
    ensures
        r == str_display_width(s@),
{
    unicode_width::UnicodeWidthStr::width(s)
}

/// Columns of a text, a character without a width counting as 1.
pub open spec fn text_width(s: Seq<char>) -> int
    decreases s.len(),
{
    if s.len() == 0 {
        0
    } else {
        text_width(s.drop_last()) + match char_display_width(s.last()) {
            Some(w) => w as int,
            None => 1,
        }
    }
}

/// `n` spaces.
pub open spec fn spaces(n: int) -> Seq<char> {
    Seq::new(if n < 0 { 0 } else { n as nat }, |i: int| ' ')
}

/// `text` centred in `width` columns with spaces (the extra one on the
/// right); unchanged when it is already that wide.
pub open spec fn spec_fit_display(text: Seq<char>, width: int) -> Seq<char> {
    let w = text_width(text);
    if w >= width {
        text
    } else {
        let pad = width - w;
        spaces(pad / 2) + text + spaces(pad - pad / 2)
    }
}

pub(crate) fn push_spaces(s: &mut String, n: usize)
    ensures
        final(s)@ == old(s)@ + spaces(n as int),
{
    let mut i: usize = 0;
    while i < n
        invariant
            i <= n,
            s@ == old(s)@ + spaces(i as int),
        decreases n - i,
    {
        push_char(s, ' ');
        i = i + 1;
        assert(s@ =~= old(s)@ + spaces(i as int));
    }
}

proof fn lemma_text_width_nonneg(s: Seq<char>)
    ensures
        text_width(s) >= 0,
    decreases s.len(),
{
    if s.len() > 0 {
        lemma_text_width_nonneg(s.drop_last());
    }
}

/// `text` centred in `width` columns.
pub fn fit_display(text: &str, width: usize) -> (r: String)
    ensures
        r@ == spec_fit_display(text@, width as int),
{
    let v = chars_of(text);
    if width == 0 {
        proof {
            lemma_text_width_nonneg(v@);
        }
        return crate::text::owned(text);
    }
    let mut w: usize = 0;
    let mut i: usize = 0;
    let mut wide = false;
    while i < v.len()
        invariant
            v@ == text@,
            width > 0,
            i <= v@.len(),
            !wide ==> w as int == text_width(v@.take(i as int)) && w < width,
            wide ==> text_width(v@) >= width,
        decreases v.len() - i,
    {
        if !wide {
            assert(v@.take(i as int + 1).drop_last() =~= v@.take(i as int));
            let cw: usize = match display_width(v[i]) {
                Some(x) => x,
                None => 1,
            };
            if cw >= width - w {
                proof {
                    lemma_width_prefix(v@, i as int + 1);
                }
                wide = true;
            } else {
                w = w + cw;
            }
        }
        i = i + 1;
    }
    if wide || width == 0 {
        proof {
            lemma_text_width_nonneg(v@);
        }
        return crate::text::owned(text);
    }
    assert(v@.take(v@.len() as int) =~= v@);
    let pad = width - w;
    let left = pad / 2;
    let mut s = String::new();
    push_spaces(&mut s, left);
    push_str(&mut s, text);
    push_spaces(&mut s, pad - left);
    s
}

/// The river text centred across the board's inner width.
pub fn pad_river(text: &str, width: usize) -> (r: String)
    ensures
        r@ == spec_fit_display(text@, width as int),
{
    fit_display(text, width)
}

proof fn lemma_width_prefix(s: Seq<char>, i: int)
    requires
        0 <= i <= s.len(),
    ensures
        text_width(s.take(i)) <= text_width(s),
    decreases s.len() - i,
{
    if i < s.len() {
        lemma_width_prefix(s, i + 1);
        assert(s.take(i + 1).drop_last() =~= s.take(i));
    } else {
        assert(s.take(i) =~= s);
    }
}

/// The glyph of a board cell code and whether the piece is red: codes 1 to 7
/// are red (rook, horse, elephant, advisor, king, cannon, pawn), 9 to 15 the
/// black pieces in the same order; 0 and other codes are no piece.
pub open spec fn spec_piece_label(cell: u8) -> Option<(Seq<char>, bool)> {
    let red = 1 <= cell <= 7;
    let kind: int = if red { cell as int } else { cell as int - 8 };
    if !(red || (9 <= cell <= 15)) {
        None
    } else {
        Some(
            (
                if kind == 5 {
                    if red { "帥"@ } else { "將"@ }
                } else if kind == 4 {
                    if red { "仕"@ } else { "士"@ }
                } else if kind == 3 {
                    if red { "相"@ } else { "象"@ }
                } else if kind == 2 {
                    if red { "傌"@ } else { "馬"@ }
                } else if kind == 1 {
                    if red { "俥"@ } else { "車"@ }
                } else if kind == 6 {
                    if red { "炮"@ } else { "砲"@ }
                } else {
                    if red { "兵"@ } else { "卒"@ }
                },
                red,
            ),
        )
    }
}

/// The glyph of a board cell code, as [`spec_piece_label`] gives it.
pub fn piece_label(cell: u8) -> (r: Option<(&'static str, bool)>)
    ensures
        match r {
            Some((t, red)) => spec_piece_label(cell) == Some((t@, red)),
            None => spec_piece_label(cell) is None,
        },
{
    let red = 1 <= cell && cell <= 7;
    if !(red || (9 <= cell && cell <= 15)) {
        return None;
    }
    let kind: u8 = if red { cell } else { cell - 8 };
    let label: &'static str = if kind == 5 {
        if red { "帥" } else { "將" }
    } else if kind == 4 {
        if red { "仕" } else { "士" }
    } else if kind == 3 {
        if red { "相" } else { "象" }
    } else if kind == 2 {
        if red { "傌" } else { "馬" }
    } else if kind == 1 {
        if red { "俥" } else { "車" }
    } else if kind == 6 {
        if red { "炮" } else { "砲" }
    } else {
        if red { "兵" } else { "卒" }
    };
    Some((label, red))
}


/// Grid column of the middle of file `file`'s cell.
pub open spec fn column_center(cell_w: int, file: int) -> int {
    AXIS_W + 1 + file * (cell_w + 1) + cell_w / 2
}

/// Grid line of the middle of screen row `screen_row`'s cells.
pub open spec fn line_center(cell_h: int, screen_row: int) -> int {
    row_start(screen_row, cell_h) + cell_h / 2
}

/// The grid column in the middle of screen file `file` (0 to 8).
pub fn column_center_for_file(m: &GridMetrics, file: u8) -> (r: Option<u16>)
    requires
        spec_line_cols(m.cell_w as int) <= 65535,
    ensures
        r == if file < 9 {
            Some(column_center(m.cell_w as int, file as int) as u16)
        } else {
            None::<u16>
        },
{
    if file >= 9 {
        return None;
    }
    let cw = m.cell_w as u16;
    assert(file * (cw + 1) + cw / 2 <= 8 * (cw + 1) + cw) by (nonlinear_arith)
        requires
            file < 9,
    ;
    Some((AXIS_W as u16 + 1) + file as u16 * (cw + 1) + cw / 2)
}

/// The grid line in the middle of screen row `screen_row` (0 to 9).
pub fn line_center_for_screen_row(m: &GridMetrics, screen_row: u8) -> (r: Option<u16>)
    requires
        spec_grid_line_count(m.cell_h as int) <= 65535,
    ensures
        r == if screen_row < 10 {
            Some(line_center(m.cell_h as int, screen_row as int) as u16)
        } else {
            None::<u16>
        },
{
    if screen_row >= 10 {
        return None;
    }
    let ch = m.cell_h as u16;
    let sr = screen_row as u16;
    assert(row_start(sr as int, ch as int) + ch / 2 <= 11 * ch + 11) by (nonlinear_arith)
        requires
            sr < 10,
            ch >= 0,
    ;
    let river: u16 = if screen_row > RIVER_AFTER_SCREEN_ROW {
        ch + 1
    } else {
        0
    };
    Some(1 + sr * (ch + 1) + river + ch / 2)
}

/// The board cell (file, rank) at terminal position `column`, `row`, for a
/// grid laid out by `m` in an area whose inside starts at `x`, `y` and is
/// `width`×`height`: none outside the area or the grid, nor on borders,
/// separators, the river or the axis.
pub open spec fn spec_cell_at(
    m: GridMetrics,
    x: int,
    y: int,
    width: int,
    height: int,
    column: int,
    row: int,
    rotated: bool,
) -> Option<(u8, u8)> {
    if column < x || column >= x + width || row < y || row >= y + height {
        None
    } else {
        let dc = column - (x + m.pad_left);
        let dr = row - (y + m.pad_top);
        let rel_col = if dc < 0 {
            0
        } else {
            dc
        };
        let rel_row = if dr < 0 {
            0
        } else {
            dr
        };
        if rel_col >= spec_line_cols(m.cell_w as int) || rel_row >= spec_grid_line_count(m.cell_h as int) {
            None
        } else {
            match (
                spec_screen_row_at_line(m.cell_h as int, rel_row),
                spec_file_at_column(m.cell_w as int, rel_col),
            ) {
                (Some(sr), Some(f)) => Some(spec_flip(f as int, sr as int, rotated)),
                _ => None,
            }
        }
    }
}

/// The board cell under a click at `column`, `row` (see [`spec_cell_at`]).
pub fn board_cell_at(
    m: &GridMetrics,
    x: u16,
    y: u16,
    width: u16,
    height: u16,
    column: u16,
    row: u16,
    rotated: bool,
) -> (r: Option<(u8, u8)>)
    requires
        spec_line_cols(m.cell_w as int) <= 65535,
        m.cell_h <= 5000,
    ensures
        r == spec_cell_at(*m, x as int, y as int, width as int, height as int, column as int, row as int, rotated),
{
    let xr: u32 = x as u32 + width as u32;
    let yb: u32 = y as u32 + height as u32;
    if column < x || column as u32 >= xr || row < y || row as u32 >= yb {
        return None;
    }
    let left: u32 = x as u32 + m.pad_left as u32;
    let top: u32 = y as u32 + m.pad_top as u32;
    let rel_col: u16 = if (column as u32) < left {
        0
    } else {
        (column as u32 - left) as u16
    };
    let rel_row: u16 = if (row as u32) < top {
        0
    } else {
        (row as u32 - top) as u16
    };
    let grid_w = line_cols_for_cell_w(m.cell_w);
    let grid_h = grid_line_count(m.cell_h);
    if rel_col as usize >= grid_w || rel_row as usize >= grid_h {
        return None;
    }
    let screen_row = match screen_row_at_line(m, rel_row) {
        Some(sr) => sr,
        None => {
            return None;
        },
    };
    let file = match file_at_column(m, rel_col) {
        Some(f) => f,
        None => {
            return None;
        },
    };
    proof {
        let w = choose|r: int| #[trigger] on_row(r, m.cell_h as int, rel_row as int);
        assert(on_row(w, m.cell_h as int, rel_row as int));
    }
    Some(screen_to_internal(file, screen_row, rotated))
}

/// The terminal position of the middle of screen cell `file`, `screen_row`
/// for a grid laid out by `m` in an area whose inside starts at `x`, `y`.
pub open spec fn spec_cell_center_point(m: GridMetrics, x: int, y: int, file: int, screen_row: int) -> Option<
    (u16, u16),
> {
    if file < 9 && screen_row < 10 {
        let cx = x + m.pad_left + column_center(m.cell_w as int, file);
        let cy = y + m.pad_top + line_center(m.cell_h as int, screen_row);
        Some(
            (
                if cx > 65535 {
                    65535u16
                } else {
                    cx as u16
                },
                if cy > 65535 {
                    65535u16
                } else {
                    cy as u16
                },
            ),
        )
    } else {
        None
    }
}

/// The terminal position of the middle of a screen cell (positions past the
/// terminal's last column or line stop there).
pub fn cell_hit_point_in_grid(m: &GridMetrics, x: u16, y: u16, file: u8, screen_row: u8) -> (r: Option<
    (u16, u16),
>)
    requires
        spec_line_cols(m.cell_w as int) <= 65535,
        spec_grid_line_count(m.cell_h as int) <= 65535,
    ensures
        r == spec_cell_center_point(*m, x as int, y as int, file as int, screen_row as int),
{
    let rel_col = match column_center_for_file(m, file) {
        Some(c) => c,
        None => {
            return None;
        },
    };
    let rel_row = match line_center_for_screen_row(m, screen_row) {
        Some(l) => l,
        None => {
            return None;
        },
    };
    assert(column_center(m.cell_w as int, file as int) < spec_line_cols(m.cell_w as int)) by (nonlinear_arith)
        requires
            file < 9,
            m.cell_w >= 0,
    ;
    assert(line_center(m.cell_h as int, screen_row as int) < spec_grid_line_count(m.cell_h as int) + 1) by (
    nonlinear_arith)
        requires
            screen_row < 10,
            m.cell_h >= 0,
    ;
    let a = x.saturating_add(m.pad_left);
    let cx = a.saturating_add(rel_col);
    let b = y.saturating_add(m.pad_top);
    let cy = b.saturating_add(rel_row);
    assert(a == if x + m.pad_left > 65535 { 65535 } else { x + m.pad_left });
    assert(cx == if a + rel_col > 65535 { 65535 } else { a + rel_col });
    assert(b == if y + m.pad_top > 65535 { 65535 } else { y + m.pad_top });
    assert(cy == if b + rel_row > 65535 { 65535 } else { b + rel_row });
    Some((cx, cy))
}

/// A click on the middle of a drawn cell hits that cell: when the grid, with
/// its padding, lies inside the area and its cells are at least one column
/// wide and one line high, the middle of screen cell (`file`, `screen_row`)
/// is mapped back to the board cell shown there.
pub proof fn lemma_hit_cell_center(
    m: GridMetrics,
    x: int,
    y: int,
    width: int,
    height: int,
    file: int,
    screen_row: int,
    rotated: bool,
)
    requires
        0 <= x,
        0 <= y,
        x + width <= 65535,
        y + height <= 65535,
        m.cell_w >= 1,
        m.cell_h >= 1,
        m.pad_left + spec_line_cols(m.cell_w as int) <= width,
        m.pad_top + spec_grid_line_count(m.cell_h as int) <= height,
        0 <= file < 9,
        0 <= screen_row < 10,
    ensures
        spec_cell_center_point(m, x, y, file, screen_row) matches Some((cx, cy)) && spec_cell_at(
            m,
            x,
            y,
            width,
            height,
            cx as int,
            cy as int,
            rotated,
        ) == Some(spec_flip(file, screen_row, rotated)),
{
    let cw = m.cell_w as int;
    let ch = m.cell_h as int;
    let rel_col = column_center(cw, file);
    let rel_row = line_center(ch, screen_row);
    assert(rel_col < spec_line_cols(cw)) by (nonlinear_arith)
        requires
            rel_col == AXIS_W + 1 + file * (cw + 1) + cw / 2,
            0 <= file < 9,
            cw >= 1,
    ;
    assert(row_start(screen_row, ch) + ch <= spec_grid_line_count(ch)) by (nonlinear_arith)
        requires
            0 <= screen_row < 10,
            ch >= 1,
    ;
    assert(row_start(screen_row, ch) >= 1) by (nonlinear_arith)
        requires
            0 <= screen_row < 10,
            ch >= 1,
    ;
    let off = rel_col - (AXIS_W + 1);
    assert(off / (cw + 1) == file && off % (cw + 1) == cw / 2) by (nonlinear_arith)
        requires
            off == file * (cw + 1) + cw / 2,
            0 <= cw / 2 < cw + 1,
            file >= 0,
    ;
    assert(spec_file_at_column(cw, rel_col) == Some(file as u8));
    assert(on_row(screen_row, ch, rel_row));
    assert forall|r: int| #[trigger] on_row(r, ch, rel_row) implies r == screen_row by {
        if r < screen_row {
            lemma_row_start_increasing(r, screen_row, ch);
        } else if r > screen_row {
            lemma_row_start_increasing(screen_row, r, ch);
        }
    }
    assert(spec_screen_row_at_line(ch, rel_row) == Some(screen_row as u8));
}

/// The kind (1 to 7: rook, horse, elephant, advisor, king, cannon, pawn) and
/// colour (red or not) of the piece in a cell; none for an empty or unknown cell.
pub open spec fn spec_piece_kind_side(cell: u8) -> Option<(u8, bool)> {
    if 1 <= cell <= 7 {
        Some((cell, true))
    } else if 9 <= cell <= 15 {
        Some(((cell - 8) as u8, false))
    } else {
        None
    }
}

/// The kind and colour of the piece in a cell.
pub fn piece_kind_side(cell: u8) -> (r: Option<(u8, bool)>)
    ensures
        r == spec_piece_kind_side(cell),
{
    if cell == 0 {
        None
    } else if 1 <= cell && cell <= 7 {
        Some((cell, true))
    } else if 9 <= cell && cell <= 15 {
        Some((cell - 8, false))
    } else {
        None
    }
}

/// The side that made a move shown by `arrow`: that of the piece on its
/// target, else on its origin, else red.
pub open spec fn spec_mover_is_red(board: &Board90, a: BoardArrow) -> bool {
    if board.at(a.to_rank as int, a.to_file as int) != 0 {
        1 <= board.at(a.to_rank as int, a.to_file as int) <= 7
    } else if board.at(a.from_rank as int, a.from_file as int) != 0 {
        1 <= board.at(a.from_rank as int, a.from_file as int) <= 7
    } else {
        true
    }
}

/// Both ends of the arrow are on the board.
pub open spec fn arrow_on_board(a: BoardArrow) -> bool {
    a.from_file < 9 && a.from_rank < 10 && a.to_file < 9 && a.to_rank < 10
}

/// Whether the side that made the move of `arrow` is red.
pub fn arrow_mover_is_red(board: &Board90, arrow: &BoardArrow) -> (r: bool)
    requires
        board.cells@.len() == 90,
        arrow_on_board(*arrow),
    ensures
        r == spec_mover_is_red(board, *arrow),
{
    if !board.is_empty(arrow.to_file, arrow.to_rank) {
        board.is_red_piece(arrow.to_file, arrow.to_rank)
    } else if !board.is_empty(arrow.from_file, arrow.from_rank) {
        board.is_red_piece(arrow.from_file, arrow.from_rank)
    } else {
        true
    }
}

/// How a move arrow marks the cells it joins: in the colour of the side that
/// moved, and whether the move is only proposed (drawn brighter and bold).
#[derive(Clone, Copy, Debug, PartialEq, Eq, Structural)]
pub struct MoveMark {
    pub red: bool,
    pub pending: bool,
}

/// The arrow starts or ends at cell `file`, `rank`.
pub open spec fn arrow_touches(a: BoardArrow, file: u8, rank: u8) -> bool {
    (a.from_file == file && a.from_rank == rank) || (a.to_file == file && a.to_rank == rank)
}

/// The mark of cell `file`, `rank`: that of the proposed move when it joins
/// the cell, else that of the last move, else none.
pub open spec fn spec_move_mark(
    board: &Board90,
    file: u8,
    rank: u8,
    last: Option<BoardArrow>,
    pending: Option<BoardArrow>,
) -> Option<MoveMark> {
    match pending {
        Some(a) if arrow_touches(a, file, rank) => Some(MoveMark { red: spec_mover_is_red(board, a), pending: true }),
        _ => match last {
            Some(a) if arrow_touches(a, file, rank) => Some(
                MoveMark { red: spec_mover_is_red(board, a), pending: false },
            ),
            _ => None,
        },
    }
}

/// The optional arrow is on the board.
pub open spec fn opt_arrow_on_board(a: Option<BoardArrow>) -> bool {
    match a {
        Some(x) => arrow_on_board(x),
        None => true,
    }
}

/// The move mark of a cell (see [`spec_move_mark`]).
pub fn move_highlight_overlay(
    board: &Board90,
    file: u8,
    rank: u8,
    last: Option<BoardArrow>,
    pending: Option<BoardArrow>,
) -> (r: Option<MoveMark>)
    requires
        board.cells@.len() == 90,
        opt_arrow_on_board(last),
        opt_arrow_on_board(pending),
    ensures
        r == spec_move_mark(board, file, rank, last, pending),
{
    if let Some(a) = pending {
        if (a.from_file == file && a.from_rank == rank) || (a.to_file == file && a.to_rank == rank) {
            let red = arrow_mover_is_red(board, &a);
            return Some(MoveMark { red, pending: true });
        }
    }
    if let Some(a) = last {
        if (a.from_file == file && a.from_rank == rank) || (a.to_file == file && a.to_rank == rank) {
            let red = arrow_mover_is_red(board, &a);
            return Some(MoveMark { red, pending: false });
        }
    }
    None
}

/// How the grid lines around a cell are brightened: the selected cell, or
/// the keyboard cursor.
#[derive(Clone, Copy, Debug, PartialEq, Eq, Structural)]
pub enum GridMark {
    Selected,
    Cursor,
}

/// The grid mark of board cell `file`, `rank`: the selection before the
/// cursor.
pub open spec fn spec_grid_mark(overlay: BoardOverlay, file: u8, rank: u8) -> Option<GridMark> {
    if overlay.selected == Some((file, rank)) {
        Some(GridMark::Selected)
    } else if overlay.keyboard == Some((file, rank)) {
        Some(GridMark::Cursor)
    } else {
        None
    }
}

/// The grid mark of board cell `file`, `rank`.
pub fn cell_grid_highlight(overlay: BoardOverlay, file: u8, rank: u8) -> (r: Option<GridMark>)
    ensures
        r == spec_grid_mark(overlay, file, rank),
{
    if let Some((f, k)) = overlay.selected {
        if f == file && k == rank {
            return Some(GridMark::Selected);
        }
    }
    if let Some((f, k)) = overlay.keyboard {
        if f == file && k == rank {
            return Some(GridMark::Cursor);
        }
    }
    None
}

/// The grid mark of the cell shown at screen `screen_file`, `screen_row`.
pub fn cell_highlight_at_screen(overlay: BoardOverlay, rotated: bool, screen_file: u8, screen_row: u8) -> (r: Option<
    GridMark,
>)
    requires
        screen_file <= 8,
        screen_row <= 9,
    ensures
        r == spec_grid_mark(
            overlay,
            spec_flip(screen_file as int, screen_row as int, rotated).0,
            spec_flip(screen_file as int, screen_row as int, rotated).1,
        ),
{
    let (f, k) = screen_to_internal(screen_file, screen_row, rotated);
    cell_grid_highlight(overlay, f, k)
}

/// What is drawn over the board: the last move, the suggested move, the
/// selected cell and the keyboard cursor (cells as file and rank).
#[derive(Clone, Copy, Debug, Default)]
pub struct BoardOverlay {
    pub last_arrow: Option<BoardArrow>,
    pub pending_arrow: Option<BoardArrow>,
    pub selected: Option<(u8, u8)>,
    pub keyboard: Option<(u8, u8)>,
}

/// How many times `c` occurs in `s`.
pub open spec fn count_char(s: Seq<char>, c: char) -> nat
    decreases s.len(),
{
    if s.len() == 0 {
        0
    } else {
        count_char(s.drop_last(), c) + if s.last() == c {
            1nat
        } else {
            0nat
        }
    }
}

/// How many file letters `a` to `i` occur in `s`.
pub open spec fn count_file_letters(s: Seq<char>) -> nat
    decreases s.len(),
{
    if s.len() == 0 {
        0
    } else {
        count_file_letters(s.drop_last()) + if 'a' <= s.last() && s.last() <= 'i' {
            1nat
        } else {
            0nat
        }
    }
}

/// A top border of the board: some `┌` with at least eight `┬` from it on.
pub open spec fn spec_is_top_border(line: Seq<char>) -> bool {
    exists|i: int| 0 <= i < line.len() && line[i] == '┌' && count_char(line.skip(i), '┬') >= 8
}

/// A bottom border of the board: a `└` and at least eight `┴`.
pub open spec fn spec_is_bottom_border(line: Seq<char>) -> bool {
    line.contains('└') && count_char(line, '┴') >= 8
}

/// Whether `line` has a `┌` followed (anywhere after it) by at least eight `┬`.
fn is_board_top_border(line: &[char]) -> (r: bool)
    ensures
        r == spec_is_top_border(line@),
{
    let mut i: usize = 0;
    while i < line.len()
        invariant
            i <= line@.len(),
            forall|k: int| 0 <= k < i && line@[k] == '┌' ==> count_char(line@.skip(k), '┬') < 8,
        decreases line.len() - i,
    {
        if line[i] == '┌' {
            let mut n: usize = 0;
            let mut j: usize = i;
            assert(line@.subrange(i as int, i as int) =~= Seq::<char>::empty());
            while j < line.len()
                invariant
                    i < line@.len(),
                    i <= j <= line@.len(),
                    n == count_char(line@.subrange(i as int, j as int), '┬'),
                    n <= j,
                decreases line.len() - j,
            {
                assert(line@.subrange(i as int, j + 1).drop_last() =~= line@.subrange(i as int, j as int));
                if line[j] == '┬' {
                    n = n + 1;
                }
                j = j + 1;
            }
            assert(line@.subrange(i as int, line@.len() as int) =~= line@.skip(i as int));
            if n >= 8 {
                return true;
            }
        }
        i = i + 1;
    }
    false
}

/// Whether `line` has a `└` and at least eight `┴`.
fn is_board_bottom_border(line: &[char]) -> (r: bool)
    ensures
        r == spec_is_bottom_border(line@),
{
    let mut corner = false;
    let mut n: usize = 0;
    let mut i: usize = 0;
    assert(line@.subrange(0, 0) =~= Seq::<char>::empty());
    while i < line.len()
        invariant
            i <= line@.len(),
            n <= i,
            n == count_char(line@.subrange(0, i as int), '┴'),
            corner == line@.subrange(0, i as int).contains('└'),
        decreases line.len() - i,
    {
        assert(line@.subrange(0, i + 1).drop_last() =~= line@.subrange(0, i as int));
        assert(line@.subrange(0, i + 1) =~= line@.subrange(0, i as int).push(line@[i as int]));
        let ghost prev = line@.subrange(0, i as int);
        let ghost next = line@.subrange(0, i + 1);
        proof {
            if line@[i as int] == '└' {
                assert(next[i as int] == '└');
            } else if prev.contains('└') {
                let w = choose|w: int| 0 <= w < prev.len() && prev[w] == '└';
                assert(next[w] == '└');
            } else {
                assert forall|w: int| 0 <= w < next.len() implies next[w] != '└' by {
                    if w < i {
                        assert(prev[w] == next[w]);
                    }
                }
            }
        }
        if line[i] == '└' {
            corner = true;
        }
        if line[i] == '┴' {
            n = n + 1;
        }
        i = i + 1;
    }
    assert(line@.subrange(0, line@.len() as int) =~= line@);
    corner && n >= 8
}

/// Number of file letters `a` to `i` on a line.
fn file_label_count(line: &[char]) -> (n: usize)
    ensures
        n == count_file_letters(line@),
        n <= line@.len(),
{
    let mut n: usize = 0;
    let mut i: usize = 0;
    assert(line@.subrange(0, 0) =~= Seq::<char>::empty());
    while i < line.len()
        invariant
            i <= line@.len(),
            n <= i,
            n == count_file_letters(line@.subrange(0, i as int)),
        decreases line.len() - i,
    {
        assert(line@.subrange(0, i + 1).drop_last() =~= line@.subrange(0, i as int));
        if 'a' <= line[i] && line[i] <= 'i' {
            n = n + 1;
        }
        i = i + 1;
    }
    assert(line@.subrange(0, line@.len() as int) =~= line@);
    n
}

/// Length of the run of `─` in `s` from index `i` on.
pub open spec fn dash_run(s: Seq<char>, i: int) -> nat
    decreases s.len() - i,
{
    if 0 <= i < s.len() && s[i] == '─' {
        1 + dash_run(s, i + 1)
    } else {
        0
    }
}

/// The cell width of a top border line: the run of `─` right after its
/// first `┌`, when at least eight `┬` follow that corner and the run is at
/// least two long.
pub open spec fn spec_cell_w(line: Seq<char>) -> Option<int> {
    match find_char(line, '┌', 0) {
        None => None,
        Some(i) => if count_char(line.skip(i), '┬') < 8 {
            None
        } else if dash_run(line, i + 1) >= 2 {
            Some(dash_run(line, i + 1) as int)
        } else {
            None
        },
    }
}

/// The first top border line from line `k` on.
pub open spec fn top_from(lines: Seq<Seq<char>>, k: int) -> Option<int>
    decreases lines.len() - k,
{
    if k < 0 || k >= lines.len() {
        None
    } else if spec_is_top_border(lines[k]) {
        Some(k)
    } else {
        top_from(lines, k + 1)
    }
}

/// The last bottom border line before line `k`.
pub open spec fn bottom_before(lines: Seq<Seq<char>>, k: int) -> Option<int>
    decreases k,
{
    if k <= 0 || k > lines.len() {
        None
    } else if spec_is_bottom_border(lines[k - 1]) {
        Some(k - 1)
    } else {
        bottom_before(lines, k - 1)
    }
}

/// The smallest cell height from `h` to 8 whose grid has `grid_lines` lines
/// or one more.
pub open spec fn first_cell_h(grid_lines: int, h: int) -> Option<int>
    decreases 9 - h,
{
    if h > 8 {
        None
    } else if grid_fits_lines(h, grid_lines) {
        Some(h)
    } else {
        first_cell_h(grid_lines, h + 1)
    }
}

/// The cell size read from a text capture of the board: the width from the
/// first top border line, the height from the number of lines from it to the
/// last bottom border line (one more when a line with at least three file
/// letters follows the bottom border).
pub open spec fn spec_capture_cells(text: Seq<char>) -> Option<(int, int)> {
    let lines = lines_of(text);
    match top_from(lines, 0) {
        None => None,
        Some(top) => match bottom_before(lines, lines.len() as int) {
            None => None,
            Some(b) => {
                let bottom = if b + 1 < lines.len() && count_file_letters(lines[b + 1]) >= 3 {
                    b + 1
                } else {
                    b
                };
                match spec_cell_w(lines[top]) {
                    None => None,
                    Some(w) => if bottom < top {
                        None
                    } else {
                        match first_cell_h(bottom - top + 1, 1) {
                            None => None,
                            Some(h) => Some((w, h)),
                        }
                    },
                }
            },
        },
    }
}

/// The cell width read from a top border line (see [`spec_cell_w`]).
fn parse_cell_w_from_top_line(line: &[char]) -> (r: Option<usize>)
    ensures
        match r {
            Some(w) => spec_cell_w(line@) == Some(w as int),
            None => spec_cell_w(line@) is None,
        },
{
    proof {
        crate::xqb::lemma_find_char_bounds(line@, '┌', 0);
    }
    let mut i: usize = 0;
    while i < line.len() && line[i] != '┌'
        invariant
            i <= line@.len(),
            forall|k: int| 0 <= k < i ==> line@[k] != '┌',
            find_char(line@, '┌', 0) == find_char(line@, '┌', i as int),
        decreases line.len() - i,
    {
        i = i + 1;
    }
    if i >= line.len() {
        return None;
    }
    assert(find_char(line@, '┌', 0) == Some(i as int));
    let mut tees: usize = 0;
    let mut j: usize = i;
    assert(line@.subrange(i as int, i as int) =~= Seq::<char>::empty());
    while j < line.len()
        invariant
            i < line@.len(),
            i <= j <= line@.len(),
            tees <= j,
            tees == count_char(line@.subrange(i as int, j as int), '┬'),
        decreases line.len() - j,
    {
        assert(line@.subrange(i as int, j + 1).drop_last() =~= line@.subrange(i as int, j as int));
        if line[j] == '┬' {
            tees = tees + 1;
        }
        j = j + 1;
    }
    assert(line@.subrange(i as int, line@.len() as int) =~= line@.skip(i as int));
    if tees < 8 {
        return None;
    }
    let mut dashes: usize = 0;
    let mut k: usize = i + 1;
    while k < line.len() && line[k] == '─'
        invariant
            i < line@.len(),
            i + 1 <= k <= line@.len(),
            dashes == k - (i + 1),
            dashes + dash_run(line@, k as int) == dash_run(line@, i + 1),
        decreases line.len() - k,
    {
        dashes = dashes + 1;
        k = k + 1;
    }
    if dashes >= 2 {
        Some(dashes)
    } else {
        None
    }
}

/// The cell size read from a text capture of the board: the width from the
/// top border, the height from the lines between the top and bottom borders
/// (the file axis counted when it follows); see [`spec_capture_cells`].
pub fn parse_capture_grid_cells(capture: &str) -> (r: Option<(usize, usize)>)
    ensures
        match r {
            Some((w, h)) => spec_capture_cells(capture@) == Some((w as int, h as int)),
            None => spec_capture_cells(capture@) is None,
        },
{
    let text = chars_of(capture);
    let lines = crate::config::split_lines(text.as_slice());
    let ghost lv = lines.deep_view();
    assert(lv == lines_of(capture@));
    let mut top: usize = 0;
    while top < lines.len() && !is_board_top_border(lines[top].as_slice())
        invariant
            top <= lines@.len(),
            lv == lines.deep_view(),
            top_from(lv, 0) == top_from(lv, top as int),
        decreases lines.len() - top,
    {
        assert(lv[top as int] == lines@[top as int]@);
        top = top + 1;
    }
    if top >= lines.len() {
        return None;
    }
    assert(lv[top as int] == lines@[top as int]@);
    assert(top_from(lv, 0) == Some(top as int));
    let mut k: usize = lines.len();
    while k > 0 && !is_board_bottom_border(lines[k - 1].as_slice())
        invariant
            k <= lines@.len(),
            lv == lines.deep_view(),
            bottom_before(lv, lv.len() as int) == bottom_before(lv, k as int),
        decreases k,
    {
        assert(lv[k - 1] == lines@[k - 1]@);
        k = k - 1;
    }
    if k == 0 {
        return None;
    }
    assert(lv[k - 1] == lines@[k - 1]@);
    assert(bottom_before(lv, lv.len() as int) == Some(k - 1));
    let mut bottom = k - 1;
    if bottom + 1 < lines.len() && file_label_count(lines[bottom + 1].as_slice()) >= 3 {
        bottom = bottom + 1;
    }
    assert(lv[k as int] == lines@[k as int]@ || k >= lines@.len());
    let cell_w = match parse_cell_w_from_top_line(lines[top].as_slice()) {
        Some(w) => w,
        None => {
            return None;
        },
    };
    if bottom < top {
        return None;
    }
    let grid_lines = bottom - top + 1;
    match cell_h_for_grid_lines(grid_lines) {
        Some(h) => Some((cell_w, h)),
        None => None,
    }
}

/// A grid of cells `cell_h` high has `grid_lines` lines, or one line more
/// (the file axis cut off).
pub open spec fn grid_fits_lines(cell_h: int, grid_lines: int) -> bool {
    spec_grid_line_count(cell_h) == grid_lines || spec_grid_line_count(cell_h) == grid_lines + 1
}

/// The smallest cell height from 1 to 8 whose grid has `grid_lines` lines, or
/// one line more (the file axis cut off).
fn cell_h_for_grid_lines(grid_lines: usize) -> (r: Option<usize>)
    ensures
        match r {
            Some(h) => 1 <= h <= 8 && grid_fits_lines(h as int, grid_lines as int) && forall|k: int|
                1 <= k < h ==> !grid_fits_lines(k, grid_lines as int),
            None => forall|k: int| 1 <= k <= 8 ==> !grid_fits_lines(k, grid_lines as int),
        },
        match r {
            Some(h) => first_cell_h(grid_lines as int, 1) == Some(h as int),
            None => first_cell_h(grid_lines as int, 1) is None,
        },
{
    let mut cell_h: usize = 1;
    while cell_h <= 8
        invariant
            1 <= cell_h <= 9,
            forall|k: int| 1 <= k < cell_h ==> !grid_fits_lines(k, grid_lines as int),
            first_cell_h(grid_lines as int, 1) == first_cell_h(grid_lines as int, cell_h as int),
        decreases 9 - cell_h,
    {
        let expected = grid_line_count(cell_h);
        if expected == grid_lines || expected - 1 == grid_lines {
            return Some(cell_h);
        }
        cell_h = cell_h + 1;
    }
    None
}

} // verus!
