//! The text of the drawn board: every line of the grid as runs of text,
//! each with the tone it is drawn in. The terminal front end only maps the
//! tones to colours.

use vstd::prelude::*;
use crate::grid::{
    AXIS_W, BoardOverlay, GridMark, GridMetrics, MoveMark, RIVER_AFTER_SCREEN_ROW,
    cell_highlight_at_screen, fit_display, move_highlight_overlay, opt_arrow_on_board, piece_label,
    push_spaces, spaces, spec_fit_display, spec_grid_line_count, spec_grid_mark, spec_move_mark,
    spec_piece_label,
};
use crate::panel::digit_char;
use crate::text::push_char;
use crate::xiangqi::{Board90, screen_to_internal, spec_flip};

verus! {

/// How a run of board text is drawn.
#[derive(Clone, Copy, Debug, PartialEq, Eq)]
pub enum Tone {
    /// Unstyled: the margin left of the grid.
    Plain,
    /// Dimmed: the axis labels, and the blank part of an occupied cell.
    Dim,
    /// A grid stroke, brightened when it borders the selected cell or the cursor.
    Stroke(Option<GridMark>),
    /// The river band; bold on the line that holds its text.
    River(bool),
    /// Part of a cell: the side of the piece on it (`Some(true)` red,
    /// `None` for an empty cell) and the move mark on the cell.
    Cell(Option<bool>, Option<MoveMark>),
}

/// A run of text drawn in one tone.
pub struct Run {
    pub text: String,
    pub tone: Tone,
}

/// The text of the river band.
pub const RIVER_TEXT: &'static str = "楚河      77象棋      漢界";

pub open spec fn run_view(r: Run) -> (Seq<char>, Tone) {
    (r.text@, r.tone)
}

/// A line of runs as text and tone pairs.
pub open spec fn runs(v: Seq<Run>) -> Seq<(Seq<char>, Tone)> {
    Seq::new(v.len(), |i: int| run_view(v[i]))
}

/// Lines of runs as sequences of text and tone pairs.
pub open spec fn lines_view(v: Seq<Vec<Run>>) -> Seq<Seq<(Seq<char>, Tone)>> {
    Seq::new(v.len(), |i: int| runs(v[i]@))
}

/// `n` horizontal strokes.
pub open spec fn dashes(n: int) -> Seq<char> {
    Seq::new(if n < 0 { 0 } else { n as nat }, |i: int| '─')
}

/// A one-character stroke.
pub open spec fn stroke(c: char, mark: Option<GridMark>) -> (Seq<char>, Tone) {
    (seq![c], Tone::Stroke(mark))
}

/// The grid mark of the cell shown at screen file `f`, screen row `r`.
pub open spec fn screen_mark(o: BoardOverlay, rotated: bool, f: int, r: int) -> Option<GridMark> {
    spec_grid_mark(o, spec_flip(f, r, rotated).0, spec_flip(f, r, rotated).1)
}

/// The first mark that is there.
pub open spec fn either(a: Option<GridMark>, b: Option<GridMark>) -> Option<GridMark> {
    if a is Some {
        a
    } else {
        b
    }
}

/// Marks of the dashes of a border along screen row `r`.
pub open spec fn row_marks(o: BoardOverlay, rotated: bool, r: int) -> Seq<Option<GridMark>> {
    Seq::new(9, |f: int| screen_mark(o, rotated, f, r))
}

/// Marks of the dashes of a border between screen rows `r` and `r + 1`.
pub open spec fn between_marks(o: BoardOverlay, rotated: bool, r: int) -> Seq<Option<GridMark>> {
    Seq::new(9, |f: int| either(screen_mark(o, rotated, f, r), screen_mark(o, rotated, f, r + 1)))
}

/// A horizontal grid line: the margin, the `left` corner, then for each file
/// its dashes (in that file's mark) and `mid`, or `right` after the last file.
pub open spec fn border_runs(
    cell_w: int,
    left: char,
    mid: char,
    right: char,
    marks: Seq<Option<GridMark>>,
) -> Seq<(Seq<char>, Tone)> {
    Seq::new(
        20,
        |i: int|
            if i == 0 {
                (spaces(AXIS_W as int), Tone::Plain)
            } else if i == 1 {
                stroke(left, None)
            } else if (i - 2) % 2 == 0 {
                (dashes(cell_w), Tone::Stroke(marks[(i - 2) / 2]))
            } else {
                stroke(if i == 19 { right } else { mid }, None)
            },
    )
}

fn push_dashes(s: &mut String, n: usize)
    ensures
        final(s)@ == old(s)@ + dashes(n as int),
{
    let mut i: usize = 0;
    while i < n
        invariant
            i <= n,
            s@ == old(s)@ + dashes(i as int),
        decreases n - i,
    {
        push_char(s, '─');
        i = i + 1;
        assert(s@ =~= old(s)@ + dashes(i as int));
    }
}

fn one_char(c: char) -> (r: String)
    ensures
        r@ == seq![c],
{
    let mut s = String::new();
    push_char(&mut s, c);
    assert(s@ =~= seq![c]);
    s
}

fn blank(n: usize) -> (r: String)
    ensures
        r@ == spaces(n as int),
{
    let mut s = String::new();
    push_spaces(&mut s, n);
    assert(s@ =~= spaces(n as int));
    s
}

/// A horizontal grid line (see [`border_runs`]).
pub fn border_line(cell_w: usize, left: char, mid: char, right: char, marks: &Vec<Option<GridMark>>) -> (r:
    Vec<Run>)
    requires
        marks@.len() == 9,
    ensures
        runs(r@) == border_runs(cell_w as int, left, mid, right, marks@),
{
    let mut v: Vec<Run> = Vec::new();
    v.push(Run { text: blank(AXIS_W), tone: Tone::Plain });
    v.push(Run { text: one_char(left), tone: Tone::Stroke(None) });
    let ghost full = border_runs(cell_w as int, left, mid, right, marks@);
    assert(runs(v@) =~= full.take(2));
    let mut file: usize = 0;
    while file < 9
        invariant
            file <= 9,
            marks@.len() == 9,
            full == border_runs(cell_w as int, left, mid, right, marks@),
            runs(v@) == full.take(2 + 2 * file),
        decreases 9 - file,
    {
        let ghost before = v@;
        let mut d = String::new();
        push_dashes(&mut d, cell_w);
        assert(d@ =~= dashes(cell_w as int));
        v.push(Run { text: d, tone: Tone::Stroke(marks[file]) });
        let joint = if file == 8 { right } else { mid };
        v.push(Run { text: one_char(joint), tone: Tone::Stroke(None) });
        assert(runs(v@) =~= runs(before) + seq![
            (dashes(cell_w as int), Tone::Stroke(marks@[file as int])),
            stroke(joint, None),
        ]);
        proof {
            let k = file as int;
            assert((2 * k) % 2 == 0 && (2 * k) / 2 == k && (2 * k + 1) % 2 == 1) by (nonlinear_arith)
                requires k >= 0;
            assert(full[2 + 2 * k] == (dashes(cell_w as int), Tone::Stroke(marks@[k])));
            assert(full[3 + 2 * k] == stroke(joint, None));
        }
        assert(runs(v@) =~= full.take(2 + 2 * (file + 1)));
        file = file + 1;
    }
    assert(full.take(20) =~= full);
    v
}

/// Marks of the dashes along screen row `r`, or between rows `r` and `r + 1`.
fn border_marks(o: BoardOverlay, rotated: bool, r: u8, between: bool) -> (v: Vec<Option<GridMark>>)
    requires
        r <= 9,
        between ==> r <= 8,
    ensures
        v@ == if between { between_marks(o, rotated, r as int) } else { row_marks(o, rotated, r as int) },
{
    let mut v: Vec<Option<GridMark>> = Vec::new();
    let mut f: u8 = 0;
    while f < 9
        invariant
            f <= 9,
            r <= 9,
            between ==> r <= 8,
            v@ == (if between { between_marks(o, rotated, r as int) } else { row_marks(o, rotated, r as int) }).take(
                f as int,
            ),
        decreases 9 - f,
    {
        let here = cell_highlight_at_screen(o, rotated, f, r);
        let m = if between {
            let next = cell_highlight_at_screen(o, rotated, f, r + 1);
            if here.is_some() {
                here
            } else {
                next
            }
        } else {
            here
        };
        v.push(m);
        f = f + 1;
        assert(v@ =~= (if between { between_marks(o, rotated, r as int) } else { row_marks(o, rotated, r as int) }).take(
            f as int,
        ));
    }
    v
}

/// Columns of a cell right of its piece block.
pub open spec fn right_pad(m: GridMetrics) -> int {
    if m.cell_w > m.piece_pad_w + m.piece_w {
        m.cell_w - (m.piece_pad_w + m.piece_w)
    } else {
        0
    }
}

/// The runs of board cell `file`, `rank` on line `sub` of its rank: an
/// empty cell is blank in its move mark; an occupied cell is dimmed blank
/// outside the lines of its piece block, and inside them shows the block
/// (the glyph centred on the glyph line) between dimmed margins, the margins
/// taking the block's tone on the glyph line.
pub open spec fn cell_runs(m: GridMetrics, board: &Board90, o: BoardOverlay, file: u8, rank: u8, sub: int) -> Seq<
    (Seq<char>, Tone),
> {
    let mark = spec_move_mark(board, file, rank, o.last_arrow, o.pending_arrow);
    match spec_piece_label(board.at(rank as int, file as int)) {
        None => seq![(spaces(m.cell_w as int), Tone::Cell(None, mark))],
        Some((label, red)) => if sub < m.piece_pad_h || sub >= m.piece_pad_h + m.piece_h {
            seq![(spaces(m.cell_w as int), Tone::Dim)]
        } else {
            let show = sub == m.glyph_sub;
            let tone = Tone::Cell(Some(red), mark);
            let side = if show {
                tone
            } else {
                Tone::Dim
            };
            (if m.piece_pad_w > 0 {
                seq![(spaces(m.piece_pad_w as int), side)]
            } else {
                Seq::empty()
            }) + seq![
                (if show {
                    spec_fit_display(label, m.piece_w as int)
                } else {
                    spaces(m.piece_w as int)
                }, tone),
            ] + (if right_pad(m) > 0 {
                seq![(spaces(right_pad(m)), side)]
            } else {
                Seq::empty()
            })
        },
    }
}

/// The board has its 90 cells and the arrows drawn on it stay on it.
pub open spec fn drawable(board: &Board90, o: BoardOverlay) -> bool {
    &&& board.cells@.len() == 90
    &&& opt_arrow_on_board(o.last_arrow)
    &&& opt_arrow_on_board(o.pending_arrow)
}

/// Appends the runs of one cell (see [`cell_runs`]).
fn push_cell(v: &mut Vec<Run>, m: &GridMetrics, board: &Board90, o: BoardOverlay, file: u8, rank: u8, sub: usize)
    requires
        drawable(board, o),
        file < 9,
        rank < 10,
        m.piece_pad_w + m.piece_w <= usize::MAX,
    ensures
        runs(final(v)@) == runs(old(v)@) + cell_runs(*m, board, o, file, rank, sub as int),
{
    let ghost before = v@;
    let mark = move_highlight_overlay(board, file, rank, o.last_arrow, o.pending_arrow);
    let piece = board.get(file, rank);
    match piece_label(piece) {
        None => {
            v.push(Run { text: blank(m.cell_w), tone: Tone::Cell(None, mark) });
            assert(runs(v@) =~= runs(before) + cell_runs(*m, board, o, file, rank, sub as int));
        },
        Some((label, red)) => {
            if sub < m.piece_pad_h || sub - m.piece_pad_h >= m.piece_h {
                v.push(Run { text: blank(m.cell_w), tone: Tone::Dim });
                assert(runs(v@) =~= runs(before) + cell_runs(*m, board, o, file, rank, sub as int));
            } else {
                let show = sub == m.glyph_sub;
                let tone = Tone::Cell(Some(red), mark);
                let side = if show { tone } else { Tone::Dim };
                let used = m.piece_pad_w + m.piece_w;
                let right: usize = if m.cell_w > used { m.cell_w - used } else { 0 };
                if m.piece_pad_w > 0 {
                    v.push(Run { text: blank(m.piece_pad_w), tone: side });
                }
                let ghost mid = v@;
                let body = if show { fit_display(label, m.piece_w) } else { blank(m.piece_w) };
                v.push(Run { text: body, tone });
                let ghost after_body = v@;
                if right > 0 {
                    v.push(Run { text: blank(right), tone: side });
                }
                proof {
                    assert(runs(mid) =~= runs(before) + (if m.piece_pad_w > 0 {
                        seq![(spaces(m.piece_pad_w as int), side)]
                    } else {
                        Seq::empty()
                    }));
                    assert(runs(after_body) =~= runs(mid) + seq![
                        (if show {
                            spec_fit_display(label@, m.piece_w as int)
                        } else {
                            spaces(m.piece_w as int)
                        }, tone),
                    ]);
                    assert(runs(v@) =~= runs(after_body) + (if right_pad(*m) > 0 {
                        seq![(spaces(right_pad(*m)), side)]
                    } else {
                        Seq::empty()
                    }));
                    assert(runs(v@) =~= runs(before) + cell_runs(*m, board, o, file, rank, sub as int));
                }
            }
        },
    }
}

/// The rank axis label on line `sub` of screen row `row`: the rank number
/// (counted from the bottom) right-aligned on the first line, blank below.
pub open spec fn axis_label(rotated: bool, row: int, sub: int) -> Seq<char> {
    if sub == 0 {
        seq![' ', digit_char((9 - spec_flip(0, row, rotated).1) as nat)]
    } else {
        spaces(AXIS_W as int)
    }
}

/// The runs of the first `n` cells of line `sub` of screen row `row`, each
/// followed by the stroke to its right neighbour (lit by either cell).
pub open spec fn rank_cells(
    m: GridMetrics,
    board: &Board90,
    rotated: bool,
    o: BoardOverlay,
    row: int,
    sub: int,
    n: nat,
) -> Seq<(Seq<char>, Tone)>
    decreases n,
{
    if n == 0 {
        Seq::empty()
    } else {
        let f = n - 1;
        let c = spec_flip(f, row, rotated);
        rank_cells(m, board, rotated, o, row, sub, (n - 1) as nat) + cell_runs(m, board, o, c.0, c.1, sub) + (
        if f != 8 {
            seq![stroke('│', either(screen_mark(o, rotated, f, row), screen_mark(o, rotated, f + 1, row)))]
        } else {
            Seq::empty()
        })
    }
}

/// Line `sub` of screen row `row`: the axis label, the left stroke, the
/// nine cells and the right stroke.
pub open spec fn rank_line(m: GridMetrics, board: &Board90, rotated: bool, o: BoardOverlay, row: int, sub: int) -> Seq<
    (Seq<char>, Tone),
> {
    seq![(axis_label(rotated, row, sub), Tone::Dim), stroke('│', screen_mark(o, rotated, 0, row))] + rank_cells(
        m,
        board,
        rotated,
        o,
        row,
        sub,
        9,
    ) + seq![stroke('│', screen_mark(o, rotated, 8, row))]
}

/// Line `sub` of screen row `row` (see [`rank_line`]).
fn rank_line_runs(m: &GridMetrics, board: &Board90, rotated: bool, o: BoardOverlay, row: u8, sub: usize) -> (r: Vec<Run>)
    requires
        drawable(board, o),
        row <= 9,
        m.piece_pad_w + m.piece_w <= usize::MAX,
    ensures
        runs(r@) == rank_line(*m, board, rotated, o, row as int, sub as int),
{
    let mut v: Vec<Run> = Vec::new();
    let (_, irank) = screen_to_internal(0, row, rotated);
    let label = if sub == 0 {
        let mut t = String::new();
        push_char(&mut t, ' ');
        let d: u8 = 9 - irank;
        push_char(&mut t, (48u8 + d) as char);
        proof {
            assert(((48u8 + d) as char) == digit_char(d as nat));
            assert(t@ =~= axis_label(rotated, row as int, sub as int));
        }
        t
    } else {
        blank(AXIS_W)
    };
    v.push(Run { text: label, tone: Tone::Dim });
    v.push(Run { text: one_char('│'), tone: Tone::Stroke(cell_highlight_at_screen(o, rotated, 0, row)) });
    let ghost head = seq![(axis_label(rotated, row as int, sub as int), Tone::Dim), stroke('│', screen_mark(o, rotated, 0, row as int))];
    assert(runs(v@) =~= head + rank_cells(*m, board, rotated, o, row as int, sub as int, 0));
    let mut f: u8 = 0;
    while f < 9
        invariant
            f <= 9,
            row <= 9,
            drawable(board, o),
            m.piece_pad_w + m.piece_w <= usize::MAX,
            runs(v@) == head + rank_cells(*m, board, rotated, o, row as int, sub as int, f as nat),
        decreases 9 - f,
    {
        let ghost before = v@;
        let (ifile, irank) = screen_to_internal(f, row, rotated);
        push_cell(&mut v, m, board, o, ifile, irank, sub);
        let ghost after_cell = v@;
        if f != 8 {
            let a = cell_highlight_at_screen(o, rotated, f, row);
            let b = cell_highlight_at_screen(o, rotated, f + 1, row);
            let j = if a.is_some() { a } else { b };
            v.push(Run { text: one_char('│'), tone: Tone::Stroke(j) });
        }
        proof {
            assert(runs(v@) =~= runs(after_cell) + (if f != 8 {
                seq![stroke('│', either(screen_mark(o, rotated, f as int, row as int), screen_mark(o, rotated, f + 1, row as int)))]
            } else {
                Seq::empty()
            }));
            assert(runs(v@) =~= head + rank_cells(*m, board, rotated, o, row as int, sub as int, (f + 1) as nat));
        }
        f = f + 1;
    }
    let ghost before_end = v@;
    v.push(Run { text: one_char('│'), tone: Tone::Stroke(cell_highlight_at_screen(o, rotated, 8, row)) });
    assert(runs(v@) =~= runs(before_end) + seq![stroke('│', screen_mark(o, rotated, 8, row as int))]);
    v
}

/// Line `sub` of the river band: the margin, a stroke, the river text
/// centred on the glyph line (blank on the others), a stroke.
pub open spec fn river_line(m: GridMetrics, sub: int) -> Seq<(Seq<char>, Tone)> {
    let inner = m.cell_w * 9 + 8;
    let text_row = sub == m.glyph_sub;
    seq![
        (spaces(AXIS_W as int), Tone::Plain),
        stroke('│', None),
        (if text_row {
            spec_fit_display(RIVER_TEXT@, inner)
        } else {
            spaces(inner)
        }, Tone::River(text_row)),
        stroke('│', None),
    ]
}

/// The river band: a border lit along screen row 4, `cell_h` river lines,
/// a border lit along screen row 5.
pub open spec fn river_lines(m: GridMetrics, rotated: bool, o: BoardOverlay) -> Seq<Seq<(Seq<char>, Tone)>> {
    seq![border_runs(m.cell_w as int, '├', '┴', '┤', row_marks(o, rotated, 4))] + Seq::new(
        m.cell_h as nat,
        |sub: int| river_line(m, sub),
    ) + seq![border_runs(m.cell_w as int, '├', '┬', '┤', row_marks(o, rotated, 5))]
}

/// The letter of board file `f` (`a` for file 0).
pub open spec fn file_letter(f: u8) -> char {
    ((f as int) + 97) as char
}

/// The first `n` file letters of the axis line, each centred in a cell and
/// followed by a stroke but the last.
pub open spec fn axis_cells(m: GridMetrics, rotated: bool, n: nat) -> Seq<(Seq<char>, Tone)>
    decreases n,
{
    if n == 0 {
        Seq::empty()
    } else {
        let f = n - 1;
        axis_cells(m, rotated, (n - 1) as nat) + seq![
            (spec_fit_display(seq![file_letter(spec_flip(f, 9, rotated).0)], m.cell_w as int), Tone::Dim),
        ] + (if f != 8 {
            seq![stroke('│', None)]
        } else {
            Seq::empty()
        })
    }
}

/// The file axis under the grid.
pub open spec fn axis_line(m: GridMetrics, rotated: bool) -> Seq<(Seq<char>, Tone)> {
    seq![(spaces(AXIS_W as int), Tone::Plain), stroke(' ', None)] + axis_cells(m, rotated, 9)
}

/// The lines of screen row `row`.
pub open spec fn rank_lines(m: GridMetrics, board: &Board90, rotated: bool, o: BoardOverlay, row: int) -> Seq<
    Seq<(Seq<char>, Tone)>,
> {
    Seq::new(m.cell_h as nat, |sub: int| rank_line(m, board, rotated, o, row, sub))
}

/// What follows screen row `row`: nothing after the last, the river after
/// row 4, else a border lit by the cells above and below it.
pub open spec fn separator(m: GridMetrics, rotated: bool, o: BoardOverlay, row: int) -> Seq<Seq<(Seq<char>, Tone)>> {
    if row == 9 {
        Seq::empty()
    } else if row == RIVER_AFTER_SCREEN_ROW as int {
        river_lines(m, rotated, o)
    } else {
        seq![border_runs(m.cell_w as int, '├', '┼', '┤', between_marks(o, rotated, row))]
    }
}

/// The top border and the first `n` screen rows with what follows each.
pub open spec fn rows_upto(m: GridMetrics, board: &Board90, rotated: bool, o: BoardOverlay, n: nat) -> Seq<
    Seq<(Seq<char>, Tone)>,
>
    decreases n,
{
    if n == 0 {
        seq![border_runs(m.cell_w as int, '┌', '┬', '┐', row_marks(o, rotated, 0))]
    } else {
        rows_upto(m, board, rotated, o, (n - 1) as nat) + rank_lines(m, board, rotated, o, n - 1) + separator(
            m,
            rotated,
            o,
            n - 1,
        )
    }
}

/// The whole board: the rows, the bottom border and the file axis.
pub open spec fn spec_board_text(m: GridMetrics, board: &Board90, rotated: bool, o: BoardOverlay) -> Seq<
    Seq<(Seq<char>, Tone)>,
> {
    rows_upto(m, board, rotated, o, 10) + seq![
        border_runs(m.cell_w as int, '└', '┴', '┘', row_marks(o, rotated, 9)),
        axis_line(m, rotated),
    ]
}

proof fn lemma_rows_upto_len(m: GridMetrics, board: &Board90, rotated: bool, o: BoardOverlay, n: nat)
    requires
        n <= 10,
    ensures
        rows_upto(m, board, rotated, o, n).len() == 1 + n * m.cell_h + (if n <= 4 {
            n as int
        } else if n <= 9 {
            n + m.cell_h + 1
        } else {
            9 + m.cell_h + 1
        }),
    decreases n,
{
    if n == 0 {
        assert(n * m.cell_h == 0) by (nonlinear_arith)
            requires
                n == 0,
        ;
    } else {
        lemma_rows_upto_len(m, board, rotated, o, (n - 1) as nat);
        assert((n - 1) * m.cell_h + m.cell_h == n * m.cell_h) by (nonlinear_arith);
        let k = n - 1;
        assert(rank_lines(m, board, rotated, o, k).len() == m.cell_h);
        assert(river_lines(m, rotated, o).len() == m.cell_h + 2);
        assert(separator(m, rotated, o, k).len() == if k == 9 {
            0
        } else if k == 4 {
            m.cell_h + 2
        } else {
            1
        });
        assert(rows_upto(m, board, rotated, o, n).len() == rows_upto(m, board, rotated, o, k as nat).len()
            + m.cell_h + separator(m, rotated, o, k).len());
    }
}

/// The board text has as many lines as [`spec_grid_line_count`] counts for
/// its cell height, so the drawing and the hit tests agree.
pub proof fn lemma_board_text_line_count(m: GridMetrics, board: &Board90, rotated: bool, o: BoardOverlay)
    ensures
        spec_board_text(m, board, rotated, o).len() == spec_grid_line_count(m.cell_h as int),
{
    lemma_rows_upto_len(m, board, rotated, o, 10);
}

fn river_line_runs(m: &GridMetrics, sub: usize) -> (r: Vec<Run>)
    requires
        m.cell_w * 9 + 8 <= usize::MAX,
    ensures
        runs(r@) == river_line(*m, sub as int),
{
    let inner = m.cell_w * 9 + 8;
    let text_row = sub == m.glyph_sub;
    let body = if text_row { fit_display(RIVER_TEXT, inner) } else { blank(inner) };
    let mut v: Vec<Run> = Vec::new();
    v.push(Run { text: blank(AXIS_W), tone: Tone::Plain });
    v.push(Run { text: one_char('│'), tone: Tone::Stroke(None) });
    v.push(Run { text: body, tone: Tone::River(text_row) });
    v.push(Run { text: one_char('│'), tone: Tone::Stroke(None) });
    assert(runs(v@) =~= river_line(*m, sub as int));
    v
}

fn axis_line_runs(m: &GridMetrics, rotated: bool) -> (r: Vec<Run>)
    ensures
        runs(r@) == axis_line(*m, rotated),
{
    let mut v: Vec<Run> = Vec::new();
    v.push(Run { text: blank(AXIS_W), tone: Tone::Plain });
    v.push(Run { text: one_char(' '), tone: Tone::Stroke(None) });
    let ghost head = seq![(spaces(AXIS_W as int), Tone::Plain), stroke(' ', None)];
    assert(runs(v@) =~= head + axis_cells(*m, rotated, 0));
    let mut f: u8 = 0;
    while f < 9
        invariant
            f <= 9,
            runs(v@) == head + axis_cells(*m, rotated, f as nat),
        decreases 9 - f,
    {
        let ghost before = v@;
        let (ifile, _) = screen_to_internal(f, 9, rotated);
        let letter = ((97u8 + ifile) as char);
        let l = one_char(letter);
        assert(letter == file_letter(ifile));
        v.push(Run { text: fit_display(l.as_str(), m.cell_w), tone: Tone::Dim });
        if f != 8 {
            v.push(Run { text: one_char('│'), tone: Tone::Stroke(None) });
        }
        assert(runs(v@) =~= runs(before) + seq![
            (spec_fit_display(seq![file_letter(spec_flip(f as int, 9, rotated).0)], m.cell_w as int), Tone::Dim),
        ] + (if f != 8 {
            seq![stroke('│', None)]
        } else {
            Seq::empty()
        }));
        assert(runs(v@) =~= head + axis_cells(*m, rotated, (f + 1) as nat));
        f = f + 1;
    }
    v
}

fn push_line(out: &mut Vec<Vec<Run>>, line: Vec<Run>)
    ensures
        lines_view(final(out)@) == lines_view(old(out)@).push(runs(line@)),
{
    out.push(line);
    assert(lines_view(out@) =~= lines_view(old(out)@).push(runs(line@)));
}

/// Every line of the drawn board (see [`spec_board_text`]); there are
/// [`spec_grid_line_count`] of them.
pub fn board_text(m: &GridMetrics, board: &Board90, rotated: bool, o: BoardOverlay) -> (r: Vec<Vec<Run>>)
    requires
        drawable(board, o),
        m.piece_pad_w + m.piece_w <= usize::MAX,
        m.cell_w * 9 + 8 <= usize::MAX,
    ensures
        lines_view(r@) == spec_board_text(*m, board, rotated, o),
        r@.len() == spec_grid_line_count(m.cell_h as int),
{
    let mut out: Vec<Vec<Run>> = Vec::new();
    let top = border_marks(o, rotated, 0, false);
    push_line(&mut out, border_line(m.cell_w, '┌', '┬', '┐', &top));
    assert(lines_view(out@) =~= rows_upto(*m, board, rotated, o, 0));
    let mut row: u8 = 0;
    while row < 10
        invariant
            row <= 10,
            drawable(board, o),
            m.piece_pad_w + m.piece_w <= usize::MAX,
            m.cell_w * 9 + 8 <= usize::MAX,
            lines_view(out@) == rows_upto(*m, board, rotated, o, row as nat),
        decreases 10 - row,
    {
        let ghost start = lines_view(out@);
        let mut sub: usize = 0;
        while sub < m.cell_h
            invariant
                row < 10,
                sub <= m.cell_h,
                drawable(board, o),
                m.piece_pad_w + m.piece_w <= usize::MAX,
                lines_view(out@) == start + rank_lines(*m, board, rotated, o, row as int).take(sub as int),
            decreases m.cell_h - sub,
        {
            push_line(&mut out, rank_line_runs(m, board, rotated, o, row, sub));
            assert(rank_lines(*m, board, rotated, o, row as int).take(sub as int + 1) =~= rank_lines(
                *m,
                board,
                rotated,
                o,
                row as int,
            ).take(sub as int).push(rank_line(*m, board, rotated, o, row as int, sub as int)));
            sub = sub + 1;
        }
        assert(rank_lines(*m, board, rotated, o, row as int).take(m.cell_h as int) =~= rank_lines(
            *m,
            board,
            rotated,
            o,
            row as int,
        ));
        let ghost mid = lines_view(out@);
        if row == RIVER_AFTER_SCREEN_ROW {
            let upper = border_marks(o, rotated, 4, false);
            push_line(&mut out, border_line(m.cell_w, '├', '┴', '┤', &upper));
            let ghost band_start = lines_view(out@);
            let mut k: usize = 0;
            while k < m.cell_h
                invariant
                    k <= m.cell_h,
                    m.cell_w * 9 + 8 <= usize::MAX,
                    lines_view(out@) == band_start + Seq::new(m.cell_h as nat, |s: int| river_line(*m, s)).take(
                        k as int,
                    ),
                decreases m.cell_h - k,
            {
                push_line(&mut out, river_line_runs(m, k));
                assert(Seq::new(m.cell_h as nat, |s: int| river_line(*m, s)).take(k as int + 1) =~= Seq::new(
                    m.cell_h as nat,
                    |s: int| river_line(*m, s),
                ).take(k as int).push(river_line(*m, k as int)));
                k = k + 1;
            }
            assert(Seq::new(m.cell_h as nat, |s: int| river_line(*m, s)).take(m.cell_h as int) =~= Seq::new(
                m.cell_h as nat,
                |s: int| river_line(*m, s),
            ));
            let lower = border_marks(o, rotated, 5, false);
            push_line(&mut out, border_line(m.cell_w, '├', '┬', '┤', &lower));
            assert(lines_view(out@) =~= mid + river_lines(*m, rotated, o));
        } else if row < 9 {
            let marks = border_marks(o, rotated, row, true);
            push_line(&mut out, border_line(m.cell_w, '├', '┼', '┤', &marks));
            assert(lines_view(out@) =~= mid + separator(*m, rotated, o, row as int));
        } else {
            assert(lines_view(out@) =~= mid + separator(*m, rotated, o, row as int));
        }
        assert(lines_view(out@) =~= rows_upto(*m, board, rotated, o, (row + 1) as nat));
        row = row + 1;
    }
    let bottom = border_marks(o, rotated, 9, false);
    push_line(&mut out, border_line(m.cell_w, '└', '┴', '┘', &bottom));
    push_line(&mut out, axis_line_runs(m, rotated));
    assert(lines_view(out@) =~= spec_board_text(*m, board, rotated, o));
    proof {
        lemma_board_text_line_count(*m, board, rotated, o);
    }
    out
}

} // verus!
