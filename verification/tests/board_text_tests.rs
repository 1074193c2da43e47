use unicode_width::UnicodeWidthStr;
use xiangqi_tui::board_text::{RIVER_TEXT, Run, Tone, board_text};
use xiangqi_tui::game::BoardArrow;
use xiangqi_tui::grid::{BoardOverlay, GridMark, GridMetrics, MoveMark, grid_line_count, line_cols_for_cell_w};
use xiangqi_tui::xiangqi::Board90;

fn joined(line: &[Run]) -> String {
    line.iter().map(|r| r.text.as_str()).collect()
}

fn metrics() -> GridMetrics {
    GridMetrics::from_area(84, 43)
}

#[test]
fn board_text_has_grid_line_count_lines_of_grid_width() {
    let m = metrics();
    let lines = board_text(&m, &Board90::startpos(), false, BoardOverlay::default());
    assert_eq!(lines.len(), grid_line_count(m.cell_h));
    let cols = line_cols_for_cell_w(m.cell_w);
    for line in &lines[..lines.len() - 1] {
        assert_eq!(UnicodeWidthStr::width(joined(line).as_str()), cols);
    }
    assert_eq!(UnicodeWidthStr::width(joined(&lines[lines.len() - 1]).as_str()), cols - 1);
}

#[test]
fn board_text_borders_axis_and_river() {
    let m = metrics();
    let lines = board_text(&m, &Board90::startpos(), false, BoardOverlay::default());
    assert_eq!(joined(&lines[0]), format!("  ┌{}┐", ["──────"; 9].join("┬")));
    assert_eq!(joined(&lines[1]), format!(" 9│{}│", ["  車  ", "  馬  ", "  象  ", "  士  ", "  將  ", "  士  ", "  象  ", "  馬  ", "  車  "].join("│")));
    let river_text = lines.iter().find(|l| joined(l).contains("77象棋")).expect("river line");
    assert!(joined(river_text).contains(RIVER_TEXT));
    assert!(river_text.iter().any(|r| r.tone == Tone::River(true)));
    let axis = joined(&lines[lines.len() - 1]);
    assert_eq!(axis, format!("   {}", ["  a   ", "  b   ", "  c   ", "  d   ", "  e   ", "  f   ", "  g   ", "  h   ", "  i   "].join("│")));
    let rotated = board_text(&m, &Board90::startpos(), true, BoardOverlay::default());
    assert!(joined(&rotated[rotated.len() - 1]).starts_with("     i"));
    assert!(joined(&rotated[1]).starts_with(" 0│"));
}

#[test]
fn board_text_marks_moves_and_selection() {
    let m = metrics();
    let overlay = BoardOverlay {
        last_arrow: Some(BoardArrow { from_file: 1, from_rank: 7, to_file: 4, to_rank: 7 }),
        pending_arrow: None,
        selected: Some((0, 9)),
        keyboard: None,
    };
    let lines = board_text(&m, &Board90::startpos(), false, overlay);
    let marked: Vec<&Run> = lines.iter().flatten().filter(|r| matches!(r.tone, Tone::Cell(_, Some(_)))).collect();
    assert!(!marked.is_empty());
    assert!(marked.iter().all(|r| r.tone == Tone::Cell(Some(true), Some(MoveMark { red: true, pending: false }))
        || r.tone == Tone::Cell(None, Some(MoveMark { red: true, pending: false }))));
    let lit = lines.iter().flatten().filter(|r| r.tone == Tone::Stroke(Some(GridMark::Selected))).count();
    assert!(lit >= 3);
}

#[test]
fn capture_shows_pending_move_hint() {
    let arrow = BoardArrow { from_file: 7, from_rank: 7, to_file: 4, to_rank: 7 };
    let overlay = BoardOverlay { last_arrow: Some(arrow), pending_arrow: Some(arrow), selected: None, keyboard: None };
    let m = GridMetrics::from_area(84, 43);
    let text: String = board_text(&m, &Board90::startpos(), false, overlay)
        .iter()
        .map(|line| joined(line))
        .collect::<Vec<_>>()
        .join("\n");
    assert!(text.contains("提示") || text.contains('炮') || text.contains('兵'), "pending move UI: {text}");
}
