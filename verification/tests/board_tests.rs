use xiangqi_tui::grid::{
    BoardOverlay, GridMark, MoveMark, board_cell_at, cell_grid_highlight, cell_highlight_at_screen,
    cell_hit_point_in_grid, column_center_for_file, line_center_for_screen_row, move_highlight_overlay,
    AXIS_W, GridMetrics, RIVER_AFTER_SCREEN_ROW, file_at_column, fit_board_cells, fit_display, grid_line_count,
    line_cols_for_cell_w, max_cell_h_for_inner_h, pad_river, parse_capture_grid_cells, piece_label,
    piece_layout_in_cell, river_inner_w, screen_row_at_line,
};
use xiangqi_tui::rules::{has_legal_move_exec, in_check_exec, try_apply_fully_legal_uci};
use xiangqi_tui::game::BoardArrow;
use xiangqi_tui::xiangqi::{Board90, STARTPOS_FEN, Side, internal_to_screen, screen_to_internal, uci_cell_label};
use unicode_width::UnicodeWidthChar;

#[test]
fn axis_label_is_global_uci() {
    let (_, r9) = screen_to_internal(0, 9, false);
    assert_eq!(9 - r9, 0);
    let (_, r0) = screen_to_internal(0, 0, true);
    assert_eq!(9 - r0, 0);
}

#[test]
fn river_after_rank_four() {
    assert_eq!(RIVER_AFTER_SCREEN_ROW, 4);
}

#[test]
fn grid_line_count_matches_render_for_cell_h_two() {
    assert_eq!(grid_line_count(2), 1 + 20 + 8 + 4 + 2);
}

#[test]
fn piece_inset_is_eighty_percent() {
    let (pw, ph, _, _, _) = piece_layout_in_cell(10, 5);
    assert_eq!(pw, 8);
    assert_eq!(ph, 4);
}

#[test]
fn pad_river_matches_grid_inner_width() {
    let cell_w = 6usize;
    let inner = river_inner_w(cell_w);
    let s = pad_river("楚河 77象棋 漢界", inner);
    let w: usize = s.chars().map(|c| UnicodeWidthChar::width(c).unwrap_or(1)).sum();
    assert_eq!(w, inner);
}

#[test]
fn fit_display_centers_cjk() {
    assert_eq!(fit_display("車", 4), " 車 ");
}

#[test]
fn bottom_left_screen_maps_to_global_uci_label() {
    assert_eq!(screen_to_internal(0, 9, false), (0, 9));
    assert_eq!(uci_cell_label(0, 9), "a0");
    let (f, r) = screen_to_internal(0, 9, true);
    assert_eq!(uci_cell_label(f, r), "i9");
}

#[test]
fn file_at_column_maps_whole_cell_band() {
    let m = GridMetrics {
        cell_w: 6,
        cell_h: 2,
        piece_w: 4,
        piece_h: 1,
        piece_pad_w: 1,
        piece_pad_h: 0,
        glyph_sub: 0,
        pad_left: 0,
        pad_top: 0,
    };
    let origin = (AXIS_W + 1) as u16;
    assert_eq!(file_at_column(&m, origin), Some(0));
    assert_eq!(file_at_column(&m, origin + 3), Some(0));
    assert_eq!(file_at_column(&m, origin + 6), Some(0));
    assert_eq!(file_at_column(&m, origin + 7), Some(1));
    assert_eq!(file_at_column(&m, origin + 13), Some(1));
}

#[test]
fn screen_rotate_maps_corners() {
    assert_eq!(screen_to_internal(0, 9, false), (0, 9));
    assert_eq!(screen_to_internal(0, 9, true), (8, 0));
    assert_eq!(internal_to_screen(8, 0, true), (0, 9));
    assert_eq!(internal_to_screen(0, 9, false), (0, 9));
}

#[test]
fn piece_glyph_row_inside_piece_band() {
    let (_, _, _, pad_h, glyph) = piece_layout_in_cell(6, 4);
    assert!(glyph >= pad_h);
    assert!(glyph < pad_h + 4);
}

#[test]
fn screen_rows_skip_separators_and_river() {
    let m = GridMetrics {
        cell_w: 6,
        cell_h: 2,
        piece_w: 4,
        piece_h: 1,
        piece_pad_w: 1,
        piece_pad_h: 0,
        glyph_sub: 0,
        pad_left: 0,
        pad_top: 0,
    };
    assert_eq!(screen_row_at_line(&m, 0), None);
    assert_eq!(screen_row_at_line(&m, 1), Some(0));
    assert_eq!(screen_row_at_line(&m, 2), Some(0));
    assert_eq!(screen_row_at_line(&m, 3), None);
    assert_eq!(screen_row_at_line(&m, 4), Some(1));
    // Row 4 ends on line 14; the river takes lines 15 to 18.
    assert_eq!(screen_row_at_line(&m, 14), Some(4));
    assert_eq!(screen_row_at_line(&m, 16), None);
    assert_eq!(screen_row_at_line(&m, 19), Some(5));
    assert_eq!(screen_row_at_line(&m, 33), None);
    assert_eq!(file_at_column(&m, origin_plus(62)), None);
}

fn origin_plus(n: u16) -> u16 {
    (AXIS_W + 1) as u16 + n
}

#[test]
fn grid_sizes() {
    assert_eq!(line_cols_for_cell_w(6), 66);
    assert_eq!(max_cell_h_for_inner_h(43), 2);
    assert_eq!(max_cell_h_for_inner_h(10), 1);
    assert_eq!(parse_capture_grid_cells("┌──┬──┬──┬──┬──┬──┬──┬──┬──┐\n└──┴──┴──┴──┴──┴──┴──┴──┴──┘"), None);
}

#[test]
fn piece_labels() {
    assert_eq!(piece_label(0), None);
    assert_eq!(piece_label(5), Some(("帥", true)));
    assert_eq!(piece_label(13), Some(("將", false)));
    assert_eq!(piece_label(14), Some(("砲", false)));
    assert_eq!(piece_label(8), None);
}

#[test]
fn startpos_fen_round_trips() {
    let (b, side) = Board90::from_fen_with_side(STARTPOS_FEN).expect("fen");
    assert_eq!(side, Side::Red);
    assert_eq!(b.to_fen(side), STARTPOS_FEN);
    assert_eq!(Board90::startpos().to_fen(Side::Red), STARTPOS_FEN);
    assert!(Board90::from_fen_with_side("rnbakabnr/9/1c5c1 w").is_none());
    assert!(Board90::from_fen_with_side("rnbakabnrr/9/1c5c1/p1p1p1p1p/9/9/P1P1P1P1P/1C5C1/9/RNBAKABNR w").is_none());
}

#[test]
fn moves_follow_piece_rules() {
    let start = STARTPOS_FEN;
    // Horse jumps, cannon slides, pawn steps, elephant and advisor stay home.
    assert!(try_apply_fully_legal_uci(start, "b0c2").is_some());
    assert!(try_apply_fully_legal_uci(start, "b2b9").is_some()); // cannon takes over one screen
    assert!(try_apply_fully_legal_uci(start, "b2b8").is_none());
    assert!(try_apply_fully_legal_uci(start, "e3e4").is_some());
    assert!(try_apply_fully_legal_uci(start, "e3d3").is_none()); // no sideways step before the river
    assert!(try_apply_fully_legal_uci(start, "c0e2").is_some());
    assert!(try_apply_fully_legal_uci(start, "d0e1").is_some());
    assert!(try_apply_fully_legal_uci(start, "d0d1").is_none());
    assert!(try_apply_fully_legal_uci(start, "a0a1").is_some());
    assert!(try_apply_fully_legal_uci(start, "h9g7").is_none()); // black piece while red moves
}

#[test]
fn check_and_flying_general() {
    // The advisor on e1 stands between the kings: moving it off the file is refused.
    let fen = "4k4/9/9/9/9/9/9/9/4A4/4K4 w";
    let (b, side) = Board90::from_fen_with_side(fen).expect("fen");
    assert!(!in_check_exec(&b.cells, side));
    assert!(try_apply_fully_legal_uci(fen, "e1d2").is_none());
    assert!(try_apply_fully_legal_uci(fen, "e0d0").is_some());
    // A king may not step onto an open file that faces the other king.
    assert!(try_apply_fully_legal_uci("4k4/9/9/9/9/9/9/9/9/3K5 w", "d0e0").is_none());
    // A rook gives check along an open line; the king can still step aside.
    let (b2, _) = Board90::from_fen_with_side("4k4/9/9/9/9/9/9/9/9/3KR4 b").expect("fen");
    assert!(in_check_exec(&b2.cells, Side::Black));
    assert!(has_legal_move_exec(&b2.cells, Side::Black));
    // Checkmate: both escape squares of the black king are covered.
    let (b3, _) = Board90::from_fen_with_side("R2k5/1R7/9/9/9/9/9/9/9/4K4 b").expect("fen");
    assert!(in_check_exec(&b3.cells, Side::Black));
    assert!(!has_legal_move_exec(&b3.cells, Side::Black));
}

/// Width over height of the drawn grid on a terminal whose characters are
/// twice as high as wide.
fn grid_pixel_aspect(cell_w: usize, cell_h: usize) -> f64 {
    line_cols_for_cell_w(cell_w) as f64 * 0.5 / grid_line_count(cell_h) as f64
}

const TARGET_BOARD_ASPECT: f64 = 9.0 / 10.0;

#[test]
fn fit_board_cells_near_target_aspect() {
    let inner_w = 84usize;
    let inner_h = 43usize;
    let max_cell_w = (inner_w - 12) / 9;
    let max_cell_h = max_cell_h_for_inner_h(inner_h);
    let (w, h) = fit_board_cells(inner_w, inner_h, max_cell_w, max_cell_h);
    let aspect = grid_pixel_aspect(w, h);
    assert!((aspect - TARGET_BOARD_ASPECT).abs() < 0.12, "aspect {aspect:.3} for {w}x{h}");
    assert!(line_cols_for_cell_w(w) <= inner_w);
    assert!(grid_line_count(h) <= inner_h);
}

#[test]
fn capture_like_inner_prefers_wider_cells() {
    let (w, h) = fit_board_cells(84, 43, 8, 2);
    assert!(w >= 5, "got {w}x{h}");
    assert!((grid_pixel_aspect(w, h) - TARGET_BOARD_ASPECT).abs() < 0.1);
}

#[test]
fn fit_board_cells_exact_choice() {
    assert_eq!(fit_board_cells(84, 43, 8, 2), (6, 2));
    // Only one row of cells fits: the closest outline at that height.
    assert_eq!(fit_board_cells(84, 30, 8, 2), (3, 1));
    // Nothing fits: the smallest cells are used.
    assert_eq!(fit_board_cells(20, 20, 8, 2), (2, 1));
    assert_eq!(fit_board_cells(84, 43, 1, 2), (2, 1));
}

#[test]
fn metrics_from_area_centre_the_grid() {
    let m = GridMetrics::from_area(84, 43);
    assert_eq!((m.cell_w, m.cell_h), (6, 2));
    assert_eq!((m.piece_w, m.piece_h, m.piece_pad_w, m.piece_pad_h, m.glyph_sub), (4, 1, 1, 0, 0));
    assert_eq!(m.pad_left, 9);
    assert_eq!(m.pad_top, 4);
    let small = GridMetrics::from_area(5, 5);
    assert_eq!((small.cell_w, small.cell_h), (2, 1));
    assert_eq!((small.pad_left, small.pad_top), (0, 0));
}

#[test]
fn cell_centres_hit_their_cells() {
    let m = GridMetrics::from_area(84, 43);
    for rotated in [false, true] {
        for screen_row in 0..10u8 {
            for file in 0..9u8 {
                let (cx, cy) = cell_hit_point_in_grid(&m, 1, 1, file, screen_row).expect("centre");
                let hit = board_cell_at(&m, 1, 1, 84, 43, cx, cy, rotated);
                assert_eq!(hit, Some(screen_to_internal(file, screen_row, rotated)));
            }
        }
    }
    assert_eq!(cell_hit_point_in_grid(&m, 1, 1, 9, 0), None);
    assert_eq!(cell_hit_point_in_grid(&m, 1, 1, 0, 10), None);
}

#[test]
fn centres_and_misses() {
    let m = GridMetrics::from_area(84, 43);
    // Cells 6 wide: the axis and border take 3 columns, each file 7.
    assert_eq!(column_center_for_file(&m, 0), Some(6));
    assert_eq!(column_center_for_file(&m, 8), Some(62));
    // Cells 2 high: rows start at line 1, 4, ...; the river after row 4 adds 3 more.
    assert_eq!(line_center_for_screen_row(&m, 0), Some(2));
    assert_eq!(line_center_for_screen_row(&m, 5), Some(20));
    // Outside the area, on the axis, on the top border, on the river: nothing.
    assert_eq!(board_cell_at(&m, 1, 1, 84, 43, 0, 5, false), None);
    assert_eq!(board_cell_at(&m, 1, 1, 84, 43, 85, 5, false), None);
    assert_eq!(board_cell_at(&m, 1, 1, 84, 43, 12, 5, false), None);
    assert_eq!(board_cell_at(&m, 1, 1, 84, 43, 17, 5, false), None);
    assert_eq!(board_cell_at(&m, 1, 1, 84, 43, 17, 22, false), None);
    // A separator column belongs to the cell on its left.
    assert_eq!(board_cell_at(&m, 1, 1, 84, 43, 1 + 9 + 3 + 6, 1 + 4 + 1, false), Some((0, 0)));
}

#[test]
fn move_marks_follow_the_mover() {
    let board = Board90::from_fen_with_side(STARTPOS_FEN).expect("start").0;
    let red_move = BoardArrow { from_file: 7, from_rank: 7, to_file: 4, to_rank: 7 };
    let black_move = BoardArrow { from_file: 7, from_rank: 2, to_file: 4, to_rank: 2 };
    // h2e2 on the start board: the target is empty, the origin holds a red cannon.
    assert_eq!(
        move_highlight_overlay(&board, 4, 7, Some(red_move), None),
        Some(MoveMark { red: true, pending: false })
    );
    // The proposed move wins over the last one.
    assert_eq!(
        move_highlight_overlay(&board, 7, 7, Some(red_move), Some(red_move)),
        Some(MoveMark { red: true, pending: true })
    );
    assert_eq!(
        move_highlight_overlay(&board, 7, 2, Some(red_move), Some(black_move)),
        Some(MoveMark { red: false, pending: true })
    );
    assert_eq!(move_highlight_overlay(&board, 0, 0, Some(red_move), Some(black_move)), None);
    let empty = BoardArrow { from_file: 4, from_rank: 4, to_file: 4, to_rank: 5 };
    assert_eq!(move_highlight_overlay(&board, 4, 4, Some(empty), None), Some(MoveMark { red: true, pending: false }));
}

#[test]
fn grid_marks_prefer_selection() {
    let overlay = BoardOverlay { selected: Some((1, 2)), keyboard: Some((1, 2)), ..BoardOverlay::default() };
    assert_eq!(cell_grid_highlight(overlay, 1, 2), Some(GridMark::Selected));
    let overlay = BoardOverlay { selected: Some((0, 0)), keyboard: Some((1, 2)), ..BoardOverlay::default() };
    assert_eq!(cell_grid_highlight(overlay, 1, 2), Some(GridMark::Cursor));
    assert_eq!(cell_grid_highlight(overlay, 3, 3), None);
    // Screen cell (7, 7) of a turned board shows board cell (1, 2).
    assert_eq!(cell_highlight_at_screen(overlay, true, 7, 7), Some(GridMark::Cursor));
    assert_eq!(cell_highlight_at_screen(overlay, false, 7, 7), None);
}

#[test]
fn written_fen_reads_back() {
    let board = Board90::startpos();
    for side in [Side::Red, Side::Black] {
        let fen = board.to_fen(side);
        let (back, back_side) = Board90::from_fen_with_side(&fen).expect("reads");
        assert_eq!(back.cells, board.cells);
        assert_eq!(back_side, side);
    }
    let after = try_apply_fully_legal_uci(STARTPOS_FEN, "h2e2").expect("legal");
    let (moved, side) = Board90::from_fen_with_side(&after).expect("reads");
    assert_eq!(side, Side::Black);
    assert_eq!(moved.to_fen(side), after);
    let sparse = "4k4/9/9/9/9/9/9/9/9/4K4 b - - 0 1";
    let (b, s) = Board90::from_fen_with_side(sparse).expect("reads");
    assert_eq!(b.to_fen(s), sparse);
}

#[test]
fn accepted_move_passes_turn_without_self_check() {
    let after = try_apply_fully_legal_uci(STARTPOS_FEN, "h2e2").expect("legal");
    let (b, side) = Board90::from_fen_with_side(&after).expect("reads");
    assert_eq!(side, Side::Black);
    assert_eq!(b.get(4, 7), 6);
    assert_eq!(b.get(7, 7), 0);
    assert!(!in_check_exec(&b.cells, Side::Red));
}

#[test]
fn hit_board_cell_a0_matches_layout() {
    // A 120x40 terminal: the board block takes 86x33 below the tabs, its inside 84x31.
    let (x, y, w, h) = (1u16, 4u16, 84u16, 31u16);
    let m = GridMetrics::from_area(w, h);
    let (col, row) = cell_hit_point_in_grid(&m, x, y, 0, 9).expect("a0 center");
    assert_eq!(board_cell_at(&m, x, y, w, h, col, row, false), Some((0, 9)));
    let (col, row) = cell_hit_point_in_grid(&m, x, y, 0, 9).expect("a0 center");
    assert_eq!(board_cell_at(&m, x, y, w, h, col, row, true), Some((8, 0)));
}

#[test]
fn capture_size_read_from_borders() {
    let top = format!("  ┌{}──┐", "──┬".repeat(8));
    let bottom = format!("  └{}──┘", "──┴".repeat(8));
    let capture = format!("{top}\n{}{bottom}", "x\n".repeat(22));
    assert_eq!(parse_capture_grid_cells(&capture), Some((2, 1)));
    // The drawn board itself, file axis included.
    let m = GridMetrics::from_area(84, 43);
    let text: String = xiangqi_tui::board_text::board_text(&m, &Board90::startpos(), false, BoardOverlay::default())
        .iter()
        .map(|line| line.iter().map(|r| r.text.as_str()).collect::<String>())
        .collect::<Vec<_>>()
        .join("\n");
    assert_eq!(parse_capture_grid_cells(&text), Some((6, 2)));
    // Fewer than eight tees: no top border.
    assert_eq!(parse_capture_grid_cells(&format!("┌──┬──┐\n{bottom}")), None);
}
