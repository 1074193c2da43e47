use xiangqi_tui::book::{BookCandidate, BookConfig, BookResponse};
use xiangqi_tui::command::SlashCommand;
use xiangqi_tui::screens::BattleButton;
use xiangqi_tui::game::{
    AnalysisService, ApplyMoveError, AutoplayService, GameAction, GameService, GameState, ai_enabled_for_side, board_arrow_from_uci,
    book_config_usable, book_has_preview, best_uci_from_book, should_try_book_for_autoplay,
    wants_shared_infinite_stream,
};
use xiangqi_tui::xiangqi::{STARTPOS_FEN, Side};

#[test]
fn board_arrow_parses_valid_uci() {
    let arrow = board_arrow_from_uci("h2e2").expect("arrow");
    assert_eq!(arrow.from_file, 7);
    assert_eq!(arrow.from_rank, 7);
    assert!(board_arrow_from_uci("stub_move").is_none());
}

#[test]
fn book_preview_requires_valid_uci() {
    let response = BookResponse {
        best_move: Some("h2e2".to_string()),
        candidates: vec![BookCandidate { move_uci: Some("h2e2".to_string()), ..BookCandidate::default() }],
        source: "obk".to_string(),
        ..BookResponse::default()
    };
    assert!(book_has_preview(&response));
    assert_eq!(best_uci_from_book(&response).as_deref(), Some("h2e2"));
}

#[test]
fn autoplay_book_skipped_in_query_mode() {
    let game = GameState { query_mode: true, ..GameState::default() };
    let cfg = BookConfig {
        local_path: "x.obk".to_string(),
        local_enabled: true,
        cloud_enabled: false,
        pick_mode: "optimal".to_string(),
        max_halfmoves: 999,
    };
    assert!(!should_try_book_for_autoplay(&game, &cfg));
}

#[test]
fn autoplay_book_tried_at_start_with_usable_book() {
    let game = GameState::default();
    let mut cfg = BookConfig::default();
    assert!(!book_config_usable(&cfg));
    cfg.cloud_enabled = true;
    assert!(should_try_book_for_autoplay(&game, &cfg));
    cfg.max_halfmoves = 0;
    assert!(!should_try_book_for_autoplay(&game, &cfg));
}

#[test]
fn ai_enabled_follows_side_flags() {
    let mut game = GameState { red_ai: true, ..GameState::default() };
    assert!(ai_enabled_for_side(&game));
    game.side_to_move = Side::Black;
    assert!(!ai_enabled_for_side(&game));
}

#[test]
fn infinite_off_when_no_eval_modes() {
    let game = GameState::default();
    assert!(!wants_shared_infinite_stream(&game));
}

#[test]
fn infinite_off_for_dual_ai_realtime_only() {
    let game = GameState {
        red_ai: true,
        black_ai: true,
        realtime_eval: true,
        query_mode: false,
        ..GameState::default()
    };
    assert!(!wants_shared_infinite_stream(&game));
}

#[test]
fn infinite_on_for_query_mode() {
    let game = GameState { query_mode: true, ..GameState::default() };
    assert!(wants_shared_infinite_stream(&game));
}

#[test]
fn apply_h2e2_updates_side() {
    let mut game = GameState::default();
    GameService::apply_uci(&mut game, "h2e2").expect("legal");
    assert_eq!(game.side_to_move, Side::Black);
    assert_eq!(game.last_move_uci.as_deref(), Some("h2e2"));
}

#[test]
fn illegal_rejected() {
    let mut game = GameState::default();
    let err = GameService::apply_uci(&mut game, "a0a9").expect_err("illegal");
    assert!(matches!(err, ApplyMoveError::IllegalMove(_)));
}

#[test]
fn undo_clears_last_move_display() {
    let mut game = GameState::default();
    GameService::apply_uci(&mut game, "h2e2").expect("move");
    assert!(GameService::undo(&mut game));
    assert!(game.last_move_uci.is_none());
    assert!(game.last_move_arrow.is_none());
}

#[test]
fn browse_only_blocks_move() {
    let mut game = GameState::default();
    GameService::apply_uci(&mut game, "h2e2").expect("move");
    GameService::go_prev(&mut game);
    let err = GameService::apply_uci(&mut game, "h9g7").expect_err("browse");
    assert!(matches!(err, ApplyMoveError::BrowseOnly));
}

#[test]
fn load_invalid_fen_fails() {
    let mut game = GameState::default();
    assert!(GameService::load_fen(&mut game, "not-a-fen").is_err());
}

#[test]
fn reset_clears_analysis_source_to_startpos() {
    let mut game = GameState::default();
    GameService::apply_uci(&mut game, "h2e2").expect("move");
    GameService::reset(&mut game);
    assert_eq!(game.analysis.source, STARTPOS_FEN);
}

#[test]
fn apply_move_text_is_trimmed_and_lowered() {
    let mut game = GameState::default();
    GameService::apply_uci(&mut game, "  H2E2 ").expect("legal");
    assert_eq!(game.last_move_uci.as_deref(), Some("h2e2"));
    let arrow = game.last_move_arrow.expect("arrow");
    assert_eq!((arrow.from_file, arrow.from_rank, arrow.to_file, arrow.to_rank), (7, 7, 4, 7));
    assert_eq!(
        GameService::engine_fen(&game),
        "rnbakabnr/9/1c5c1/p1p1p1p1p/9/9/P1P1P1P1P/1C2C4/9/RNBAKABNR b - - 0 1"
    );
}

#[test]
fn error_messages() {
    assert_eq!(ApplyMoveError::IllegalMove("a0a9".to_string()).message(), "非法着法：a0a9。");
    assert_eq!(ApplyMoveError::BrowseOnly.message(), "正在浏览历史，请 /next 回到最新步或走新着以截断。");
}

#[test]
fn load_fen_normalises_and_resets_record() {
    let mut game = GameState::default();
    GameService::apply_uci(&mut game, "h2e2").expect("move");
    GameService::load_fen(&mut game, "  4k4/9/9/9/9/9/9/9/9/4K4 b  ").expect("fen");
    assert_eq!(game.side_to_move, Side::Black);
    assert_eq!(game.history.current_fen(), "4k4/9/9/9/9/9/9/9/9/4K4 b - - 0 1");
    assert_eq!(game.history.halfmove_count(), 0);
    assert!(game.last_move_uci.is_none());
}

#[test]
fn prev_and_next_show_recorded_positions() {
    let mut game = GameState::default();
    GameService::apply_uci(&mut game, "h2e2").expect("move");
    GameService::apply_uci(&mut game, "h9g7").expect("move");
    assert!(GameService::go_prev(&mut game));
    assert_eq!(game.side_to_move, Side::Black);
    assert_eq!(game.last_move_uci.as_deref(), Some("h2e2"));
    assert!(GameService::go_next(&mut game));
    assert_eq!(game.side_to_move, Side::Red);
    assert!(!GameService::go_next(&mut game));
}

#[test]
fn clicks_select_then_move() {
    let mut game = GameState::default();
    // The red cannon on h2 (file 7, row 7), then the empty e2 (file 4, row 7).
    assert_eq!(GameService::try_click_cell(&mut game, 7, 7), None);
    assert_eq!(game.selected_cell, Some((7, 7)));
    assert_eq!(GameService::try_click_cell(&mut game, 4, 7).as_deref(), Some("h2e2"));
    assert_eq!(game.selected_cell, None);
    // A black piece cannot be selected by red.
    assert_eq!(GameService::try_click_cell(&mut game, 0, 0), None);
    assert_eq!(game.selected_cell, None);
}

#[test]
fn active_modes_are_counted() {
    let game = GameState { red_ai: true, query_mode: true, ..GameState::default() };
    assert_eq!(game.active_mode_count(), 2);
}

#[test]
fn query_arrow_follows_best_move_only_in_query_mode() {
    let svc = AnalysisService;
    let mut pending = None;
    svc.sync_query_arrow("h2e2", false, &mut pending);
    assert!(pending.is_none());
    svc.sync_query_arrow("stub_move", true, &mut pending);
    assert!(pending.is_none());
    svc.sync_query_arrow("h2e2", true, &mut pending);
    assert_eq!(pending.map(|a| (a.from_file, a.to_file)), Some((7, 4)));
    assert_eq!(svc.idle_snapshot().source, "idle");
}

#[test]
fn apply_then_undo_restores_record_and_board() {
    let mut game = GameState::default();
    assert!(GameService::apply_uci(&mut game, "h2e2").is_ok());
    assert!(GameService::apply_uci(&mut game, "h9g7").is_ok());
    let fen_before = game.history.current_fen().to_string();
    let count_before = game.history.position_count();
    let cells_before = game.board.cells.clone();
    let last_before = game.last_move_uci.clone();
    assert!(GameService::apply_uci(&mut game, "b0c2").is_ok());
    assert_ne!(game.board.cells, cells_before);
    assert!(GameService::undo(&mut game));
    assert_eq!(game.history.current_fen(), fen_before);
    assert_eq!(game.history.position_count(), count_before);
    assert_eq!(game.board.cells, cells_before);
    assert_eq!(game.side_to_move, Side::Red);
    assert_eq!(game.last_move_uci, last_before);
}

#[test]
fn slash_commands_change_game_and_report() {
    let mut game = GameState::default();
    let out = GameService::execute_slash_command(&mut game, SlashCommand::RedAi, "/rai");
    assert!(game.red_ai);
    assert_eq!(out.action, GameAction::Nothing);
    assert_eq!(out.status.as_deref(), Some("红AI：开启"));
    let out = GameService::execute_slash_command(&mut game, SlashCommand::Query, "/query");
    assert!(game.query_mode);
    assert_eq!(out.action, GameAction::ModesChanged);
    assert_eq!(out.status, None);
    let out = GameService::execute_slash_command(&mut game, SlashCommand::Undo, "/undo");
    assert_eq!(out.action, GameAction::Nothing);
    assert_eq!(out.status.as_deref(), Some("无法悔棋（已在初始局面）。"));
    assert!(GameService::apply_uci(&mut game, "h2e2").is_ok());
    let out = GameService::execute_slash_command(&mut game, SlashCommand::Prev, "/prev");
    assert_eq!(out.action, GameAction::PositionChanged);
    assert_eq!(out.status.as_deref(), Some("浏览历史；当前为初始局面。"));
    let out = GameService::execute_slash_command(&mut game, SlashCommand::Next, "/next");
    assert_eq!(out.status.as_deref(), Some("浏览下一步。"));
    let out = GameService::execute_slash_command(&mut game, SlashCommand::Next, "/next");
    assert_eq!(out.status.as_deref(), Some("已在最新步。"));
    assert!(GameService::apply_uci(&mut game, "h9g7").is_ok());
    let out = GameService::execute_slash_command(&mut game, SlashCommand::Prev, "/prev");
    assert_eq!(out.status.as_deref(), Some("浏览历史；当前局面上一手 h2e2。"));
    let out = GameService::execute_slash_command(&mut game, SlashCommand::New, "/new");
    assert_eq!(out.action, GameAction::ModesChanged);
    assert_eq!(out.status.as_deref(), Some("已执行 /new，新游戏。"));
    assert!(!game.red_ai && !game.query_mode);
    assert_eq!(game.history.position_count(), 1);
    let out = GameService::execute_slash_command(&mut game, SlashCommand::Rotate, "/rotate");
    assert!(game.rotated);
    assert_eq!(out.status.as_deref(), Some("棋盘方向：黑方在下"));
    let out = GameService::execute_slash_command(&mut game, SlashCommand::CopyFen, "/copyfen");
    assert_eq!(out.status, Some(format!("当前 FEN：{STARTPOS_FEN}")));
    let out = GameService::execute_slash_command(&mut game, SlashCommand::Quit, "/quit");
    assert_eq!(out.action, GameAction::Quit);
    assert_eq!(out.status.as_deref(), Some("正在退出。"));
}

#[test]
fn pastefen_loads_or_explains() {
    let mut game = GameState::default();
    let out = GameService::execute_slash_command(&mut game, SlashCommand::PasteFen, "/pastefen");
    assert_eq!(out.action, GameAction::Nothing);
    assert_eq!(out.status.as_deref(), Some("用法：/pastefen <FEN>"));
    let out = GameService::execute_slash_command(&mut game, SlashCommand::PasteFen, "/pastefen nonsense");
    assert_eq!(out.action, GameAction::Nothing);
    assert_eq!(out.status.as_deref(), Some("无法解析 FEN。"));
    let out = GameService::execute_slash_command(
        &mut game,
        SlashCommand::PasteFen,
        "/pastefen 4k4/9/9/9/9/9/9/9/9/4K4 b - - 0 1",
    );
    assert_eq!(out.action, GameAction::PositionChanged);
    assert_eq!(out.status.as_deref(), Some("已载入 FEN。"));
    assert_eq!(game.side_to_move, Side::Black);
}

#[test]
fn buttons_change_game_and_report() {
    let mut game = GameState::default();
    game.query_mode = true;
    let out = GameService::activate_battle_button(&mut game, BattleButton::NewGame);
    assert_eq!(out.action, GameAction::ModesChanged);
    assert_eq!(out.status.as_deref(), Some("已重置到初始局面。"));
    assert!(game.query_mode);
    let out = GameService::activate_battle_button(&mut game, BattleButton::Undo);
    assert_eq!(out.status.as_deref(), Some("无法悔棋。"));
    let out = GameService::activate_battle_button(&mut game, BattleButton::PrevMove);
    assert_eq!(out.status.as_deref(), Some("已在第一步。"));
    let out = GameService::activate_battle_button(&mut game, BattleButton::BlackAi);
    assert!(game.black_ai);
    assert_eq!(out.status.as_deref(), Some("黑AI：开启"));
    let out = GameService::activate_battle_button(&mut game, BattleButton::PasteFen);
    assert_eq!(out.status.as_deref(), Some("在 C 区输入：/pastefen <FEN>"));
    assert!(GameService::apply_uci(&mut game, "h2e2").is_ok());
    let out = GameService::activate_battle_button(&mut game, BattleButton::PrevMove);
    assert_eq!(out.action, GameAction::PositionChanged);
    assert_eq!(out.status.as_deref(), Some("浏览上一步。"));
}

#[test]
fn modes_stop_at_game_end() {
    let mut game = GameState::default();
    game.red_ai = true;
    game.realtime_eval = true;
    assert!(!GameService::stop_modes_at_game_end(&mut game));
    assert!(game.red_ai && game.realtime_eval);
    // Black king alone, red rook giving mate with its king facing.
    assert!(GameService::load_fen(&mut game, "3k5/R8/9/9/9/9/9/9/9/4K4 b - - 0 1").is_ok());
    game.red_ai = true;
    game.query_mode = true;
    assert!(GameService::stop_modes_at_game_end(&mut game));
    assert!(!game.red_ai && !game.query_mode && !game.realtime_eval && !game.black_ai);
}

#[test]
fn book_answer_shown_with_arrow_in_query_mode() {
    let analysis = AnalysisService;
    let mut game = GameState::default();
    let response = BookResponse {
        best_move: Some("h2e2".to_string()),
        candidates: vec![BookCandidate { move_uci: Some("h2e2".to_string()), ..BookCandidate::default() }],
        source: "xqb".to_string(),
        ..BookResponse::default()
    };
    assert!(AutoplayService::show_book_answer(&analysis, &mut game, &response, true));
    assert_eq!(game.analysis.source, "xqb");
    assert_eq!(game.analysis.best_move, "h2e2");
    let a = game.pending_arrow.expect("arrow");
    assert_eq!((a.from_file, a.from_rank, a.to_file, a.to_rank), (7, 7, 4, 7));

    let mut other = GameState::default();
    let empty = BookResponse { source: "xqb".to_string(), ..BookResponse::default() };
    assert!(!AutoplayService::show_book_answer(&analysis, &mut other, &empty, true));
    assert_eq!(other.analysis.source, "idle");
    assert!(other.pending_arrow.is_none());
}

#[test]
fn click_and_move_status_lines() {
    assert_eq!(GameService::moved_status("h2e2", Side::Black), "已走 h2e2，轮到黑方。");
    assert_eq!(GameService::moved_status("h9g7", Side::Red), "已走 h9g7，轮到红方。");
    let mut game = GameState::default();
    assert_eq!(GameService::try_click_cell(&mut game, 7, 7), None);
    assert_eq!(GameService::pick_status(&game, 7, 7), "已选 h2，请点目标格。");
    // With a piece selected, a click on an enemy piece is a capture move.
    assert_eq!(GameService::try_click_cell(&mut game, 0, 0).as_deref(), Some("h2a9"));
    assert_eq!(game.selected_cell, None);
    assert_eq!(GameService::try_click_cell(&mut game, 0, 0), None);
    assert_eq!(GameService::pick_status(&game, 0, 0), "请先选择己方棋子。");
    assert!(GameService::apply_uci(&mut game, "h2e2").is_ok());
    assert_eq!(GameService::try_click_cell(&mut game, 7, 0), None);
    assert_eq!(GameService::try_click_cell(&mut game, 4, 9), Some("h9e0".to_string()));
    assert_eq!(game.selected_cell, None);
    assert!(GameService::go_prev(&mut game));
    assert_eq!(GameService::try_click_cell(&mut game, 0, 9), None);
    assert_eq!(GameService::pick_status(&game, 0, 9), "浏览历史中，请 /next 回到最新步再走子。");
}

#[test]
fn book_display_and_autoplay_follow_the_settings() {
    let analysis = AnalysisService;
    let response = BookResponse {
        best_move: Some("h2e2".to_string()),
        candidates: vec![BookCandidate { move_uci: Some("h2e2".to_string()), ..BookCandidate::default() }],
        source: "chessdb".to_string(),
        ..BookResponse::default()
    };
    let off = BookConfig { local_enabled: false, cloud_enabled: false, ..BookConfig::default() };
    let cloud = BookConfig { local_enabled: false, cloud_enabled: true, ..BookConfig::default() };

    let mut game = GameState::default();
    assert!(!AutoplayService::query_book_display(&analysis, &mut game, &off, &response, true));
    assert_eq!(game.analysis.source, "idle");
    assert!(game.pending_arrow.is_none());
    assert!(AutoplayService::query_book_display(&analysis, &mut game, &cloud, &response, false));
    assert_eq!(game.analysis.source, "chessdb");
    assert!(game.pending_arrow.is_none());

    let game = GameState::default();
    assert_eq!(AutoplayService::try_book_autoplay_move_for_game(&game, &off, &response), None);
    assert_eq!(AutoplayService::try_book_autoplay_move_for_game(&game, &cloud, &response).as_deref(), Some("h2e2"));
    let eval = GameState { realtime_eval: true, ..GameState::default() };
    assert_eq!(AutoplayService::try_book_autoplay_move_for_game(&eval, &cloud, &response), None);
}

#[test]
fn stop_and_help_commands() {
    let mut game = GameState::default();
    assert!(GameService::apply_uci(&mut game, "h2e2").is_ok());
    game.red_ai = true;
    game.query_mode = true;
    game.realtime_eval = true;
    let out = GameService::execute_slash_command(&mut game, SlashCommand::Stop, "/stop");
    assert_eq!(out.action, GameAction::ModesChanged);
    assert!(!game.red_ai && !game.black_ai && !game.query_mode && !game.realtime_eval);
    assert_eq!(game.history.halfmove_count(), 1);
    assert_eq!(game.last_move_uci.as_deref(), Some("h2e2"));
    let out = GameService::execute_slash_command(&mut game, SlashCommand::Help, "/help");
    assert_eq!(out.action, GameAction::ShowHelp);
    assert_eq!(out.status, None);
    let fen = "rnbakabnr/9/1c5c1/p1p1p1p1p/9/9/P1P1P1P1P/1C5C1/9/RNBAKABNR b - - 0 1";
    let out = GameService::execute_slash_command(&mut game, SlashCommand::PasteFen, &format!("/pastefen {fen}"));
    assert_eq!(out.action, GameAction::PositionChanged);
    assert_eq!(game.side_to_move, Side::Black);
}

#[test]
fn refused_moves_and_fens_leave_the_game_unchanged() {
    let mut game = GameState::default();
    game.selected_cell = Some((7, 7));
    assert!(GameService::apply_uci(&mut game, "a0a5").is_err());
    assert_eq!(game.selected_cell, Some((7, 7)));
    assert!(GameService::load_fen(&mut game, "not-a-fen").is_err());
    assert_eq!(game.selected_cell, Some((7, 7)));
    assert_eq!(game.history.halfmove_count(), 0);
}
