use xiangqi_tui::engine_info::{
    AnalysisAction, AnalysisEvent, analysis_step, ENGINE_PV_UI_MAX_STEPS, EngineAnalysisStore, EngineInfoCandidate, EngineInfoState,
    InfiniteLineOutcome, MATE_SCORE, apply_infinite_stdout_line, apply_parsed_info_to_state,
    candidate_from_parsed, parse_uci_style_info_tokens, select_main_line_from_candidates,
    truncate_engine_pv_for_ui, uci_xiangqi_best_ready,
};
use xiangqi_tui::engine_setup::{handshake_protocol_sequence, same_engine_path, sanitize_engine_path};

#[test]
fn truncate_empty() {
    assert!(truncate_engine_pv_for_ui(&[]).is_empty());
}

#[test]
fn truncate_keeps_valid_uci_up_to_max() {
    let uci = |i: usize| format!("a{}b{}", i % 9, (i + 1) % 10);
    let pv: Vec<String> = (0..50).map(uci).collect();
    let out = truncate_engine_pv_for_ui(&pv);
    assert_eq!(out.len(), ENGINE_PV_UI_MAX_STEPS);
    assert_eq!(out[0], "a0b1");
    assert_eq!(out[ENGINE_PV_UI_MAX_STEPS - 1], uci(ENGINE_PV_UI_MAX_STEPS - 1));
}

#[test]
fn truncate_skips_short_strings() {
    let pv = vec!["ab".to_string(), "h2e2".to_string(), "x".to_string(), "h9g7".to_string()];
    assert_eq!(truncate_engine_pv_for_ui(&pv), vec!["h2e2".to_string(), "h9g7".to_string()]);
}

#[test]
fn truncate_large_pv_under_time_budget() {
    let pv: Vec<String> = (0..5000).map(|i| format!("a{}b{}", i % 9, i % 10)).collect();
    let t0 = std::time::Instant::now();
    let out = truncate_engine_pv_for_ui(&pv);
    let ms = t0.elapsed().as_secs_f64() * 1000.0;
    assert!(out.len() <= ENGINE_PV_UI_MAX_STEPS);
    assert!(ms < 5.0, "truncate took {}ms (expected < 5ms)", ms);
}

#[test]
fn sanitize_strips_quotes_and_whitespace() {
    assert_eq!(
        sanitize_engine_path("  \"C:\\eng\\pikafish.exe\"  ").as_deref(),
        Some("C:\\eng\\pikafish.exe")
    );
    assert!(sanitize_engine_path("   ").is_none());
}

#[test]
fn same_engine_path_windows_case_insensitive() {
    assert!(same_engine_path(r"C:\Games\engine.EXE", r"c:\games\engine.exe"));
    assert!(!same_engine_path(r"C:\a.exe", r"C:\b.exe"));
}

#[test]
fn auto_defaults_ucci_first() {
    assert_eq!(handshake_protocol_sequence("auto", None), vec!["ucci", "uci"]);
}

#[test]
fn prefer_uci_with_hint_ucci_tries_ucci_first() {
    assert_eq!(handshake_protocol_sequence("prefer_uci", Some("ucci")), vec!["ucci", "uci"]);
}

#[test]
fn uci_only_single_attempt() {
    assert_eq!(handshake_protocol_sequence("uci_only", None), vec!["uci"]);
}

#[test]
fn uci_xiangqi_best_ready_accepts_valid_iccs_uci() {
    assert!(uci_xiangqi_best_ready("h2e2"));
    assert!(uci_xiangqi_best_ready("a0a9"));
}

#[test]
fn uci_xiangqi_best_ready_rejects_stub_and_invalid() {
    assert!(!uci_xiangqi_best_ready("stub_move"));
    assert!(!uci_xiangqi_best_ready("j2e2"));
    assert!(!uci_xiangqi_best_ready("e2e10"));
    assert!(!uci_xiangqi_best_ready(""));
}

#[test]
fn select_main_line_prefers_first_candidate() {
    let cands = vec![EngineInfoCandidate {
        rank: 1,
        best_move: "h2e2".to_string(),
        score: 3000,
        depth: Some(8),
        pv: vec!["h2e2".to_string()],
        ..EngineInfoCandidate::default()
    }];
    let (bm, sc, pv, d, mate) = select_main_line_from_candidates(&cands, "stub_move", 0, &[], None, None);
    assert_eq!(bm, "h2e2");
    assert_eq!(sc, 3000);
    assert_eq!(pv, vec!["h2e2".to_string()]);
    assert_eq!(d, Some(8));
    assert!(mate.is_none());
}

#[test]
fn parse_score_and_wdl_with_lowerbound() {
    let line = "info depth 22 seldepth 34 multipv 1 score cp 6 lowerbound wdl 23 973 4 nodes 2024471 nps 1106873 hashfull 674 tbhits 0 time 1829 pv h2e2";
    let parts: Vec<&str> = line.split_whitespace().collect();
    let parsed = parse_uci_style_info_tokens(&parts).expect("should parse info line");
    assert!(parsed.has_score);
    assert_eq!(parsed.cand_score, 6);
    assert_eq!(parsed.cp_centipawns, Some(6));
    assert_eq!(parsed.mate, None);
    assert_eq!(parsed.wdl, Some([23, 973, 4]));
    assert_eq!(parsed.pv_tok, vec!["h2e2".to_string()]);
}

#[test]
fn candidate_merge_keeps_previous_when_new_line_has_no_score_or_pv() {
    let info = parse_uci_style_info_tokens(&["info", "depth", "18"]).expect("parse");
    let prev = EngineInfoCandidate {
        rank: 1,
        best_move: "h2e2".to_string(),
        score: 6,
        mate: None,
        pv: vec!["h2e2".to_string()],
        depth: Some(22),
        nodes: Some(1000),
        wdl: Some([23, 973, 4]),
        ..EngineInfoCandidate::default()
    };
    let merged = candidate_from_parsed(&info, "stub_move", Some(&prev));
    assert_eq!(merged.best_move, "h2e2");
    assert_eq!(merged.score, 6);
    assert_eq!(merged.pv, vec!["h2e2".to_string()]);
    assert!(merged.mate.is_none());
}

#[test]
fn candidate_merge_clears_old_mate_when_new_cp_score_arrives() {
    let info = parse_uci_style_info_tokens(&["info", "depth", "19", "score", "cp", "12"]).expect("parse");
    let prev = EngineInfoCandidate {
        rank: 1,
        best_move: "h2e2".to_string(),
        score: MATE_SCORE,
        mate: Some(5),
        pv: vec!["h2e2".to_string()],
        depth: Some(22),
        nodes: Some(1000),
        wdl: Some([23, 973, 4]),
        ..EngineInfoCandidate::default()
    };
    let merged = candidate_from_parsed(&info, "stub_move", Some(&prev));
    assert_eq!(merged.score, 12);
    assert!(merged.mate.is_none());
}

#[test]
fn parse_mate_score_keeps_non_zero_score_signal() {
    let line = "info depth 20 multipv 1 score mate 3 wdl 1000 0 0 nodes 12345 pv h2e2";
    let parts: Vec<&str> = line.split_whitespace().collect();
    let parsed = parse_uci_style_info_tokens(&parts).expect("should parse mate info");
    assert!(parsed.has_score);
    assert_eq!(parsed.cand_score, 999_900);
    assert_eq!(parsed.mate, Some(3));
    assert_eq!(parsed.wdl, Some([1000, 0, 0]));
}

#[test]
fn parse_spin_storm_style_score_without_cp_keyword() {
    let line = "info depth 12 score 156 time 1240 nodes 890234 nps 717931 pv h2i2 h7g7";
    let parts: Vec<&str> = line.split_whitespace().collect();
    let parsed = parse_uci_style_info_tokens(&parts).expect("should parse spin-storm style info");
    assert!(parsed.has_score);
    assert_eq!(parsed.cp_centipawns, Some(156));
    assert_eq!(parsed.cand_score, 156);
    assert_eq!(parsed.depth, Some(12));
    assert_eq!(parsed.search_time_ms, Some(1240));
    assert_eq!(parsed.nodes, Some(890_234));
    assert_eq!(parsed.nps, Some(717_931));
    assert_eq!(parsed.pv_tok, vec!["h2i2".to_string(), "h7g7".to_string()]);
}

#[test]
fn patch_from_info_state_sets_best_move_and_depth() {
    let fen = "rnbakabnr/9/1c5c1/p1p1p1p1p/9/9/P1P1P1P1P/1C5C1/9/RNBAKABNR w - - 0 1";
    let mut st = EngineInfoState::new();
    let parts: Vec<&str> = "info depth 12 score cp 30 pv h2e2 h7e7".split_whitespace().collect();
    let parsed = parse_uci_style_info_tokens(&parts).expect("parse");
    apply_parsed_info_to_state(&parsed, &mut st);
    let mut store = EngineAnalysisStore::empty_for_fen(fen);
    store.patch_from_info_state(fen, &st);
    assert_eq!(store.result.best_move, "h2e2");
    assert_eq!(store.result.depth, Some(12));
    assert!(store.result.pv.len() <= 16);
}

#[test]
fn reset_for_stream_clears_previous_result() {
    let mut store = EngineAnalysisStore::empty_for_fen("fen-a");
    store.result.best_move = "h2e2".to_string();
    store.revision = 3;
    store.reset_for_stream("fen-b");
    assert_eq!(store.fen, "fen-b");
    assert!(store.result.best_move.is_empty());
    assert_eq!(store.revision, 0);
}

#[test]
fn patch_bumps_revision() {
    let fen = "rnbakabnr/9/1c5c1/p1p1p1p1p/9/9/P1P1P1P1P/1C5C1/9/RNBAKABNR w - - 0 1";
    let mut store = EngineAnalysisStore::empty_for_fen(fen);
    let mut st = EngineInfoState::new();
    store.patch_from_info_state(fen, &st);
    assert_eq!(store.revision, 1);
    let parts: Vec<&str> = "info depth 5 score cp 10 pv h2e2".split_whitespace().collect();
    let parsed = parse_uci_style_info_tokens(&parts).expect("parse");
    apply_parsed_info_to_state(&parsed, &mut st);
    store.patch_from_info_state(fen, &st);
    assert_eq!(store.revision, 2);
}

#[test]
fn info_line_updates_state_best_move() {
    let mut st = EngineInfoState::new();
    let fen = "rnbakabnr/9/1c5c1/p1p1p1p1p/9/9/P1P1P1P1P/1C5C1/9/RNBAKABNR w - - 0 1";
    let out = apply_infinite_stdout_line("info depth 10 score cp 25 pv h2e2", fen, &mut st);
    assert_eq!(out, InfiniteLineOutcome::Continue);
    let mut store = EngineAnalysisStore::empty_for_fen(fen);
    store.patch_from_info_state(fen, &st);
    assert_eq!(store.result.best_move, "h2e2");
}

#[test]
fn bestmove_line_sets_state_and_ends() {
    let mut st = EngineInfoState::new();
    let fen = "rnbakabnr/9/1c5c1/p1p1p1p1p/9/9/P1P1P1P1P/1C5C1/9/RNBAKABNR w - - 0 1";
    let out = apply_infinite_stdout_line("bestmove h2e2", fen, &mut st);
    assert_eq!(out, InfiniteLineOutcome::GotBestmove);
    assert_eq!(st.best_move, "h2e2");
}

#[test]
fn truncate_keeps_only_board_moves() {
    let pv: Vec<String> = ["abcd", "h2e2", "stub_move", "x", "h9g7", "j0a1"].iter().map(|s| s.to_string()).collect();
    assert_eq!(truncate_engine_pv_for_ui(&pv), vec!["h2e2".to_string(), "h9g7".to_string()]);
}

#[test]
fn analysis_step_waits_for_bestmove() {
    let mut st = EngineInfoState::new();
    let fen = "rnbakabnr/9/1c5c1/p1p1p1p1p/9/9/P1P1P1P1P/1C5C1/9/RNBAKABNR w - - 0 1";
    assert_eq!(analysis_step(&mut st, fen, &AnalysisEvent::Tick), AnalysisAction::Wait);
    let info = AnalysisEvent::Line("info depth 6 score cp 12 pv b2e2".to_string());
    assert_eq!(analysis_step(&mut st, fen, &info), AnalysisAction::Wait);
    let done = AnalysisEvent::Line("bestmove h2e2 ponder h9g7".to_string());
    assert_eq!(
        analysis_step(&mut st, fen, &done),
        AnalysisAction::Finish { stop_engine: false, got_bestmove: true }
    );
    assert_eq!(st.best_move, "h2e2");
    let stop = AnalysisAction::Finish { stop_engine: true, got_bestmove: false };
    assert_eq!(analysis_step(&mut st, fen, &AnalysisEvent::DeadlinePassed), stop);
    assert_eq!(analysis_step(&mut st, fen, &AnalysisEvent::Cancelled), stop);
    assert_eq!(analysis_step(&mut st, fen, &AnalysisEvent::Disconnected), stop);
    assert_eq!(st.best_move, "h2e2");
}
