use xiangqi_tui::book::{BookCandidate, BookResponse, Ratio};
use xiangqi_tui::engine_info::{AnalysisSnapshot, EngineAnalysisStore, EngineAnalyzeResult, EngineInfoCandidate};
use xiangqi_tui::game::{AnalysisService, best_uci_from_engine};
use xiangqi_tui::panel::{
    Percent, format_count_k, format_score, format_time_ms, format_win_rate, red_black_winrate_pct_from_wdl,
};

const START: &str = "rnbakabnr/9/1c5c1/p1p1p1p1p/9/9/P1P1P1P1P/1C5C1/9/RNBAKABNR w - - 0 1";

#[test]
fn format_score_mate_and_cp() {
    let mate = EngineAnalyzeResult { mate: Some(3), ..EngineAnalyzeResult::default() };
    assert_eq!(format_score(&mate), "M3");

    let cp = EngineAnalyzeResult { score_cp: Some(45), ..EngineAnalyzeResult::default() };
    assert_eq!(format_score(&cp), "+0.45");
}

#[test]
fn apply_engine_result_keeps_global_uci() {
    let svc = AnalysisService;
    let mut snap = AnalysisSnapshot::idle();
    let result = EngineAnalyzeResult {
        best_move: "h2e2".to_string(),
        depth: Some(18),
        pv: vec!["h2e2".to_string(), "h7e7".to_string()],
        ..EngineAnalyzeResult::default()
    };
    svc.apply_engine_result(&mut snap, &result, START);
    assert_eq!(snap.best_move, "h2e2");
    assert_eq!(snap.pv, vec!["h2e2", "h7e7"]);
}

#[test]
fn score_text_signs_and_zero() {
    let neg = EngineAnalyzeResult { score_cp: Some(-7), ..EngineAnalyzeResult::default() };
    assert_eq!(format_score(&neg), "-0.07");
    let zero_cp = EngineAnalyzeResult { score_cp: Some(0), ..EngineAnalyzeResult::default() };
    assert_eq!(format_score(&zero_cp), "0.00");
    let zero = EngineAnalyzeResult::default();
    assert_eq!(format_score(&zero), "0");
    let pawns = EngineAnalyzeResult { score: 156, ..EngineAnalyzeResult::default() };
    assert_eq!(format_score(&pawns), "+1.56");
    let lost = EngineAnalyzeResult { score: -999_900, ..EngineAnalyzeResult::default() };
    assert_eq!(format_score(&lost), "-9999.00");
    let mated = EngineAnalyzeResult { mate: Some(-2), score_cp: Some(10), ..EngineAnalyzeResult::default() };
    assert_eq!(format_score(&mated), "M-2");
}

#[test]
fn score_text_of_large_centipawns() {
    let cp = |v: i64| format_score(&EngineAnalyzeResult { score_cp: Some(v), ..EngineAnalyzeResult::default() });
    assert_eq!(cp(150), "+1.50");
    assert_eq!(cp(123456789012345678), "+1234567890123456.75");
    assert_eq!(cp(i64::MAX), "+92233720368547760.00");
    assert_eq!(cp(i64::MIN), "-92233720368547760.00");
    assert_eq!(cp(-4503599627370497), "-45035996273704.97");
}

#[test]
fn time_text_units_and_rounding() {
    assert_eq!(format_time_ms(None), "--");
    assert_eq!(format_time_ms(Some(0)), "0ms");
    assert_eq!(format_time_ms(Some(999)), "999ms");
    assert_eq!(format_time_ms(Some(1000)), "1.00s");
    assert_eq!(format_time_ms(Some(1234)), "1.23s");
    assert_eq!(format_time_ms(Some(1236)), "1.24s");
    assert_eq!(format_time_ms(Some(1005)), "1.00s");
    assert_eq!(format_time_ms(Some(1015)), "1.01s");
    assert_eq!(format_time_ms(Some(1125)), "1.12s");
    assert_eq!(format_time_ms(Some(1135)), "1.14s");
    assert_eq!(format_time_ms(Some(61999)), "62.00s");
    assert_eq!(format_time_ms(Some(123456789)), "123456.79s");
    assert_eq!(format_time_ms(Some(u64::MAX)), "18446744073709552.00s");
}

#[test]
fn wdl_gives_red_and_black_shares() {
    let (red, black) = red_black_winrate_pct_from_wdl(START, Some([600, 200, 200]));
    assert_eq!(red, Some(Percent { num: 140_000, den: 2000 }));
    assert_eq!(black, Some(Percent { num: 60_000, den: 2000 }));
    assert_eq!(format_win_rate(red, black), "70.0%/30.0%");

    let black_to_move = START.replace(" w ", " b ");
    let (red, black) = red_black_winrate_pct_from_wdl(&black_to_move, Some([600, 200, 200]));
    assert_eq!(format_win_rate(red, black), "30.0%/70.0%");

    assert_eq!(red_black_winrate_pct_from_wdl(START, Some([0, 0, 0])), (None, None));
    assert_eq!(red_black_winrate_pct_from_wdl(START, None), (None, None));
    assert_eq!(format_win_rate(None, None), "--/--");

    let (red, black) = red_black_winrate_pct_from_wdl(START, Some([1, 1, 1]));
    assert_eq!(format_win_rate(red, black), "50.0%/50.0%");
    let (red, black) = red_black_winrate_pct_from_wdl(START, Some([2, 0, 1]));
    assert_eq!(format_win_rate(red, black), "66.7%/33.3%");
}

#[test]
fn engine_result_fills_whole_panel() {
    let svc = AnalysisService;
    let mut snap = AnalysisSnapshot::idle();
    let result = EngineAnalyzeResult {
        best_move: " stub_move ".to_string(),
        score_cp: Some(-120),
        depth: Some(-3),
        nps: Some(5000),
        nodes: None,
        search_time_ms: Some(2500),
        wdl: Some([100, 800, 100]),
        candidates: vec![EngineInfoCandidate {
            pv: vec!["b2e2".to_string()],
            ..EngineInfoCandidate::default()
        }],
        ..EngineAnalyzeResult::default()
    };
    svc.apply_engine_result(&mut snap, &result, START);
    assert_eq!(snap.source, "engine");
    assert_eq!(snap.depth, 0);
    assert_eq!(snap.nps, 5000);
    assert_eq!(snap.nodes, 0);
    assert_eq!(snap.time_text, "2.50s");
    assert_eq!(snap.score_text, "-1.20");
    assert_eq!(snap.best_move, "stub_move");
    assert_eq!(snap.win_rate_text, "50.0%/50.0%");
    assert_eq!(snap.pv, vec!["b2e2"]);
}

#[test]
fn engine_store_sets_arrow_only_in_query_mode() {
    let svc = AnalysisService;
    let store = EngineAnalysisStore {
        fen: START.to_string(),
        result: EngineAnalyzeResult { best_move: "h2e2".to_string(), ..EngineAnalyzeResult::default() },
        revision: 1,
    };
    let mut snap = AnalysisSnapshot::idle();
    let mut arrow = None;
    svc.apply_engine_store(&mut snap, &store, false, &mut arrow);
    assert!(arrow.is_none());
    assert_eq!(snap.best_move, "h2e2");
    svc.apply_engine_store(&mut snap, &store, true, &mut arrow);
    let a = arrow.expect("arrow");
    assert_eq!((a.from_file, a.from_rank, a.to_file, a.to_rank), (7, 7, 4, 7));
}

#[test]
fn book_response_fills_panel() {
    let svc = AnalysisService;
    let mut snap = AnalysisSnapshot::idle();
    snap.nodes = 42;
    let mut candidates = Vec::new();
    candidates.push(BookCandidate { move_uci: None, ..BookCandidate::default() });
    for i in 0..20u8 {
        let m = format!("{}0{}1", (b'a' + i % 9) as char, (b'a' + (i + 1) % 9) as char);
        candidates.push(BookCandidate { move_uci: Some(m), ..BookCandidate::default() });
    }
    let response = BookResponse {
        best_move: Some("a0b1".to_string()),
        best_winrate: Some(Ratio { num: 1250, den: 20 }),
        candidates,
        source: "xqb".to_string(),
        ..BookResponse::default()
    };
    svc.apply_book_response(&mut snap, &response);
    assert_eq!(snap.source, "xqb");
    assert_eq!(snap.best_move, "a0b1");
    assert_eq!(snap.score_text, "62.5%");
    assert_eq!(snap.win_rate_text, "62.5%/--");
    assert_eq!(snap.pv.len(), 16);
    assert_eq!(snap.pv[0], "a0b1");
    assert_eq!(snap.pv[15], "g0h1");
    assert_eq!(snap.nodes, 42);

    let empty = BookResponse { source: "cloud".to_string(), ..BookResponse::default() };
    svc.apply_book_response(&mut snap, &empty);
    assert_eq!(snap.best_move, "--");
    assert_eq!(snap.score_text, "--");
    assert_eq!(snap.win_rate_text, "--");
    assert!(snap.pv.is_empty());
}

#[test]
fn engine_best_move_only_when_board_move() {
    let ok = EngineAnalyzeResult { best_move: " h2e2\n".to_string(), ..EngineAnalyzeResult::default() };
    assert_eq!(best_uci_from_engine(&ok).as_deref(), Some("h2e2"));
    let stub = EngineAnalyzeResult { best_move: "stub_move".to_string(), ..EngineAnalyzeResult::default() };
    assert_eq!(best_uci_from_engine(&stub), None);
    let off_board = EngineAnalyzeResult { best_move: "j2e2".to_string(), ..EngineAnalyzeResult::default() };
    assert_eq!(best_uci_from_engine(&off_board), None);
}

#[test]
fn compact_k_only() {
    assert_eq!(format_count_k(7675653), "7676k");
    assert_eq!(format_count_k(5994685), "5995k");
    assert_eq!(format_count_k(500), "500");
    assert_eq!(format_count_k(1500), "1.5k");
}

#[test]
fn count_k_edges() {
    assert_eq!(format_count_k(0), "0");
    assert_eq!(format_count_k(999), "999");
    assert_eq!(format_count_k(1000), "1.0k");
    assert_eq!(format_count_k(1250), "1.2k");
    assert_eq!(format_count_k(1350), "1.4k");
    // The double nearest 1.05 lies above it, the one nearest 1.15 below it.
    assert_eq!(format_count_k(1050), "1.1k");
    assert_eq!(format_count_k(1150), "1.1k");
    assert_eq!(format_count_k(2675), "2.7k");
    assert_eq!(format_count_k(99_999), "100.0k");
    assert_eq!(format_count_k(100_000), "100k");
    assert_eq!(format_count_k(100_500), "100k");
    assert_eq!(format_count_k(101_500), "102k");
    assert_eq!(format_count_k(u64::MAX), "18446744073709552k");
}
