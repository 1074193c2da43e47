use xiangqi_tui::book::{
    BookCandidate, BookConfig, BookResponse, BookRoute, LocalBookKind, Ratio, apply_opening_book_pick_mode,
    apply_pick_at, book_route, ensure_unified_opening_book_shape, index_from_random, local_book_kind,
    pick_pool_index,
};
use xiangqi_tui::chessdb::{
    ChessdbQuery, ChessdbStage, ChessdbStep, bad_response, chessdb_select, chessdb_url, extract_number,
    parse_candidates,
};
use xiangqi_tui::book::ObkOptimizeResult;
use xiangqi_tui::obk::{
    IndexRefusal, ObkKind, ObkRow, detect_kind, index_refusal, obk_response, progress_due, progress_stride,
    winrate_from_counts,
};
use xiangqi_tui::xqb::{
    XqbRow, fen_to_key, get_rows_and_cols, mirror_move, mirror_move_allowed, nibble_move_to_uci, percent_one_decimal, xqb_response,
};

fn cand(m: &str, rank: Option<i64>, score: Option<Ratio>, winrate: Option<Ratio>) -> BookCandidate {
    BookCandidate { move_uci: Some(m.to_string()), rank, score, winrate, winrate_raw: None }
}

fn moves(c: &[BookCandidate]) -> Vec<String> {
    c.iter().map(|x| x.move_uci.clone().unwrap_or_default()).collect()
}

#[test]
fn fen_to_key_handles_partial_final_byte_without_underflow() {
    let fen = "4k4/9/9/9/9/9/9/9/9/4K4 w";
    let key = fen_to_key(fen).expect("key");
    assert!(!key.key.is_empty());
}

#[test]
fn fen_to_key_same_for_mirror_and_turned_board() {
    let b = fen_to_key("rnbakabnr/9/1c5c1/p1p1p1p1p/9/9/P1P1P1P1P/1C2C4/9/RNBAKABNR w").expect("key");
    let l = fen_to_key("rnbakabnr/9/1c5c1/p1p1p1p1p/9/9/P1P1P1P1P/4C2C1/9/RNBAKABNR w").expect("key");
    let s = fen_to_key("rnbakabnr/9/4c2c1/p1p1p1p1p/9/9/P1P1P1P1P/1C5C1/9/RNBAKABNR b").expect("key");
    assert_eq!(l.key, b.key);
    assert_eq!(s.key, b.key);
    assert!(!b.mirror_ud && !l.mirror_ud && s.mirror_ud);
    assert_ne!(l.mirror_lr, b.mirror_lr);
    assert_eq!(s.mirror_lr, b.mirror_lr);
}

#[test]
fn fen_to_key_packs_cells() {
    // Two kings on an otherwise empty board: 88 empty cells take one bit each,
    // each king five bits, 98 bits in 13 bytes.
    let key = fen_to_key("4k4/9/9/9/9/9/9/9/9/4K4 w").expect("key");
    assert_eq!(key.key.len(), 13);
    assert_eq!(key.key[0], 0b0000_1110);
    assert!(!key.mirror_ud && !key.mirror_lr);
    assert_eq!((key.rows, key.cols), (10, 9));
    let black = fen_to_key("4k4/9/9/9/9/9/9/9/9/4K4 b").expect("key");
    assert!(black.mirror_ud);
    assert_eq!(black.key, key.key);
    assert!(fen_to_key("4k4/9 w").is_some());
    assert!(fen_to_key("4z4/9/9/9/9/9/9/9/9/4K4 w").is_none());
    assert!(fen_to_key("4k4/9/9/9/9/9/9/9/9/4K4").is_none());
    assert_eq!(get_rows_and_cols("rnbakabnr/9/1c5c1/p1p1p1p1p/9/9/P1P1P1P1P/1C5C1/9/RNBAKABNR w"), (10, 9));
}

#[test]
fn xqb_moves_map_back_to_the_board() {
    assert_eq!(nibble_move_to_uci(0x7174).as_deref(), Some("b2e2"));
    assert_eq!(nibble_move_to_uci(0xA000), None);
    let turned = mirror_move(0x7174, true, false, 10, 9);
    assert_eq!(nibble_move_to_uci(turned).as_deref(), Some("h7e7"));
    assert_eq!(mirror_move(0x7174, false, false, 10, 9), 0x7174);
}

#[test]
fn xqb_rows_give_ranked_candidates() {
    let fen = "rnbakabnr/9/1c5c1/p1p1p1p1p/9/9/P1P1P1P1P/1C5C1/9/RNBAKABNR w";
    let key = fen_to_key(fen).expect("key");
    let rows = vec![
        XqbRow { mv: 0x7173, score: 8, win: 4, draw: 2, lost: 2, valid: 1 },
        XqbRow { mv: 0x7174, score: 12, win: 8, draw: 1, lost: 1, valid: 1 },
        XqbRow { mv: 0x7175, score: 99, win: 9, draw: 0, lost: 0, valid: 0 },
    ];
    let res = xqb_response(&rows, &key, Some("b2d2".to_string()));
    assert_eq!(res.source, "xqb");
    assert_eq!(moves(&res.candidates), vec!["b2e2", "b2d2"]);
    assert_eq!(res.move_uci.as_deref(), Some("b2d2"));
    assert_eq!(res.best_move.as_deref(), Some("b2e2"));
    let eval = res.move_eval.expect("expected move eval for requested move");
    assert_eq!(eval.move_uci.as_deref(), Some("b2d2"));
    assert_eq!(eval.rank, Some(2));
    assert_eq!(eval.score, Some(Ratio { num: 8, den: 1 }));
    assert_eq!(eval.winrate, Some(Ratio { num: 1000, den: 16 }));
    assert_eq!(eval.winrate_raw.as_deref(), Some("62.5%"));
    let plain = xqb_response(&rows[1..2].to_vec(), &key, None);
    assert_eq!(plain.move_uci.as_deref(), Some("b2e2"));
    assert_eq!(plain.candidates.len(), 1);
}

#[test]
fn percent_text_rounds_halves_to_even() {
    assert_eq!(percent_one_decimal(1000, 16), "62.5%");
    assert_eq!(percent_one_decimal(625, 100), "6.2%");
    assert_eq!(percent_one_decimal(635, 100), "6.4%");
    assert_eq!(percent_one_decimal(0, 1), "0.0%");
    assert_eq!(percent_one_decimal(-4, 100), "-0.0%");
    assert_eq!(percent_one_decimal(200, 3), "66.7%");
}

#[test]
fn chessdb_answers_are_read() {
    assert!(bad_response("Invalid Board"));
    assert!(bad_response("unknown"));
    assert!(bad_response("UN\u{212A}NOWN"));
    assert!(!bad_response("move:h2e2"));
    assert_eq!(
        chessdb_url("a b/c", true),
        "http://www.chessdb.cn/chessdb.php?action=queryall&board=a%20b%2Fc&showall=1&learn=0"
    );
    assert_eq!(chessdb_url("k", false), "http://www.chessdb.cn/chessdb.php?action=querybest&board=k");
    let c = parse_candidates(" move:h2e2,score:12,rank:1,winrate:55.30 | |move:b2e2,score:-5,rank:x,winrate:48.1|egtb:c3c4|x:y ");
    assert_eq!(moves(&c), vec!["h2e2", "b2e2", "c3c4"]);
    assert_eq!(c[0].rank, Some(1));
    assert_eq!(c[0].score, Some(Ratio { num: 12, den: 1 }));
    assert_eq!(c[0].winrate, Some(Ratio { num: 5530, den: 100 }));
    assert_eq!(c[0].winrate_raw.as_deref(), Some("55.30"));
    assert_eq!(c[1].rank, None);
    assert_eq!(c[1].score, Some(Ratio { num: -5, den: 1 }));
    assert_eq!(c[2].winrate, None);
    assert!(parse_candidates("").is_empty());
}

#[test]
fn chessdb_numbers() {
    let n = |s: &str| extract_number(&s.chars().collect::<Vec<char>>());
    assert_eq!(n("??"), None);
    assert_eq!(n(" NULL "), None);
    assert_eq!(n("  -3.50 "), Some(Ratio { num: -350, den: 100 }));
    assert_eq!(n("abc"), None);
    assert_eq!(n("about 12x"), Some(Ratio { num: 12, den: 1 }));
}

#[test]
fn chessdb_numbers_keep_what_fits() {
    let n = |s: &str| extract_number(&s.chars().collect::<Vec<char>>());
    let e18: u64 = 1_000_000_000_000_000_000;
    assert_eq!(n("0.1234567890123456785"), Some(Ratio { num: 123456789012345678, den: e18 }));
    assert_eq!(n("0.1234567890123456795"), Some(Ratio { num: 123456789012345680, den: e18 }));
    assert_eq!(n("-0.00000000000000000051"), Some(Ratio { num: -1, den: e18 }));
    assert_eq!(
        n("12345678901.123456789"),
        Some(Ratio { num: 1234567890112345679, den: 100_000_000 })
    );
    assert_eq!(n("99999999999999999999"), None);
}

#[test]
fn chessdb_select_ranks_by_winrate_when_not_all_ranked() {
    let c = parse_candidates("move:h2e2,rank:2,winrate:40|move:b2e2,rank:1,winrate:60|move:c3c4,winrate:50");
    let r = chessdb_select(c, "");
    assert_eq!(moves(&r.candidates), vec!["b2e2", "c3c4", "h2e2"]);
    assert_eq!(r.candidates.iter().map(|x| x.rank).collect::<Vec<_>>(), vec![Some(1), Some(2), Some(3)]);
    assert_eq!(r.best_move.as_deref(), Some("b2e2"));
    assert_eq!(r.move_uci.as_deref(), Some("b2e2"));
    assert_eq!(r.best_winrate, Some(Ratio { num: 60, den: 1 }));
    let c2 = parse_candidates("move:h2e2,rank:2,winrate:40|move:b2e2,rank:1,winrate:60");
    let r2 = chessdb_select(c2, "h2e2");
    assert_eq!(moves(&r2.candidates), vec!["b2e2", "h2e2"]);
    assert_eq!(r2.move_uci.as_deref(), Some("h2e2"));
    assert_eq!(r2.move_eval.expect("eval").rank, Some(2));
    let c3 = parse_candidates("move:b2e2,score:3|move:a0a1,score:3|move:h2e2,score:9");
    assert_eq!(moves(&chessdb_select(c3, "").candidates), vec!["h2e2", "a0a1", "b2e2"]);
    let none = chessdb_select(Vec::new(), "h2e2");
    assert_eq!(none.move_uci.as_deref(), Some("h2e2"));
    assert!(none.candidates.is_empty());
    assert_eq!(none.source, "chessdb");
}

#[test]
fn chessdb_query_steps() {
    let (mut q, url) = ChessdbQuery::start("k", None);
    assert_eq!(url, "http://www.chessdb.cn/chessdb.php?action=querybest&board=k");
    assert_eq!(q.stage, ChessdbStage::Best);
    match q.on_answer("move:h2e2,score:5\n") {
        ChessdbStep::Fetch(u) => assert_eq!(u, chessdb_url("k", true)),
        ChessdbStep::Done(_) => panic!("expected a second fetch"),
    }
    match q.on_answer("") {
        ChessdbStep::Done(r) => assert_eq!(r.best_move.as_deref(), Some("h2e2")),
        ChessdbStep::Fetch(_) => panic!("expected an answer"),
    }
    let (mut q2, url2) = ChessdbQuery::start("k", Some(" h2e2 ".to_string()));
    assert_eq!(url2, chessdb_url("k", true));
    match q2.on_answer("invalid board") {
        ChessdbStep::Done(r) => {
            assert_eq!(r.move_uci.as_deref(), Some("h2e2"));
            assert!(r.candidates.is_empty());
        }
        ChessdbStep::Fetch(_) => panic!("expected an answer"),
    }
}

#[test]
fn book_config_defaults() {
    let cfg = BookConfig::default();
    assert_eq!(cfg.local_path, "");
    assert!(cfg.local_enabled);
    assert!(!cfg.cloud_enabled);
    assert_eq!(cfg.pick_mode, "positive_random");
    assert_eq!(cfg.max_halfmoves, 999);
}

#[test]
fn move_eval_names_the_asked_move() {
    let c = vec![cand("h2e2", Some(1), None, Some(Ratio { num: 60, den: 1 })), cand("b2e2", Some(2), None, None)];
    let r = BookResponse::with_move_eval(c, Some(" b2e2xx ".to_string()), "obk");
    assert_eq!(r.move_uci.as_deref(), Some("b2e2"));
    assert_eq!(r.best_move.as_deref(), Some("h2e2"));
    assert_eq!(r.best_winrate, Some(Ratio { num: 60, den: 1 }));
    assert_eq!(r.move_eval.expect("eval").rank, Some(2));
    let shaped = ensure_unified_opening_book_shape(
        BookResponse { move_uci: Some("a0a1".to_string()), ..BookResponse::empty("x") },
        "chessdb",
    );
    assert_eq!(shaped.best_move.as_deref(), Some("a0a1"));
    assert_eq!(shaped.source, "chessdb");
}

#[test]
fn pick_mode_draws_among_positive_moves() {
    let c = vec![
        cand("h2e2", None, Some(Ratio { num: -1, den: 1 }), None),
        cand("b2e2", None, None, Some(Ratio { num: 55, den: 1 })),
    ];
    let r = BookResponse::with_move_eval(c, None, "obk");
    let picked = apply_pick_at(r, "positive_random", false, 0);
    assert_eq!(picked.move_uci.as_deref(), Some("b2e2"));
    assert_eq!(picked.best_move.as_deref(), Some("b2e2"));
    let cfg = BookConfig::default();
    let c2 = vec![cand("h2e2", None, None, Some(Ratio { num: 3, den: 4 })), cand("b2e2", None, None, None)];
    let r2 = apply_opening_book_pick_mode(BookResponse::with_move_eval(c2, None, "obk"), &cfg, false);
    assert_eq!(r2.move_uci.as_deref(), Some("h2e2"));
    let c3 = vec![cand("h2e2", None, None, None)];
    let r3 = apply_pick_at(BookResponse::with_move_eval(c3, None, "obk"), "optimal", false, 0);
    assert_eq!(r3.move_uci.as_deref(), Some("h2e2"));
    assert_eq!(index_from_random(3, 10), 1);
    assert_eq!(index_from_random(0, 5), 0);
    assert!(pick_pool_index(5) < 5);
    assert_eq!(pick_pool_index(0), 0);
}

#[test]
fn book_routes() {
    let mut cfg = BookConfig::default();
    assert_eq!(book_route(&cfg, false), BookRoute::Off);
    assert_eq!(book_route(&cfg, true), BookRoute::Cloud);
    cfg.local_path = " x.obk ".to_string();
    assert_eq!(book_route(&cfg, false), BookRoute::Local);
    assert_eq!(book_route(&cfg, true), BookRoute::LocalThenCloud);
    cfg.local_enabled = false;
    cfg.cloud_enabled = true;
    assert_eq!(book_route(&cfg, false), BookRoute::Cloud);
    assert_eq!(local_book_kind(Some("XQB")), LocalBookKind::Xqb);
    assert_eq!(local_book_kind(Some("obk")), LocalBookKind::Obk);
    assert_eq!(local_book_kind(None), LocalBookKind::Obk);
}

fn obk_row(m: Option<&str>, score: i32, win: i32, draw: i32, lost: i32) -> ObkRow {
    ObkRow { move_uci: m.map(|s| s.to_string()), score, win, draw, lost }
}

#[test]
fn obk_winrate_counts_draws_half() {
    let (r, t) = winrate_from_counts(3, 2, 5);
    assert_eq!(r, Ratio { num: 800, den: 20 });
    assert_eq!(t, "40.0%");
    let (r, t) = winrate_from_counts(0, 0, 0);
    assert_eq!(r, Ratio { num: 0, den: 1 });
    assert_eq!(t, "0%");
    let (r, t) = winrate_from_counts(2, 0, 1);
    assert_eq!(r, Ratio { num: 400, den: 6 });
    assert_eq!(t, "66.7%");
    // Odd counts from a damaged book cannot go past 100%.
    let (r, t) = winrate_from_counts(5, 0, -2);
    assert_eq!(r, Ratio { num: 100, den: 1 });
    assert_eq!(t, "100.0%");
}

#[test]
fn obk_rows_keep_best_line_per_move_and_rank() {
    let rows = vec![
        obk_row(Some("h2e2x"), 10, 1, 0, 1),
        obk_row(None, 99, 9, 0, 0),
        obk_row(Some("b0c"), 5, 1, 0, 0),
        obk_row(Some("c3c4"), 7, 3, 0, 1),
        obk_row(Some("b2e2"), 3, 1, 0, 1),
    ];
    let mirrored = vec![obk_row(Some("h2e2"), 20, 3, 0, 1), obk_row(Some("c3c4"), 1, 0, 0, 1)];
    let r = obk_response(&rows, &mirrored, None, "obk");
    let moves: Vec<_> = r.candidates.iter().map(|c| c.move_uci.clone().unwrap()).collect();
    assert_eq!(moves, vec!["h2e2", "c3c4", "b2e2"]);
    let ranks: Vec<_> = r.candidates.iter().map(|c| c.rank.unwrap()).collect();
    assert_eq!(ranks, vec![1, 2, 3]);
    assert_eq!(r.candidates[0].score, Some(Ratio { num: 20, den: 1 }));
    assert_eq!(r.candidates[0].winrate_raw.as_deref(), Some("75.0%"));
    assert_eq!(r.best_move.as_deref(), Some("h2e2"));
    assert_eq!(r.source, "obk");

    let asked = obk_response(&rows, &mirrored, Some("b2e2".to_string()), "obk");
    assert_eq!(asked.move_uci.as_deref(), Some("b2e2"));
    assert_eq!(asked.move_eval.and_then(|c| c.rank), Some(3));
}

#[test]
fn obk_answer_has_at_most_five_moves() {
    let files = ["a", "b", "c", "d", "e", "f", "g"];
    let rows: Vec<ObkRow> =
        files.iter().enumerate().map(|(i, f)| obk_row(Some(&format!("{f}0{f}1")), i as i32, 1, 0, 1)).collect();
    let r = obk_response(&rows, &Vec::new(), None, "obk");
    assert_eq!(r.candidates.len(), 5);
    // Equal win rates: the higher score first.
    assert_eq!(r.candidates[0].move_uci.as_deref(), Some("g0g1"));
    assert_eq!(r.candidates[4].move_uci.as_deref(), Some("c0c1"));
}

#[test]
fn book_kind_from_tables() {
    let names = |v: &[&str]| v.iter().map(|s| s.to_string()).collect::<Vec<String>>();
    assert_eq!(detect_kind(&names(&["meta", "bhobk"])), Some(ObkKind::Bhobk));
    assert_eq!(detect_kind(&names(&["pfBook", "bhobk"])), Some(ObkKind::Bhobk));
    assert_eq!(detect_kind(&names(&["xfen_book"])), Some(ObkKind::Unsupported));
    assert_eq!(detect_kind(&names(&["pfBook"])), Some(ObkKind::Unsupported));
    assert_eq!(detect_kind(&names(&["book"])), None);
    assert_eq!(detect_kind(&Vec::new()), None);
}

#[test]
fn mirrored_moves_map_back() {
    // Turned half a circle on a 10 by 9 board, and back again.
    let mv = (9 << 12) | (0 << 8) | (8 << 4) | 0;
    let once = mirror_move(mv, true, false, 10, 9);
    assert_eq!(once, (0 << 12) | (8 << 8) | (1 << 4) | 8);
    assert_eq!(mirror_move(once, true, false, 10, 9), mv);
    let both = mirror_move(mv, true, true, 10, 9);
    assert_eq!(mirror_move(both, true, true, 10, 9), mv);
    // Wider boards and negative moves map as the bits say.
    assert!(mirror_move_allowed(0, false, true, 10, 20));
    assert_eq!(mirror_move(0, false, true, 10, 20), (19 << 8) | 19);
    assert!(mirror_move_allowed(-1, false, true, 10, 16));
    assert_eq!(mirror_move(-1, false, true, 10, 16), -3856);
    // Off the board when turned: refused.
    assert!(!mirror_move_allowed(mv, true, false, 9, 9));
    assert!(!mirror_move_allowed(-1, true, false, 10, 16));
    assert!(mirror_move_allowed(-1, false, false, 0, 0));
}

#[test]
fn mirrored_board_gives_the_same_key() {
    let b = fen_to_key("rnbakabnr/9/1c5c1/p1p1p1p1p/9/9/P1P1P1P1P/1C2C4/9/RNBAKABNR w").expect("key");
    let l = fen_to_key("rnbakabnr/9/1c5c1/p1p1p1p1p/9/9/P1P1P1P1P/4C2C1/9/RNBAKABNR w").expect("key");
    assert_eq!(b.key, l.key);
    assert_ne!(b.mirror_lr, l.mirror_lr);
}

#[test]
fn key_index_refusals_come_in_order() {
    assert_eq!(index_refusal(false, Some(ObkKind::Bhobk), true), Some(IndexRefusal::BookNotFound));
    assert_eq!(index_refusal(true, None, true), Some(IndexRefusal::UnsupportedSchema));
    assert_eq!(index_refusal(true, Some(ObkKind::Unsupported), true), Some(IndexRefusal::UnsupportedBookKind));
    assert_eq!(index_refusal(true, Some(ObkKind::Bhobk), true), Some(IndexRefusal::IdxAlreadyExists));
    assert_eq!(index_refusal(true, Some(ObkKind::Bhobk), false), None);
    assert_eq!(IndexRefusal::IdxAlreadyExists.code(), "idx_already_exists");
    assert_eq!(IndexRefusal::BookNotFound.code(), "book_not_found");
    assert_eq!(IndexRefusal::UnsupportedBookKind.code(), "unsupported_book_kind");
    assert_eq!(IndexRefusal::UnsupportedSchema.code(), "unsupported_sqlite_schema");
}

#[test]
fn key_index_progress_and_counts() {
    assert_eq!(progress_stride(0), 10000);
    assert_eq!(progress_stride(1_000_000), 10000);
    assert_eq!(progress_stride(4_000_000), 20000);
    assert!(progress_due(7, 7, 10000));
    assert!(progress_due(20000, 50000, 10000));
    assert!(!progress_due(20001, 50000, 10000));
    let mut r = ObkOptimizeResult::new("book.obk.idx".to_string());
    r.count_row(true);
    r.count_row(false);
    r.count_row(true);
    assert_eq!((r.indexed_rows, r.skipped_rows), (2, 1));
    assert_eq!(r.idx_path, "book.obk.idx");
}
