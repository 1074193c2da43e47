use xiangqi_tui::command::{CommandParseError, CommandService, ParsedCommand, SlashCommand};
use xiangqi_tui::book::BookConfig;
use xiangqi_tui::config::{config_body, parse_key, set_line};
use xiangqi_tui::history::MoveHistory;
use xiangqi_tui::input::InputState;
use xiangqi_tui::rules::try_apply_fully_legal_uci;
use xiangqi_tui::settings::{
    EngineConfig, EngineProtocol, SettingsField, adjust_setting, cycle_pick_mode, display_or_placeholder,
    field_value, label_column_width,
    pad_label, pick_mode_label, yes_no,
};
use xiangqi_tui::xiangqi::STARTPOS_FEN;

#[test]
fn cycle_pick_mode_roundtrip() {
    assert_eq!(cycle_pick_mode("optimal", 1), "positive_random");
    assert_eq!(cycle_pick_mode("positive_random", 1), "optimal");
}

#[test]
fn undo_truncates_tail() {
    let mut h = MoveHistory::new_game();
    let next = try_apply_fully_legal_uci(h.current_fen(), "h2e2").expect("move");
    h.push_move(next, "h2e2".to_string(), vec!["h2e2".to_string()]);
    assert!(h.undo());
    assert_eq!(h.current_fen(), STARTPOS_FEN);
    assert!(h.at_head());
    assert_eq!(h.position_count(), 1);
}

#[test]
fn prev_next_browse_without_truncating() {
    let mut h = MoveHistory::new_game();
    let fen2 = try_apply_fully_legal_uci(h.current_fen(), "h2e2").expect("move");
    h.push_move(fen2.clone(), "h2e2".to_string(), vec![]);
    let fen3 = try_apply_fully_legal_uci(h.current_fen(), "h9g7").expect("move");
    h.push_move(fen3, "h9g7".to_string(), vec![]);
    assert!(h.go_prev());
    assert_eq!(h.last_move_uci_at_view(), Some("h2e2"));
    assert!(h.go_next());
    assert!(h.at_head());
    assert_eq!(h.position_count(), 3);
}

#[test]
fn last_move_follows_view_index() {
    let mut h = MoveHistory::new_game();
    let fen2 = try_apply_fully_legal_uci(h.current_fen(), "h2e2").expect("move");
    h.push_move(fen2, "h2e2".to_string(), vec!["h2e2".to_string(), "h7e7".to_string()]);
    assert_eq!(h.last_move_uci_at_view(), Some("h2e2"));
    assert!(h.pv_at_view().is_empty());
    assert!(h.go_prev());
    assert_eq!(h.last_move_uci_at_view(), None);
    assert_eq!(h.pv_at_view(), &["h2e2", "h7e7"][..]);
}

#[test]
fn pv_saved_when_leaving_position() {
    let mut h = MoveHistory::new_game();
    let pv = vec!["h2e2".to_string(), "h7e7".to_string()];
    let fen2 = try_apply_fully_legal_uci(h.current_fen(), "h2e2").expect("move");
    h.push_move(fen2, "h2e2".to_string(), pv);
    assert!(h.pv_at_view().is_empty());
    assert!(h.go_prev());
    assert_eq!(h.pv_at_view(), &["h2e2", "h7e7"][..]);
}

#[test]
fn history_moves_into_the_new_position() {
    let mut h = MoveHistory::new_game();
    let next = try_apply_fully_legal_uci(h.current_fen(), "h2e2").expect("move");
    assert_eq!(next, "rnbakabnr/9/1c5c1/p1p1p1p1p/9/9/P1P1P1P1P/1C2C4/9/RNBAKABNR b - - 0 1");
    h.push_move(next.clone(), "h2e2".to_string(), vec![]);
    assert_eq!(h.current_fen(), next);
    assert_eq!(h.halfmove_count(), 1);
    assert!(!h.can_go_next());
    assert!(h.can_go_prev());
}

#[test]
fn slash_menu_lists_all_matching() {
    let mut input = InputState::default();
    input.set_text("/");
    assert_eq!(input.suggestions().len(), SlashCommand::all().len());
}

#[test]
fn apply_slash_pick_fills_buffer() {
    let mut input = InputState::default();
    input.set_text("/n");
    input.move_slash_pick(0);
    input.apply_slash_pick_to_buffer();
    assert_eq!(input.text(), "/new");
}

#[test]
fn slash_pick_moves_with_filter() {
    let mut input = InputState::default();
    input.set_text("/n");
    let n = input.suggestions().len();
    assert!(n >= 2);
    input.move_slash_pick(1);
    assert_eq!(input.slash_pick_index(), 1);
}

#[test]
fn cursor_insert_and_backspace_work() {
    let mut input = InputState::default();
    input.insert_char('a');
    input.insert_char('c');
    input.move_left();
    input.insert_char('b');
    assert_eq!(input.text(), "abc");
    input.backspace();
    assert_eq!(input.text(), "ac");
}

#[test]
fn try_slash_complete_fills_buffer() {
    let mut input = InputState::default();
    input.set_text("/n");
    assert!(input.try_slash_complete());
    assert_eq!(input.text(), "/new");
}

#[test]
fn command_history_recall() {
    let mut input = InputState::default();
    input.commit_command_history("h2e2");
    input.commit_command_history("undo");
    assert!(input.history_prev());
    assert_eq!(input.text(), "undo");
    assert!(input.history_prev());
    assert_eq!(input.text(), "h2e2");
    assert!(input.history_next());
    assert_eq!(input.text(), "undo");
    assert!(input.history_next());
    assert!(input.text().is_empty());
}

#[test]
fn edit_while_browsing_does_not_truncate_history() {
    let mut input = InputState::default();
    input.commit_command_history("h2e2");
    input.commit_command_history("undo");
    assert!(input.history_prev());
    input.insert_char('x');
    assert!(input.history_prev());
    assert_eq!(input.text(), "h2e2");
    assert!(input.history_next());
    assert_eq!(input.text(), "undo");
    assert_eq!(input.command_history().len(), 2);
}

#[test]
fn draft_restored_when_returning_to_latest_without_enter() {
    let mut input = InputState::default();
    input.commit_command_history("h2e2");
    input.set_text("h9g7");
    assert!(input.history_prev());
    assert_eq!(input.text(), "h2e2");
    assert!(input.history_next());
    assert_eq!(input.text(), "h9g7");
}

#[test]
fn browse_edit_not_committed_until_enter() {
    let mut input = InputState::default();
    input.commit_command_history("undo");
    assert!(input.history_prev());
    input.set_text("h2e2");
    input.commit_command_history("h2e2");
    assert_eq!(input.command_history(), &["undo", "h2e2"][..]);
}

#[test]
fn cursor_counts_bytes_of_wide_characters() {
    let mut input = InputState::default();
    input.insert_char('中');
    input.insert_char('a');
    assert_eq!(input.cursor(), 4);
    input.move_home();
    assert_eq!(input.cursor(), 0);
    input.delete();
    assert_eq!(input.text(), "a");
}

#[test]
fn parse_coordinate_move_ok() {
    let parsed = CommandService.parse("h2e2").expect("coordinate move should parse");
    match parsed {
        ParsedCommand::Move(mv) => {
            assert_eq!(mv.from_file, 7);
            assert_eq!(mv.from_rank, 2);
            assert_eq!(mv.to_file, 4);
            assert_eq!(mv.to_rank, 2);
        }
        ParsedCommand::Slash(_) => panic!("expected move"),
    }
}

#[test]
fn parse_slash_ok() {
    let parsed = CommandService.parse("/quit").expect("slash command");
    assert_eq!(parsed, ParsedCommand::Slash(SlashCommand::Quit));
}

#[test]
fn parse_invalid_move_fails() {
    let err = CommandService.parse("a0j0").expect_err("invalid move");
    assert_eq!(err, CommandParseError::InvalidMove("a0j0".to_string()));
}

#[test]
fn parse_reports_each_error() {
    assert_eq!(CommandService.parse("   "), Err(CommandParseError::Empty));
    assert_eq!(
        CommandService.parse(" /Nope "),
        Err(CommandParseError::UnknownSlash("/nope".to_string()))
    );
    assert_eq!(CommandParseError::Empty.message(), "输入为空。");
    assert_eq!(CommandService.parse("/NEW"), Ok(ParsedCommand::Slash(SlashCommand::New)));
}

#[test]
fn parse_and_set_roundtrip() {
    let mut lines = vec!["book_path=abc".to_string()];
    set_line(&mut lines, "engine_path", r"C:\eng.exe");
    let text = lines.join("\n");
    assert_eq!(parse_key(&text, "engine_path").as_deref(), Some(r"C:\eng.exe"));
}

#[test]
fn settings_rows_show_values() {
    let engine = EngineConfig::default();
    let book = BookConfig::default();
    assert_eq!(field_value(SettingsField::EnginePath, &engine, &book), "<未设置>");
    assert_eq!(field_value(SettingsField::EngineProtocol, &engine, &book), "UCI");
    assert_eq!(field_value(SettingsField::EngineThreads, &engine, &book), "4");
    assert_eq!(field_value(SettingsField::EngineHashMb, &engine, &book), "512");
    assert_eq!(field_value(SettingsField::EngineSkill, &engine, &book), "20");
    assert_eq!(field_value(SettingsField::EngineMultiPv, &engine, &book), "1");
    assert_eq!(field_value(SettingsField::BookLocalEnabled, &engine, &book), "是");
    assert_eq!(field_value(SettingsField::BookCloudEnabled, &engine, &book), "否");
    assert_eq!(field_value(SettingsField::BookMaxHalfmoves, &engine, &book), "999");
    assert_eq!(field_value(SettingsField::BookPickMode, &engine, &book), pick_mode_label("positive_random"));
    let engine = EngineConfig { path: "/opt/pikafish".to_string(), ..EngineConfig::default() };
    assert_eq!(field_value(SettingsField::EnginePath, &engine, &book), "/opt/pikafish");
    assert_eq!(display_or_placeholder(""), "<未设置>");
    assert_eq!(yes_no(true), "是");
}

#[test]
fn labels_are_padded_to_one_column() {
    let w = label_column_width();
    assert!(w >= 8);
    for field in SettingsField::all() {
        let padded = pad_label(field.label(), w);
        assert_eq!(unicode_width::UnicodeWidthStr::width(padded.as_str()), w);
    }
    assert_eq!(pad_label("ab", 4), "ab  ");
    assert_eq!(pad_label("引擎", 3), "引擎");
}

#[test]
fn stored_value_reads_back() {
    let mut lines = vec!["engine_path=old".to_string(), "book_path=abc".to_string()];
    set_line(&mut lines, "engine_path", "/usr/bin/eng");
    set_line(&mut lines, "threads", "8");
    assert_eq!(lines, vec!["engine_path=/usr/bin/eng", "book_path=abc", "threads=8"]);
    let body = config_body(&lines);
    assert_eq!(parse_key(&body, "engine_path").as_deref(), Some("/usr/bin/eng"));
    assert_eq!(parse_key(&body, "threads").as_deref(), Some("8"));
    assert_eq!(parse_key(&body, "book_path").as_deref(), Some("abc"));
    assert_eq!(parse_key(&body, "missing"), None);
}

#[test]
fn settings_steps_stay_in_range() {
    let mut engine = EngineConfig::default();
    let mut book = BookConfig::default();
    adjust_setting(SettingsField::EngineSkill, &mut engine, &mut book, 1);
    assert_eq!(engine.skill_level, 20);
    adjust_setting(SettingsField::EngineSkill, &mut engine, &mut book, -1);
    assert_eq!(engine.skill_level, 19);
    adjust_setting(SettingsField::EngineMultiPv, &mut engine, &mut book, -1);
    assert_eq!(engine.multi_pv, 1);
    adjust_setting(SettingsField::EngineMultiPv, &mut engine, &mut book, 9);
    assert_eq!(engine.multi_pv, 5);
    adjust_setting(SettingsField::EngineThreads, &mut engine, &mut book, 100);
    assert_eq!(engine.threads, 64);
    adjust_setting(SettingsField::EngineHashMb, &mut engine, &mut book, 1);
    assert_eq!(engine.hash_mb, 1024);
    adjust_setting(SettingsField::BookMaxHalfmoves, &mut engine, &mut book, 1);
    assert_eq!(book.max_halfmoves, 999);
    adjust_setting(SettingsField::BookMaxHalfmoves, &mut engine, &mut book, -1);
    assert_eq!(book.max_halfmoves, 989);
    adjust_setting(SettingsField::BookCloudEnabled, &mut engine, &mut book, 1);
    assert!(book.cloud_enabled);
    adjust_setting(SettingsField::BookPickMode, &mut engine, &mut book, 1);
    assert_eq!(book.pick_mode, "optimal");
    adjust_setting(SettingsField::EngineProtocol, &mut engine, &mut book, 1);
    assert_eq!(engine.protocol, EngineProtocol::Ucci);
    adjust_setting(SettingsField::EnginePath, &mut engine, &mut book, 1);
    assert_eq!(engine.path, "");
    assert_eq!(engine.threads, 64);
}

#[test]
fn readme_commands_parse() {
    let fen = "rnbakabnr/9/1c5c1/p1p1p1p1p/9/9/P1P1P1P1P/1C5C1/9/RNBAKABNR w - - 0 1";
    assert_eq!(CommandService.parse("/stop"), Ok(ParsedCommand::Slash(SlashCommand::Stop)));
    assert_eq!(CommandService.parse("/help"), Ok(ParsedCommand::Slash(SlashCommand::Help)));
    assert_eq!(CommandService.parse(&format!("/pastefen {fen}")), Ok(ParsedCommand::Slash(SlashCommand::PasteFen)));
    assert_eq!(CommandService.parse("/pastefen"), Ok(ParsedCommand::Slash(SlashCommand::PasteFen)));
    assert!(matches!(CommandService.parse("/pastefenx"), Err(CommandParseError::UnknownSlash(_))));
    assert!(matches!(CommandService.parse("/stop now"), Err(CommandParseError::UnknownSlash(_))));
}
