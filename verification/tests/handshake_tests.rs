use xiangqi_tui::engine_setup::{EngineConfigureRequest, EngineSettings};
use xiangqi_tui::handshake::{
    EngineEvent, GREETING_WAIT_MS, HANDSHAKE_FAILED, Handshake, HandshakeAction, HandshakePhase,
    READY_TIMEOUT, READY_WAIT_MS, chars_lt, eval_file, eval_file_path, eval_name,
};

fn names(list: &[&str]) -> Vec<String> {
    list.iter().map(|s| s.to_string()).collect()
}

fn sent(action: &HandshakeAction) -> (bool, Vec<String>, u64) {
    match action {
        HandshakeAction::Send { clear_output, lines, wait_ms } => (*clear_output, lines.clone(), *wait_ms),
        _ => panic!("expected a send"),
    }
}

fn line(s: &str) -> EngineEvent {
    EngineEvent::Line(s.to_string())
}

#[test]
fn handshake_auto_falls_back_to_uci_and_gets_ready() {
    let settings = EngineSettings::new(Some("/opt/eng/pikafish".to_string()));
    let (mut hs, first) = Handshake::start(&settings, Some("/opt/eng/pikafish.nnue".to_string()));
    assert_eq!(sent(&first), (false, names(&["ucci"]), GREETING_WAIT_MS));
    assert!(matches!(hs.step(line("id name Pikafish")), HandshakeAction::Wait));
    let second = hs.step(EngineEvent::TimedOut);
    assert_eq!(sent(&second), (true, names(&["uci"]), GREETING_WAIT_MS));
    match hs.step(line("uciok")) {
        HandshakeAction::Confirmed { protocol, lines, wait_ms } => {
            assert_eq!(protocol, "uci");
            assert_eq!(wait_ms, READY_WAIT_MS);
            assert_eq!(
                lines,
                names(&[
                    "setoption name Threads value 8",
                    "setoption name Hash value 512",
                    "setoption name Repetition Rule value AsianRule",
                    "setoption name Draw Rule value None",
                    "setoption name Skill Level value 20",
                    "setoption name EvalFile value /opt/eng/pikafish.nnue",
                    "isready",
                ])
            );
        }
        _ => panic!("expected the protocol to be confirmed"),
    }
    assert_eq!(hs.phase, HandshakePhase::Readying);
    assert!(matches!(hs.step(line("info string loading")), HandshakeAction::Wait));
    assert!(matches!(hs.step(line("readyok")), HandshakeAction::Ready { protocol: "uci" }));
    assert_eq!(hs.phase, HandshakePhase::Ready);
    assert!(matches!(hs.step(line("readyok")), HandshakeAction::Wait));
}

#[test]
fn handshake_only_protocol_fails_on_timeout() {
    let mut settings = EngineSettings::new(Some("eng".to_string()));
    settings.configure(EngineConfigureRequest {
        engine_path: None,
        threads: Some(0),
        hash_mb: None,
        repetition_rule: None,
        draw_rule: None,
        skill_level: None,
        engine_protocol_preference: Some(" UCI_ONLY ".to_string()),
        engine_config_path: None,
        protocol_detected_for_path: None,
        protocol_detected: None,
    });
    let (mut hs, first) = Handshake::start(&settings, None);
    assert_eq!(sent(&first), (false, names(&["uci"]), GREETING_WAIT_MS));
    match hs.step(EngineEvent::TimedOut) {
        HandshakeAction::Failed { message } => assert_eq!(message, HANDSHAKE_FAILED),
        _ => panic!("expected failure"),
    }
    assert_eq!(hs.phase, HandshakePhase::Failed);
}

#[test]
fn handshake_ucci_reply_and_missing_readyok() {
    let mut settings = EngineSettings::new(Some("eng".to_string()));
    settings.protocol_preference = "prefer_uci".to_string();
    let (mut hs, _) = Handshake::start(&settings, None);
    assert_eq!(hs.sequence, vec!["uci", "ucci"]);
    assert!(matches!(hs.step(line("ucciok")), HandshakeAction::Wait));
    assert!(matches!(hs.step(EngineEvent::TimedOut), HandshakeAction::Send { clear_output: true, .. }));
    match hs.step(line("ucciok")) {
        HandshakeAction::Confirmed { protocol, lines, .. } => {
            assert_eq!(protocol, "ucci");
            assert_eq!(lines.last().map(|s| s.as_str()), Some("isready"));
            assert_eq!(lines.len(), 6);
        }
        _ => panic!("expected the protocol to be confirmed"),
    }
    match hs.step(EngineEvent::TimedOut) {
        HandshakeAction::Failed { message } => assert_eq!(message, READY_TIMEOUT),
        _ => panic!("expected failure"),
    }
}

#[test]
fn handshake_closed_output_fails() {
    let settings = EngineSettings::new(Some("eng".to_string()));
    let (mut hs, _) = Handshake::start(&settings, None);
    match hs.step(EngineEvent::Closed) {
        HandshakeAction::Failed { message } => assert_eq!(message, HANDSHAKE_FAILED),
        _ => panic!("expected failure"),
    }
}

#[test]
fn eval_file_prefers_known_names_in_order() {
    let files = names(&["zeta.nnue", "engine.nnue", "pikafish.nnue", "readme.txt"]);
    assert_eq!(eval_file("/opt/eng", &files), Some("/opt/eng/pikafish.nnue".to_string()));
    let files = names(&["zeta.nnue", "engine.nnue", "libpikafish.nnue.so"]);
    assert_eq!(eval_file("/opt/eng/", &files), Some("/opt/eng/engine.nnue".to_string()));
    assert_eq!(eval_file("", &names(&["libpikafish.nnue.so"])), Some("libpikafish.nnue.so".to_string()));
}

#[test]
fn eval_file_falls_back_to_first_network_name() {
    let files = names(&["b.NNUE", "a.nnue.so.1", "c.nnue", ".nnue", "notes.txt"]);
    assert_eq!(eval_file(r"C:\eng", &files), Some("C:/eng/a.nnue.so.1".to_string()));
    assert_eq!(eval_file("/opt", &names(&[".nnue", "x.txt"])), None);
    assert_eq!(eval_file("/opt", &names(&[])), None);
}

#[test]
fn eval_file_skips_non_ascii_paths() {
    assert_eq!(eval_file("/引擎", &names(&["pikafish.nnue", "x.nnue"])), None);
}

#[test]
fn eval_names_and_paths() {
    assert!(eval_name("Net.NNUE"));
    assert!(eval_name("lib.nnue.so"));
    assert!(!eval_name(".nnue"));
    assert!(!eval_name("nnue"));
    assert_eq!(eval_file_path(r"d:\a\", "x.nnue"), "d:/a/x.nnue");
    assert_eq!(eval_file_path("/", "x.nnue"), "/x.nnue");
    assert!(chars_lt(&['a'], &['a', 'b']));
    assert!(!chars_lt(&['b'], &['a', 'z']));
    assert!(!chars_lt(&['a'], &['a']));
}
