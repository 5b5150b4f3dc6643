use playground_ui::error::UiError;
use playground_ui::messages::UiPacketType;
use playground_ui::terminal::connection::{
    state_from_message, PacketKind, TerminalConnection, TerminalManager as ConnectionManager, TerminalState,
};
use playground_ui::terminal::emulator::Terminal as Emulator;
use playground_ui::terminal::manager::TerminalManager;
use playground_ui::terminal::terminal::Terminal;
use playground_ui::terminal::websocket::{forwarded_text, AnsiColor, AnsiParser, TerminalMessage, TerminalOutput, TerminalStyle};
use playground_ui::messages::TerminalStateMessage;

fn text_of(o: &TerminalOutput) -> Option<String> {
    match o {
        TerminalOutput::Text(s) => Some(s.clone()),
        _ => None,
    }
}

#[test]
fn plain_text_passes_through_parser() {
    let mut p = AnsiParser::new();
    let out = p.parse("hello world");
    assert_eq!(out.len(), 1);
    assert_eq!(text_of(&out[0]).as_deref(), Some("hello world"));
    // Carriage returns are dropped.
    let out = p.parse("a\rb");
    assert_eq!(out.len(), 1);
    assert_eq!(text_of(&out[0]).as_deref(), Some("ab"));
    assert!(p.parse("").is_empty());
}

#[test]
fn newline_ends_a_text_chunk() {
    let mut p = AnsiParser::new();
    let out = p.parse("one\ntwo");
    assert_eq!(out.len(), 2);
    assert_eq!(text_of(&out[0]).as_deref(), Some("one\n"));
    assert_eq!(text_of(&out[1]).as_deref(), Some("two"));
}

#[test]
fn sgr_sequences_become_styles() {
    let mut p = AnsiParser::new();
    let out = p.parse("\x1b[1;31mred\x1b[0m");
    assert_eq!(out.len(), 3);
    match &out[0] {
        TerminalOutput::Style(s) => {
            assert!(s.bold);
            assert_eq!(s.fg_color, Some(AnsiColor::Red));
            assert_eq!(s.bg_color, None);
        },
        other => panic!("expected a style, got {:?}", other),
    }
    assert_eq!(text_of(&out[1]).as_deref(), Some("red"));
    match &out[2] {
        TerminalOutput::Style(s) => assert_eq!(*s, TerminalStyle::default()),
        other => panic!("expected a style, got {:?}", other),
    }
}

#[test]
fn bright_and_background_colors() {
    let mut p = AnsiParser::new();
    let out = p.parse("\x1b[92;44;3;4m");
    match &out[0] {
        TerminalOutput::Style(s) => {
            assert_eq!(s.fg_color, Some(AnsiColor::BrightGreen));
            assert_eq!(s.bg_color, Some(AnsiColor::Blue));
            assert!(s.italic && s.underline && !s.bold);
        },
        other => panic!("expected a style, got {:?}", other),
    }
}

#[test]
fn other_escape_sequences() {
    let mut p = AnsiParser::new();
    let out = p.parse("\x1b[2J\x1b[K\x1b[10;5H\x1b[5~");
    assert_eq!(out.len(), 4);
    assert!(matches!(out[0], TerminalOutput::ClearScreen));
    assert!(matches!(out[1], TerminalOutput::ClearLine));
    assert!(matches!(out[2], TerminalOutput::CursorPosition(0, 0)));
    match &out[3] {
        TerminalOutput::Unknown(s) => assert_eq!(s, "\x1b[5~"),
        other => panic!("expected unknown, got {:?}", other),
    }
}

#[test]
fn escape_split_across_calls() {
    let mut p = AnsiParser::new();
    let out = p.parse("ab\x1b[3");
    assert_eq!(out.len(), 1);
    assert_eq!(text_of(&out[0]).as_deref(), Some("ab"));
    let out = p.parse("2mz");
    assert_eq!(out.len(), 2);
    match &out[0] {
        TerminalOutput::Style(s) => assert_eq!(s.fg_color, Some(AnsiColor::Green)),
        other => panic!("expected a style, got {:?}", other),
    }
    assert_eq!(text_of(&out[1]).as_deref(), Some("z"));
}

#[test]
fn color_codes() {
    assert_eq!(AnsiColor::from_code(0), AnsiColor::Black);
    assert_eq!(AnsiColor::from_code(15), AnsiColor::BrightWhite);
    assert_eq!(AnsiColor::from_code(99), AnsiColor::White);
}

#[test]
fn emulator_writes_lines() {
    let mut t = Emulator::new(7);
    t.write("hello\nworld".to_string());
    assert_eq!(t.read(), vec!["hello".to_string(), "world".to_string()]);
    t.write("\tx".to_string());
    assert_eq!(t.read()[1], "world   x");
}

#[test]
fn emulator_carriage_return_inserts_at_start() {
    let mut t = Emulator::new(1);
    t.write("abc\rX".to_string());
    assert_eq!(t.read(), vec!["Xabc".to_string()]);
}

#[test]
fn emulator_keeps_a_bounded_scrollback() {
    let mut t = Emulator::new(1);
    let many: String = "\n".repeat(1500);
    t.write(many);
    assert_eq!(t.read().len(), 1000);
}

#[test]
fn manager_routes_by_id() {
    let mut m = TerminalManager::new();
    assert!(matches!(m.read_from_terminal(3), Err(UiError::TerminalError(_))));
    m.create_terminal(3).unwrap();
    m.write_to_terminal(3, "ls".to_string()).unwrap();
    assert_eq!(m.read_from_terminal(3).unwrap(), vec!["ls".to_string()]);
    assert!(matches!(m.write_to_terminal(4, "x".to_string()), Err(UiError::TerminalError(_))));
    m.destroy_terminal(3).unwrap();
    assert!(m.read_from_terminal(3).is_err());
}

#[test]
fn missing_terminal_is_named_by_its_uuid() {
    let m = TerminalManager::new();
    match m.read_from_terminal(0xa1a2a3a4b1b2c1c2d1d2d3d4d5d6d7d8) {
        Err(UiError::TerminalError(msg)) => assert_eq!(msg, "Terminal a1a2a3a4-b1b2-c1c2-d1d2-d3d4d5d6d7d8 not found"),
        _ => panic!("expected a missing terminal"),
    }
}

#[test]
fn terminal_element_commands() {
    let mut t = Terminal::new();
    assert_eq!(t.execute_command("ls".to_string()), None);
    t.record_connection();
    assert_eq!(t.execute_command("pwd".to_string()).as_deref(), Some("pwd\n"));
}

#[test]
fn connection_input_needs_a_connection() {
    let mut c = TerminalConnection::new();
    assert_eq!(c.get_state(), TerminalState::Disconnected);
    match c.send_input("ls".to_string()) {
        Err(UiError::TerminalError(m)) => assert_eq!(m, "Terminal not connected"),
        _ => panic!("input must be refused while disconnected"),
    }
    let msg = c.begin_connect(Some("/bin/sh".to_string()), None);
    assert_eq!(msg.terminal_id, c.id());
    assert_eq!(c.get_state(), TerminalState::Connecting);
    assert!(c.send_input("ls".to_string()).is_err());
    c.finish_connect();
    let input = c.send_input("ls".to_string()).unwrap();
    assert_eq!(input.input, "ls");
    assert_eq!(input.terminal_id, c.id());
    let st = c.disconnect();
    assert!(!st.connected && !st.ready);
    assert!(c.send_input("ls".to_string()).is_err());
}

#[test]
fn state_from_flags() {
    assert_eq!(state_from_message(true, true), TerminalState::Ready);
    assert_eq!(state_from_message(true, false), TerminalState::Connected);
    assert_eq!(state_from_message(false, true), TerminalState::Disconnected);
}

#[test]
fn connection_manager_tracks_terminals() {
    let mut m = ConnectionManager::new();
    let a = m.create_terminal();
    let b = m.create_terminal();
    assert_eq!(m.get_terminal(a.id()).map(|c| c.id()), Some(a.id()));
    assert!(m.apply_state_message(TerminalStateMessage { terminal_id: b.id(), connected: true, ready: true }));
    assert_eq!(m.get_terminal(b.id()).unwrap().get_state(), TerminalState::Ready);
    assert!(!m.apply_state_message(TerminalStateMessage { terminal_id: 12345, connected: true, ready: false }));
    m.remove_terminal(a.id());
    assert!(m.get_terminal(a.id()).is_none());
    assert!(m.get_terminal(b.id()).is_some());
}

#[test]
fn packet_classification() {
    assert_eq!(ConnectionManager::classify_packet(201).unwrap(), PacketKind::Output);
    assert_eq!(ConnectionManager::classify_packet(204).unwrap(), PacketKind::State);
    assert_eq!(ConnectionManager::classify_packet(UiPacketType::CreateElement.as_u16()).unwrap(), PacketKind::Other);
    match ConnectionManager::classify_packet(7) {
        Err(UiError::InvalidOperation(m)) => assert_eq!(m, "Invalid packet type: 7"),
        _ => panic!("7 is not a packet type"),
    }
}

#[test]
fn incoming_frames_forwarded() {
    assert_eq!(forwarded_text(Some(TerminalMessage::Output("out".to_string())), "raw".to_string()).as_deref(), Some("out"));
    assert_eq!(forwarded_text(Some(TerminalMessage::Heartbeat), "raw".to_string()), None);
    assert_eq!(forwarded_text(None, "plain text".to_string()).as_deref(), Some("plain text"));
}

#[test]
fn escape_split_across_calls_parses_as_whole() {
    let mut whole = AnsiParser::new();
    let all: Vec<String> = whole.parse("ab\x1b[1;31mred").iter().map(|o| format!("{:?}", o)).collect();
    let mut split = AnsiParser::new();
    let mut parts: Vec<String> = split.parse("ab\x1b[1;3").iter().map(|o| format!("{:?}", o)).collect();
    parts.extend(split.parse("1mred").iter().map(|o| format!("{:?}", o)));
    assert_eq!(parts, all);
    assert_eq!(all.len(), 3);
}

#[test]
fn sgr_codes_parse_as_u8() {
    let mut p = AnsiParser::new();
    match &p.parse("\x1b[+31m")[0] {
        TerminalOutput::Style(s) => assert_eq!(s.fg_color, Some(AnsiColor::Red)),
        other => panic!("expected a style, got {:?}", other),
    }
    match &p.parse("\x1b[1;287m")[0] {
        TerminalOutput::Style(s) => {
            assert!(s.bold);
            assert_eq!(s.fg_color, None);
        },
        other => panic!("expected a style, got {:?}", other),
    }
}

#[test]
fn parser_text_is_input_without_escapes_and_returns() {
    let mut p = AnsiParser::new();
    let out = p.parse("a\x1b[1mb\rc\nd\x1b[2J");
    let joined: String = out.iter().filter_map(text_of).collect();
    assert_eq!(joined, "abc\nd");
    assert!(out.iter().filter_map(text_of).all(|t| !t.is_empty()));
}
