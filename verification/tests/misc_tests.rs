use ghostwriter::cli::Args as EditorArgs;
use ghostwriter::entry::{dispatch, Args, Mode};
use ghostwriter::error::GhostwriterError;
use ghostwriter::keymap::{map_key_event, Command, Direction, Key, KeyInput};
use ghostwriter::proto::{Envelope, MessageType, PROTOCOL_VERSION};
use ghostwriter::security::sanitize_path;
use ghostwriter::ui::status_bar::{ConnectionStatus, LockStatus, Mode as BarMode, StatusBar};

fn key(code: Key) -> KeyInput {
    KeyInput { code, shift: false, ctrl: false, alt: false }
}

fn shifted(code: Key) -> KeyInput {
    KeyInput { code, shift: true, ctrl: false, alt: false }
}

#[test]
fn test_project_compiles() {
    assert_eq!(ghostwriter::add(2, 2), 4);
}

#[test]
fn adds_numbers() {
    assert_eq!(ghostwriter::add(2, 2), 4);
}

#[test]
fn run_returns_client() {
    assert_eq!(ghostwriter::client::run(), "client");
}

#[test]
fn run_returns_server() {
    assert_eq!(ghostwriter::server::run(), "server");
}

#[test]
fn maps_char_to_insert() {
    let ev = key(Key::Char('a'));
    assert_eq!(map_key_event(ev), Some(Command::Insert("a".to_string())));
}

#[test]
fn maps_enter_to_newline() {
    let ev = key(Key::Enter);
    assert_eq!(map_key_event(ev), Some(Command::Insert("\n".to_string())));
}

#[test]
fn maps_backspace_to_delete_prev() {
    let ev = key(Key::Backspace);
    assert_eq!(map_key_event(ev), Some(Command::DeletePrev));
}

#[test]
fn maps_left_to_move_left() {
    let ev = key(Key::Left);
    assert_eq!(map_key_event(ev), Some(Command::Move(Direction::Left)));
}

#[test]
fn maps_shift_left_to_select_left() {
    let ev = shifted(Key::Left);
    assert_eq!(map_key_event(ev), Some(Command::Select(Direction::Left)));
}

#[test]
fn ctrl_chars_have_no_command() {
    let ev = KeyInput { code: Key::Char('c'), shift: false, ctrl: true, alt: false };
    assert_eq!(map_key_event(ev), None);
}

#[test]
fn test_reject_traversal() {
    assert!(sanitize_path("../evil").is_err());
}

#[test]
fn test_reject_control_chars() {
    assert!(sanitize_path("bad\0name").is_err());
}

#[test]
fn test_accept_normal_path() {
    assert!(sanitize_path("normal.txt").is_ok());
}

#[test]
fn test_input_sanitization() {
    assert!(sanitize_path("../evil").is_err());
    assert!(sanitize_path("good.txt").is_ok());
    assert!(sanitize_path("bad\0name").is_err());
}

#[test]
fn default_is_local() {
    let args = Args { server: None, connect: None };
    assert_eq!(args.mode().unwrap(), Mode::Local);
}

#[test]
fn parses_server() {
    let args = Args { server: Some("/tmp".to_string()), connect: None };
    assert_eq!(
        args.mode().unwrap(),
        Mode::Server { root: "/tmp".to_string() }
    );
}

#[test]
fn parses_connect() {
    let args = Args { server: None, connect: Some("ws://localhost".to_string()) };
    assert_eq!(
        args.mode().unwrap(),
        Mode::Connect { url: "ws://localhost".to_string() }
    );
}

#[test]
fn rejects_conflicting_args() {
    let args = Args {
        server: Some("/tmp".to_string()),
        connect: Some("ws://localhost".to_string()),
    };
    assert!(args.mode().is_err());
}

#[test]
fn dispatches_local() {
    assert_eq!(dispatch(&Mode::Local), "client");
}

#[test]
fn dispatches_server() {
    assert_eq!(dispatch(&Mode::Server { root: "/tmp".to_string() }), "server");
}

#[test]
fn dispatches_connect() {
    assert_eq!(dispatch(&Mode::Connect { url: "ws://localhost".to_string() }), "client");
}

#[test]
fn test_parse_client_args() {
    let args = EditorArgs {
        path: None,
        server: None,
        connect: Some("ws://server:8080".to_string()),
        bind: "127.0.0.1".to_string(),
        port: 8080,
        key: Some("secret".to_string()),
    };
    assert_eq!(args.connect.as_deref(), Some("ws://server:8080"));
    assert_eq!(args.key.as_deref(), Some("secret"));
    assert!(args.validate(true, true).is_ok());
}

#[test]
fn validate_reports_missing_paths() {
    let args = EditorArgs {
        path: Some("gone.txt".to_string()),
        server: None,
        connect: None,
        bind: "127.0.0.1".to_string(),
        port: 8080,
        key: None,
    };
    assert_eq!(args.validate(false, true), Err(GhostwriterError::FileNotFound));
    let args = EditorArgs { path: None, server: Some("ws".to_string()), ..args };
    assert!(matches!(
        args.validate(true, false),
        Err(GhostwriterError::InvalidArgument(_))
    ));
}

#[test]
fn envelopes_carry_the_protocol_version() {
    let env = Envelope::new(MessageType::Ping, ());
    assert_eq!(env.v, PROTOCOL_VERSION);
    assert_eq!(env.ty, MessageType::Ping);
}

#[test]
fn status_text_lists_every_indicator() {
    let bar = StatusBar {
        file_path: "/tmp/file.txt".to_string(),
        cursor_line: 3,
        cursor_col: 7,
        lock_status: LockStatus::Locked,
        connection_status: ConnectionStatus::Online,
        dirty: true,
        mode: BarMode::Local,
    };
    assert_eq!(
        bar.status_text(),
        "/tmp/file.txt* | 3:7 \u{1F512} \u{1F7E2} local"
    );
}

#[test]
fn error_messages_match_their_variants() {
    assert_eq!(GhostwriterError::FileNotFound.message(), "file not found");
    assert_eq!(
        GhostwriterError::InvalidArgument("empty path".to_string()).message(),
        "invalid argument: empty path"
    );
}
