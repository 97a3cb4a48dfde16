use bdo_discord_rpc::log_tail::{apply_message, apply_record, apply_record_at, extract, server_key, GameState, LogEntry, LogTail};
use bdo_discord_rpc::phase::Phase;
use bdo_discord_rpc::win::{log_line, Level, MESSAGE_AT};

fn utf16(text: &str) -> Vec<u8> {
    let mut out = Vec::new();
    for unit in text.encode_utf16() {
        out.extend_from_slice(&unit.to_le_bytes());
    }
    out
}

#[test]
fn extract_reads_a_quoted_value() {
    let record = r#"{"Date":"2024-01-02 03:04:05","Log":"Active Processor (eProcessor_Play)"}"#;
    assert_eq!(extract(record, "Log").as_deref(), Some("Active Processor (eProcessor_Play)"));
    assert_eq!(extract(record, "Date").as_deref(), Some("2024-01-02 03:04:05"));
    assert_eq!(extract(record, "Missing"), None);
}

#[test]
fn extract_undoes_escapes_and_refuses_open_values() {
    assert_eq!(extract(r#"{"Log":"a\nb\"c\\d\te"}"#, "Log").as_deref(), Some("a\nb\"c\\d\te"));
    assert_eq!(extract(r#"{"Log":"never closed"#, "Log"), None);
    assert_eq!(extract(r#"{"Log":"ends in \"#, "Log"), None);
}

#[test]
fn server_key_drops_the_last_two_labels() {
    assert_eq!(server_key("gs1.asia.pearlabyss.com"), "gs1.asia");
    assert_eq!(server_key("a.b.c"), "a");
    assert_eq!(server_key("pearlabyss.com"), "pearlabyss.com");
    assert_eq!(server_key("localhost"), "localhost");
}

#[test]
fn messages_move_the_phase_and_name_the_server() {
    let mut state = GameState::new();
    apply_message(&mut state, "Active Processor (eProcessor_Lobby)", 100);
    assert_eq!(state.phase, Some(Phase::Lobby));
    assert_eq!(state.phase_since, Some(100));
    assert_eq!(state.session_start, Some(100));

    apply_message(&mut state, "Active Processor (eProcessor_Lobby)", 200);
    assert_eq!(state.phase_since, Some(100));

    apply_message(&mut state, "Active Processor (eProcessor_Unheard)", 250);
    assert_eq!(state.phase, Some(Phase::Lobby));

    apply_message(&mut state, "Active Processor (eProcessor_CaptureFace)", 260);
    assert_eq!(state.phase, Some(Phase::CharacterCreate));
    assert_eq!(state.phase_since, Some(260));
    assert_eq!(state.session_start, Some(100));

    apply_message(&mut state, "Net: I will connect to 4-server type(gs2.sea.pearlabyss.com:8888)", 300);
    assert_eq!(state.game_server.as_deref(), Some("gs2.sea"));

    apply_message(&mut state, "I will connect to 4-server type():1", 310);
    assert_eq!(state.game_server.as_deref(), Some("gs2.sea"));
}

#[test]
fn records_without_a_message_change_nothing() {
    let mut state = GameState::new();
    apply_record(r#"{"Date":"2024-01-02 03:04:05"}"#, &mut state);
    assert_eq!(state.session_start, None);
    assert_eq!(state.phase, None);
}

#[test]
fn a_dated_record_starts_the_session() {
    let mut state = GameState::new();
    apply_record(r#"{"Date":"2024-01-02 03:04:05","Log":"Active Processor (eProcessor_Play)"}"#, &mut state);
    assert_eq!(state.phase, Some(Phase::Play));
    assert!(state.session_start.is_some());
    assert_eq!(state.phase_since, state.session_start);
}

fn entry(name: &str, modified: i128) -> LogEntry {
    LogEntry { name: Some(name.to_string()), path: format!("Log/{name}"), modified }
}

#[test]
fn the_newest_client_log_is_followed() {
    let mut tail = LogTail::new("C:/Game", None);
    assert!(tail.log_dir().ends_with("Log"));
    assert!(tail.log_dir().len() > "Log".len());
    let listing = vec![
        entry("Client_1.json", 10),
        entry("Other.json", 99),
        entry("Client_2.json", 30),
        entry("Client_3.txt", 50),
        LogEntry { name: None, path: "Log/odd".to_string(), modified: 70 },
    ];
    assert!(tail.scan_due(0));
    tail.select_newest(0, Some(&listing));
    assert_eq!(tail.file_name().as_deref(), Some("Client_2.json"));
    assert_eq!(tail.current_path().as_deref(), Some("Log/Client_2.json"));
    assert!(!tail.scan_due(1));
    assert!(tail.scan_due(10_000_000_000));
}

#[test]
fn files_from_before_the_game_started_are_ignored() {
    let mut tail = LogTail::new("C:/Game", Some(40));
    let listing = vec![entry("Client_1.json", 10), entry("Client_2.json", 30)];
    tail.select_newest(0, Some(&listing));
    assert_eq!(tail.file_name(), None);
}

#[test]
fn fed_lines_are_applied_across_chunks() {
    let mut tail = LogTail::new("C:/Game", None);
    let mut state = GameState::new();
    assert!(tail.sync_size(10));
    let text = "{\"Log\":\"Active Processor (eProcessor_Login)\"}\r\n{\"Log\":\"Active Processor (eProcessor_Play)\"}\n";
    let bytes = utf16(text);
    let split = 61;
    tail.feed(&bytes[..split], &mut state);
    assert_eq!(tail.offset(), split as u64);
    tail.feed(&bytes[split..], &mut state);
    assert_eq!(tail.offset(), bytes.len() as u64);
    assert_eq!(state.phase, Some(Phase::Play));
    assert!(state.session_start.is_some());
}

#[test]
fn a_shorter_file_is_read_again_from_its_start() {
    let mut tail = LogTail::new("C:/Game", None);
    let mut state = GameState::new();
    tail.feed(&utf16("{\"Log\":\"x\"}\n"), &mut state);
    assert!(tail.offset() > 0);
    assert!(tail.sync_size(2));
    assert_eq!(tail.offset(), 0);
    assert!(!tail.sync_size(0));
}

#[test]
fn log_lines_carry_their_level() {
    assert_eq!(Level::of("2024-01-02 03:04:05 WARN  Profile: gone"), Some(Level::Warn));
    assert_eq!(Level::of("2024-01-02 03:04:05 INFO  Started"), Some(Level::Info));
    assert_eq!(Level::of("2024-01-02 03:04:05 ERROR Tray: no"), Some(Level::Error));
    assert_eq!(Level::of("2024-01-02 03:04:05 DEBUG x"), None);
    assert_eq!(Level::of("short"), None);
    assert_eq!(Level::Warn.tag(), "WARN ");
}

#[test]
fn written_lines_read_back_their_level() {
    for level in [Level::Info, Level::Warn, Level::Error] {
        let written = log_line("2024-01-02 03:04:05", level, "Tray: stopped");
        assert_eq!(Level::of(&written), Some(level));
        assert_eq!(&written[MESSAGE_AT..], "Tray: stopped");
    }
    assert_eq!(log_line("2024-01-02 03:04:05", Level::Warn, "x"), "2024-01-02 03:04:05 WARN  x");
}

#[test]
fn the_log_folder_is_the_game_folder_and_log() {
    let tail = LogTail::new("C:/Game", None);
    let dir = tail.log_dir();
    assert!(dir == "C:/Game/Log" || dir == "C:/Game\\Log");
    assert_eq!(LogTail::new("C:/Game/", None).log_dir(), "C:/Game/Log");
    assert_eq!(LogTail::new("", None).log_dir(), "Log");
}

fn fed_in(bytes: &[u8], splits: &[usize]) -> GameState {
    let mut tail = LogTail::new("C:/Game", None);
    let mut state = GameState::new();
    let mut at = 0;
    for &cut in splits.iter().chain(std::iter::once(&bytes.len())) {
        tail.feed(&bytes[at..cut], &mut state);
        at = cut;
    }
    state
}

#[test]
fn where_the_bytes_are_split_does_not_matter() {
    let text = [
        "{\"Date\":\"2024-01-02 03:04:05\",\"Log\":\"Active Processor (eProcessor_Login)\"}\r\n",
        "{\"Date\":\"2024-01-02 03:05:00\",\"Log\":\"Net: I will connect to 4-server type(gs2.sea.pearlabyss.com:8888)\"}\n",
        "{\"Date\":\"2024-01-02 03:06:07\",\"Log\":\"Active Processor (eProcessor_Play)\"}\n",
    ]
    .join("");
    let bytes = utf16(&text);
    let once = fed_in(&bytes, &[]);
    assert_eq!(once.phase, Some(Phase::Play));
    assert_eq!(once.game_server.as_deref(), Some("gs2.sea"));
    for cut in 0..=bytes.len() {
        let twice = fed_in(&bytes, &[cut]);
        assert_eq!(twice.phase, once.phase);
        assert_eq!(twice.phase_since, once.phase_since);
        assert_eq!(twice.session_start, once.session_start);
        assert_eq!(twice.game_server, once.game_server);
    }
}

#[test]
fn a_level_is_not_read_across_a_character() {
    assert_eq!(Level::of(&"é".repeat(13)), None);
}

#[test]
fn a_record_is_stamped_with_its_date_else_the_present() {
    let mut state = GameState::new();
    let record = r#"{"Date":"2024-01-02 03:04:05","Log":"Active Processor (eProcessor_Play)"}"#;
    apply_record_at(record, &mut state, Some(1000), 5000);
    assert_eq!(state.phase_since, Some(1000));
    let mut other = GameState::new();
    apply_record_at(record, &mut other, None, 5000);
    assert_eq!(other.phase_since, Some(5000));
    let mut none = GameState::new();
    apply_record_at(r#"{"Date":"2024-01-02 03:04:05"}"#, &mut none, Some(1000), 5000);
    assert_eq!(none.phase, None);
}
