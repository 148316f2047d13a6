use wakeup_herdr::json::parse;
use wakeup_herdr::persist::{
    config_dir, config_path, session_key, socket_hint, state_dir, state_path, temporary_name,
    Config, Env, FileRead, Found, RuntimeState, DEFAULT_HERDR_BIN, DEFAULT_WAKEUP_BIN,
};

const DEFAULT_FILE: &str = r#"{
  "allow_cli_fallback": false,
  "armed": true,
  "display": false,
  "notify": true,
  "start_grace_seconds": 5,
  "statuses": [
    "working"
  ],
  "stop_grace_seconds": 30
}
"#;

fn env() -> Env {
    Env {
        home: Some("/home/bob".to_string()),
        socket_path: None,
        config_dir: None,
        state_dir: None,
        herdr_bin_path: None,
        wakeup_herdr_bin: None,
        wakeup_bin: None,
    }
}

fn at_socket(path: &str) -> Env {
    Env {
        socket_path: Some(path.to_string()),
        ..env()
    }
}

fn text(path: Vec<u8>) -> String {
    String::from_utf8(path).unwrap()
}

fn holding(contents: &str) -> FileRead {
    FileRead::Contents(contents.to_string())
}

/// A file system with one file: what [`Config`] says is done to it.
struct Disk {
    file: Option<String>,
}

impl Disk {
    fn read(&self) -> FileRead {
        match &self.file {
            Some(text) => FileRead::Contents(text.clone()),
            None => FileRead::Missing,
        }
    }

    fn bootstrap(&mut self) -> Found {
        match Config::bootstrap_contents(self.file.is_some()) {
            Some(contents) => {
                self.file = Some(contents);
                Found::Created
            }
            None => Found::Existing(self.read()),
        }
    }
}

#[test]
fn session_key_is_deterministic_and_distinguishes_sockets() {
    let a = session_key("/Users/alice/.config/herdr/herdr.sock");
    let b = session_key("/Users/alice/.config/herdr/herdr.sock");
    let c = session_key("/Users/alice/.config/herdr/work-session.sock");
    assert_eq!(a, b, "same socket path must hash to the same key");
    assert_ne!(
        a, c,
        "different socket paths (different sessions) must hash differently"
    );
    assert_eq!(a.len(), 16);
    assert!(a.chars().all(|c| c.is_ascii_hexdigit()));
}

#[test]
fn session_key_is_the_hash_of_the_path() {
    assert_eq!(session_key(""), "cbf29ce484222325");
    assert_eq!(session_key("é"), "0ac21707b7181e01");
    assert_eq!(
        session_key("/Users/alice/.config/herdr/herdr.sock"),
        "f584f5d6cffa9b30"
    );
    assert_eq!(
        session_key("/Users/alice/.config/herdr/work-session.sock"),
        "0907c9bed3d16155"
    );
}

#[test]
fn config_dir_and_state_dir_are_session_scoped() {
    let dir_a = text(state_dir(&at_socket("/tmp/session-a.sock")));
    let dir_b = text(state_dir(&at_socket("/tmp/session-b.sock")));
    assert_ne!(
        dir_a, dir_b,
        "different sessions must resolve to different state dirs"
    );
    assert!(dir_a.contains("sessions"));
    assert_eq!(
        dir_a,
        "/home/bob/.local/state/herdr-wakeup/sessions/46eaa8cecac9c73c"
    );
    assert_eq!(
        text(config_dir(&at_socket("/tmp/session-b.sock"))),
        "/home/bob/.config/herdr-wakeup/sessions/1202c2c6469833eb"
    );
}

#[test]
fn paths_lie_below_the_given_directories() {
    let given = Env {
        config_dir: Some(b"/etc/wake/".to_vec()),
        state_dir: Some(vec![b'/', 0xff]),
        ..env()
    };
    assert_eq!(
        text(config_path(&given)),
        "/etc/wake/sessions/9ed9784e426094e8/config.json"
    );
    let mut wanted = vec![b'/', 0xff];
    wanted.extend_from_slice(b"/sessions/9ed9784e426094e8/state.json");
    assert_eq!(state_path(&given), wanted);
    let empty = Env {
        config_dir: Some(Vec::new()),
        ..env()
    };
    assert_eq!(
        text(config_path(&empty)),
        "sessions/9ed9784e426094e8/config.json"
    );
    assert_ne!(config_path(&env()), state_path(&env()));
}

#[test]
fn socket_of_the_session_is_below_home() {
    assert_eq!(socket_hint(&env()), "/home/bob/.config/herdr/herdr.sock");
    assert_eq!(socket_hint(&at_socket("/tmp/s")), "/tmp/s");
    let slash = Env {
        home: Some("/".to_string()),
        ..env()
    };
    assert_eq!(socket_hint(&slash), "/.config/herdr/herdr.sock");
    let empty = Env {
        home: Some(String::new()),
        ..env()
    };
    assert_eq!(socket_hint(&empty), ".config/herdr/herdr.sock");
    let unset = Env {
        home: None,
        ..env()
    };
    assert_eq!(socket_hint(&unset), "./.config/herdr/herdr.sock");
    assert_eq!(
        text(config_dir(&unset)),
        "./.config/herdr-wakeup/sessions/b0e553273c73735c"
    );
}

#[test]
fn config_missing_file_returns_defaults_without_error() {
    let (cfg, err) = Config::load("missing_config.json", FileRead::Missing);
    assert_eq!(cfg, Config::default());
    assert!(err.is_none());
}

#[test]
fn config_corrupt_file_falls_back_to_defaults_with_error() {
    let (cfg, err) = Config::load("corrupt_config.json", holding("{ not valid json"));
    assert_eq!(cfg, Config::default());
    assert!(err.is_some());
    assert_eq!(
        err.as_deref(),
        Some("failed to parse corrupt_config.json: key must be a string at line 1 column 3")
    );
}

#[test]
fn unreadable_config_is_reported() {
    let (cfg, err) = Config::load("c.json", FileRead::Failed("denied".to_string()));
    assert_eq!(cfg, Config::default());
    assert_eq!(err.as_deref(), Some("failed to read c.json: denied"));
}

#[test]
fn ensure_bootstrapped_creates_file_with_full_defaults_when_missing() {
    let mut disk = Disk { file: None };

    let found = disk.bootstrap();
    let (cfg, err) = Config::ensure_bootstrapped("bootstrap_missing.json", found);
    assert!(err.is_none());
    assert_eq!(cfg, Config::default());
    assert!(disk.file.is_some(), "must have written the file to disk");
    assert_eq!(disk.file.as_deref(), Some(DEFAULT_FILE));

    let (reloaded, reload_err) = Config::load("bootstrap_missing.json", disk.read());
    assert!(reload_err.is_none());
    assert_eq!(reloaded, Config::default());
}

#[test]
fn settings_that_cannot_be_saved_are_reported() {
    let (cfg, err) =
        Config::ensure_bootstrapped("c.json", Found::NotCreated("disk full".to_string()));
    assert_eq!(cfg, Config::default());
    assert_eq!(
        err.as_deref(),
        Some("failed to write default config to c.json: disk full")
    );
}

#[test]
fn bin_override_fields_are_omitted_by_default_and_present_when_set() {
    let mut disk = Disk { file: None };
    let found = disk.bootstrap();
    let (cfg, _) = Config::ensure_bootstrapped("bin_override_omitted.json", found);
    assert_eq!(cfg.wakeup_bin, None);
    assert_eq!(cfg.herdr_bin, None);
    assert_eq!(cfg.effective_wakeup_bin(), DEFAULT_WAKEUP_BIN);
    assert_eq!(cfg.effective_herdr_bin(), DEFAULT_HERDR_BIN);

    let raw = disk.file.unwrap();
    assert!(
        !raw.contains("wakeup_bin"),
        "default config.json must not mention wakeup_bin at all: {raw}"
    );
    assert!(
        !raw.contains("herdr_bin"),
        "default config.json must not mention herdr_bin at all: {raw}"
    );
    assert!(raw.contains("armed"));
    assert!(raw.contains("start_grace_seconds"));

    let custom = Config {
        wakeup_bin: Some("/custom/wakeup".to_string()),
        ..Config::default()
    };
    let raw2 = custom.save();
    assert!(
        raw2.contains("\"wakeup_bin\": \"/custom/wakeup\""),
        "an explicit override must be written to disk: {raw2}"
    );
    assert!(
        !raw2.contains("herdr_bin"),
        "herdr_bin was never overridden, so it must still be omitted: {raw2}"
    );

    let (reloaded, err) = Config::load("bin_override_present.json", holding(&raw2));
    assert!(err.is_none());
    assert_eq!(reloaded.wakeup_bin.as_deref(), Some("/custom/wakeup"));
    assert_eq!(reloaded.effective_wakeup_bin(), "/custom/wakeup");
    assert_eq!(reloaded.herdr_bin, None);
    assert_eq!(reloaded.effective_herdr_bin(), DEFAULT_HERDR_BIN);
}

#[test]
fn ensure_bootstrapped_never_overwrites_an_existing_file() {
    let custom = Config {
        armed: false,
        display: true,
        stop_grace_seconds: 999,
        ..Config::default()
    };
    let mut disk = Disk {
        file: Some(custom.save()),
    };
    let found = disk.bootstrap();
    let (cfg, err) = Config::ensure_bootstrapped("bootstrap_existing.json", found);
    assert!(err.is_none());
    assert_eq!(
        cfg, custom,
        "must load the existing custom values, not defaults"
    );
    assert_eq!(disk.file, Some(custom.save()));

    let mut disk2 = Disk {
        file: Some("{ not valid json".to_string()),
    };
    let found2 = disk2.bootstrap();
    let (cfg2, err2) = Config::ensure_bootstrapped("bootstrap_corrupt.json", found2);
    assert!(err2.is_some(), "corrupt file must still be reported");
    assert_eq!(cfg2, Config::default(), "falls back to defaults in memory");
    assert_eq!(
        disk2.file.as_deref(),
        Some("{ not valid json"),
        "the corrupt file on disk must be left untouched, not repaired/overwritten"
    );
}

#[test]
fn config_round_trips_through_save_and_load() {
    let cfg = Config {
        armed: false,
        display: true,
        start_grace_seconds: 9,
        statuses: vec!["working".into(), "reviewing".into()],
        ..Config::default()
    };
    let (loaded, err) = Config::load("roundtrip_config.json", holding(&cfg.save()));
    assert!(err.is_none());
    assert_eq!(loaded, cfg);
}

#[test]
fn config_round_trips_with_odd_texts_and_large_numbers() {
    let cfg = Config {
        start_grace_seconds: u64::MAX,
        stop_grace_seconds: 0,
        statuses: vec!["a\n\"b\\".into(), "☕".into(), String::new()],
        notify: false,
        wakeup_bin: Some("".into()),
        herdr_bin: Some("\u{0}\t".into()),
        allow_cli_fallback: true,
        ..Config::default()
    };
    let (loaded, err) = Config::load("c.json", holding(&cfg.save()));
    assert_eq!(err, None);
    assert_eq!(loaded, cfg);
}

#[test]
fn settings_without_a_status_come_back_with_the_initial_one() {
    let cfg = Config {
        statuses: Vec::new(),
        ..Config::default()
    };
    let (loaded, err) = Config::load("c.json", holding(&cfg.save()));
    assert_eq!(err, None);
    assert_eq!(loaded, Config::default());
}

#[test]
fn config_save_is_atomic_no_partial_writes_visible() {
    let name = "atomic_config.json";
    let text = Config::default().save();
    assert!(parse(&text).is_ok());
    let tmp = temporary_name(Some(name), 4242);
    assert_eq!(tmp, ".atomic_config.json.tmp-4242");
    assert_ne!(tmp, name);
    assert_eq!(temporary_name(None, 1), ".wakeup-herdr.tmp.tmp-1");
}

#[test]
fn config_ignores_wrong_typed_fields_and_uses_defaults_for_them() {
    let (cfg, err) = Config::load(
        "wrong_types_config.json",
        holding(r#"{"armed": "not-a-bool", "start_grace_seconds": "nope", "statuses": []}"#),
    );
    assert!(err.is_none());
    assert_eq!(cfg.armed, Config::default().armed);
    assert_eq!(
        cfg.start_grace_seconds,
        Config::default().start_grace_seconds
    );
    assert_eq!(cfg.statuses, Config::default().statuses);
}

#[test]
fn settings_take_what_they_can_from_any_json() {
    let (cfg, err) = Config::load("c.json", holding("[1, 2]"));
    assert_eq!((cfg, err), (Config::default(), None));

    let (cfg, err) = Config::load(
        "c.json",
        holding(
            r#"{"statuses": [1, "x", null, "y"], "stop_grace_seconds": -1,
                "start_grace_seconds": 2.0, "wakeup_bin": 7, "herdr_bin": "h",
                "display": false, "display": true, "unknown": {}}"#,
        ),
    );
    assert_eq!(err, None);
    assert_eq!(
        cfg,
        Config {
            statuses: vec!["x".into(), "y".into()],
            herdr_bin: Some("h".into()),
            display: true,
            ..Config::default()
        }
    );
}

#[test]
fn arming_changes_nothing_else() {
    let before = Config {
        statuses: vec!["busy".into()],
        herdr_bin: Some("/opt/herdr".into()),
        ..Config::default()
    };
    let found = Found::Existing(holding(&before.save()));
    let contents = Config::switch_armed("c.json", found, false).unwrap();
    let (after, err) = Config::load("c.json", holding(&contents));
    assert_eq!(err, None);
    assert!(!after.armed);
    assert_eq!(
        Config {
            armed: true,
            ..after
        },
        before
    );

    let fresh = Config::switch_armed("c.json", Found::Created, false).unwrap();
    assert_eq!(
        fresh,
        DEFAULT_FILE.replace("\"armed\": true", "\"armed\": false")
    );
}

#[test]
fn arming_leaves_a_corrupt_file_alone() {
    let found = Found::Existing(holding("nonsense"));
    assert_eq!(
        Config::switch_armed("c.json", found, true),
        Err("failed to parse c.json: expected ident at line 1 column 2".to_string())
    );
    assert_eq!(
        Config::switch_armed("c.json", Found::NotCreated("no room".to_string()), true),
        Err("failed to write default config to c.json: no room".to_string())
    );
}

#[test]
fn state_missing_file_is_none_none() {
    let (rt, err) = RuntimeState::load("missing_state.json", FileRead::Missing);
    assert!(rt.is_none());
    assert!(err.is_none());
}

#[test]
fn state_corrupt_file_does_not_panic_and_reports_error() {
    let (rt, err) = RuntimeState::load("corrupt_state.json", holding("not json at all"));
    assert!(rt.is_none());
    assert!(err.is_some());
    assert_eq!(
        err.as_deref(),
        Some("failed to parse corrupt_state.json: expected ident at line 1 column 2")
    );
}

#[test]
fn state_that_cannot_be_read_or_lacks_fields_is_reported() {
    let (rt, err) = RuntimeState::load("s.json", FileRead::Failed("denied".to_string()));
    assert_eq!(rt, None);
    assert_eq!(err.as_deref(), Some("failed to read s.json: denied"));
    for text in [
        "{}",
        "[]",
        r#"{"state": "Off"}"#,
        r#"{"watcher_pid": 1}"#,
        r#"{"state": 1, "watcher_pid": 1}"#,
        r#"{"state": "Off", "watcher_pid": -1}"#,
    ] {
        let (rt, err) = RuntimeState::load("s.json", holding(text));
        assert_eq!(rt, None);
        assert_eq!(err.as_deref(), Some("s.json is missing required fields"));
    }
}

#[test]
fn state_fills_in_what_is_missing() {
    let (rt, err) = RuntimeState::load(
        "s.json",
        holding(r#"{"state": "Off", "watcher_pid": 4294967299, "last_error": null}"#),
    );
    assert_eq!(err, None);
    assert_eq!(
        rt,
        Some(RuntimeState {
            state: "Off".to_string(),
            armed: true,
            watcher_pid: 3,
            assertion_active: false,
            working_agents: Vec::new(),
            agent_count: 0,
            last_transition_unix: 0,
            last_error: None,
            checked_at_unix: 0,
            session_key: String::new(),
        })
    );
}

#[test]
fn state_round_trips_through_save_and_load() {
    let rt = RuntimeState {
        state: "Awake".to_string(),
        armed: true,
        watcher_pid: 4242,
        assertion_active: true,
        working_agents: vec!["coder@repo".to_string()],
        agent_count: 3,
        last_transition_unix: 1_783_670_000,
        last_error: None,
        checked_at_unix: 1_783_670_005,
        session_key: "0123456789abcdef".to_string(),
    };
    let contents = rt.save();
    let (loaded, err) = RuntimeState::load("roundtrip_state.json", holding(&contents));
    assert!(err.is_none());
    assert_eq!(loaded, Some(rt));
    assert_eq!(
        contents,
        r#"{
  "agent_count": 3,
  "armed": true,
  "assertion_active": true,
  "checked_at_unix": 1783670005,
  "last_error": null,
  "last_transition_unix": 1783670000,
  "session_key": "0123456789abcdef",
  "state": "Awake",
  "watcher_pid": 4242,
  "working_agents": [
    "coder@repo"
  ]
}
"#
    );
}

#[test]
fn state_round_trips_with_an_error() {
    let rt = RuntimeState {
        state: "Error".to_string(),
        armed: false,
        watcher_pid: u32::MAX,
        assertion_active: false,
        working_agents: Vec::new(),
        agent_count: usize::MAX,
        last_transition_unix: u64::MAX,
        last_error: Some("snapshot \"unavailable\"\n".to_string()),
        checked_at_unix: 0,
        session_key: "é".to_string(),
    };
    let (loaded, err) = RuntimeState::load("s.json", holding(&rt.save()));
    assert_eq!(err, None);
    assert_eq!(loaded, Some(rt));
}
