use wakeup_herdr::opts::{command, parse_statuses, Arg, Command, Number, Opts, Parsed};
use wakeup_herdr::persist::{socket_hint, Config, Env};
use wakeup_herdr::time::Duration;

fn env() -> Env {
    Env {
        home: Some("/home/bob".to_string()),
        socket_path: None,
        config_dir: None,
        state_dir: None,
        herdr_bin_path: None,
        wakeup_herdr_bin: None,
        wakeup_bin: None,
    }
}

fn span(seconds: f64) -> Option<Duration> {
    std::time::Duration::try_from_secs_f64(seconds)
        .ok()
        .map(|d| Duration {
            nanos: d.as_nanos(),
        })
}

fn args(list: &[&str]) -> Vec<Arg> {
    list.iter()
        .map(|text| Arg {
            text: text.to_string(),
            number: match text.parse::<f64>() {
                Err(_) => Number::NotANumber,
                Ok(n) if !n.is_finite() || n < 0.0 => Number::Unusable,
                Ok(n) => Number::Usable {
                    secs: span(n),
                    millis: span(n / 1000.0),
                },
            },
        })
        .collect()
}

fn parsed(list: &[&str]) -> Parsed {
    Opts::parse(&env(), &Config::default(), &args(list))
}

fn run(list: &[&str]) -> Opts {
    match parsed(list) {
        Parsed::Run(o) => o,
        other => panic!("{other:?}"),
    }
}

fn refusal(list: &[&str]) -> String {
    match parsed(list) {
        Parsed::Invalid(m) => m,
        other => panic!("{other:?}"),
    }
}

#[test]
fn without_arguments_the_defaults_count() {
    let o = run(&[]);
    assert_eq!(o.socket, "/home/bob/.config/herdr/herdr.sock");
    assert_eq!(o.herdr_bin, "herdr");
    assert_eq!(o.wakeup_bin, "wakeup");
    assert_eq!(o.statuses, vec!["working"]);
    assert_eq!(o.start_grace, Duration::from_secs(5));
    assert_eq!(o.grace, Duration::from_secs(30));
    assert_eq!(o.backstop, Duration::from_secs(60));
    assert_eq!(o.debounce, Duration::from_millis(400));
    assert_eq!(o.exit_after, Duration::from_secs(120));
    assert!(!o.display && !o.no_notify && !o.verbose && !o.quiet && !o.once);
    assert!(!o.allow_cli_fallback);
    assert_eq!(o.socket, socket_hint(&env()));
}

#[test]
fn settings_seed_the_options() {
    let cfg = Config {
        display: true,
        start_grace_seconds: 1,
        stop_grace_seconds: 2,
        statuses: vec!["busy".to_string()],
        notify: false,
        wakeup_bin: Some("w".to_string()),
        herdr_bin: Some("h".to_string()),
        allow_cli_fallback: true,
        ..Config::default()
    };
    let o = Opts::defaults(&env(), &cfg);
    assert!(o.display && o.no_notify && o.allow_cli_fallback);
    assert_eq!(o.start_grace, Duration::from_secs(1));
    assert_eq!(o.grace, Duration::from_secs(2));
    assert_eq!(o.statuses, vec!["busy"]);
    assert_eq!((o.wakeup_bin, o.herdr_bin), ("w".into(), "h".into()));
}

#[test]
fn environment_wins_over_settings_and_arguments_over_both() {
    let cfg = Config {
        wakeup_bin: Some("settings-w".to_string()),
        herdr_bin: Some("settings-h".to_string()),
        ..Config::default()
    };
    let e = Env {
        socket_path: Some("/tmp/s".to_string()),
        wakeup_herdr_bin: Some("env-h2".to_string()),
        wakeup_bin: Some("env-w".to_string()),
        ..env()
    };
    let o = Opts::defaults(&e, &cfg);
    assert_eq!(o.socket, "/tmp/s");
    assert_eq!(o.herdr_bin, "env-h2");
    assert_eq!(o.wakeup_bin, "env-w");
    let e = Env {
        herdr_bin_path: Some("env-h1".to_string()),
        ..e
    };
    assert_eq!(Opts::defaults(&e, &cfg).herdr_bin, "env-h1");
    let given = args(&[
        "--socket", "/x", "--herdr", "H", "--wakeup", "W", "--socket", "/y",
    ]);
    match Opts::parse(&e, &cfg, &given) {
        Parsed::Run(o) => {
            assert_eq!(o.socket, "/y");
            assert_eq!((o.wakeup_bin, o.herdr_bin), ("W".into(), "H".into()));
        }
        other => panic!("{other:?}"),
    }
}

#[test]
fn default_socket_is_that_of_the_session() {
    for (home, socket) in [
        (None, "./.config/herdr/herdr.sock"),
        (Some(""), ".config/herdr/herdr.sock"),
        (Some("/"), "/.config/herdr/herdr.sock"),
        (Some("/home/bob/"), "/home/bob/.config/herdr/herdr.sock"),
        (Some("/home/bob"), "/home/bob/.config/herdr/herdr.sock"),
    ] {
        let e = Env {
            home: home.map(|h| h.to_string()),
            ..env()
        };
        let o = Opts::defaults(&e, &Config::default());
        assert_eq!(o.socket, socket);
        assert_eq!(o.socket, socket_hint(&e));
    }
}

#[test]
fn numbers_are_seconds_or_milliseconds() {
    let o = run(&[
        "--start-grace",
        "0.5",
        "--grace",
        "7",
        "--backstop",
        "1e2",
        "--exit-after",
        "0",
        "--debounce",
        "250",
    ]);
    assert_eq!(o.start_grace, Duration::from_millis(500));
    assert_eq!(o.grace, Duration::from_secs(7));
    assert_eq!(o.backstop, Duration::from_secs(100));
    assert!(o.exit_after.is_zero());
    assert_eq!(o.debounce, Duration::from_millis(250));
}

#[test]
fn switches_are_switched_on() {
    let o = run(&[
        "-d",
        "-v",
        "-q",
        "--once",
        "--no-notify",
        "--allow-cli-fallback",
    ]);
    assert!(o.display && o.verbose && o.quiet && o.once && o.no_notify && o.allow_cli_fallback);
    let o = run(&["--display", "--verbose", "--quiet"]);
    assert!(o.display && o.verbose && o.quiet && !o.once);
}

#[test]
fn zero_backstop_is_a_day() {
    assert_eq!(
        run(&["--backstop", "0"]).backstop,
        Duration::from_secs(86_400)
    );
    assert_eq!(
        run(&["--backstop", "0", "--backstop", "3"]).backstop,
        Duration::from_secs(3)
    );
}

#[test]
fn help_and_version_come_first_where_they_stand_first() {
    assert!(matches!(parsed(&["-h"]), Parsed::Help));
    assert!(matches!(parsed(&["-v", "--help", "--bad"]), Parsed::Help));
    assert!(matches!(parsed(&["-V", "-h"]), Parsed::Version));
    assert!(matches!(parsed(&["--version"]), Parsed::Version));
    assert!(matches!(parsed(&["--bad", "-h"]), Parsed::Invalid(_)));
}

#[test]
fn wrong_arguments_are_refused() {
    assert_eq!(refusal(&["--bad"]), "unknown option: --bad");
    assert_eq!(refusal(&["arm"]), "unknown option: arm");
    assert_eq!(refusal(&["--socket"]), "--socket requires a value");
    assert_eq!(
        refusal(&["--grace", "1", "--statuses"]),
        "--statuses requires a value"
    );
    assert_eq!(
        refusal(&["--grace", "soon\n"]),
        "--grace expects a number, got \"soon\\n\""
    );
    assert_eq!(
        refusal(&["--start-grace", "-1"]),
        "--start-grace expects a non-negative finite number, got \"-1\""
    );
    assert_eq!(
        refusal(&["--debounce", "inf"]),
        "--debounce expects a non-negative finite number, got \"inf\""
    );
    assert_eq!(
        refusal(&["--backstop", "1e30"]),
        "--backstop is out of range"
    );
    assert_eq!(
        refusal(&["--debounce", "1e30"]),
        "--debounce is out of range"
    );
    assert_eq!(
        refusal(&["--statuses", " , ,"]),
        "--statuses requires at least one non-empty status"
    );
}

#[test]
fn a_value_may_look_like_an_option() {
    assert_eq!(run(&["--socket", "--help"]).socket, "--help");
}

#[test]
fn statuses_are_cleaned() {
    assert_eq!(
        run(&["--statuses", " Working ,,REVIEWING,\tÄrger"]).statuses,
        vec!["working", "reviewing", "ärger"]
    );
    assert_eq!(parse_statuses("one"), vec!["one"]);
    assert_eq!(parse_statuses("b,a,b"), vec!["b", "a", "b"]);
    assert!(parse_statuses("").is_empty());
    assert!(parse_statuses(",").is_empty());
    assert_eq!(parse_statuses("a b, c"), vec!["a b", "c"]);
}

#[test]
fn first_argument_names_a_command() {
    assert_eq!(command(None), Command::Watch);
    assert_eq!(command(Some("--once")), Command::Watch);
    assert_eq!(command(Some("arm")), Command::Arm);
    assert_eq!(command(Some("disarm")), Command::Disarm);
    assert_eq!(command(Some("state")), Command::State);
    assert_eq!(command(Some("Arm")), Command::Watch);
}
