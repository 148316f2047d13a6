use wakeup_herdr::agents::{
    agent_label, asks_command_line, herdr_agents, report_once, snapshot_of, summarize, unavailable,
    Panes, Snapshot,
};
use wakeup_herdr::json::parse;

const REPLY: &str = r#"{"id": 1, "result": {"agents": [
    {"agent": "coder", "agent_status": "Working", "pane_id": "w2:p1", "cwd": "/src/repo/"},
    {"agent": "codex", "agent_status": "idle", "pane_id": "w1:p9", "cwd": "/src/other"},
    {"terminal_id": "t7", "agent_status": "working", "foreground_cwd": "/a/b", "cwd": "/c"},
    {"agent_status": "WORKING", "pane_id": "w2:p1"},
    {"agent": "quiet", "pane_id": "w0:p0"}
]}}"#;

fn words(list: &[&str]) -> Vec<String> {
    list.iter().map(|s| s.to_string()).collect()
}

fn label(agent: &str) -> String {
    agent_label(&parse(agent).unwrap())
}

fn is_unavailable(snap: &Snapshot) -> bool {
    !snap.available && snap.working.is_empty() && snap.panes.ids().is_empty() && snap.total == 0
}

#[test]
fn snapshot_shows_working_agents_and_all_panes() {
    let snap = herdr_agents(Some(REPLY), &words(&["working"]));
    assert!(snap.available);
    assert_eq!(snap.working, words(&["coder@repo", "t7@b", "agent"]));
    assert_eq!(snap.panes.ids(), &words(&["w0:p0", "w1:p9", "w2:p1"]));
    assert_eq!(snap.total, 5);

    let same = snapshot_of(&parse(REPLY).unwrap(), &words(&["working"]));
    assert_eq!(same.working, snap.working);
    assert!(same.panes.same(&snap.panes));
}

#[test]
fn other_statuses_can_count() {
    let snap = herdr_agents(Some(REPLY), &words(&["idle", "blocked"]));
    assert_eq!(snap.working, words(&["codex@other"]));
    // Statuses are compared in lower case, and are to be given so.
    assert!(herdr_agents(Some(REPLY), &words(&["Working"]))
        .working
        .is_empty());
    // An agent without a status has the empty one.
    assert_eq!(
        herdr_agents(Some(REPLY), &words(&[""])).working,
        words(&["quiet"])
    );
}

#[test]
fn no_list_of_agents_is_no_snapshot() {
    let statuses = words(&["working"]);
    assert!(is_unavailable(&unavailable()));
    assert!(is_unavailable(&herdr_agents(None, &statuses)));
    for text in [
        "",
        " \n\u{2003}",
        "oops",
        "{}",
        r#"{"result": []}"#,
        r#"{"result": {"agents": {}}}"#,
        r#"{"agents": []}"#,
    ] {
        assert!(is_unavailable(&herdr_agents(Some(text), &statuses)));
    }
    let none = herdr_agents(Some(r#"{"result": {"agents": []}}"#), &statuses);
    assert!(none.available && none.total == 0);
}

#[test]
fn labels_have_a_name_and_the_end_of_a_directory() {
    assert_eq!(label(r#"{"agent": "a", "cwd": "/x/y"}"#), "a@y");
    assert_eq!(label(r#"{"agent": "a", "cwd": "/x/y///"}"#), "a@y");
    assert_eq!(label(r#"{"agent": "a", "cwd": "y"}"#), "a@y");
    assert_eq!(label(r#"{"agent": "a", "cwd": "///"}"#), "a");
    assert_eq!(label(r#"{"agent": "a", "cwd": ""}"#), "a");
    assert_eq!(
        label(r#"{"agent": "a", "foreground_cwd": "", "cwd": "/x"}"#),
        "a"
    );
    assert_eq!(label(r#"{"agent": 1, "terminal_id": "t"}"#), "t");
    assert_eq!(label("{}"), "agent");
    assert_eq!(label("null"), "agent");
    assert_eq!(label(r#"{"agent": "é", "cwd": "/ü/ö"}"#), "é@ö");
}

#[test]
fn panes_are_a_set_in_order() {
    let a = Panes::new()
        .insert("b".to_string())
        .insert("a".to_string())
        .insert("b".to_string())
        .insert("".to_string())
        .insert("ab".to_string())
        .insert("é".to_string());
    assert_eq!(a.ids(), &words(&["", "a", "ab", "b", "é"]));
    let b = Panes::new()
        .insert("é".to_string())
        .insert("ab".to_string())
        .insert("a".to_string())
        .insert("".to_string())
        .insert("b".to_string());
    assert!(a.same(&b));
    assert!(!a.same(&b.insert("c".to_string())));
    assert!(!a.same(&Panes::new()));
}

#[test]
fn report_of_an_available_snapshot() {
    let statuses = words(&["working", "idle"]);
    let snap = herdr_agents(Some(REPLY), &statuses);
    assert_eq!(
        report_once(&snap, &statuses),
        words(&[
            "herdr: 5 agent(s), 4 matching [working,idle]",
            "  working: coder@repo",
            "  working: codex@other",
            "  working: t7@b",
            "  working: agent",
            "decision: keep awake",
        ])
    );
    let none = herdr_agents(Some(REPLY), &words(&["done"]));
    assert_eq!(
        report_once(&none, &words(&["done"])),
        words(&["herdr: 5 agent(s), 0 matching [done]", "decision: allow sleep"])
    );
}

#[test]
fn report_without_a_snapshot() {
    assert_eq!(
        report_once(&unavailable(), &words(&["working"])),
        words(&["herdr: unavailable", "decision: allow sleep"])
    );
}

#[test]
fn summary_names_three_at_most() {
    assert_eq!(summarize(&words(&[])), "0 working: ");
    assert_eq!(summarize(&words(&["a"])), "1 working: a");
    assert_eq!(summarize(&words(&["a", "b", "c"])), "3 working: a, b, c");
    assert_eq!(
        summarize(&words(&["a", "b", "c", "d"])),
        "4 working: a, b, c, +1"
    );
    let many: Vec<String> = (0..12).map(|n| n.to_string()).collect();
    assert_eq!(summarize(&many), "12 working: 0, 1, 2, +9");
}

#[test]
fn command_line_is_asked_only_where_it_may() {
    assert!(asks_command_line(true, true, false));
    assert!(asks_command_line(true, false, false));
    assert!(asks_command_line(false, false, true));
    assert!(!asks_command_line(false, false, false));
    assert!(!asks_command_line(false, true, true));
    assert!(!asks_command_line(false, true, false));
}
