use wakeup_herdr::agents::Panes;
use wakeup_herdr::json::{parse, parse_bytes, Json};
use wakeup_herdr::time::{Duration, Instant};
use wakeup_herdr::wire::{
    agent_list_line, frame, subscribe_line, subscription_started, LineBuffer, Poll, ReadOutcome,
    Receive,
};

fn record(entries: Vec<(&str, Json)>) -> Json {
    Json::Record(
        entries
            .into_iter()
            .map(|(name, value)| (name.to_string(), value))
            .collect(),
    )
}

fn word(s: &str) -> Json {
    Json::Text(s.to_string())
}

fn bytes(s: &str) -> ReadOutcome {
    ReadOutcome::Bytes(s.as_bytes().to_vec())
}

const NOW: Instant = Instant { nanos: 5 };
const SOON: Instant = Instant {
    nanos: 1_000_000_005,
};

#[test]
fn recognizes_subscription_ack() {
    let v = record(vec![
        ("id", word("wakeup-sub")),
        (
            "result",
            record(vec![("type", word("subscription_started"))]),
        ),
    ]);
    assert!(subscription_started(&v));
}

#[test]
fn rejects_unrelated_socket_activity_as_ack() {
    let v = record(vec![
        ("type", word("pane.agent_status_changed")),
        ("pane_id", word("w1:p1")),
    ]);
    assert!(!subscription_started(&v));
}

#[test]
fn only_the_whole_ack_counts() {
    for text in [
        r#"{"id":"other","result":{"type":"subscription_started"}}"#,
        r#"{"id":"wakeup-sub","result":{"type":"other"}}"#,
        r#"{"id":"wakeup-sub","result":"subscription_started"}"#,
        r#"{"id":"wakeup-sub"}"#,
        r#"{"id":1,"result":{"type":"subscription_started"}}"#,
        "[]",
    ] {
        assert!(!subscription_started(&parse(text).unwrap()));
    }
    let ack = r#"{"result":{"type":"subscription_started","n":1},"id":"wakeup-sub"}"#;
    assert!(subscription_started(&parse(ack).unwrap()));
}

#[test]
fn parses_and_removes_one_buffered_line() {
    let mut conn = LineBuffer::new();
    assert_eq!(
        conn.wait(bytes("{\"one\":1}\n{\"two\":2}\n")),
        Poll::Activity
    );

    let first = match conn.recv_json(NOW, SOON) {
        Receive::Message(m) => m,
        _ => panic!("no message"),
    };
    assert_eq!(first.u64_field("one"), Some(1));
    assert!(conn.has_line());

    let second = match conn.recv_json(NOW, SOON) {
        Receive::Message(m) => m,
        _ => panic!("no message"),
    };
    assert_eq!(second.u64_field("two"), Some(2));
    assert!(!conn.has_line());
}

#[test]
fn receiving_waits_until_the_deadline() {
    let mut conn = LineBuffer::new();
    conn.wait(bytes("{\"one\""));
    assert!(matches!(
        conn.recv_json(NOW, SOON),
        Receive::Wait(Duration {
            nanos: 1_000_000_000
        })
    ));
    assert!(matches!(conn.recv_json(SOON, SOON), Receive::TimedOut));
    conn.wait(bytes(":1}\nrest"));
    match conn.recv_json(SOON, NOW) {
        Receive::Message(m) => assert_eq!(m.u64_field("one"), Some(1)),
        _ => panic!("a message that is there comes out even late"),
    }
    conn.wait(bytes("\n"));
    assert!(matches!(conn.recv_json(NOW, SOON), Receive::Garbled));
    assert_eq!(conn.pop_line(), None);
}

#[test]
fn waiting_tells_what_was_read() {
    let mut conn = LineBuffer::new();
    assert_eq!(conn.wait(bytes("half")), Poll::Timeout);
    assert_eq!(conn.wait(ReadOutcome::Quiet), Poll::Timeout);
    assert_eq!(conn.wait(ReadOutcome::Failed), Poll::Closed);
    assert_eq!(conn.wait(bytes("")), Poll::Closed);
    assert!(!conn.has_line());
    assert_eq!(conn.wait(bytes(" and half\n")), Poll::Activity);
    // A message that is there already counts, whatever is read.
    assert_eq!(conn.wait(ReadOutcome::Quiet), Poll::Activity);
    assert_eq!(conn.wait(ReadOutcome::Failed), Poll::Activity);
    assert_eq!(conn.wait(bytes("")), Poll::Activity);
    assert_eq!(conn.pop_line(), Some(b"half and half".to_vec()));
    assert_eq!(conn.pop_line(), None);
}

#[test]
fn draining_drops_whole_lines_only() {
    let mut conn = LineBuffer::new();
    conn.wait(bytes("a\nb\nc"));
    conn.consume_lines();
    assert!(conn.drain(bytes("d\ne")));
    assert!(!conn.has_line());
    assert!(!conn.drain(ReadOutcome::Quiet));
    assert!(!conn.drain(ReadOutcome::Failed));
    assert!(!conn.drain(bytes("")));
    conn.wait(bytes("f\n"));
    assert_eq!(conn.pop_line(), Some(b"ef".to_vec()));
}

#[test]
fn messages_survive_any_cut() {
    let sent = b"{\"a\":[1,2]}\n\n\"x\"\n";
    for cut in 0..sent.len() {
        let mut conn = LineBuffer::new();
        conn.wait(ReadOutcome::Bytes(sent[..cut].to_vec()));
        conn.wait(ReadOutcome::Bytes(sent[cut..].to_vec()));
        assert_eq!(conn.pop_line(), Some(b"{\"a\":[1,2]}".to_vec()));
        assert_eq!(conn.pop_line(), Some(Vec::new()));
        assert_eq!(conn.pop_line(), Some(b"\"x\"".to_vec()));
        assert_eq!(conn.pop_line(), None);
    }
}

#[test]
fn subscription_names_every_pane() {
    let panes = Panes::new()
        .insert("w2:p1".to_string())
        .insert("w1:p1".to_string())
        .insert("w2:p1".to_string());
    assert_eq!(
        String::from_utf8(subscribe_line(&panes)).unwrap(),
        concat_lines(&[
            r#"{"id":"wakeup-sub","method":"events.subscribe","params":{"subscriptions":["#,
            r#"{"type":"pane.created"},{"type":"pane.exited"},{"type":"pane.agent_detected"},"#,
            r#"{"pane_id":"w1:p1","type":"pane.agent_status_changed"},"#,
            r#"{"pane_id":"w2:p1","type":"pane.agent_status_changed"}]}}"#,
            "\n",
        ])
    );
}

fn concat_lines(parts: &[&str]) -> String {
    parts.iter().copied().collect()
}

#[test]
fn subscription_without_panes() {
    let line = subscribe_line(&Panes::new());
    let request = parse_bytes(&line).unwrap();
    let params = request.get("params").unwrap();
    assert_eq!(params.list_field("subscriptions").unwrap().len(), 3);
    assert_eq!(request.text_field("id"), Some("wakeup-sub"));
}

#[test]
fn agents_are_asked_for_in_one_line() {
    assert_eq!(
        String::from_utf8(agent_list_line()).unwrap(),
        "{\"id\":\"wakeup-list\",\"method\":\"agent.list\",\"params\":{}}\n"
    );
}

#[test]
fn line_ends_inside_of_texts_do_not_end_the_line() {
    let line = frame(&record(vec![
        ("b", word("one\ntwo")),
        ("a", Json::Null),
        ("b", Json::List(vec![word("x\ny"), Json::Bool(true)])),
        ("c", Json::Uint(3)),
    ]));
    assert_eq!(
        String::from_utf8(line.clone()).unwrap(),
        "{\"a\":null,\"b\":[\"x\\ny\",true],\"c\":3}\n"
    );
    let mut conn = LineBuffer::new();
    conn.wait(ReadOutcome::Bytes(line));
    match conn.recv_json(NOW, SOON) {
        Receive::Message(m) => {
            assert_eq!(
                m.list_field("b").unwrap(),
                &vec![word("x\ny"), Json::Bool(true)]
            );
            assert_eq!(m.get("a"), Some(&Json::Null));
        }
        _ => panic!("no message"),
    }
}

#[test]
fn numbers_are_told_apart() {
    let v = parse(r#"{"n": 18446744073709551615, "m": -1, "x": 1.5, "big": 1e300}"#).unwrap();
    assert_eq!(v.u64_field("n"), Some(u64::MAX));
    assert_eq!(v.get("m"), Some(&Json::OtherNumber));
    assert_eq!(v.u64_field("x"), None);
    assert_eq!(v.get("big"), Some(&Json::OtherNumber));
    assert_eq!(v.get("none"), None);
    assert_eq!(v.bool_field("n"), None);
    assert!(parse_bytes(b"\xff").is_none());
    assert!(parse_bytes(b"\"\xc3\xa9\"") == Some(word("é")));
}
