//! Talking with Herdr's socket: values in JSON, one to a line.

use vstd::prelude::*;
use vstd::string::*;
use crate::agents::Panes;
use crate::json::{
    compact, compact_bytes, entries_writable, entry_trees, gives, lemma_writable_deeper, parse_bytes,
    parsed_bytes, put, trees, Json, Tree, NESTING,
};
use crate::text::{after_last, lemma_position, lemma_position_is, position, same_text, texts};
use crate::time::{Duration, Instant};

verus! {

/// The byte that ends a line.
pub const LINE_END: u8 = 10;

/// Bytes that have come in and have not been taken yet.
#[derive(Debug)]
pub struct LineBuffer {
    buf: Vec<u8>,
}

impl View for LineBuffer {
    type V = Seq<u8>;

    closed spec fn view(&self) -> Seq<u8> {
        self.buf@
    }
}

/// Whether a whole line has come in.
pub open spec fn holds_line(bytes: Seq<u8>) -> bool {
    bytes.contains(LINE_END)
}

/// The first line, without its end.
pub open spec fn first_line(bytes: Seq<u8>) -> Seq<u8> {
    bytes.take(position(bytes, LINE_END) as int)
}

/// What comes behind the first line.
pub open spec fn behind_line(bytes: Seq<u8>) -> Seq<u8> {
    bytes.skip(position(bytes, LINE_END) as int + 1)
}

/// What an attempt to read from the socket gave.
pub enum ReadOutcome {
    /// These bytes. None at all means that the other side has closed.
    Bytes(Vec<u8>),
    /// Nothing within the time.
    Quiet,
    /// An error.
    Failed,
}

/// What waiting for a message came to.
#[derive(Clone, Copy, Debug, PartialEq, Eq, Structural)]
pub enum Poll {
    /// A whole message is there.
    Activity,
    /// None has come in time.
    Timeout,
    /// None will come any more.
    Closed,
}

/// What is there after an attempt to read.
pub open spec fn buffered(before: Seq<u8>, outcome: ReadOutcome) -> Seq<u8> {
    match outcome {
        ReadOutcome::Bytes(b) => before + b@,
        _ => before,
    }
}

/// What an attempt to read tells a reader who waits for a message.
pub open spec fn poll_of(before: Seq<u8>, outcome: ReadOutcome) -> Poll {
    if holds_line(before) {
        Poll::Activity
    } else {
        match outcome {
            ReadOutcome::Bytes(b) => if b@.len() == 0 {
                Poll::Closed
            } else if holds_line(before + b@) {
                Poll::Activity
            } else {
                Poll::Timeout
            },
            ReadOutcome::Quiet => Poll::Timeout,
            ReadOutcome::Failed => Poll::Closed,
        }
    }
}

/// What is next for a reader who wants one message.
pub enum Receive {
    /// The message has come.
    Message(Json),
    /// What came is no JSON.
    Garbled,
    /// The time is over.
    TimedOut,
    /// Wait this long for more.
    Wait(Duration),
}

impl LineBuffer {
    /// A buffer with nothing in it.
    pub fn new() -> (b: LineBuffer)
        ensures
            b@ == Seq::<u8>::empty(),
    {
        LineBuffer { buf: Vec::new() }
    }

    /// Where the first line ends, or the number of bytes if none does.
    fn line_end(&self) -> (i: usize)
        ensures
            i == position(self@, LINE_END),
    {
        let mut i: usize = 0;
        while i < self.buf.len() && self.buf[i] != LINE_END
            invariant
                i <= self.buf@.len(),
                forall|j: int| 0 <= j < i ==> self.buf@[j] != LINE_END,
            decreases self.buf@.len() - i,
        {
            i = i + 1;
        }
        proof {
            lemma_position_is(self@, LINE_END, i as int);
        }
        i
    }

    /// Whether a whole line has come in.
    pub fn has_line(&self) -> (has: bool)
        ensures
            has == holds_line(self@),
    {
        proof {
            lemma_position(self@, LINE_END);
        }
        self.line_end() < self.buf.len()
    }

    /// Takes the first line, without its end, if a whole one has come in.
    pub fn pop_line(&mut self) -> (line: Option<Vec<u8>>)
        ensures
            holds_line(old(self)@) ==> (line matches Some(l) && l@ == first_line(old(self)@))
                && final(self)@ == behind_line(old(self)@),
            !holds_line(old(self)@) ==> line is None && final(self)@ == old(self)@,
    {
        proof {
            lemma_position(self@, LINE_END);
        }
        let i = self.line_end();
        if i < self.buf.len() {
            let ghost before = self.buf@;
            let mut rest = self.buf.split_off(i + 1);
            assert(rest@ =~= behind_line(before));
            let mut line: Vec<u8> = Vec::new();
            line.append(&mut self.buf);
            line.pop();
            assert(line@ =~= first_line(before));
            self.buf.append(&mut rest);
            assert(self.buf@ =~= behind_line(before));
            Some(line)
        } else {
            None
        }
    }

    /// Drops all whole lines.
    pub fn consume_lines(&mut self)
        ensures
            final(self)@ == after_last(old(self)@, LINE_END),
            !holds_line(final(self)@),
    {
        let ghost all = self@;
        let mut more: bool = true;
        while more
            invariant
                after_last(self@, LINE_END) == after_last(all, LINE_END),
                !more ==> !holds_line(self@),
            decreases self@.len() + if more { 1int } else { 0 },
        {
            proof {
                lemma_position(self@, LINE_END);
                if holds_line(self@) {
                    lemma_after_last_behind(self@, LINE_END, position(self@, LINE_END) as int);
                }
            }
            more = self.pop_line().is_some();
        }
        proof {
            lemma_after_last_none(self@, LINE_END);
        }
    }

    /// Puts in what was read, and says what it means to a reader who waits for
    /// a message. One that is there already counts, whatever was read.
    pub fn wait(&mut self, outcome: ReadOutcome) -> (poll: Poll)
        ensures
            final(self)@ == buffered(old(self)@, outcome),
            poll == poll_of(old(self)@, outcome),
    {
        let ready = self.has_line();
        match outcome {
            ReadOutcome::Bytes(mut bytes) => {
                let n: usize = bytes.len();
                self.buf.append(&mut bytes);
                if ready {
                    Poll::Activity
                } else if n == 0 {
                    Poll::Closed
                } else if self.has_line() {
                    Poll::Activity
                } else {
                    Poll::Timeout
                }
            },
            ReadOutcome::Quiet => if ready {
                Poll::Activity
            } else {
                Poll::Timeout
            },
            ReadOutcome::Failed => if ready {
                Poll::Activity
            } else {
                Poll::Closed
            },
        }
    }

    /// Puts in what was read and drops all whole lines, so that a burst of
    /// messages counts as one. Says whether to read on.
    pub fn drain(&mut self, outcome: ReadOutcome) -> (more: bool)
        ensures
            more == (outcome matches ReadOutcome::Bytes(b) && b@.len() > 0),
            final(self)@ == if more {
                after_last(buffered(old(self)@, outcome), LINE_END)
            } else {
                old(self)@
            },
    {
        match outcome {
            ReadOutcome::Bytes(mut bytes) => {
                if bytes.len() == 0 {
                    return false;
                }
                self.buf.append(&mut bytes);
                self.consume_lines();
                true
            },
            _ => false,
        }
    }

    /// Takes the message that has come in, or says what to do until it has.
    pub fn recv_json(&mut self, now: Instant, deadline: Instant) -> (next: Receive)
        ensures
            holds_line(old(self)@) ==> final(self)@ == behind_line(old(self)@) && match parsed_bytes(
                first_line(old(self)@),
            ) {
                Some(t) => next matches Receive::Message(j) && j.tree() == t,
                None => next is Garbled,
            },
            !holds_line(old(self)@) ==> final(self)@ == old(self)@ && if deadline.nanos
                <= now.nanos {
                next is TimedOut
            } else {
                next matches Receive::Wait(d) && d.nanos == deadline.nanos - now.nanos
            },
    {
        match self.pop_line() {
            Some(line) => match parse_bytes(line.as_slice()) {
                Some(message) => Receive::Message(message),
                None => Receive::Garbled,
            },
            None => {
                if now.reached(deadline) {
                    Receive::TimedOut
                } else {
                    Receive::Wait(deadline.saturating_duration_since(now))
                }
            },
        }
    }
}

/// What comes behind the last `c` does not depend on what comes before some
/// `c`.
proof fn lemma_after_last_behind<T>(s: Seq<T>, c: T, i: int)
    requires
        0 <= i < s.len(),
        s[i] == c,
    ensures
        after_last(s.skip(i + 1), c) == after_last(s, c),
    decreases s.len(),
{
    let rest = s.skip(i + 1);
    if i == s.len() - 1 {
        assert(rest =~= Seq::empty());
        assert(after_last(s, c) =~= Seq::empty());
    } else if s.last() != c {
        let shorter = s.drop_last();
        lemma_after_last_behind(shorter, c, i);
        assert(rest.drop_last() =~= shorter.skip(i + 1));
        assert(rest.last() == s.last());
    } else {
        assert(rest.last() == s.last());
    }
}

/// Without a `c`, all comes behind the last one.
proof fn lemma_after_last_none<T>(s: Seq<T>, c: T)
    requires
        !s.contains(c),
    ensures
        after_last(s, c) == s,
    decreases s.len(),
{
    if s.len() > 0 {
        let shorter = s.drop_last();
        assert(s.contains(s.last())) by {
            assert(s[s.len() - 1] == s.last());
        }
        assert(!shorter.contains(c)) by {
            if shorter.contains(c) {
                let i = shorter.index_of(c);
                assert(s[i] == c);
            }
        }
        lemma_after_last_none(shorter, c);
        assert(after_last(s, c) =~= s);
    } else {
        assert(s =~= Seq::empty());
    }
}

/// Messages come out as they went in, in their order, whatever follows: the
/// first line of what was sent is the first message, and what follows it is
/// left.
pub proof fn law_messages_come_out_in_order(message: Seq<u8>, rest: Seq<u8>)
    requires
        !message.contains(LINE_END),
    ensures
        holds_line(message.push(LINE_END) + rest),
        first_line(message.push(LINE_END) + rest) == message,
        behind_line(message.push(LINE_END) + rest) == rest,
{
    let bytes = message.push(LINE_END) + rest;
    assert(bytes[message.len() as int] == LINE_END);
    assert forall|j: int| 0 <= j < message.len() implies bytes[j] != LINE_END by {
        assert(message.contains(message[j]));
    }
    lemma_position_is(bytes, LINE_END, message.len() as int);
    assert(first_line(bytes) =~= message);
    assert(behind_line(bytes) =~= rest);
}

/// How bytes are cut up on their way does not matter.
pub proof fn law_reads_add_up(before: Seq<u8>, a: Vec<u8>, b: Vec<u8>, both: Vec<u8>)
    requires
        both@ == a@ + b@,
    ensures
        buffered(buffered(before, ReadOutcome::Bytes(a)), ReadOutcome::Bytes(b)) == buffered(
            before,
            ReadOutcome::Bytes(both),
        ),
{
    assert((before + a@) + b@ =~= before + both@);
}

/// A value as a line to send.
pub fn frame(json: &Json) -> (bytes: Vec<u8>)
    requires
        json.writable(NESTING as nat),
    ensures
        bytes@ == compact(json.tree()).push(LINE_END),
        first_line(bytes@) == compact(json.tree()),
        behind_line(bytes@).len() == 0,
        parsed_bytes(first_line(bytes@)) == Some(json.tree()),
{
    let mut bytes = compact_bytes(json);
    let ghost message = bytes@;
    bytes.push(LINE_END);
    proof {
        law_messages_come_out_in_order(message, Seq::empty());
        assert(bytes@ =~= message.push(LINE_END) + Seq::empty());
    }
    bytes
}

/// A record of one text.
pub open spec fn one_text(name: Seq<char>, text: Seq<char>) -> Tree {
    Tree::Record(Map::<Seq<char>, Tree>::empty().insert(name, Tree::Text(text)))
}

/// What is subscribed to for one pane.
pub open spec fn pane_subscription(id: Seq<char>) -> Tree {
    Tree::Record(
        Map::<Seq<char>, Tree>::empty()
            .insert("type"@, Tree::Text("pane.agent_status_changed"@))
            .insert("pane_id"@, Tree::Text(id)),
    )
}

/// What is subscribed to: panes that come, panes that go, agents that are
/// detected, and the status of the agent in each of `panes`.
pub open spec fn subscriptions(panes: Seq<Seq<char>>) -> Seq<Tree> {
    seq![
        one_text("type"@, "pane.created"@),
        one_text("type"@, "pane.exited"@),
        one_text("type"@, "pane.agent_detected"@),
    ] + panes.map_values(|id: Seq<char>| pane_subscription(id))
}

/// A request.
pub open spec fn request(id: Seq<char>, method: Seq<char>, params: Tree) -> Tree {
    Tree::Record(
        Map::<Seq<char>, Tree>::empty()
            .insert("id"@, Tree::Text(id))
            .insert("method"@, Tree::Text(method))
            .insert("params"@, params),
    )
}

/// The request that subscribes to what concerns `panes`.
pub open spec fn subscription_request(panes: Seq<Seq<char>>) -> Tree {
    request(
        "wakeup-sub"@,
        "events.subscribe"@,
        Tree::Record(
            Map::<Seq<char>, Tree>::empty().insert(
                "subscriptions"@,
                Tree::List(subscriptions(panes)),
            ),
        ),
    )
}

/// The request for the list of agents.
pub open spec fn list_request() -> Tree {
    request("wakeup-list"@, "agent.list"@, Tree::Record(Map::<Seq<char>, Tree>::empty()))
}

fn text_record(name: &str, text: &str) -> (json: Json)
    ensures
        json.tree() == one_text(name@, text@),
        json.writable(1),
{
    let mut m: Vec<(String, Json)> = Vec::new();
    assert(entry_trees(m@) =~= Seq::empty());
    assert(entries_writable(m@, 0));
    put(&mut m, name, Json::Text(text.to_string()));
    proof {
        reveal_with_fuel(Json::writable, 2);
    }
    Json::Record(m)
}

fn request_of(id: &str, method: &str, params: Json, Ghost(depth): Ghost<nat>) -> (json: Json)
    requires
        params.writable(depth),
    ensures
        json.tree() == request(id@, method@, params.tree()),
        json.writable(depth + 1),
{
    let mut m: Vec<(String, Json)> = Vec::new();
    assert(entry_trees(m@) =~= Seq::empty());
    assert(entries_writable(m@, depth));
    put(&mut m, "id", Json::Text(id.to_string()));
    put(&mut m, "method", Json::Text(method.to_string()));
    put(&mut m, "params", params);
    Json::Record(m)
}

/// The request that subscribes to what concerns `panes`.
pub fn subscribe_request(panes: &Panes) -> (json: Json)
    ensures
        json.tree() == subscription_request(panes@),
        json.writable(4),
{
    let mut subs: Vec<Json> = Vec::new();
    subs.push(text_record("type", "pane.created"));
    subs.push(text_record("type", "pane.exited"));
    subs.push(text_record("type", "pane.agent_detected"));
    let ids = panes.ids();
    let ghost wanted = subscriptions(panes@);
    for i in 0..ids.len()
        invariant
            wanted == subscriptions(panes@),
            texts(ids@) == panes@,
            subs@.len() == i + 3,
            forall|j: int| 0 <= j < i + 3 ==> (#[trigger] subs@[j]).tree() == wanted[j],
            forall|j: int| 0 <= j < i + 3 ==> (#[trigger] subs@[j]).writable(1),
    {
        let mut m: Vec<(String, Json)> = Vec::new();
        assert(entry_trees(m@) =~= Seq::empty());
        assert(entries_writable(m@, 0));
        put(&mut m, "type", Json::Text("pane.agent_status_changed".to_string()));
        put(&mut m, "pane_id", Json::Text(ids[i].clone()));
        proof {
            reveal_with_fuel(Json::writable, 2);
            assert(texts(ids@)[i as int] == ids@[i as int]@);
            assert(wanted[i + 3] == pane_subscription(ids@[i as int]@));
        }
        subs.push(Json::Record(m));
    }
    assert(trees(subs@) =~= wanted);
    let list = Json::List(subs);
    assert(list.writable(2));
    let mut m: Vec<(String, Json)> = Vec::new();
    assert(entry_trees(m@) =~= Seq::empty());
    assert(entries_writable(m@, 2));
    put(&mut m, "subscriptions", list);
    let params = Json::Record(m);
    assert(params.writable(3));
    request_of("wakeup-sub", "events.subscribe", params, Ghost(3))
}

/// The line that subscribes to what concerns `panes`.
pub fn subscribe_line(panes: &Panes) -> (bytes: Vec<u8>)
    ensures
        bytes@ == compact(subscription_request(panes@)).push(LINE_END),
        parsed_bytes(first_line(bytes@)) == Some(subscription_request(panes@)),
{
    let json = subscribe_request(panes);
    proof {
        lemma_writable_deeper(json, 4, NESTING as nat);
    }
    frame(&json)
}

/// The line that asks for the list of agents.
pub fn agent_list_line() -> (bytes: Vec<u8>)
    ensures
        bytes@ == compact(list_request()).push(LINE_END),
        parsed_bytes(first_line(bytes@)) == Some(list_request()),
{
    let m: Vec<(String, Json)> = Vec::new();
    assert(entry_trees(m@) =~= Seq::empty());
    let params = Json::Record(m);
    assert(params.writable(1));
    let json = request_of("wakeup-list", "agent.list", params, Ghost(1));
    proof {
        lemma_writable_deeper(json, 2, NESTING as nat);
    }
    frame(&json)
}

/// The reply that says that the subscription has started.
pub open spec fn is_ack(t: Tree) -> bool {
    t.text_field("id"@) == Some("wakeup-sub"@) && match t.field("result"@) {
        Some(result) => result.text_field("type"@) == Some("subscription_started"@),
        None => false,
    }
}

/// Whether a message says that the subscription has started.
pub fn subscription_started(v: &Json) -> (started: bool)
    ensures
        started == is_ack(v.tree()),
{
    let named = match v.text_field("id") {
        Some(id) => same_text(id, "wakeup-sub"),
        None => false,
    };
    named && match v.get("result") {
        Some(result) => match result.text_field("type") {
            Some(kind) => same_text(kind, "subscription_started"),
            None => false,
        },
        None => false,
    }
}

/// Only a reply to the subscription is taken for its start.
pub proof fn law_ack_answers_the_subscription(t: Tree, panes: Seq<Seq<char>>)
    requires
        is_ack(t),
    ensures
        t.text_field("id"@) == subscription_request(panes).text_field("id"@),
{
    reveal_strlit("id");
    reveal_strlit("method");
    reveal_strlit("params");
    assert("id"@.len() == 2 && "method"@.len() == 6 && "params"@.len() == 6);
}

/// A line is there exactly if its end is.
pub proof fn law_lines_end_with_a_line_end(bytes: Seq<u8>)
    ensures
        holds_line(bytes) <==> exists|i: int| 0 <= i < bytes.len() && #[trigger] bytes[i] == 10,
{
}

/// A message that is there already counts. Else bytes that are read count as a
/// message if they complete one, no bytes at all and an error mean the end, and
/// anything else means that none has come in time.
pub proof fn law_reads_tell_whether_a_message_is_there(before: Seq<u8>, bytes: Vec<u8>)
    ensures
        before.contains(10) ==> {
            &&& poll_of(before, ReadOutcome::Bytes(bytes)) is Activity
            &&& poll_of(before, ReadOutcome::Quiet) is Activity
            &&& poll_of(before, ReadOutcome::Failed) is Activity
        },
        !before.contains(10) ==> {
            &&& poll_of(before, ReadOutcome::Bytes(bytes)) is Closed <==> bytes@.len() == 0
            &&& poll_of(before, ReadOutcome::Bytes(bytes)) is Activity <==> bytes@.contains(10)
            &&& poll_of(before, ReadOutcome::Quiet) is Timeout
            &&& poll_of(before, ReadOutcome::Failed) is Closed
        },
{
    let all = before + bytes@;
    if bytes@.contains(10) {
        let i = bytes@.index_of(10);
        assert(all[before.len() + i] == 10);
    }
    if all.contains(10) && !before.contains(10) {
        let i = all.index_of(10);
        if i < before.len() {
            assert(before[i] == 10);
        }
        assert(bytes@[i - before.len()] == 10);
    }
}

/// What is read comes behind what is there, and nothing else changes that.
pub proof fn law_reads_are_kept(before: Seq<u8>, bytes: Vec<u8>)
    ensures
        buffered(before, ReadOutcome::Bytes(bytes)).take(before.len() as int) == before,
        buffered(before, ReadOutcome::Bytes(bytes)).skip(before.len() as int) == bytes@,
        buffered(before, ReadOutcome::Quiet) == before,
        buffered(before, ReadOutcome::Failed) == before,
{
    assert((before + bytes@).take(before.len() as int) =~= before);
    assert((before + bytes@).skip(before.len() as int) =~= bytes@);
}

/// The names of the fields of a request are different.
proof fn lemma_request_names()
    ensures
        "id"@.len() == 2,
        "method"@.len() == 6,
        "method"@[0] == 'm',
        "params"@.len() == 6,
        "params"@[0] == 'p',
        "type"@.len() == 4,
        "pane_id"@.len() == 7,
{
    reveal_strlit("id");
    reveal_strlit("method");
    reveal_strlit("params");
    reveal_strlit("type");
    reveal_strlit("pane_id");
}

/// The watcher subscribes to panes that come and go, to agents that are
/// detected, and to the status of the agent in every pane, once each.
pub proof fn law_every_pane_is_subscribed_to(panes: Seq<Seq<char>>, i: int)
    ensures
        ({
            let t = subscription_request(panes);
            &&& gives(t, "id"@, Tree::Text("wakeup-sub"@))
            &&& gives(t, "method"@, Tree::Text("events.subscribe"@))
            &&& exists|params: Tree| #[trigger]
                gives(t, "params"@, params) && gives(
                    params,
                    "subscriptions"@,
                    Tree::List(subscriptions(panes)),
                )
        }),
        subscriptions(panes).len() == panes.len() + 3,
        gives(subscriptions(panes)[0], "type"@, Tree::Text("pane.created"@)),
        gives(subscriptions(panes)[1], "type"@, Tree::Text("pane.exited"@)),
        gives(subscriptions(panes)[2], "type"@, Tree::Text("pane.agent_detected"@)),
        0 <= i < panes.len() ==> {
            &&& gives(
                subscriptions(panes)[i + 3],
                "type"@,
                Tree::Text("pane.agent_status_changed"@),
            )
            &&& gives(subscriptions(panes)[i + 3], "pane_id"@, Tree::Text(panes[i]))
        },
{
    lemma_request_names();
    let params = Tree::Record(
        Map::<Seq<char>, Tree>::empty().insert("subscriptions"@, Tree::List(subscriptions(panes))),
    );
    assert(gives(subscription_request(panes), "params"@, params));
    if 0 <= i < panes.len() {
        assert(subscriptions(panes)[i + 3] == pane_subscription(panes[i]));
    }
}

/// The list of agents is asked for by the name of its method.
pub proof fn law_agents_are_asked_for()
    ensures
        gives(list_request(), "id"@, Tree::Text("wakeup-list"@)),
        gives(list_request(), "method"@, Tree::Text("agent.list"@)),
        gives(list_request(), "params"@, Tree::Record(Map::<Seq<char>, Tree>::empty())),
{
    lemma_request_names();
}

/// A message says that the subscription has started exactly if it bears the id
/// of the subscription and a result of that type.
pub proof fn law_acks_bear_id_and_type(t: Tree)
    ensures
        is_ack(t) <==> gives(t, "id"@, Tree::Text("wakeup-sub"@)) && exists|result: Tree|
            #[trigger]
            gives(t, "result"@, result) && gives(
                result,
                "type"@,
                Tree::Text("subscription_started"@),
            ),
{
    if is_ack(t) {
        assert(gives(t, "result"@, t.field("result"@)->Some_0));
    }
}

} // verus!
