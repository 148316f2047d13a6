//! Snapshots of the agents that Herdr manages.

use vstd::prelude::*;
use vstd::string::*;
use crate::json::{gives, parse, parsed, trees, Json, Tree};
use crate::text::{
    after_last, decimal, decimal_text, is_listed, join, join_first, joined, last_part, lowercase,
    law_joining_puts_the_separator_between, law_trailing_characters_go,
    law_what_comes_last_is_behind_a_separator, same_text, texts, to_lowercase, trim, trimmed,
    without_trailing,
};

verus! {

/// The order of texts by their characters.
pub open spec fn precedes(a: Seq<char>, b: Seq<char>) -> bool
    decreases a.len(),
{
    if b.len() == 0 {
        false
    } else if a.len() == 0 {
        true
    } else if a[0] == b[0] {
        precedes(a.drop_first(), b.drop_first())
    } else {
        a[0] < b[0]
    }
}

proof fn lemma_precedes_is_irreflexive(a: Seq<char>)
    ensures
        !precedes(a, a),
    decreases a.len(),
{
    if a.len() > 0 {
        lemma_precedes_is_irreflexive(a.drop_first());
    }
}

proof fn lemma_precedes_is_transitive(a: Seq<char>, b: Seq<char>, c: Seq<char>)
    requires
        precedes(a, b),
        precedes(b, c),
    ensures
        precedes(a, c),
    decreases a.len(),
{
    if a.len() > 0 && a[0] == b[0] && b[0] == c[0] {
        lemma_precedes_is_transitive(a.drop_first(), b.drop_first(), c.drop_first());
    }
}

proof fn lemma_precedes_is_total(a: Seq<char>, b: Seq<char>)
    requires
        a != b,
    ensures
        precedes(a, b) || precedes(b, a),
    decreases a.len(),
{
    if a.len() == 0 {
        assert(b.len() != 0) by {
            if b.len() == 0 {
                assert(a =~= b);
            }
        }
    } else if b.len() > 0 && a[0] == b[0] {
        if a.drop_first() == b.drop_first() {
            assert(a =~= seq![a[0]] + a.drop_first());
            assert(b =~= seq![b[0]] + b.drop_first());
        }
        lemma_precedes_is_total(a.drop_first(), b.drop_first());
    }
}

/// True if `a` comes before `b`.
fn comes_before(a: &str, b: &str) -> (r: bool)
    ensures
        r == precedes(a@, b@),
{
    let m: usize = a.unicode_len();
    let n: usize = b.unicode_len();
    let mut i: usize = 0;
    assert(a@.skip(0) =~= a@);
    assert(b@.skip(0) =~= b@);
    while i < m && i < n && a.get_char(i) == b.get_char(i)
        invariant
            m == a@.len(),
            n == b@.len(),
            i <= m,
            i <= n,
            precedes(a@, b@) == precedes(a@.skip(i as int), b@.skip(i as int)),
        decreases m - i,
    {
        assert(a@.skip(i as int).drop_first() =~= a@.skip(i + 1));
        assert(b@.skip(i as int).drop_first() =~= b@.skip(i + 1));
        i = i + 1;
    }
    if i >= n {
        false
    } else if i >= m {
        true
    } else {
        a.get_char(i) < b.get_char(i)
    }
}

/// Each text comes before the next one. None occurs twice.
pub open spec fn ordered(list: Seq<Seq<char>>) -> bool {
    forall|i: int, j: int| 0 <= i < j < list.len() ==> precedes(#[trigger] list[i], #[trigger] list[j])
}

/// There is one way to put a set of texts in order.
pub proof fn law_order_is_unique(a: Seq<Seq<char>>, b: Seq<Seq<char>>)
    requires
        ordered(a),
        ordered(b),
        a.to_set() == b.to_set(),
    ensures
        a == b,
    decreases a.len(),
{
    if a.len() == 0 {
        if b.len() > 0 {
            assert(b.to_set().contains(b[0]));
            assert(a.to_set().contains(b[0]));
        }
        assert(a =~= b);
    } else {
        assert(a.to_set().contains(a[0]));
        assert(b.to_set().contains(a[0]));
        let j = b.index_of(a[0]);
        assert(a.to_set().contains(b[0])) by {
            assert(b.to_set().contains(b[0]));
        }
        let i = a.index_of(b[0]);
        if i > 0 && j > 0 {
            lemma_precedes_is_transitive(a[0], b[0], a[0]);
            lemma_precedes_is_irreflexive(a[0]);
        }
        assert(a[0] == b[0]);
        let x = a.drop_first();
        let y = b.drop_first();
        assert forall|i: int, j: int| 0 <= i < j < x.len() implies precedes(
            #[trigger] x[i],
            #[trigger] x[j],
        ) by {
            assert(precedes(a[i + 1], a[j + 1]));
        }
        assert forall|i: int, j: int| 0 <= i < j < y.len() implies precedes(
            #[trigger] y[i],
            #[trigger] y[j],
        ) by {
            assert(precedes(b[i + 1], b[j + 1]));
        }
        lemma_rest_of_order(a);
        lemma_rest_of_order(b);
        law_order_is_unique(x, y);
        assert(a =~= seq![a[0]] + x);
        assert(b =~= seq![b[0]] + y);
    }
}

/// Without its first text, an ordered list has all its other texts.
proof fn lemma_rest_of_order(a: Seq<Seq<char>>)
    requires
        ordered(a),
        a.len() > 0,
    ensures
        a.drop_first().to_set() == a.to_set().remove(a[0]),
{
    let x = a.drop_first();
    assert forall|t: Seq<char>| #[trigger] x.to_set().contains(t) implies a.to_set().remove(
        a[0],
    ).contains(t) by {
        let i = x.index_of(t);
        assert(a[i + 1] == t);
        assert(precedes(a[0], a[i + 1]));
        lemma_precedes_is_irreflexive(t);
    }
    assert forall|t: Seq<char>| #[trigger]
        a.to_set().remove(a[0]).contains(t) implies x.to_set().contains(t) by {
        let i = a.index_of(t);
        assert(x[i - 1] == t);
    }
    assert(x.to_set() =~= a.to_set().remove(a[0]));
}

/// A set of panes, in the order of their ids.
#[derive(Debug)]
pub struct Panes {
    ids: Vec<String>,
}

impl View for Panes {
    type V = Seq<Seq<char>>;

    closed spec fn view(&self) -> Seq<Seq<char>> {
        texts(self.ids@)
    }
}

impl Panes {
    #[verifier::type_invariant]
    spec fn in_order(self) -> bool {
        ordered(texts(self.ids@))
    }

    /// No pane.
    pub fn new() -> (p: Panes)
        ensures
            p@ == Seq::<Seq<char>>::empty(),
    {
        let ids: Vec<String> = Vec::new();
        assert(texts(ids@) =~= Seq::empty());
        Panes { ids }
    }

    /// Adds a pane, unless it is there already.
    pub fn insert(self, id: String) -> (p: Panes)
        ensures
            ordered(p@),
            p@.to_set() == self@.to_set().insert(id@),
    {
        proof {
            use_type_invariant(&self);
        }
        let mut ids = self.ids;
        let ghost before = texts(ids@);
        let mut at: usize = 0;
        while at < ids.len() && comes_before(ids[at].as_str(), id.as_str())
            invariant
                at <= ids@.len(),
                before == texts(ids@),
                forall|i: int| 0 <= i < at ==> precedes(#[trigger] before[i], id@),
            decreases ids@.len() - at,
        {
            at = at + 1;
        }
        if at < ids.len() && same_text(ids[at].as_str(), id.as_str()) {
            assert(before[at as int] == id@);
            assert(before.to_set().contains(id@));
            assert(before.to_set().insert(id@) =~= before.to_set());
            return Panes { ids };
        }
        ids.insert(at, id);
        let ghost after = texts(ids@);
        assert(after =~= before.insert(at as int, id@));
        proof {
            assert forall|i: int| at <= i < before.len() implies precedes(
                id@,
                #[trigger] before[i],
            ) by {
                lemma_precedes_is_total(id@, before[at as int]);
                if i > at {
                    assert(precedes(before[at as int], before[i]));
                    lemma_precedes_is_transitive(id@, before[at as int], before[i]);
                }
            }
            assert forall|i: int, j: int| 0 <= i < j < after.len() implies precedes(
                #[trigger] after[i],
                #[trigger] after[j],
            ) by {
                let x = if i < at { i } else { i - 1 };
                let y = if j < at { j } else { j - 1 };
                if i != at && j != at {
                    assert(precedes(before[x], before[y]));
                } else if i == at {
                    assert(precedes(id@, before[y]));
                } else {
                    assert(precedes(before[x], id@));
                }
            }
            assert forall|t: Seq<char>| #[trigger] after.to_set().contains(t) implies (
            before.to_set().insert(id@)).contains(t) by {
                let i = after.index_of(t);
                if i != at {
                    let x = if i < at { i } else { i - 1 };
                    assert(before[x] == t);
                }
            }
            assert forall|t: Seq<char>| #[trigger]
                before.to_set().insert(id@).contains(t) implies after.to_set().contains(t) by {
                if t == id@ {
                    assert(after[at as int] == t);
                } else {
                    let x = before.index_of(t);
                    let i = if x < at { x } else { x + 1 };
                    assert(after[i] == t);
                }
            }
            assert(after.to_set() =~= before.to_set().insert(id@));
        }
        Panes { ids }
    }

    /// The ids of the panes, in order.
    pub fn ids(&self) -> (ids: &Vec<String>)
        ensures
            texts(ids@) == self@,
            ordered(self@),
    {
        proof {
            use_type_invariant(self);
        }
        &self.ids
    }

    /// True if both are the same set of panes.
    pub fn same(&self, other: &Panes) -> (same: bool)
        ensures
            same == (self@ == other@),
            same == (self@.to_set() == other@.to_set()),
    {
        proof {
            use_type_invariant(self);
            use_type_invariant(other);
            if self@.to_set() == other@.to_set() {
                law_order_is_unique(self@, other@);
            }
        }
        if self.ids.len() != other.ids.len() {
            return false;
        }
        for i in 0..self.ids.len()
            invariant
                self.ids@.len() == other.ids@.len(),
                self@.to_set() == other@.to_set() ==> self@ == other@,
                forall|j: int| 0 <= j < i ==> self@[j] == other@[j],
        {
            if !same_text(self.ids[i].as_str(), other.ids[i].as_str()) {
                assert(self@[i as int] != other@[i as int]);
                return false;
            }
        }
        assert(self@ =~= other@);
        true
    }
}

/// The first of two that is there, or the third.
pub open spec fn first_of(a: Option<Seq<char>>, b: Option<Seq<char>>, c: Seq<char>) -> Seq<char> {
    match a {
        Some(s) => s,
        None => match b {
            Some(s) => s,
            None => c,
        },
    }
}

/// What an agent is called: its name and the last part of its directory.
pub open spec fn label_of(agent: Tree) -> Seq<char> {
    let name = first_of(agent.text_field("agent"@), agent.text_field("terminal_id"@), "agent"@);
    let cwd = first_of(agent.text_field("foreground_cwd"@), agent.text_field("cwd"@), ""@);
    let tail = after_last(without_trailing(cwd, '/'), '/');
    if tail.len() == 0 {
        name
    } else {
        name + "@"@ + tail
    }
}

/// What an agent is called: its name and the last part of its directory.
pub fn agent_label(agent: &Json) -> (label: String)
    ensures
        label@ == label_of(agent.tree()),
{
    let name = match agent.text_field("agent") {
        Some(s) => s,
        None => match agent.text_field("terminal_id") {
            Some(s) => s,
            None => "agent",
        },
    };
    let cwd = match agent.text_field("foreground_cwd") {
        Some(s) => s,
        None => match agent.text_field("cwd") {
            Some(s) => s,
            None => "",
        },
    };
    let tail = last_part(cwd, '/');
    let mut label = name.to_string();
    if !tail.is_empty() {
        label.append("@");
        label.append(tail);
    }
    label
}

/// Whether the status of an agent, in lower case, is one of `statuses`.
pub open spec fn counts(agent: Tree, statuses: Seq<Seq<char>>) -> bool {
    statuses.contains(lowercase(agent.text_field("agent_status"@).unwrap_or(""@)))
}

/// What the agents that count are called, in their order.
pub open spec fn working_labels(agents: Seq<Tree>, statuses: Seq<Seq<char>>) -> Seq<Seq<char>>
    decreases agents.len(),
{
    if agents.len() == 0 {
        Seq::empty()
    } else if counts(agents.last(), statuses) {
        working_labels(agents.drop_last(), statuses).push(label_of(agents.last()))
    } else {
        working_labels(agents.drop_last(), statuses)
    }
}

/// Work is seen exactly if the status of some agent counts.
pub proof fn law_work_is_seen_if_an_agent_counts(agents: Seq<Tree>, statuses: Seq<Seq<char>>)
    ensures
        working_labels(agents, statuses).len() > 0 <==> exists|i: int|
            0 <= i < agents.len() && counts(#[trigger] agents[i], statuses),
    decreases agents.len(),
{
    if agents.len() > 0 {
        let before = agents.drop_last();
        law_work_is_seen_if_an_agent_counts(before, statuses);
        if counts(agents.last(), statuses) {
            assert(counts(agents[agents.len() - 1], statuses));
        } else if exists|i: int| 0 <= i < before.len() && counts(#[trigger] before[i], statuses) {
            let i = choose|i: int| 0 <= i < before.len() && counts(#[trigger] before[i], statuses);
            assert(counts(agents[i], statuses));
        } else {
            assert forall|i: int| 0 <= i < agents.len() implies !counts(
                #[trigger] agents[i],
                statuses,
            ) by {
                if i < before.len() {
                    assert(!counts(before[i], statuses));
                }
            }
        }
    }
}

/// The panes of all agents that have one.
pub open spec fn panes_of(agents: Seq<Tree>) -> Set<Seq<char>>
    decreases agents.len(),
{
    if agents.len() == 0 {
        Set::empty()
    } else {
        match agents.last().text_field("pane_id"@) {
            Some(id) => panes_of(agents.drop_last()).insert(id),
            None => panes_of(agents.drop_last()),
        }
    }
}

/// The panes are those that some agent names.
pub proof fn law_panes_are_those_of_agents(agents: Seq<Tree>, id: Seq<char>)
    ensures
        panes_of(agents).contains(id) <==> exists|i: int|
            0 <= i < agents.len() && (#[trigger] agents[i]).text_field("pane_id"@) == Some(id),
    decreases agents.len(),
{
    if agents.len() > 0 {
        let before = agents.drop_last();
        law_panes_are_those_of_agents(before, id);
        if exists|i: int|
            0 <= i < before.len() && (#[trigger] before[i]).text_field("pane_id"@) == Some(id) {
            let i = choose|i: int|
                0 <= i < before.len() && (#[trigger] before[i]).text_field("pane_id"@) == Some(id);
            assert(agents[i] == before[i]);
        }
        if exists|i: int|
            0 <= i < agents.len() && (#[trigger] agents[i]).text_field("pane_id"@) == Some(id) {
            let i = choose|i: int|
                0 <= i < agents.len() && (#[trigger] agents[i]).text_field("pane_id"@) == Some(id);
            if i < before.len() {
                assert(agents[i] == before[i]);
            }
        }
        if agents.last().text_field("pane_id"@) == Some(id) {
            assert(agents[agents.len() - 1].text_field("pane_id"@) == Some(id));
        }
    }
}

/// The agents at one moment.
#[derive(Debug)]
pub struct Snapshot {
    /// Whether the list of agents could be had at all.
    pub available: bool,
    /// What the agents that count as working are called.
    pub working: Vec<String>,
    /// The panes of all agents.
    pub panes: Panes,
    /// How many agents there are.
    pub total: usize,
}

/// What a [`Snapshot`] amounts to.
pub struct Scene {
    pub available: bool,
    pub working: Seq<Seq<char>>,
    pub panes: Set<Seq<char>>,
    pub total: nat,
}

impl View for Snapshot {
    type V = Scene;

    open spec fn view(&self) -> Scene {
        Scene {
            available: self.available,
            working: texts(self.working@),
            panes: self.panes@.to_set(),
            total: self.total as nat,
        }
    }
}

impl Scene {
    /// Without a list of agents.
    pub open spec fn unavailable() -> Scene {
        Scene { available: false, working: Seq::empty(), panes: Set::empty(), total: 0 }
    }

    /// What a reply with a list of agents shows.
    pub open spec fn of(reply: Tree, statuses: Seq<Seq<char>>) -> Scene {
        match reply.field("result"@) {
            Some(result) => match result.list_field("agents"@) {
                Some(agents) => Scene {
                    available: true,
                    working: working_labels(agents, statuses),
                    panes: panes_of(agents),
                    total: agents.len(),
                },
                None => Scene::unavailable(),
            },
            None => Scene::unavailable(),
        }
    }

    /// What the text of a reply shows. `None` stands for no reply.
    pub open spec fn of_text(out: Option<Seq<char>>, statuses: Seq<Seq<char>>) -> Scene {
        match out {
            Some(text) => if trimmed(text).len() == 0 {
                Scene::unavailable()
            } else {
                match parsed(text) {
                    Ok(reply) => Scene::of(reply, statuses),
                    Err(_) => Scene::unavailable(),
                }
            },
            None => Scene::unavailable(),
        }
    }
}

/// The snapshot where there is no list of agents.
pub fn unavailable() -> (snap: Snapshot)
    ensures
        snap@ == Scene::unavailable(),
{
    let working: Vec<String> = Vec::new();
    let panes = Panes::new();
    assert(texts(working@) =~= Seq::empty());
    assert(panes@.to_set() =~= Set::empty());
    Snapshot { available: false, working, panes, total: 0 }
}

/// The snapshot that a reply with a list of agents shows.
pub fn snapshot_of(reply: &Json, statuses: &Vec<String>) -> (snap: Snapshot)
    ensures
        snap@ == Scene::of(reply.tree(), texts(statuses@)),
{
    let agents = match reply.get("result") {
        Some(result) => match result.list_field("agents") {
            Some(agents) => agents,
            None => {
                return unavailable();
            },
        },
        None => {
            return unavailable();
        },
    };
    let ghost all = trees(agents@);
    let mut working: Vec<String> = Vec::new();
    let mut panes = Panes::new();
    assert(all.take(0) =~= Seq::empty());
    assert(texts(working@) =~= Seq::empty());
    assert(panes@.to_set() =~= Set::empty());
    for i in 0..agents.len()
        invariant
            all == trees(agents@),
            texts(working@) == working_labels(all.take(i as int), texts(statuses@)),
            panes@.to_set() == panes_of(all.take(i as int)),
    {
        let agent = &agents[i];
        assert(all.take(i + 1).drop_last() =~= all.take(i as int));
        assert(all.take(i + 1).last() == agent.tree());
        if let Some(id) = agent.text_field("pane_id") {
            panes = panes.insert(id.to_string());
        }
        let status = match agent.text_field("agent_status") {
            Some(s) => s,
            None => "",
        };
        if is_listed(statuses, to_lowercase(status).as_str()) {
            let ghost before = working@;
            working.push(agent_label(agent));
            assert(texts(working@) =~= texts(before).push(label_of(agent.tree())));
        }
    }
    assert(all.take(agents@.len() as int) =~= all);
    Snapshot { available: true, working, panes, total: agents.len() }
}

/// The snapshot that the text of a reply shows. `None` stands for no reply.
pub fn herdr_agents(out: Option<&str>, statuses: &Vec<String>) -> (snap: Snapshot)
    ensures
        snap@ == Scene::of_text(
            match out {
                Some(text) => Some(text@),
                None => None,
            },
            texts(statuses@),
        ),
{
    match out {
        Some(text) => if trim(text).is_empty() {
            unavailable()
        } else {
            match parse(text) {
                Ok(reply) => snapshot_of(&reply, statuses),
                Err(_) => unavailable(),
            }
        },
        None => unavailable(),
    }
}

/// Whether the command line is asked for the agents, and not the socket: where
/// a single decision is wanted, or where the socket cannot be reached and the
/// command line may stand in for it.
pub fn asks_command_line(once: bool, socket_reached: bool, allow_cli_fallback: bool) -> (cli: bool)
    ensures
        cli == (once || (!socket_reached && allow_cli_fallback)),
{
    once || (!socket_reached && allow_cli_fallback)
}

/// The lines of a report on a snapshot.
pub open spec fn report(scene: Scene, statuses: Seq<Seq<char>>) -> Seq<Seq<char>> {
    let head = if scene.available {
        seq![
            "herdr: "@ + decimal(scene.total) + " agent(s), "@ + decimal(scene.working.len())
                + " matching ["@ + joined(statuses, ","@) + "]"@,
        ] + scene.working.map_values(|w: Seq<char>| "  working: "@ + w)
    } else {
        seq!["herdr: unavailable"@]
    };
    head.push(
        if scene.working.len() == 0 {
            "decision: allow sleep"@
        } else {
            "decision: keep awake"@
        },
    )
}

/// The lines of a report on a snapshot.
pub fn report_once(snap: &Snapshot, statuses: &Vec<String>) -> (lines: Vec<String>)
    ensures
        texts(lines@) == report(snap@, texts(statuses@)),
{
    let mut lines: Vec<String> = Vec::new();
    if !snap.available {
        lines.push("herdr: unavailable".to_string());
    } else {
        let mut head = "herdr: ".to_string();
        head.append(decimal_text(snap.total as u64).as_str());
        head.append(" agent(s), ");
        head.append(decimal_text(snap.working.len() as u64).as_str());
        head.append(" matching [");
        head.append(join(statuses, ",").as_str());
        head.append("]");
        let ghost first = head@;
        lines.push(head);
        let ghost rest = snap@.working.map_values(|w: Seq<char>| "  working: "@ + w);
        assert(texts(lines@) =~= seq![first] + rest.take(0));
        for i in 0..snap.working.len()
            invariant
                rest == snap@.working.map_values(|w: Seq<char>| "  working: "@ + w),
                texts(lines@) == seq![first] + rest.take(i as int),
        {
            let ghost before = lines@;
            let entry = "  working: ".to_string().concat(snap.working[i].as_str());
            lines.push(entry);
            assert(texts(lines@) =~= texts(before).push(entry@));
            assert(texts(lines@) =~= seq![first] + rest.take(i + 1));
        }
        assert(rest.take(snap.working@.len() as int) =~= rest);
    }
    let ghost before = lines@;
    if snap.working.len() == 0 {
        lines.push("decision: allow sleep".to_string());
    } else {
        lines.push("decision: keep awake".to_string());
    }
    assert(texts(lines@) =~= texts(before).push(lines@.last()@));
    assert(texts(lines@) =~= report(snap@, texts(statuses@)));
    lines
}

/// How many agents work, with the names of the first three.
pub open spec fn summary(working: Seq<Seq<char>>) -> Seq<char> {
    let n = working.len();
    let head = if n > 3 {
        working.take(3)
    } else {
        working
    };
    let shown = decimal(n) + " working: "@ + joined(head, ", "@);
    if n > 3 {
        shown + ", +"@ + decimal((n - 3) as nat)
    } else {
        shown
    }
}

/// How many agents work, with the names of the first three.
pub fn summarize(working: &Vec<String>) -> (s: String)
    ensures
        s@ == summary(texts(working@)),
{
    let n: usize = working.len();
    let mut s = decimal_text(n as u64);
    s.append(" working: ");
    if n > 3 {
        s.append(join_first(working, 3, ", ").as_str());
        s.append(", +");
        s.append(decimal_text((n - 3) as u64).as_str());
    } else {
        s.append(join(working, ", ").as_str());
    }
    s
}

/// The order of texts is decided at the first place where they differ, and by
/// their lengths where there is none.
pub proof fn law_order_is_decided_where_texts_differ(a: Seq<char>, b: Seq<char>, i: int)
    requires
        0 <= i <= a.len(),
        i <= b.len(),
        a.take(i) == b.take(i),
    ensures
        i == b.len() ==> !precedes(a, b),
        i == a.len() && i < b.len() ==> precedes(a, b),
        i < a.len() && i < b.len() && a[i] != b[i] ==> (precedes(a, b) <==> a[i] < b[i]),
    decreases i,
{
    if i > 0 {
        assert(a[0] == a.take(i)[0] && b[0] == b.take(i)[0]);
        assert(a.drop_first().take(i - 1) =~= a.take(i).drop_first());
        assert(b.drop_first().take(i - 1) =~= b.take(i).drop_first());
        law_order_is_decided_where_texts_differ(a.drop_first(), b.drop_first(), i - 1);
    }
}

/// True if `text` is the text under `name`, or the empty text where there is
/// none.
pub open spec fn reads(agent: Tree, name: Seq<char>, text: Seq<char>) -> bool {
    gives(agent, name, Tree::Text(text)) || (text.len() == 0 && forall|other: Seq<char>|
        !#[trigger] gives(agent, name, Tree::Text(other)))
}

/// Every agent has one status, which may be the empty text.
proof fn lemma_one_status(agent: Tree, status: Seq<char>)
    requires
        reads(agent, "agent_status"@, status),
    ensures
        agent.text_field("agent_status"@).unwrap_or(""@) == status,
{
    reveal_strlit("");
    if gives(agent, "agent_status"@, Tree::Text(status)) {
    } else {
        if agent.text_field("agent_status"@) is Some {
            let other = agent.text_field("agent_status"@)->Some_0;
            assert(gives(agent, "agent_status"@, Tree::Text(other)));
        }
        assert(""@ =~= status);
    }
}

proof fn lemma_some_status(agent: Tree) -> (status: Seq<char>)
    ensures
        reads(agent, "agent_status"@, status),
        agent.text_field("agent_status"@).unwrap_or(""@) == status,
{
    reveal_strlit("");
    let status = agent.text_field("agent_status"@).unwrap_or(""@);
    if agent.text_field("agent_status"@) is Some {
        assert(gives(agent, "agent_status"@, Tree::Text(status)));
    } else {
        assert forall|other: Seq<char>| !#[trigger] gives(
            agent,
            "agent_status"@,
            Tree::Text(other),
        ) by {}
        assert(reads(agent, "agent_status"@, status));
    }
    status
}

/// The names of working agents are those of the agents whose status, in lower
/// case, is one of those given: agent by agent, in their order.
pub proof fn law_working_agents_are_those_with_a_given_status(
    a: Seq<Tree>,
    b: Seq<Tree>,
    agent: Tree,
    status: Seq<char>,
    statuses: Seq<Seq<char>>,
)
    requires
        reads(agent, "agent_status"@, status),
    ensures
        working_labels(Seq::empty(), statuses).len() == 0,
        working_labels(a + b, statuses) == working_labels(a, statuses) + working_labels(
            b,
            statuses,
        ),
        statuses.contains(lowercase(status)) ==> working_labels(seq![agent], statuses) == seq![
            label_of(agent),
        ],
        !statuses.contains(lowercase(status)) ==> working_labels(seq![agent], statuses).len() == 0,
    decreases b.len(),
{
    lemma_one_status(agent, status);
    reveal_with_fuel(working_labels, 2);
    assert(seq![agent].drop_last() =~= Seq::empty());
    if statuses.contains(lowercase(status)) {
        assert(working_labels(seq![agent], statuses) =~= seq![label_of(agent)]);
    }
    if b.len() > 0 {
        law_working_agents_are_those_with_a_given_status(
            a,
            b.drop_last(),
            agent,
            status,
            statuses,
        );
        assert((a + b).drop_last() =~= a + b.drop_last());
    } else {
        assert(a + b =~= a);
    }
    assert(working_labels(a + b, statuses) =~= working_labels(a, statuses) + working_labels(
        b,
        statuses,
    ));
}

/// True if the reply holds `agents` as its list of agents.
pub open spec fn lists(reply: Tree, agents: Seq<Tree>) -> bool {
    exists|result: Tree| #[trigger]
        gives(reply, "result"@, result) && gives(result, "agents"@, Tree::List(agents))
}

/// True if some agent has a status that, in lower case, is one of `statuses`.
pub open spec fn someone_has(agents: Seq<Tree>, statuses: Seq<Seq<char>>) -> bool {
    exists|i: int, status: Seq<char>|
        0 <= i < agents.len() && #[trigger] reads(agents[i], "agent_status"@, status)
            && statuses.contains(lowercase(status))
}

/// There is a snapshot exactly if the reply has a list of agents. Without one
/// it shows nothing.
pub proof fn law_snapshots_need_a_list_of_agents(reply: Tree, statuses: Seq<Seq<char>>)
    ensures
        Scene::of(reply, statuses).available <==> exists|agents: Seq<Tree>| lists(reply, agents),
        !Scene::of(reply, statuses).available ==> {
            &&& Scene::of(reply, statuses).working.len() == 0
            &&& Scene::of(reply, statuses).total == 0
            &&& forall|id: Seq<char>| !Scene::of(reply, statuses).panes.contains(id)
        },
{
    if Scene::of(reply, statuses).available {
        let result = reply.field("result"@)->Some_0;
        let agents = result.list_field("agents"@)->Some_0;
        assert(gives(reply, "result"@, result));
        assert(lists(reply, agents));
    }
}

/// A snapshot shows work exactly if some agent of the reply has one of the
/// given statuses. It has all agents counted, and the panes that some agent
/// names.
pub proof fn law_snapshots_show_the_agents_of_the_reply(
    reply: Tree,
    agents: Seq<Tree>,
    statuses: Seq<Seq<char>>,
    id: Seq<char>,
)
    requires
        lists(reply, agents),
    ensures
        Scene::of(reply, statuses).available,
        Scene::of(reply, statuses).total == agents.len(),
        Scene::of(reply, statuses).working == working_labels(agents, statuses),
        Scene::of(reply, statuses).working.len() > 0 <==> someone_has(agents, statuses),
        Scene::of(reply, statuses).panes.contains(id) <==> exists|i: int|
            0 <= i < agents.len() && gives(#[trigger] agents[i], "pane_id"@, Tree::Text(id)),
{
    let result = choose|result: Tree| #[trigger]
        gives(reply, "result"@, result) && gives(result, "agents"@, Tree::List(agents));
    assert(reply.field("result"@) == Some(result));
    assert(result.list_field("agents"@) == Some(agents));
    law_work_is_seen_if_an_agent_counts(agents, statuses);
    if someone_has(agents, statuses) {
        let (i, status) = choose|i: int, status: Seq<char>|
            0 <= i < agents.len() && #[trigger] reads(agents[i], "agent_status"@, status)
                && statuses.contains(lowercase(status));
        lemma_one_status(agents[i], status);
        assert(counts(agents[i], statuses));
    }
    if exists|i: int| 0 <= i < agents.len() && counts(#[trigger] agents[i], statuses) {
        let i = choose|i: int| 0 <= i < agents.len() && counts(#[trigger] agents[i], statuses);
        let status = lemma_some_status(agents[i]);
        assert(reads(agents[i], "agent_status"@, status) && statuses.contains(lowercase(status)));
    }
    law_panes_are_those_of_agents(agents, id);
    if exists|i: int|
        0 <= i < agents.len() && (#[trigger] agents[i]).text_field("pane_id"@) == Some(id) {
        let i = choose|i: int|
            0 <= i < agents.len() && (#[trigger] agents[i]).text_field("pane_id"@) == Some(id);
        assert(gives(agents[i], "pane_id"@, Tree::Text(id)));
    }
    if exists|i: int|
        0 <= i < agents.len() && gives(#[trigger] agents[i], "pane_id"@, Tree::Text(id)) {
        let i = choose|i: int|
            0 <= i < agents.len() && gives(#[trigger] agents[i], "pane_id"@, Tree::Text(id));
        assert(agents[i].text_field("pane_id"@) == Some(id));
    }
}

/// Without a reply, with a blank one or with one that is no JSON there is no
/// snapshot; any other shows what its JSON shows.
pub proof fn law_replies_are_read_as_json(text: Seq<char>, statuses: Seq<Seq<char>>)
    ensures
        Scene::of_text(None, statuses) == Scene::unavailable(),
        trimmed(text).len() == 0 ==> Scene::of_text(Some(text), statuses) == Scene::unavailable(),
        parsed(text) is Err ==> Scene::of_text(Some(text), statuses) == Scene::unavailable(),
        trimmed(text).len() > 0 && parsed(text) is Ok ==> Scene::of_text(Some(text), statuses)
            == Scene::of(parsed(text)->Ok_0, statuses),
{
}

/// A snapshot amounts to what its fields hold.
pub proof fn law_snapshots_amount_to_their_fields(snap: Snapshot, id: Seq<char>)
    ensures
        snap@.available == snap.available,
        snap@.working == texts(snap.working@),
        snap@.total == snap.total,
        snap@.panes.contains(id) <==> snap.panes@.contains(id),
{
}

/// True if an agent goes by `name`: its own, else that of its terminal, else
/// `agent`.
pub open spec fn goes_by(agent: Tree, name: Seq<char>) -> bool {
    ||| gives(agent, "agent"@, Tree::Text(name))
    ||| (forall|x: Seq<char>| !#[trigger] gives(agent, "agent"@, Tree::Text(x))) && gives(
        agent,
        "terminal_id"@,
        Tree::Text(name),
    )
    ||| (forall|x: Seq<char>|
        !#[trigger] gives(agent, "agent"@, Tree::Text(x)) && !gives(
            agent,
            "terminal_id"@,
            Tree::Text(x),
        )) && name == "agent"@
}

/// True if an agent works in `dir`: that of the foreground, else its own, else
/// none.
pub open spec fn works_in(agent: Tree, dir: Seq<char>) -> bool {
    ||| gives(agent, "foreground_cwd"@, Tree::Text(dir))
    ||| (forall|x: Seq<char>| !#[trigger] gives(agent, "foreground_cwd"@, Tree::Text(x))) && gives(
        agent,
        "cwd"@,
        Tree::Text(dir),
    )
    ||| (forall|x: Seq<char>|
        !#[trigger] gives(agent, "foreground_cwd"@, Tree::Text(x)) && !gives(
            agent,
            "cwd"@,
            Tree::Text(x),
        )) && dir.len() == 0
}

proof fn lemma_name_and_directory(agent: Tree, name: Seq<char>, dir: Seq<char>)
    requires
        goes_by(agent, name),
        works_in(agent, dir),
    ensures
        first_of(agent.text_field("agent"@), agent.text_field("terminal_id"@), "agent"@) == name,
        first_of(agent.text_field("foreground_cwd"@), agent.text_field("cwd"@), ""@) == dir,
{
    reveal_strlit("");
    if agent.text_field("agent"@) is Some {
        assert(gives(agent, "agent"@, Tree::Text(agent.text_field("agent"@)->Some_0)));
    }
    if agent.text_field("terminal_id"@) is Some {
        let x = agent.text_field("terminal_id"@)->Some_0;
        assert(gives(agent, "terminal_id"@, Tree::Text(x)));
        assert(!gives(agent, "agent"@, Tree::Text(x)) || agent.text_field("agent"@) is Some);
    }
    if agent.text_field("foreground_cwd"@) is Some {
        assert(gives(
            agent,
            "foreground_cwd"@,
            Tree::Text(agent.text_field("foreground_cwd"@)->Some_0),
        ));
    }
    if agent.text_field("cwd"@) is Some {
        let x = agent.text_field("cwd"@)->Some_0;
        assert(gives(agent, "cwd"@, Tree::Text(x)));
        assert(!gives(agent, "foreground_cwd"@, Tree::Text(x)) || agent.text_field(
            "foreground_cwd"@,
        ) is Some);
    }
    if dir.len() == 0 {
        assert(""@ =~= dir);
    }
}

/// An agent is called by its name and the last part of its directory, which is
/// what stands between the slashes at the end and the one before; by its name
/// alone where there is no such part.
pub proof fn law_labels_name_agent_and_directory(
    agent: Tree,
    name: Seq<char>,
    above: Seq<char>,
    part: Seq<char>,
    slashes: Seq<char>,
)
    requires
        goes_by(agent, name),
        works_in(agent, above + part + slashes),
        above.len() == 0 || above.last() == '/',
        !part.contains('/'),
        part.len() == 0 ==> above.len() == 0,
        forall|i: int| 0 <= i < slashes.len() ==> #[trigger] slashes[i] == '/',
    ensures
        part.len() == 0 ==> label_of(agent) == name,
        part.len() > 0 ==> label_of(agent) == name + "@"@ + part,
{
    let dir = above + part + slashes;
    lemma_name_and_directory(agent, name, dir);
    law_trailing_characters_go(dir, '/');
    let kept = without_trailing(dir, '/');
    let n = above.len() + part.len();
    if part.len() > 0 {
        assert(part.contains(part.last())) by {
            assert(part[part.len() - 1] == part.last());
        }
        assert(dir[n - 1] == part.last());
        assert(kept.len() >= n);
    }
    if kept.len() > n {
        assert(kept.last() == dir[kept.len() - 1]);
        assert(dir[kept.len() - 1] == slashes[kept.len() - 1 - n]);
    }
    assert(kept.len() == n);
    assert(kept =~= above + part);
    law_what_comes_last_is_behind_a_separator(kept, '/');
    let tail = after_last(kept, '/');
    if tail.len() > part.len() {
        assert(tail[tail.len() - part.len() - 1] == kept[above.len() - 1]);
        assert(tail.contains('/'));
    }
    if tail.len() < part.len() {
        assert(kept[kept.len() - tail.len() - 1] == part[part.len() - tail.len() - 1]);
        assert(part.contains('/'));
    }
    assert(tail =~= part);
}

/// A report ends with the decision: to keep awake exactly if some agent counts
/// as working, and to allow sleep exactly if none does.
pub proof fn law_reports_end_with_the_decision(scene: Scene, statuses: Seq<Seq<char>>)
    ensures
        report(scene, statuses).len() > 0,
        report(scene, statuses).last() == "decision: keep awake"@ <==> scene.working.len() > 0,
        report(scene, statuses).last() == "decision: allow sleep"@ <==> scene.working.len() == 0,
{
    reveal_strlit("decision: keep awake");
    reveal_strlit("decision: allow sleep");
    assert("decision: keep awake"@.len() == 20 && "decision: allow sleep"@.len() == 21);
}

/// The decision on a reply is to keep awake exactly if some agent in it has one
/// of the given statuses.
pub proof fn law_decision_follows_the_reply(
    reply: Tree,
    agents: Seq<Tree>,
    statuses: Seq<Seq<char>>,
)
    requires
        lists(reply, agents),
    ensures
        report(Scene::of(reply, statuses), statuses).last() == "decision: keep awake"@
            <==> someone_has(agents, statuses),
        report(Scene::of(reply, statuses), statuses).last() == "decision: allow sleep"@
            <==> !someone_has(agents, statuses),
{
    law_snapshots_show_the_agents_of_the_reply(reply, agents, statuses, Seq::empty());
    law_reports_end_with_the_decision(Scene::of(reply, statuses), statuses);
}

/// Before the decision a report says how many agents there are and how many of
/// them match, and names those in their order; without a snapshot it says so.
pub proof fn law_reports_name_every_working_agent(scene: Scene, statuses: Seq<Seq<char>>, i: int)
    ensures
        scene.available ==> {
            &&& report(scene, statuses).len() == scene.working.len() + 2
            &&& report(scene, statuses)[0] == "herdr: "@ + decimal(scene.total) + " agent(s), "@
                + decimal(scene.working.len()) + " matching ["@ + joined(statuses, ","@) + "]"@
            &&& 0 <= i < scene.working.len() ==> report(scene, statuses)[i + 1] == "  working: "@
                + scene.working[i]
        },
        !scene.available ==> report(scene, statuses).len() == 2 && report(scene, statuses)[0]
            == "herdr: unavailable"@,
{
}

/// A summary counts all and names the first three, with the number of the
/// others where there are more.
pub proof fn law_summaries_count_all_and_name_three(working: Seq<Seq<char>>)
    ensures
        working.len() == 0 ==> summary(working) == decimal(0) + " working: "@,
        working.len() == 1 ==> summary(working) == decimal(1) + " working: "@ + working[0],
        working.len() == 2 ==> summary(working) == decimal(2) + " working: "@ + (working[0]
            + ", "@ + working[1]),
        working.len() == 3 ==> summary(working) == decimal(3) + " working: "@ + (working[0]
            + ", "@ + working[1] + ", "@ + working[2]),
        working.len() > 3 ==> summary(working) == decimal(working.len()) + " working: "@ + (
        working[0] + ", "@ + working[1] + ", "@ + working[2]) + ", +"@ + decimal(
            (working.len() - 3) as nat,
        ),
{
    let head = if working.len() > 3 {
        working.take(3)
    } else {
        working
    };
    if head.len() == 0 {
        assert(decimal(0) + " working: "@ + joined(head, ", "@) =~= decimal(0) + " working: "@);
    } else if head.len() == 1 {
        assert(head =~= seq![working[0]]);
    } else if head.len() == 2 {
        let (a, b) = (seq![working[0]], seq![working[1]]);
        law_joining_puts_the_separator_between(a, b, working[0], ", "@);
        law_joining_puts_the_separator_between(a, b, working[1], ", "@);
        assert(head =~= a + b);
    } else {
        let (a, b, c) = (seq![working[0]], seq![working[1]], seq![working[2]]);
        law_joining_puts_the_separator_between(a, b, working[0], ", "@);
        law_joining_puts_the_separator_between(a, b, working[1], ", "@);
        law_joining_puts_the_separator_between(a + b, c, working[2], ", "@);
        assert(head =~= a + b + c);
    }
}

/// Without a list of agents nothing is shown.
pub proof fn law_nothing_is_shown_without_a_list(id: Seq<char>)
    ensures
        !Scene::unavailable().available,
        Scene::unavailable().working.len() == 0,
        Scene::unavailable().total == 0,
        !Scene::unavailable().panes.contains(id),
{
}

} // verus!
