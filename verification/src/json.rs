//! JSON values as the watcher reads and writes them.
//!
//! The text of a value is read and written by serde_json. The functions that
//! call it, and what is taken from it without proof, are at the end of this
//! file.

use vstd::prelude::*;
use vstd::string::*;
use crate::text::{same_text, texts};

verus! {

/// A JSON value. Numbers are told apart as far as they are read: those that
/// fit a `u64`, and all others.
#[derive(Debug, PartialEq)]
pub enum Json {
    Null,
    Bool(bool),
    Uint(u64),
    OtherNumber,
    Text(String),
    List(Vec<Json>),
    /// Names with values. Where a name occurs twice, the last one counts.
    Record(Vec<(String, Json)>),
}

/// What a [`Json`] value amounts to.
pub enum Tree {
    Null,
    Bool(bool),
    Uint(u64),
    OtherNumber,
    Text(Seq<char>),
    List(Seq<Tree>),
    Record(Map<Seq<char>, Tree>),
}

/// The record that a list of names and values makes: the last value of a name
/// counts.
pub open spec fn record_of(entries: Seq<(Seq<char>, Tree)>) -> Map<Seq<char>, Tree>
    decreases entries.len(),
{
    if entries.len() == 0 {
        Map::empty()
    } else {
        record_of(entries.drop_last()).insert(entries.last().0, entries.last().1)
    }
}

impl Tree {
    /// The value of the field `name`, if this is a record that has it.
    pub open spec fn field(self, name: Seq<char>) -> Option<Tree> {
        match self {
            Tree::Record(m) => if m.contains_key(name) {
                Some(m[name])
            } else {
                None
            },
            _ => None,
        }
    }

    pub open spec fn as_bool(self) -> Option<bool> {
        match self {
            Tree::Bool(b) => Some(b),
            _ => None,
        }
    }

    pub open spec fn as_u64(self) -> Option<u64> {
        match self {
            Tree::Uint(n) => Some(n),
            _ => None,
        }
    }

    pub open spec fn as_text(self) -> Option<Seq<char>> {
        match self {
            Tree::Text(s) => Some(s),
            _ => None,
        }
    }

    pub open spec fn as_list(self) -> Option<Seq<Tree>> {
        match self {
            Tree::List(l) => Some(l),
            _ => None,
        }
    }

    /// The field `name`, if it is a boolean.
    pub open spec fn bool_field(self, name: Seq<char>) -> Option<bool> {
        match self.field(name) {
            Some(t) => t.as_bool(),
            None => None,
        }
    }

    /// The field `name`, if it is a number that fits a `u64`.
    pub open spec fn u64_field(self, name: Seq<char>) -> Option<u64> {
        match self.field(name) {
            Some(t) => t.as_u64(),
            None => None,
        }
    }

    /// The field `name`, if it is a text.
    pub open spec fn text_field(self, name: Seq<char>) -> Option<Seq<char>> {
        match self.field(name) {
            Some(t) => t.as_text(),
            None => None,
        }
    }

    /// The field `name`, if it is a list.
    pub open spec fn list_field(self, name: Seq<char>) -> Option<Seq<Tree>> {
        match self.field(name) {
            Some(t) => t.as_list(),
            None => None,
        }
    }

    /// Holds no number but those that fit a `u64`, and lists and records
    /// nested at most `depth` deep.
    pub open spec fn plain(self, depth: nat) -> bool
        decreases depth,
    {
        match self {
            Tree::OtherNumber => false,
            Tree::List(l) => depth > 0 && forall|i: int|
                0 <= i < l.len() ==> (#[trigger] l[i]).plain((depth - 1) as nat),
            Tree::Record(m) => depth > 0 && forall|name: Seq<char>| #[trigger]
                m.contains_key(name) ==> m[name].plain((depth - 1) as nat),
            _ => true,
        }
    }
}

/// The texts among the items of a list, in their order.
pub open spec fn texts_in(items: Seq<Tree>) -> Seq<Seq<char>>
    decreases items.len(),
{
    if items.len() == 0 {
        Seq::empty()
    } else {
        match items.last().as_text() {
            Some(s) => texts_in(items.drop_last()).push(s),
            None => texts_in(items.drop_last()),
        }
    }
}

impl Json {
    /// What this value amounts to.
    pub open spec fn tree(self) -> Tree
        decreases self,
    {
        match self {
            Json::Null => Tree::Null,
            Json::Bool(b) => Tree::Bool(b),
            Json::Uint(n) => Tree::Uint(n),
            Json::OtherNumber => Tree::OtherNumber,
            Json::Text(s) => Tree::Text(s@),
            Json::List(l) => Tree::List(trees(l@)),
            Json::Record(e) => Tree::Record(record_of(entry_trees(e@))),
        }
    }
}

impl Json {
    /// Holds no number but those that fit a `u64`, and lists and records
    /// nested at most `depth` deep.
    pub open spec fn writable(self, depth: nat) -> bool
        decreases depth,
    {
        match self {
            Json::OtherNumber => false,
            Json::List(l) => depth > 0 && forall|i: int|
                0 <= i < l@.len() ==> (#[trigger] l@[i]).writable((depth - 1) as nat),
            Json::Record(e) => depth > 0 && forall|i: int|
                0 <= i < e@.len() ==> (#[trigger] e@[i]).1.writable((depth - 1) as nat),
            _ => true,
        }
    }
}

/// What the items of a list amount to.
pub open spec fn trees(items: Seq<Json>) -> Seq<Tree>
    decreases items,
{
    Seq::new(
        items.len(),
        |i: int|
            if 0 <= i < items.len() {
                items[i].tree()
            } else {
                Tree::Null
            },
    )
}

/// What the entries of a record amount to.
pub open spec fn entry_trees(entries: Seq<(String, Json)>) -> Seq<(Seq<char>, Tree)>
    decreases entries,
{
    Seq::new(
        entries.len(),
        |i: int|
            if 0 <= i < entries.len() {
                (entries[i].0@, entries[i].1.tree())
            } else {
                (Seq::empty(), Tree::Null)
            },
    )
}

impl Json {
    /// The value of the field `name`, if this is a record that has it.
    pub fn get(&self, name: &str) -> (found: Option<&Json>)
        ensures
            match self.tree().field(name@) {
                Some(t) => found matches Some(j) && j.tree() == t,
                None => found is None,
            },
    {
        match self {
            Json::Record(entries) => {
                let mut i: usize = entries.len();
                let ghost all = entry_trees(entries@);
                assert(all.take(i as int) =~= all);
                while i > 0
                    invariant
                        i <= entries@.len(),
                        all == entry_trees(entries@),
                        self.tree() == Tree::Record(record_of(all)),
                        record_of(all).contains_key(name@) == record_of(
                            all.take(i as int),
                        ).contains_key(name@),
                        record_of(all).contains_key(name@) ==> record_of(all)[name@]
                            == record_of(all.take(i as int))[name@],
                    decreases i,
                {
                    assert(all.take(i as int).drop_last() =~= all.take(i - 1));
                    assert(all.take(i as int).last() == all[i - 1]);
                    if same_text(entries[i - 1].0.as_str(), name) {
                        return Some(&entries[i - 1].1);
                    }
                    i = i - 1;
                }
                None
            },
            _ => None,
        }
    }

    /// The field `name`, if it is a boolean.
    pub fn bool_field(&self, name: &str) -> (b: Option<bool>)
        ensures
            b == self.tree().bool_field(name@),
    {
        match self.get(name) {
            Some(Json::Bool(b)) => Some(*b),
            _ => None,
        }
    }

    /// The field `name`, if it is a number that fits a `u64`.
    pub fn u64_field(&self, name: &str) -> (n: Option<u64>)
        ensures
            n == self.tree().u64_field(name@),
    {
        match self.get(name) {
            Some(Json::Uint(n)) => Some(*n),
            _ => None,
        }
    }

    /// The field `name`, if it is a text.
    pub fn text_field(&self, name: &str) -> (s: Option<&str>)
        ensures
            match self.tree().text_field(name@) {
                Some(t) => s matches Some(text) && text@ == t,
                None => s is None,
            },
    {
        match self.get(name) {
            Some(Json::Text(s)) => Some(s.as_str()),
            _ => None,
        }
    }

    /// The field `name`, if it is a list.
    pub fn list_field(&self, name: &str) -> (l: Option<&Vec<Json>>)
        ensures
            match self.tree().list_field(name@) {
                Some(t) => l matches Some(items) && trees(items@) == t,
                None => l is None,
            },
    {
        match self.get(name) {
            Some(Json::List(l)) => Some(l),
            _ => None,
        }
    }
}

/// A record has the names of its entries, each with the value of one of them.
proof fn lemma_record_of(entries: Seq<(Seq<char>, Tree)>)
    ensures
        record_of(entries).dom().finite(),
        forall|name: Seq<char>| #[trigger]
            record_of(entries).contains_key(name) ==> exists|i: int|
                0 <= i < entries.len() && (#[trigger] entries[i]).0 == name && entries[i].1
                    == record_of(entries)[name],
    decreases entries.len(),
{
    if entries.len() > 0 {
        let before = entries.drop_last();
        lemma_record_of(before);
        assert forall|name: Seq<char>| #[trigger]
            record_of(entries).contains_key(name) implies exists|i: int|
            0 <= i < entries.len() && (#[trigger] entries[i]).0 == name && entries[i].1
                == record_of(entries)[name] by {
            if name == entries.last().0 {
                assert(entries[entries.len() - 1].0 == name);
            } else {
                assert(record_of(before).contains_key(name));
                let i = choose|i: int|
                    0 <= i < before.len() && (#[trigger] before[i]).0 == name && before[i].1
                        == record_of(before)[name];
                assert(entries[i] == before[i]);
            }
        }
    }
}

/// No name occurs twice.
pub open spec fn distinct_names(entries: Seq<(Seq<char>, Tree)>) -> bool {
    forall|i: int, j: int|
        0 <= i < j < entries.len() ==> (#[trigger] entries[i]).0 != (#[trigger] entries[j]).0
}

/// Where no name occurs twice, each entry is in the record.
proof fn lemma_record_of_distinct(entries: Seq<(Seq<char>, Tree)>)
    requires
        distinct_names(entries),
    ensures
        forall|i: int|
            0 <= i < entries.len() ==> record_of(entries).contains_key((#[trigger] entries[i]).0)
                && record_of(entries)[entries[i].0] == entries[i].1,
    decreases entries.len(),
{
    if entries.len() > 0 {
        let before = entries.drop_last();
        assert forall|i: int, j: int| 0 <= i < j < before.len() implies (
        #[trigger] before[i]).0 != (#[trigger] before[j]).0 by {
            assert(entries[i].0 != entries[j].0);
        }
        lemma_record_of_distinct(before);
        assert forall|i: int| 0 <= i < entries.len() implies record_of(entries).contains_key(
            (#[trigger] entries[i]).0,
        ) && record_of(entries)[entries[i].0] == entries[i].1 by {
            if i < before.len() {
                assert(before[i] == entries[i]);
                assert(entries[i].0 != entries[entries.len() - 1].0);
            }
        }
    }
}

/// Where no name occurs twice, another value for an entry is another value for
/// its name.
proof fn lemma_record_of_update(entries: Seq<(Seq<char>, Tree)>, i: int, value: Tree)
    requires
        distinct_names(entries),
        0 <= i < entries.len(),
    ensures
        distinct_names(entries.update(i, (entries[i].0, value))),
        record_of(entries.update(i, (entries[i].0, value))) == record_of(entries).insert(
            entries[i].0,
            value,
        ),
    decreases entries.len(),
{
    let after = entries.update(i, (entries[i].0, value));
    assert forall|a: int, b: int| 0 <= a < b < after.len() implies (#[trigger] after[a]).0 != (
    #[trigger] after[b]).0 by {
        assert(entries[a].0 != entries[b].0);
    }
    if i == entries.len() - 1 {
        assert(after.drop_last() =~= entries.drop_last());
        assert(record_of(after) =~= record_of(entries).insert(entries[i].0, value));
    } else {
        let before = entries.drop_last();
        assert forall|a: int, b: int| 0 <= a < b < before.len() implies (
        #[trigger] before[a]).0 != (#[trigger] before[b]).0 by {
            assert(entries[a].0 != entries[b].0);
        }
        lemma_record_of_update(before, i, value);
        assert(after.drop_last() =~= before.update(i, (before[i].0, value)));
        assert(entries[i].0 != entries[entries.len() - 1].0);
        assert(record_of(after) =~= record_of(entries).insert(entries[i].0, value));
    }
}

/// A value that can be written amounts to a plain tree.
proof fn lemma_writable_is_plain(json: Json, depth: nat)
    requires
        json.writable(depth),
    ensures
        json.tree().plain(depth),
    decreases depth,
{
    match json {
        Json::List(l) => {
            assert(json.tree() == Tree::List(trees(l@)));
            assert forall|i: int| 0 <= i < trees(l@).len() implies (
            #[trigger] trees(l@)[i]).plain((depth - 1) as nat) by {
                lemma_writable_is_plain(l@[i], (depth - 1) as nat);
            }
        },
        Json::Record(e) => {
            let all = entry_trees(e@);
            lemma_record_of(all);
            assert forall|name: Seq<char>| #[trigger]
                record_of(all).contains_key(name) implies record_of(all)[name].plain(
                (depth - 1) as nat,
            ) by {
                let i = choose|i: int|
                    0 <= i < all.len() && (#[trigger] all[i]).0 == name && all[i].1
                        == record_of(all)[name];
                lemma_writable_is_plain(e@[i].1, (depth - 1) as nat);
            }
        },
        _ => {},
    }
}

/// The texts among the items of a list, in their order.
pub fn collect_texts(items: &Vec<Json>) -> (found: Vec<String>)
    ensures
        texts(found@) == texts_in(trees(items@)),
{
    let mut found: Vec<String> = Vec::new();
    let ghost all = trees(items@);
    assert(all.take(0) =~= Seq::empty());
    assert(texts(found@) =~= Seq::empty());
    for i in 0..items.len()
        invariant
            all == trees(items@),
            texts(found@) == texts_in(all.take(i as int)),
    {
        assert(all.take(i + 1).drop_last() =~= all.take(i as int));
        if let Json::Text(s) = &items[i] {
            let ghost before = found@;
            found.push(s.clone());
            assert(texts(found@) =~= texts(before).push(s@));
        }
    }
    assert(all.take(items@.len() as int) =~= all);
    found
}

/// A list of texts.
pub open spec fn text_trees(list: Seq<Seq<char>>) -> Seq<Tree> {
    list.map_values(|s: Seq<char>| Tree::Text(s))
}

/// A list of texts holds these texts.
pub proof fn lemma_texts_in_text_trees(list: Seq<Seq<char>>)
    ensures
        texts_in(text_trees(list)) == list,
    decreases list.len(),
{
    if list.len() > 0 {
        lemma_texts_in_text_trees(list.drop_last());
        assert(text_trees(list).drop_last() =~= text_trees(list.drop_last()));
        assert(text_trees(list).last() == Tree::Text(list.last()));
        assert(texts_in(text_trees(list)) =~= list);
    } else {
        assert(text_trees(list) =~= Seq::empty());
        assert(list =~= Seq::empty());
    }
}

/// A list of texts as a value.
pub fn text_list(list: &Vec<String>) -> (json: Json)
    ensures
        json.tree() == Tree::List(text_trees(texts(list@))),
        json.writable(1),
{
    let mut items: Vec<Json> = Vec::new();
    for i in 0..list.len()
        invariant
            items@.len() == i,
            forall|j: int|
                0 <= j < i ==> (#[trigger] items@[j]) is Text && items@[j].tree() == Tree::Text(
                    list@[j]@,
                ),
    {
        items.push(Json::Text(list[i].clone()));
    }
    assert(trees(items@) =~= text_trees(texts(list@)));
    proof {
        reveal_with_fuel(Json::writable, 2);
    }
    Json::List(items)
}

/// True of entries whose values can be written inside of a record.
pub open spec fn entries_writable(entries: Seq<(String, Json)>, depth: nat) -> bool {
    forall|i: int| 0 <= i < entries.len() ==> (#[trigger] entries[i]).1.writable(depth)
}

/// Adds a field at the end of a record.
pub fn put(entries: &mut Vec<(String, Json)>, name: &str, value: Json)
    ensures
        record_of(entry_trees(final(entries)@)) == record_of(entry_trees(old(entries)@)).insert(
            name@,
            value.tree(),
        ),
        forall|depth: nat| #[trigger]
            entries_writable(old(entries)@, depth) && value.writable(depth) ==> entries_writable(
                final(entries)@,
                depth,
            ),
{
    let ghost before = entries@;
    entries.push((name.to_string(), value));
    assert(entry_trees(entries@).drop_last() =~= entry_trees(before));
    assert forall|depth: nat| #[trigger]
        entries_writable(before, depth) && value.writable(depth) implies entries_writable(
        entries@,
        depth,
    ) by {
        assert forall|i: int| 0 <= i < entries@.len() implies (
        #[trigger] entries@[i]).1.writable(depth) by {
            if i < before.len() {
                assert(before[i].1.writable(depth));
            }
        }
    }
}

/// Where a value can be written, it can be written with more room.
pub proof fn lemma_writable_deeper(json: Json, depth: nat, more: nat)
    requires
        json.writable(depth),
        depth <= more,
    ensures
        json.writable(more),
    decreases depth,
{
    match json {
        Json::List(l) => {
            assert forall|i: int| 0 <= i < l@.len() implies (#[trigger] l@[i]).writable(
                (more - 1) as nat,
            ) by {
                lemma_writable_deeper(l@[i], (depth - 1) as nat, (more - 1) as nat);
            }
        },
        Json::Record(e) => {
            assert forall|i: int| 0 <= i < e@.len() implies (#[trigger] e@[i]).1.writable(
                (more - 1) as nat,
            ) by {
                lemma_writable_deeper(e@[i].1, (depth - 1) as nat, (more - 1) as nat);
            }
        },
        _ => {},
    }
}

/// How deep lists and records may be nested in what is written. This is well
/// below the depth at which serde_json stops reading.
pub const NESTING: usize = 64;

/// A text with a line end behind it.
pub open spec fn line(text: Seq<char>) -> Seq<char> {
    text.push('\n')
}

/// The result of reading `t` without an error.
pub open spec fn read(t: Tree) -> Result<Tree, Seq<char>> {
    Ok(t)
}

/// Reads a JSON text.
pub fn parse(text: &str) -> (result: Result<Json, String>)
    ensures
        match parsed(text@) {
            Ok(t) => result matches Ok(j) && j.tree() == t,
            Err(e) => result matches Err(m) && m@ == e,
        },
{
    match parse_text(text) {
        Ok(v) => Ok(from_value(v)),
        Err(e) => Err(e),
    }
}

/// Reads a JSON text given as bytes.
pub fn parse_bytes(bytes: &[u8]) -> (result: Option<Json>)
    ensures
        match parsed_bytes(bytes@) {
            Some(t) => result matches Some(j) && j.tree() == t,
            None => result is None,
        },
{
    match parse_slice(bytes) {
        Some(v) => Some(from_value(v)),
        None => None,
    }
}

/// Writes a value over several lines, with indentation.
pub fn pretty_text(json: &Json) -> (text: String)
    requires
        json.writable(NESTING as nat),
    ensures
        text@ == pretty(json.tree()),
        parsed(line(text@)) == read(json.tree()),
{
    proof {
        lemma_writable_is_plain(*json, NESTING as nat);
    }
    let v = to_value(json, Ghost(NESTING as nat));
    print_pretty(&v)
}

/// Writes a value in one line, without spaces.
pub fn compact_bytes(json: &Json) -> (bytes: Vec<u8>)
    requires
        json.writable(NESTING as nat),
    ensures
        bytes@ == compact(json.tree()),
        !bytes@.contains(10u8),
        parsed_bytes(bytes@) == Some(json.tree()),
{
    proof {
        lemma_writable_is_plain(*json, NESTING as nat);
    }
    let v = to_value(json, Ghost(NESTING as nat));
    print_compact(&v)
}

/// The library's form of a serde_json value.
fn from_value(v: serde_json::Value) -> (json: Json)
    ensures
        json.tree() == value_tree(v),
    decreases value_tree(v),
{
    let ghost whole = value_tree(v);
    match take_apart(v) {
        None => Json::OtherNumber,
        Some(Part::Null) => Json::Null,
        Some(Part::Bool(b)) => Json::Bool(b),
        Some(Part::Uint(n)) => Json::Uint(n),
        Some(Part::Text(s)) => Json::Text(s),
        Some(Part::List(items)) => {
            let ghost parts = items@;
            let mut list: Vec<Json> = Vec::new();
            for item in it: items
                invariant
                    it.seq() == parts,
                    whole == value_tree(v),
                    whole == Tree::List(value_trees(parts)),
                    list@.len() == it.index(),
                    forall|i: int|
                        0 <= i < list@.len() ==> (#[trigger] list@[i]).tree() == value_tree(
                            parts[i],
                        ),
            {
                proof {
                    let all = value_trees(parts);
                    let i = it.index() as int;
                    assert(item == parts[i]);
                    assert(whole->List_0 == all);
                    assert(decreases_to!(whole => whole->List_0));
                    assert(decreases_to!(all => all[i]));
                }
                list.push(from_value(item));
            }
            assert(trees(list@) =~= value_trees(parts));
            Json::List(list)
        },
        Some(Part::Record(entries)) => {
            let ghost parts = entries@;
            proof {
                lemma_record_of(value_entries(parts));
            }
            let mut list: Vec<(String, Json)> = Vec::new();
            for entry in it: entries
                invariant
                    it.seq() == parts,
                    whole == value_tree(v),
                    whole == Tree::Record(record_of(value_entries(parts))),
                    record_of(value_entries(parts)).dom().finite(),
                    distinct_names(value_entries(parts)),
                    list@.len() == it.index(),
                    forall|i: int|
                        0 <= i < list@.len() ==> (#[trigger] list@[i]).1.tree() == value_tree(
                            parts[i].1,
                        ) && list@[i].0@ == parts[i].0@,
            {
                proof {
                    let all = value_entries(parts);
                    lemma_record_of_distinct(all);
                    let i = it.index() as int;
                    assert(entry == parts[i]);
                    assert(all[i] == (entry.0@, value_tree(entry.1)));
                    assert(whole->Record_0 == record_of(all));
                    assert(decreases_to!(whole => whole->Record_0));
                    assert(decreases_to!(record_of(all) => record_of(all)[entry.0@]));
                }
                let (name, value) = entry;
                list.push((name, from_value(value)));
            }
            assert(entry_trees(list@) =~= value_entries(parts));
            Json::Record(list)
        },
    }
}

/// Gives a name its value, in place of an earlier one if there is one.
fn set_entry(list: &mut Vec<(String, serde_json::Value)>, name: &str, value: serde_json::Value)
    requires
        distinct_names(value_entries(old(list)@)),
    ensures
        distinct_names(value_entries(final(list)@)),
        record_of(value_entries(final(list)@)) == record_of(value_entries(old(list)@)).insert(
            name@,
            value_tree(value),
        ),
{
    let ghost before = value_entries(list@);
    let ghost entry = (name@, value_tree(value));
    let mut i: usize = 0;
    while i < list.len() && !same_text(list[i].0.as_str(), name)
        invariant
            i <= list@.len(),
            before == value_entries(list@),
            forall|j: int| 0 <= j < i ==> (#[trigger] before[j]).0 != name@,
        decreases list@.len() - i,
    {
        assert(before[i as int].0 == list@[i as int].0@);
        i = i + 1;
    }
    if i < list.len() {
        assert(before[i as int].0 == list@[i as int].0@);
        list.set(i, (name.to_string(), value));
        assert(value_entries(list@) =~= before.update(i as int, entry));
        proof {
            lemma_record_of_update(before, i as int, entry.1);
        }
    } else {
        list.push((name.to_string(), value));
        assert(value_entries(list@) =~= before.push(entry));
        assert(before.push(entry).drop_last() =~= before);
    }
}

/// The serde_json form of a value.
fn to_value(json: &Json, Ghost(depth): Ghost<nat>) -> (v: serde_json::Value)
    requires
        json.writable(depth),
    ensures
        value_tree(v) == json.tree(),
    decreases depth,
{
    match json {
        Json::Null => put_together(Part::Null),
        Json::Bool(b) => put_together(Part::Bool(*b)),
        Json::Uint(n) => put_together(Part::Uint(*n)),
        Json::OtherNumber => put_together(Part::Null),
        Json::Text(s) => put_together(Part::Text(s.clone())),
        Json::List(items) => {
            let mut list: Vec<serde_json::Value> = Vec::new();
            for i in 0..items.len()
                invariant
                    depth > 0,
                    list@.len() == i,
                    forall|j: int|
                        0 <= j < items@.len() ==> (#[trigger] items@[j]).writable(
                            (depth - 1) as nat,
                        ),
                    forall|j: int|
                        0 <= j < i ==> value_tree(#[trigger] list@[j]) == items@[j].tree(),
            {
                list.push(to_value(&items[i], Ghost((depth - 1) as nat)));
            }
            assert(value_trees(list@) =~= trees(items@));
            put_together(Part::List(list))
        },
        Json::Record(entries) => {
            let mut list: Vec<(String, serde_json::Value)> = Vec::new();
            let ghost all = entry_trees(entries@);
            assert(value_entries(list@) =~= all.take(0));
            for i in 0..entries.len()
                invariant
                    depth > 0,
                    all == entry_trees(entries@),
                    distinct_names(value_entries(list@)),
                    record_of(value_entries(list@)) == record_of(all.take(i as int)),
                    forall|j: int|
                        0 <= j < entries@.len() ==> (#[trigger] entries@[j]).1.writable(
                            (depth - 1) as nat,
                        ),
            {
                assert(all.take(i + 1).drop_last() =~= all.take(i as int));
                assert(all.take(i + 1).last() == all[i as int]);
                let value = to_value(&entries[i].1, Ghost((depth - 1) as nat));
                set_entry(&mut list, entries[i].0.as_str(), value);
            }
            assert(all.take(entries@.len() as int) =~= all);
            put_together(Part::Record(list))
        },
    }
}

/// serde_json's value type.
#[verifier::external_type_specification]
#[verifier::external_body]
pub struct ExValue(serde_json::Value);

/// What a `serde_json::Value` holds.
pub uninterp spec fn value_tree(v: serde_json::Value) -> Tree;

/// What the items of an array hold.
pub open spec fn value_trees(items: Seq<serde_json::Value>) -> Seq<Tree> {
    items.map_values(|v: serde_json::Value| value_tree(v))
}

/// What the entries of an object hold.
pub open spec fn value_entries(entries: Seq<(String, serde_json::Value)>) -> Seq<
    (Seq<char>, Tree),
> {
    entries.map_values(|e: (String, serde_json::Value)| (e.0@, value_tree(e.1)))
}

/// The top level of a `serde_json::Value`: what it is, and the values that it
/// is made of.
pub enum Part {
    Null,
    Bool(bool),
    Uint(u64),
    Text(String),
    List(Vec<serde_json::Value>),
    Record(Vec<(String, serde_json::Value)>),
}

impl Part {
    /// A record has no name twice.
    pub open spec fn distinct(self) -> bool {
        match self {
            Part::Record(e) => distinct_names(value_entries(e@)),
            _ => true,
        }
    }

    /// What the value with this top level holds.
    pub open spec fn tree(self) -> Tree {
        match self {
            Part::Null => Tree::Null,
            Part::Bool(b) => Tree::Bool(b),
            Part::Uint(n) => Tree::Uint(n),
            Part::Text(s) => Tree::Text(s@),
            Part::List(l) => Tree::List(value_trees(l@)),
            Part::Record(e) => Tree::Record(record_of(value_entries(e@))),
        }
    }
}

/// The variants of `serde_json::Value`, told apart. `None` stands for a number
/// for which `Number::as_u64` is `None`. The entries of an object are those of
/// its map, which has no name twice.
#[verifier::external_body]
fn take_apart(v: serde_json::Value) -> (part: Option<Part>)
    ensures
        match part {
            Some(p) => p.tree() == value_tree(v) && p.distinct(),
            None => value_tree(v) is OtherNumber,
        },
{
    match v {
        serde_json::Value::Null => Some(Part::Null),
        serde_json::Value::Bool(b) => Some(Part::Bool(b)),
        serde_json::Value::Number(n) => n.as_u64().map(Part::Uint),
        serde_json::Value::String(s) => Some(Part::Text(s)),
        serde_json::Value::Array(items) => Some(Part::List(items)),
        serde_json::Value::Object(map) => Some(Part::Record(map.into_iter().collect())),
    }
}

/// The `serde_json::Value` with the given top level. The map of an object is
/// collected from the entries, which have no name twice.
#[verifier::external_body]
fn put_together(part: Part) -> (v: serde_json::Value)
    requires
        part.distinct(),
    ensures
        value_tree(v) == part.tree(),
{
    match part {
        Part::Null => serde_json::Value::Null,
        Part::Bool(b) => serde_json::Value::Bool(b),
        Part::Uint(n) => serde_json::Value::Number(n.into()),
        Part::Text(s) => serde_json::Value::String(s),
        Part::List(items) => serde_json::Value::Array(items),
        Part::Record(entries) => serde_json::Value::Object(entries.into_iter().collect()),
    }
}

/// What `serde_json::from_str` makes of a text: a value, or the message of
/// its error.
pub uninterp spec fn parsed(text: Seq<char>) -> Result<Tree, Seq<char>>;

/// `serde_json::from_str` for a `serde_json::Value`. Both the value and the
/// message of the error depend on the text alone.
#[verifier::external_body]
fn parse_text(text: &str) -> (result: Result<serde_json::Value, String>)
    ensures
        match result {
            Ok(v) => parsed(text@) matches Ok(t) && t == value_tree(v),
            Err(e) => parsed(text@) matches Err(m) && m == e@,
        },
{
    serde_json::from_str(text).map_err(|e: serde_json::Error| e.to_string())
}

/// What `serde_json::from_slice` makes of some bytes, if they are JSON.
pub uninterp spec fn parsed_bytes(bytes: Seq<u8>) -> Option<Tree>;

/// `serde_json::from_slice` for a `serde_json::Value`. The result depends on
/// the bytes alone.
#[verifier::external_body]
fn parse_slice(bytes: &[u8]) -> (result: Option<serde_json::Value>)
    ensures
        match result {
            Some(v) => parsed_bytes(bytes@) == Some(value_tree(v)),
            None => parsed_bytes(bytes@) is None,
        },
{
    serde_json::from_slice(bytes).ok()
}

/// How `serde_json::to_string_pretty` writes a value.
pub uninterp spec fn pretty(t: Tree) -> Seq<char>;

/// `serde_json::to_string_pretty` for a `serde_json::Value`, which it never
/// fails to write. The text depends on what the value holds alone: an object
/// is written in the order of its names. Read again, with a line end behind
/// it, the text gives what was written.
#[verifier::external_body]
fn print_pretty(v: &serde_json::Value) -> (text: String)
    requires
        value_tree(*v).plain(NESTING as nat),
    ensures
        text@ == pretty(value_tree(*v)),
        parsed(line(text@)) == read(value_tree(*v)),
{
    serde_json::to_string_pretty(v).unwrap()
}

/// How `serde_json::to_vec` writes a value.
pub uninterp spec fn compact(t: Tree) -> Seq<u8>;

/// `serde_json::to_vec` for a `serde_json::Value`, which it never fails to
/// write. The bytes depend on what the value holds alone, and none of them is
/// a line end: inside of texts it is escaped, and between values nothing of
/// the kind is written. Read again, they give what was written.
#[verifier::external_body]
fn print_compact(v: &serde_json::Value) -> (bytes: Vec<u8>)
    requires
        value_tree(*v).plain(NESTING as nat),
    ensures
        bytes@ == compact(value_tree(*v)),
        !bytes@.contains(10u8),
        parsed_bytes(bytes@) == Some(value_tree(*v)),
{
    serde_json::to_vec(v).unwrap()
}

/// True if `t` is a record that gives `name` the value `v`.
pub open spec fn gives(t: Tree, name: Seq<char>, v: Tree) -> bool {
    t matches Tree::Record(m) && m.contains_key(name) && m[name] == v
}

/// A field is read exactly where a record gives the name a value, and as a
/// boolean, a number, a text or a list exactly where the value is one.
pub proof fn law_fields_are_read_by_name_and_type(
    t: Tree,
    name: Seq<char>,
    v: Tree,
    b: bool,
    n: u64,
    s: Seq<char>,
    l: Seq<Tree>,
)
    ensures
        t.field(name) == Some(v) <==> gives(t, name, v),
        t.bool_field(name) == Some(b) <==> gives(t, name, Tree::Bool(b)),
        t.u64_field(name) == Some(n) <==> gives(t, name, Tree::Uint(n)),
        t.text_field(name) == Some(s) <==> gives(t, name, Tree::Text(s)),
        t.list_field(name) == Some(l) <==> gives(t, name, Tree::List(l)),
{
}

/// The last entry with a name counts, and only names of entries are there.
pub proof fn law_last_entry_counts(entries: Seq<(Seq<char>, Tree)>, name: Seq<char>, i: int)
    ensures
        record_of(entries).contains_key(name) <==> exists|x: int|
            0 <= x < entries.len() && (#[trigger] entries[x]).0 == name,
        0 <= i < entries.len() && entries[i].0 == name && (forall|x: int|
            i < x < entries.len() ==> (#[trigger] entries[x]).0 != name) ==> record_of(
            entries,
        )[name] == entries[i].1,
    decreases entries.len(),
{
    if entries.len() > 0 {
        let before = entries.drop_last();
        let last = entries.len() - 1;
        law_last_entry_counts(before, name, i);
        if entries[last].0 != name {
            if exists|x: int| 0 <= x < before.len() && (#[trigger] before[x]).0 == name {
                let x = choose|x: int| 0 <= x < before.len() && (#[trigger] before[x]).0 == name;
                assert(entries[x].0 == name);
            }
            if exists|x: int| 0 <= x < entries.len() && (#[trigger] entries[x]).0 == name {
                let x = choose|x: int| 0 <= x < entries.len() && (#[trigger] entries[x]).0 == name;
                assert(before[x].0 == name);
            }
            if 0 <= i < last && (forall|x: int|
                i < x < entries.len() ==> (#[trigger] entries[x]).0 != name) {
                assert(before[i] == entries[i]);
                assert forall|x: int| i < x < before.len() implies (
                #[trigger] before[x]).0 != name by {
                    assert(entries[x].0 != name);
                }
            }
        }
    }
}

/// The texts of a list are those items that are texts, in their order.
pub proof fn law_texts_in_a_list(a: Seq<Tree>, b: Seq<Tree>, t: Tree)
    ensures
        texts_in(a + b) == texts_in(a) + texts_in(b),
        t matches Tree::Text(s) ==> texts_in(seq![t]) == seq![s],
        !(t is Text) ==> texts_in(seq![t]).len() == 0,
    decreases b.len(),
{
    reveal_with_fuel(texts_in, 2);
    assert(seq![t].drop_last() =~= Seq::empty());
    if t is Text {
        assert(texts_in(seq![t]) =~= seq![t->Text_0]);
    }
    if b.len() > 0 {
        law_texts_in_a_list(a, b.drop_last(), t);
        assert((a + b).drop_last() =~= a + b.drop_last());
        assert(texts_in(a + b) =~= texts_in(a) + texts_in(b));
    } else {
        assert(a + b =~= a);
        assert(texts_in(a + b) =~= texts_in(a) + texts_in(b));
    }
}

/// A list of texts has each text as an item, in their order.
pub proof fn law_lists_of_texts(list: Seq<Seq<char>>)
    ensures
        text_trees(list).len() == list.len(),
        forall|i: int| 0 <= i < list.len() ==> #[trigger] text_trees(list)[i] == Tree::Text(list[i]),
{
}

/// What a value amounts to: the same kind of thing, with what its items and
/// entries amount to.
pub proof fn law_values_amount_to_what_they_hold(json: Json, i: int)
    ensures
        match json {
            Json::Null => json.tree() == Tree::Null,
            Json::Bool(b) => json.tree() == Tree::Bool(b),
            Json::Uint(n) => json.tree() == Tree::Uint(n),
            Json::OtherNumber => json.tree() == Tree::OtherNumber,
            Json::Text(s) => json.tree() == Tree::Text(s@),
            Json::List(l) => json.tree() matches Tree::List(t) && t.len() == l@.len() && (0 <= i
                < l@.len() ==> t[i] == l@[i].tree()),
            Json::Record(e) => json.tree() is Record && (0 <= i < e@.len() && (forall|x: int|
                i < x < e@.len() ==> (#[trigger] e@[x]).0@ != e@[i].0@) ==> gives(
                json.tree(),
                e@[i].0@,
                e@[i].1.tree(),
            )),
        },
{
    if let Json::Record(e) = json {
        if 0 <= i < e@.len() {
            let all = entry_trees(e@);
            law_last_entry_counts(all, e@[i].0@, i);
            if forall|x: int| i < x < e@.len() ==> (#[trigger] e@[x]).0@ != e@[i].0@ {
                assert(all[i].0 == e@[i].0@);
                assert forall|x: int| i < x < all.len() implies (#[trigger] all[x]).0
                    != e@[i].0@ by {
                    assert(e@[x].0@ != e@[i].0@);
                }
            }
        }
    }
}

/// A record has the names of its entries and no others.
pub proof fn law_records_have_the_names_of_their_entries(entries: Vec<(String, Json)>, name: Seq<char>)
    ensures
        (exists|v: Tree| gives(Json::Record(entries).tree(), name, v)) <==> exists|i: int|
            0 <= i < entries@.len() && (#[trigger] entries@[i]).0@ == name,
{
    let t = Json::Record(entries).tree();
    let all = entry_trees(entries@);
    law_last_entry_counts(all, name, 0);
    if record_of(all).contains_key(name) {
        assert(gives(t, name, record_of(all)[name]));
        let i = choose|i: int| 0 <= i < all.len() && (#[trigger] all[i]).0 == name;
        assert(entries@[i].0@ == name);
    }
    if exists|i: int| 0 <= i < entries@.len() && (#[trigger] entries@[i]).0@ == name {
        let i = choose|i: int| 0 <= i < entries@.len() && (#[trigger] entries@[i]).0@ == name;
        assert(all[i].0 == name);
    }
}

} // verus!
