//! The two files that outlive a watcher: the settings that a user tunes and
//! the state that the watcher records.
//!
//! They are separate files, so that switching `armed` never races with the
//! frequent writes of the state. Both belong to one Herdr session.

use vstd::prelude::*;
use vstd::string::*;
use vstd::utf8::{encode_utf8, encode_utf8_decode_utf8, is_ascii_chars_encode_utf8};
use crate::json::{
    collect_texts, entries_writable, entry_trees, gives, line, lemma_texts_in_text_trees,
    lemma_writable_deeper, parse, parsed, pretty, pretty_text, put, read, text_list, text_trees,
    texts_in, Json, Tree, NESTING,
};
use crate::text::{
    decimal, decimal_text, digit, hex, hex_text, law_decimal_reads_back,
    law_hexadecimal_reads_back, number_in, sixteen_to, texts,
};

verus! {

/// The environment variables that the watcher looks at. `None` stands for one
/// that is not set; the two directories are given as the bytes of a path, the
/// others are `None` also where they are not Unicode.
pub struct Env {
    /// `HOME`
    pub home: Option<String>,
    /// `HERDR_SOCKET_PATH`
    pub socket_path: Option<String>,
    /// `HERDR_PLUGIN_CONFIG_DIR`
    pub config_dir: Option<Vec<u8>>,
    /// `HERDR_PLUGIN_STATE_DIR`
    pub state_dir: Option<Vec<u8>>,
    /// `HERDR_BIN_PATH`
    pub herdr_bin_path: Option<String>,
    /// `WAKEUP_HERDR_BIN`
    pub wakeup_herdr_bin: Option<String>,
    /// `WAKEUP_BIN`
    pub wakeup_bin: Option<String>,
}

/// The path of `part` below `base`.
pub open spec fn below<T>(base: Seq<T>, part: Seq<T>, slash: T) -> Seq<T> {
    if base.len() == 0 || base.last() == slash {
        base + part
    } else {
        base.push(slash) + part
    }
}

/// The path of the relative path `part` below `base`.
fn join_path(base: &Vec<u8>, part: &str) -> (path: Vec<u8>)
    ensures
        path@ == below(base@, encode_utf8(part@), 47u8),
{
    let mut path: Vec<u8> = Vec::new();
    for i in 0..base.len()
        invariant
            path@ == base@.take(i as int),
    {
        path.push(base[i]);
        assert(path@ =~= base@.take(i + 1));
    }
    assert(path@ =~= base@);
    if path.len() > 0 && path[path.len() - 1] != 47u8 {
        path.push(47u8);
    }
    let mut tail = part.as_bytes_vec();
    path.append(&mut tail);
    path
}

impl Env {
    /// The home directory.
    pub open spec fn home_text(self) -> Seq<char> {
        match self.home {
            Some(h) => h@,
            None => "."@,
        }
    }

    /// The path of the socket that the session is known by.
    pub open spec fn socket_text(self) -> Seq<char> {
        match self.socket_path {
            Some(p) => p@,
            None => below(self.home_text(), ".config/herdr/herdr.sock"@, '/'),
        }
    }

    /// The directory above the settings of all sessions.
    pub open spec fn config_base(self) -> Seq<u8> {
        match self.config_dir {
            Some(d) => d@,
            None => below(
                encode_utf8(self.home_text()),
                encode_utf8(".config/herdr-wakeup"@),
                47u8,
            ),
        }
    }

    /// The directory above the recorded states of all sessions.
    pub open spec fn state_base(self) -> Seq<u8> {
        match self.state_dir {
            Some(d) => d@,
            None => below(
                encode_utf8(self.home_text()),
                encode_utf8(".local/state/herdr-wakeup"@),
                47u8,
            ),
        }
    }
}

/// The directory of the session of `socket` below `base`.
pub open spec fn session_dir(base: Seq<u8>, socket: Seq<char>) -> Seq<u8> {
    below(below(base, encode_utf8("sessions"@), 47u8), encode_utf8(key_of(socket)), 47u8)
}

fn home_dir(env: &Env) -> (home: String)
    ensures
        home@ == env.home_text(),
{
    match &env.home {
        Some(h) => h.clone(),
        None => ".".to_string(),
    }
}

/// The path of the Herdr socket, without any option of the command line, so
/// that all that derive a directory from it agree. It serves to tell sessions
/// apart, not to connect.
pub fn socket_hint(env: &Env) -> (path: String)
    ensures
        path@ == env.socket_text(),
{
    match &env.socket_path {
        Some(p) => p.clone(),
        None => {
            let mut path = home_dir(env);
            let n: usize = path.as_str().unicode_len();
            if n > 0 && path.as_str().get_char(n - 1) != '/' {
                let ghost home = path@;
                path.append("/");
                proof {
                    reveal_strlit("/");
                }
                assert(path@ =~= home.push('/'));
            }
            path.append(".config/herdr/herdr.sock");
            path
        },
    }
}

/// The FNV-1a hash of some bytes, with 64 bits.
pub open spec fn fnv1a(bytes: Seq<u8>) -> u64
    decreases bytes.len(),
{
    if bytes.len() == 0 {
        0xcbf2_9ce4_8422_2325
    } else {
        (((fnv1a(bytes.drop_last()) ^ (bytes.last() as u64)) as int * 0x0000_0100_0000_01b3)
            % 0x1_0000_0000_0000_0000) as u64
    }
}

/// The key of the session of a socket.
pub open spec fn key_of(socket: Seq<char>) -> Seq<char> {
    hex(fnv1a(encode_utf8(socket)) as nat, 16)
}

/// A short key for the session that the socket at `socket_path` belongs to. It
/// can stand in a file name.
pub fn session_key(socket_path: &str) -> (key: String)
    ensures
        key@ == key_of(socket_path@),
        key@.len() == 16,
        forall|i: int| 0 <= i < 16 ==> '0' <= #[trigger] key@[i] <= '9' || 'a' <= key@[i] <= 'f',
{
    let bytes = socket_path.as_bytes();
    let mut hash: u64 = 0xcbf2_9ce4_8422_2325;
    let n: usize = bytes.len();
    assert(bytes@.take(0) =~= Seq::empty());
    for i in 0..n
        invariant
            n == bytes@.len(),
            hash == fnv1a(bytes@.take(i as int)),
    {
        assert(bytes@.take(i + 1).drop_last() =~= bytes@.take(i as int));
        hash = (hash ^ (bytes[i] as u64)).wrapping_mul(0x0000_0100_0000_01b3);
    }
    assert(bytes@.take(n as int) =~= bytes@);
    proof {
        lemma_hex(hash as nat, 16);
    }
    hex_text(hash, 16)
}

/// Hexadecimal digits are digits.
proof fn lemma_hex(n: nat, len: nat)
    ensures
        hex(n, len).len() == len,
        forall|i: int|
            0 <= i < len ==> '0' <= #[trigger] hex(n, len)[i] <= '9' || 'a' <= hex(n, len)[i]
                <= 'f',
    decreases len,
{
    if len > 0 {
        lemma_hex(n / 16, (len - 1) as nat);
        reveal_strlit("0123456789abcdef");
        assert(forall|d: int| 0 <= d < 16 ==> '0' <= #[trigger] digit(d) <= '9' || 'a' <= digit(d)
            <= 'f');
    }
}

/// The directory of the session's settings.
pub fn config_dir(env: &Env) -> (path: Vec<u8>)
    ensures
        path@ == session_dir(env.config_base(), env.socket_text()),
{
    let base = match &env.config_dir {
        Some(d) => join_path(d, "sessions"),
        None => join_path(
            &join_path(&home_dir(env).as_str().as_bytes_vec(), ".config/herdr-wakeup"),
            "sessions",
        ),
    };
    join_path(&base, session_key(socket_hint(env).as_str()).as_str())
}

/// The directory of the session's recorded state.
pub fn state_dir(env: &Env) -> (path: Vec<u8>)
    ensures
        path@ == session_dir(env.state_base(), env.socket_text()),
{
    let base = match &env.state_dir {
        Some(d) => join_path(d, "sessions"),
        None => join_path(
            &join_path(&home_dir(env).as_str().as_bytes_vec(), ".local/state/herdr-wakeup"),
            "sessions",
        ),
    };
    join_path(&base, session_key(socket_hint(env).as_str()).as_str())
}

/// The file of the session's settings.
pub fn config_path(env: &Env) -> (path: Vec<u8>)
    ensures
        path@ == below(
            session_dir(env.config_base(), env.socket_text()),
            encode_utf8("config.json"@),
            47u8,
        ),
{
    join_path(&config_dir(env), "config.json")
}

/// The file of the session's recorded state.
pub fn state_path(env: &Env) -> (path: Vec<u8>)
    ensures
        path@ == below(
            session_dir(env.state_base(), env.socket_text()),
            encode_utf8("state.json"@),
            47u8,
        ),
{
    join_path(&state_dir(env), "state.json")
}

/// Sessions with the same directories above them share a directory exactly if
/// they have the same key.
pub proof fn law_directories_are_session_scoped(base: Seq<u8>, a: Seq<char>, b: Seq<char>)
    ensures
        session_dir(base, a) == session_dir(base, b) <==> key_of(a) == key_of(b),
{
    let above = below(base, encode_utf8("sessions"@), 47u8);
    let x = encode_utf8(key_of(a));
    let y = encode_utf8(key_of(b));
    encode_utf8_decode_utf8(key_of(a));
    encode_utf8_decode_utf8(key_of(b));
    if session_dir(base, a) == session_dir(base, b) {
        let n = session_dir(base, a).len() - x.len();
        assert(session_dir(base, a).skip(n) =~= x);
        assert(session_dir(base, b).skip(n) =~= y);
    }
}

/// The settings and the recorded state are never in the same file.
pub proof fn law_config_and_state_are_separate_files(
    config_base: Seq<u8>,
    state_base: Seq<u8>,
    socket: Seq<char>,
)
    ensures
        below(session_dir(config_base, socket), encode_utf8("config.json"@), 47u8) != below(
            session_dir(state_base, socket),
            encode_utf8("state.json"@),
            47u8,
        ),
{
    reveal_strlit("config.json");
    reveal_strlit("state.json");
    is_ascii_chars_encode_utf8("config.json"@);
    is_ascii_chars_encode_utf8("state.json"@);
    let x = below(session_dir(config_base, socket), encode_utf8("config.json"@), 47u8);
    let y = below(session_dir(state_base, socket), encode_utf8("state.json"@), 47u8);
    assert("config.json"@[5] as u8 == encode_utf8("config.json"@)[5]);
    assert("state.json"@[4] as u8 == encode_utf8("state.json"@)[4]);
    assert(x[x.len() - 6] == 'g' as u8);
    assert(y[y.len() - 6] == 'e' as u8);
}

/// The name of the file that is written before it takes the place of the file
/// `name`.
pub open spec fn temporary(name: Option<Seq<char>>, pid: u32) -> Seq<char> {
    let stem = match name {
        Some(n) => n,
        None => "wakeup-herdr.tmp"@,
    };
    "."@ + stem + ".tmp-"@ + decimal(pid as nat)
}

/// The name of the file that is written first, next to the file `name`, and
/// then renamed to it. A reader of `name` never sees half of it.
pub fn temporary_name(name: Option<&str>, pid: u32) -> (tmp: String)
    ensures
        tmp@ == temporary(
            match name {
                Some(n) => Some(n@),
                None => None,
            },
            pid,
        ),
{
    let mut tmp = ".".to_string();
    match name {
        Some(n) => tmp.append(n),
        None => tmp.append("wakeup-herdr.tmp"),
    }
    tmp.append(".tmp-");
    tmp.append(decimal_text(pid as u64).as_str());
    tmp
}

/// The file that is written first is never the file itself.
pub proof fn law_temporary_file_is_another_file(name: Seq<char>, pid: u32)
    ensures
        temporary(Some(name), pid) != name,
{
    reveal_strlit(".");
    assert(temporary(Some(name), pid).len() > name.len());
}

/// What an attempt to read a file gave.
pub enum FileRead {
    /// There is no such file.
    Missing,
    /// It could not be read, for this reason.
    Failed(String),
    /// Its contents.
    Contents(String),
}

/// Settings, as values.
pub struct Settings {
    pub armed: bool,
    pub display: bool,
    pub start_grace_seconds: u64,
    pub stop_grace_seconds: u64,
    pub statuses: Seq<Seq<char>>,
    pub notify: bool,
    pub wakeup_bin: Option<Seq<char>>,
    pub herdr_bin: Option<Seq<char>>,
    pub allow_cli_fallback: bool,
}

impl Settings {
    /// The settings of a fresh installation.
    pub open spec fn initial() -> Settings {
        Settings {
            armed: true,
            display: false,
            start_grace_seconds: 5,
            stop_grace_seconds: 30,
            statuses: seq!["working"@],
            notify: true,
            wakeup_bin: None,
            herdr_bin: None,
            allow_cli_fallback: false,
        }
    }

    /// The settings that a JSON value stands for. A field that is missing or
    /// of another type has its initial value; so have statuses without a
    /// single text among them.
    pub open spec fn of(t: Tree) -> Settings {
        let d = Settings::initial();
        Settings {
            armed: t.bool_field("armed"@).unwrap_or(d.armed),
            display: t.bool_field("display"@).unwrap_or(d.display),
            start_grace_seconds: t.u64_field("start_grace_seconds"@).unwrap_or(
                d.start_grace_seconds,
            ),
            stop_grace_seconds: t.u64_field("stop_grace_seconds"@).unwrap_or(d.stop_grace_seconds),
            statuses: match t.list_field("statuses"@) {
                Some(items) => if texts_in(items).len() > 0 {
                    texts_in(items)
                } else {
                    d.statuses
                },
                None => d.statuses,
            },
            notify: t.bool_field("notify"@).unwrap_or(d.notify),
            wakeup_bin: t.text_field("wakeup_bin"@),
            herdr_bin: t.text_field("herdr_bin"@),
            allow_cli_fallback: t.bool_field("allow_cli_fallback"@).unwrap_or(
                d.allow_cli_fallback,
            ),
        }
    }

    /// The fields that these settings are written as. The two programs have a
    /// field only where they are set.
    pub open spec fn fields(self) -> Map<Seq<char>, Tree> {
        let m = Map::<Seq<char>, Tree>::empty()
            .insert("armed"@, Tree::Bool(self.armed))
            .insert("display"@, Tree::Bool(self.display))
            .insert("start_grace_seconds"@, Tree::Uint(self.start_grace_seconds))
            .insert("stop_grace_seconds"@, Tree::Uint(self.stop_grace_seconds))
            .insert("statuses"@, Tree::List(text_trees(self.statuses)))
            .insert("notify"@, Tree::Bool(self.notify));
        let m = match self.wakeup_bin {
            Some(bin) => m.insert("wakeup_bin"@, Tree::Text(bin)),
            None => m,
        };
        let m = match self.herdr_bin {
            Some(bin) => m.insert("herdr_bin"@, Tree::Text(bin)),
            None => m,
        };
        m.insert("allow_cli_fallback"@, Tree::Bool(self.allow_cli_fallback))
    }

    /// The JSON value that these settings are written as.
    pub open spec fn tree(self) -> Tree {
        Tree::Record(self.fields())
    }

    /// What the attempt to parse the contents of the file at `path` gives:
    /// settings, and an error to report.
    pub open spec fn parsed_at(path: Seq<char>, result: Result<Tree, Seq<char>>) -> (
        Settings,
        Option<Seq<char>>,
    ) {
        match result {
            Ok(t) => (Settings::of(t), None),
            Err(e) => (Settings::initial(), Some("failed to parse "@ + path + ": "@ + e)),
        }
    }

    /// What the attempt to read the file at `path` gives: settings, and an
    /// error to report.
    pub open spec fn loaded(path: Seq<char>, file: FileRead) -> (Settings, Option<Seq<char>>) {
        match file {
            FileRead::Missing => (Settings::initial(), None),
            FileRead::Failed(e) => (
                Settings::initial(),
                Some("failed to read "@ + path + ": "@ + e@),
            ),
            FileRead::Contents(text) => Settings::parsed_at(path, parsed(text@)),
        }
    }
}

/// The names of the fields of the settings are different.
proof fn lemma_setting_names()
    ensures
        "armed"@.len() == 5,
        "display"@.len() == 7,
        "start_grace_seconds"@.len() == 19,
        "stop_grace_seconds"@.len() == 18,
        "stop_grace_seconds"@[0] == 's',
        "statuses"@.len() == 8,
        "notify"@.len() == 6,
        "wakeup_bin"@.len() == 10,
        "herdr_bin"@.len() == 9,
        "allow_cli_fallback"@.len() == 18,
        "allow_cli_fallback"@[0] == 'a',
{
    reveal_strlit("armed");
    reveal_strlit("display");
    reveal_strlit("start_grace_seconds");
    reveal_strlit("stop_grace_seconds");
    reveal_strlit("statuses");
    reveal_strlit("notify");
    reveal_strlit("wakeup_bin");
    reveal_strlit("herdr_bin");
    reveal_strlit("allow_cli_fallback");
}

/// Settings with at least one status are read back as they were written.
pub proof fn law_settings_round_trip(c: Settings)
    requires
        c.statuses.len() > 0,
    ensures
        Settings::of(c.tree()) == c,
{
    lemma_setting_names();
    lemma_texts_in_text_trees(c.statuses);
    let t = c.tree();
    assert(t.bool_field("armed"@) == Some(c.armed));
    assert(t.bool_field("display"@) == Some(c.display));
    assert(t.u64_field("start_grace_seconds"@) == Some(c.start_grace_seconds));
    assert(t.u64_field("stop_grace_seconds"@) == Some(c.stop_grace_seconds));
    assert(t.list_field("statuses"@) == Some(text_trees(c.statuses)));
    assert(t.bool_field("notify"@) == Some(c.notify));
    assert(t.text_field("wakeup_bin"@) == c.wakeup_bin);
    assert(t.text_field("herdr_bin"@) == c.herdr_bin);
    assert(t.bool_field("allow_cli_fallback"@) == Some(c.allow_cli_fallback));
}

/// Settings that name no program are written without a field for it; every
/// other field is always written.
pub proof fn law_unset_programs_are_omitted(c: Settings)
    ensures
        c.fields().contains_key("wakeup_bin"@) <==> c.wakeup_bin is Some,
        c.fields().contains_key("herdr_bin"@) <==> c.herdr_bin is Some,
        c.fields().contains_key("armed"@),
        c.fields().contains_key("display"@),
        c.fields().contains_key("start_grace_seconds"@),
        c.fields().contains_key("stop_grace_seconds"@),
        c.fields().contains_key("statuses"@),
        c.fields().contains_key("notify"@),
        c.fields().contains_key("allow_cli_fallback"@),
{
    lemma_setting_names();
}

/// The program that is looked up on `PATH` unless the settings name another.
pub const DEFAULT_WAKEUP_BIN: &'static str = "wakeup";

/// The program that is looked up on `PATH` unless the settings name another.
pub const DEFAULT_HERDR_BIN: &'static str = "herdr";

/// The settings of a session.
#[derive(Clone, Debug, PartialEq)]
pub struct Config {
    pub armed: bool,
    pub display: bool,
    pub start_grace_seconds: u64,
    pub stop_grace_seconds: u64,
    pub statuses: Vec<String>,
    pub notify: bool,
    /// The `wakeup` program, where it is not looked up on `PATH`.
    pub wakeup_bin: Option<String>,
    /// The `herdr` program, where it is not looked up on `PATH`.
    pub herdr_bin: Option<String>,
    pub allow_cli_fallback: bool,
}

/// What an optional string reads.
pub open spec fn opt_text(s: Option<String>) -> Option<Seq<char>> {
    match s {
        Some(s) => Some(s@),
        None => None,
    }
}

impl View for Config {
    type V = Settings;

    open spec fn view(&self) -> Settings {
        Settings {
            armed: self.armed,
            display: self.display,
            start_grace_seconds: self.start_grace_seconds,
            stop_grace_seconds: self.stop_grace_seconds,
            statuses: texts(self.statuses@),
            notify: self.notify,
            wakeup_bin: opt_text(self.wakeup_bin),
            herdr_bin: opt_text(self.herdr_bin),
            allow_cli_fallback: self.allow_cli_fallback,
        }
    }
}

fn working_only() -> (statuses: Vec<String>)
    ensures
        texts(statuses@) == seq!["working"@],
{
    let mut statuses: Vec<String> = Vec::new();
    statuses.push("working".to_string());
    assert(texts(statuses@) =~= seq!["working"@]);
    statuses
}

impl Default for Config {
    fn default() -> (c: Config)
        ensures
            c@ == Settings::initial(),
    {
        Config {
            armed: true,
            display: false,
            start_grace_seconds: 5,
            stop_grace_seconds: 30,
            statuses: working_only(),
            notify: true,
            wakeup_bin: None,
            herdr_bin: None,
            allow_cli_fallback: false,
        }
    }
}

/// A copy of an optional piece of text.
fn owned(s: Option<&str>) -> (o: Option<String>)
    ensures
        match s {
            Some(t) => o matches Some(x) && x@ == t@,
            None => o is None,
        },
{
    match s {
        Some(t) => Some(t.to_string()),
        None => None,
    }
}

/// What was loaded, and the error to report, as values.
pub open spec fn load_result(r: (Config, Option<String>)) -> (Settings, Option<Seq<char>>) {
    (r.0@, opt_text(r.1))
}

impl Config {
    /// The settings that a JSON value stands for.
    pub fn from_value(v: &Json) -> (c: Config)
        ensures
            c@ == Settings::of(v.tree()),
    {
        let statuses = match v.list_field("statuses") {
            Some(items) => {
                let found = collect_texts(items);
                assert(found@.len() == texts(found@).len());
                if found.len() > 0 {
                    found
                } else {
                    working_only()
                }
            },
            None => working_only(),
        };
        Config {
            armed: v.bool_field("armed").unwrap_or(true),
            display: v.bool_field("display").unwrap_or(false),
            start_grace_seconds: v.u64_field("start_grace_seconds").unwrap_or(5),
            stop_grace_seconds: v.u64_field("stop_grace_seconds").unwrap_or(30),
            statuses,
            notify: v.bool_field("notify").unwrap_or(true),
            wakeup_bin: owned(v.text_field("wakeup_bin")),
            herdr_bin: owned(v.text_field("herdr_bin")),
            allow_cli_fallback: v.bool_field("allow_cli_fallback").unwrap_or(false),
        }
    }

    /// The JSON value that the settings are written as.
    pub fn to_value(&self) -> (v: Json)
        ensures
            v.tree() == self@.tree(),
            v.writable(2),
    {
        let mut m: Vec<(String, Json)> = Vec::new();
        assert(entry_trees(m@) =~= Seq::empty());
        assert(entries_writable(m@, 1));
        put(&mut m, "armed", Json::Bool(self.armed));
        put(&mut m, "display", Json::Bool(self.display));
        put(&mut m, "start_grace_seconds", Json::Uint(self.start_grace_seconds));
        put(&mut m, "stop_grace_seconds", Json::Uint(self.stop_grace_seconds));
        put(&mut m, "statuses", text_list(&self.statuses));
        put(&mut m, "notify", Json::Bool(self.notify));
        if let Some(bin) = &self.wakeup_bin {
            put(&mut m, "wakeup_bin", Json::Text(bin.clone()));
        }
        if let Some(bin) = &self.herdr_bin {
            put(&mut m, "herdr_bin", Json::Text(bin.clone()));
        }
        put(&mut m, "allow_cli_fallback", Json::Bool(self.allow_cli_fallback));
        proof {
            reveal_with_fuel(Json::writable, 2);
        }
        Json::Record(m)
    }

    /// The settings that the parsed contents of the file at `path` stand for,
    /// or the initial ones with an error to report.
    pub fn from_parsed(path: &str, result: Result<Json, String>) -> (r: (Config, Option<String>))
        ensures
            load_result(r) == Settings::parsed_at(
                path@,
                match result {
                    Ok(j) => Ok(j.tree()),
                    Err(e) => Err(e@),
                },
            ),
    {
        match result {
            Ok(v) => (Config::from_value(&v), None),
            Err(e) => (Config::default(), Some(problem("failed to parse ", path, e.as_str()))),
        }
    }

    /// The settings in the file at `path`.
    ///
    /// A file that is missing gives the initial settings and no error: that is
    /// the first run. One that cannot be read or parsed gives them too, with
    /// an error to report.
    pub fn load(path: &str, file: FileRead) -> (r: (Config, Option<String>))
        ensures
            load_result(r) == Settings::loaded(path@, file),
    {
        match file {
            FileRead::Missing => (Config::default(), None),
            FileRead::Failed(e) => (
                Config::default(),
                Some(problem("failed to read ", path, e.as_str())),
            ),
            FileRead::Contents(text) => Config::from_parsed(path, parse(text.as_str())),
        }
    }

    /// The `wakeup` program: the one that the settings name, or the one on
    /// `PATH`.
    pub fn effective_wakeup_bin(&self) -> (bin: String)
        ensures
            bin@ == self@.wakeup_bin.unwrap_or(DEFAULT_WAKEUP_BIN@),
    {
        match &self.wakeup_bin {
            Some(bin) => bin.clone(),
            None => DEFAULT_WAKEUP_BIN.to_string(),
        }
    }

    /// The `herdr` program: the one that the settings name, or the one on
    /// `PATH`.
    pub fn effective_herdr_bin(&self) -> (bin: String)
        ensures
            bin@ == self@.herdr_bin.unwrap_or(DEFAULT_HERDR_BIN@),
    {
        match &self.herdr_bin {
            Some(bin) => bin.clone(),
            None => DEFAULT_HERDR_BIN.to_string(),
        }
    }

    /// The contents of the file that the settings are saved in. Settings with
    /// at least one status are loaded from it as they were.
    pub fn save(&self) -> (contents: String)
        ensures
            contents@ == line(pretty(self@.tree())),
            parsed(contents@) == read(self@.tree()),
            self@.statuses.len() > 0 ==> forall|path: Seq<char>| #[trigger]
                Settings::loaded(path, FileRead::Contents(contents)) == (
                    self@,
                    None::<Seq<char>>,
                ),
    {
        let v = self.to_value();
        proof {
            lemma_writable_deeper(v, 2, NESTING as nat);
            if self@.statuses.len() > 0 {
                law_settings_round_trip(self@);
            }
        }
        end_line(pretty_text(&v))
    }
}

fn end_line(text: String) -> (contents: String)
    ensures
        contents@ == line(text@),
{
    let contents = text.concat("\n");
    proof {
        reveal_strlit("\n");
    }
    assert(contents@ =~= line(text@));
    contents
}

/// A message on a file: what went wrong, the path and the reason.
fn problem(what: &str, path: &str, reason: &str) -> (message: String)
    ensures
        message@ == what@ + path@ + ": "@ + reason@,
{
    let mut message = what.to_string();
    message.append(path);
    message.append(": ");
    message.append(reason);
    message
}

/// What stood at the path of the settings, and what came of it.
pub enum Found {
    /// There was a file, which was read.
    Existing(FileRead),
    /// There was none, and the initial settings were saved.
    Created,
    /// There was none, and saving the initial settings failed for this reason.
    NotCreated(String),
}

impl Settings {
    /// The settings with which the watcher starts, and an error to report.
    pub open spec fn bootstrapped(path: Seq<char>, found: Found) -> (Settings, Option<Seq<char>>) {
        match found {
            Found::Existing(file) => Settings::loaded(path, file),
            Found::Created => (Settings::initial(), None),
            Found::NotCreated(e) => (
                Settings::initial(),
                Some("failed to write default config to "@ + path + ": "@ + e@),
            ),
        }
    }

    /// The same settings, armed or not.
    pub open spec fn with_armed(self, armed: bool) -> Settings {
        Settings { armed, ..self }
    }
}

impl Config {
    /// What to save before the settings are first used: the initial settings
    /// if there is no file, and nothing if there is one, whatever it holds.
    pub fn bootstrap_contents(exists: bool) -> (contents: Option<String>)
        ensures
            exists ==> contents is None,
            !exists ==> (contents matches Some(text) && text@ == line(
                pretty(Settings::initial().tree()),
            ) && forall|path: Seq<char>| #[trigger]
                Settings::loaded(path, FileRead::Contents(text)) == (
                    Settings::initial(),
                    None::<Seq<char>>,
                )),
    {
        if exists {
            None
        } else {
            Some(Config::default().save())
        }
    }

    /// Like [`Config::load`], but for a file that is made with the initial
    /// settings where there is none. That this fails does not stop anything: it
    /// is reported.
    pub fn ensure_bootstrapped(path: &str, found: Found) -> (r: (Config, Option<String>))
        ensures
            load_result(r) == Settings::bootstrapped(path@, found),
    {
        match found {
            Found::Existing(file) => Config::load(path, file),
            Found::Created => (Config::default(), None),
            Found::NotCreated(e) => (
                Config::default(),
                Some(problem("failed to write default config to ", path, e.as_str())),
            ),
        }
    }

    /// The contents to save in order to arm or disarm the watcher, from which
    /// the settings are loaded as they were but for `armed`. Where they could
    /// not be had, the error to report: the file then stays as it is.
    pub fn switch_armed(path: &str, found: Found, armed: bool) -> (r: Result<String, String>)
        ensures
            match Settings::bootstrapped(path@, found) {
                (c, None) => r matches Ok(text) && text@ == line(
                    pretty(c.with_armed(armed).tree()),
                ) && forall|any: Seq<char>| #[trigger]
                    Settings::loaded(any, FileRead::Contents(text)) == (
                        c.with_armed(armed),
                        None::<Seq<char>>,
                    ),
                (_, Some(e)) => r matches Err(message) && message@ == e,
            },
    {
        match Config::ensure_bootstrapped(path, found) {
            (mut config, None) => {
                config.armed = armed;
                Ok(config.save())
            },
            (_, Some(e)) => Err(e),
        }
    }
}

/// Settings that were read have at least one status.
pub proof fn law_settings_have_a_status(t: Tree)
    ensures
        Settings::of(t).statuses.len() > 0,
{
}

/// Whatever stood in the file, what is read again after arming or disarming
/// differs in `armed` alone.
pub proof fn law_switching_changes_armed_alone(path: Seq<char>, found: Found, armed: bool)
    ensures
        ({
            let c = Settings::bootstrapped(path, found).0;
            Settings::of(c.with_armed(armed).tree()) == c.with_armed(armed)
        }),
{
    let c = Settings::bootstrapped(path, found).0;
    assert(c.statuses.len() > 0);
    law_settings_round_trip(c.with_armed(armed));
}

/// A recorded state, as values.
pub struct Status {
    pub state: Seq<char>,
    pub armed: bool,
    pub watcher_pid: u32,
    pub assertion_active: bool,
    pub working_agents: Seq<Seq<char>>,
    pub agent_count: usize,
    pub last_transition_unix: u64,
    pub last_error: Option<Seq<char>>,
    pub checked_at_unix: u64,
    pub session_key: Seq<char>,
}

impl Status {
    /// The recorded state that a JSON value stands for. It has to have the
    /// name of a state and the number of a process; anything else that is
    /// missing or of another type is filled in.
    pub open spec fn of(t: Tree) -> Option<Status> {
        match (t.text_field("state"@), t.u64_field("watcher_pid"@)) {
            (Some(state), Some(pid)) => Some(
                Status {
                    state,
                    armed: t.bool_field("armed"@).unwrap_or(true),
                    watcher_pid: pid as u32,
                    assertion_active: t.bool_field("assertion_active"@).unwrap_or(false),
                    working_agents: match t.list_field("working_agents"@) {
                        Some(items) => texts_in(items),
                        None => Seq::empty(),
                    },
                    agent_count: t.u64_field("agent_count"@).unwrap_or(0) as usize,
                    last_transition_unix: t.u64_field("last_transition_unix"@).unwrap_or(0),
                    last_error: t.text_field("last_error"@),
                    checked_at_unix: t.u64_field("checked_at_unix"@).unwrap_or(0),
                    session_key: t.text_field("session_key"@).unwrap_or(Seq::empty()),
                },
            ),
            _ => None,
        }
    }

    /// The JSON value that this state is written as.
    pub open spec fn tree(self) -> Tree {
        Tree::Record(
            Map::<Seq<char>, Tree>::empty()
                .insert("state"@, Tree::Text(self.state))
                .insert("armed"@, Tree::Bool(self.armed))
                .insert("watcher_pid"@, Tree::Uint(self.watcher_pid as u64))
                .insert("assertion_active"@, Tree::Bool(self.assertion_active))
                .insert("working_agents"@, Tree::List(text_trees(self.working_agents)))
                .insert("agent_count"@, Tree::Uint(self.agent_count as u64))
                .insert("last_transition_unix"@, Tree::Uint(self.last_transition_unix))
                .insert(
                "last_error"@,
                match self.last_error {
                    Some(e) => Tree::Text(e),
                    None => Tree::Null,
                },
            )
                .insert("checked_at_unix"@, Tree::Uint(self.checked_at_unix))
                .insert("session_key"@, Tree::Text(self.session_key)),
        )
    }

    /// What the attempt to parse the contents of the file at `path` gives: the
    /// state, and an error to report.
    pub open spec fn parsed_at(path: Seq<char>, result: Result<Tree, Seq<char>>) -> (
        Option<Status>,
        Option<Seq<char>>,
    ) {
        match result {
            Ok(t) => match Status::of(t) {
                Some(status) => (Some(status), None),
                None => (None, Some(path + " is missing required fields"@)),
            },
            Err(e) => (None, Some("failed to parse "@ + path + ": "@ + e)),
        }
    }

    /// What the attempt to read the file at `path` gives: the state, and an
    /// error to report.
    pub open spec fn loaded(path: Seq<char>, file: FileRead) -> (Option<Status>, Option<Seq<char>>) {
        match file {
            FileRead::Missing => (None, None),
            FileRead::Failed(e) => (None, Some("failed to read "@ + path + ": "@ + e@)),
            FileRead::Contents(text) => Status::parsed_at(path, parsed(text@)),
        }
    }
}

/// The names of the fields of a recorded state are different.
proof fn lemma_status_names()
    ensures
        "state"@.len() == 5,
        "state"@[0] == 's',
        "armed"@.len() == 5,
        "armed"@[0] == 'a',
        "watcher_pid"@.len() == 11,
        "watcher_pid"@[0] == 'w',
        "assertion_active"@.len() == 16,
        "working_agents"@.len() == 14,
        "agent_count"@.len() == 11,
        "agent_count"@[0] == 'a',
        "last_transition_unix"@.len() == 20,
        "last_error"@.len() == 10,
        "checked_at_unix"@.len() == 15,
        "session_key"@.len() == 11,
        "session_key"@[0] == 's',
{
    reveal_strlit("state");
    reveal_strlit("armed");
    reveal_strlit("watcher_pid");
    reveal_strlit("assertion_active");
    reveal_strlit("working_agents");
    reveal_strlit("agent_count");
    reveal_strlit("last_transition_unix");
    reveal_strlit("last_error");
    reveal_strlit("checked_at_unix");
    reveal_strlit("session_key");
}

/// A recorded state is read back as it was written.
pub proof fn law_status_round_trips(s: Status)
    ensures
        Status::of(s.tree()) == Some(s),
{
    lemma_status_names();
    lemma_texts_in_text_trees(s.working_agents);
    let t = s.tree();
    assert(t.text_field("state"@) == Some(s.state));
    assert(t.bool_field("armed"@) == Some(s.armed));
    assert(t.u64_field("watcher_pid"@) == Some(s.watcher_pid as u64));
    assert(t.bool_field("assertion_active"@) == Some(s.assertion_active));
    assert(t.list_field("working_agents"@) == Some(text_trees(s.working_agents)));
    assert(t.u64_field("agent_count"@) == Some(s.agent_count as u64));
    assert(t.u64_field("last_transition_unix"@) == Some(s.last_transition_unix));
    assert(t.text_field("last_error"@) == s.last_error);
    assert(t.u64_field("checked_at_unix"@) == Some(s.checked_at_unix));
    assert(t.text_field("session_key"@) == Some(s.session_key));
}

/// What a watcher records at every evaluation.
#[derive(Clone, Debug, PartialEq)]
pub struct RuntimeState {
    pub state: String,
    pub armed: bool,
    pub watcher_pid: u32,
    pub assertion_active: bool,
    pub working_agents: Vec<String>,
    pub agent_count: usize,
    /// When the assertion was last acquired or released.
    pub last_transition_unix: u64,
    pub last_error: Option<String>,
    /// When this was written. An old time tells a stuck watcher.
    pub checked_at_unix: u64,
    /// The key of the session that this belongs to.
    pub session_key: String,
}

impl View for RuntimeState {
    type V = Status;

    open spec fn view(&self) -> Status {
        Status {
            state: self.state@,
            armed: self.armed,
            watcher_pid: self.watcher_pid,
            assertion_active: self.assertion_active,
            working_agents: texts(self.working_agents@),
            agent_count: self.agent_count,
            last_transition_unix: self.last_transition_unix,
            last_error: opt_text(self.last_error),
            checked_at_unix: self.checked_at_unix,
            session_key: self.session_key@,
        }
    }
}

/// What was loaded, and the error to report, as values.
pub open spec fn state_result(r: (Option<RuntimeState>, Option<String>)) -> (
    Option<Status>,
    Option<Seq<char>>,
) {
    (
        match r.0 {
            Some(rt) => Some(rt@),
            None => None,
        },
        opt_text(r.1),
    )
}

impl RuntimeState {
    /// The JSON value that the state is written as.
    pub fn to_value(&self) -> (v: Json)
        ensures
            v.tree() == self@.tree(),
            v.writable(2),
    {
        let mut m: Vec<(String, Json)> = Vec::new();
        assert(entry_trees(m@) =~= Seq::empty());
        assert(entries_writable(m@, 1));
        put(&mut m, "state", Json::Text(self.state.clone()));
        put(&mut m, "armed", Json::Bool(self.armed));
        put(&mut m, "watcher_pid", Json::Uint(self.watcher_pid as u64));
        put(&mut m, "assertion_active", Json::Bool(self.assertion_active));
        put(&mut m, "working_agents", text_list(&self.working_agents));
        put(&mut m, "agent_count", Json::Uint(self.agent_count as u64));
        put(&mut m, "last_transition_unix", Json::Uint(self.last_transition_unix));
        let error = match &self.last_error {
            Some(e) => Json::Text(e.clone()),
            None => Json::Null,
        };
        put(&mut m, "last_error", error);
        put(&mut m, "checked_at_unix", Json::Uint(self.checked_at_unix));
        put(&mut m, "session_key", Json::Text(self.session_key.clone()));
        proof {
            reveal_with_fuel(Json::writable, 2);
        }
        Json::Record(m)
    }

    /// The recorded state that a JSON value stands for, if it has what is
    /// needed.
    pub fn from_value(v: &Json) -> (rt: Option<RuntimeState>)
        ensures
            match Status::of(v.tree()) {
                Some(status) => rt matches Some(r) && r@ == status,
                None => rt is None,
            },
    {
        let state = match v.text_field("state") {
            Some(s) => s.to_string(),
            None => {
                return None;
            },
        };
        let pid: u64 = match v.u64_field("watcher_pid") {
            Some(n) => n,
            None => {
                return None;
            },
        };
        let working_agents = match v.list_field("working_agents") {
            Some(items) => collect_texts(items),
            None => Vec::new(),
        };
        assert(v.tree().list_field("working_agents"@) is None ==> texts(working_agents@)
            =~= Seq::empty());
        let session_key = match v.text_field("session_key") {
            Some(k) => k.to_string(),
            None => String::new(),
        };
        Some(
            RuntimeState {
                state,
                armed: v.bool_field("armed").unwrap_or(true),
                watcher_pid: pid as u32,
                assertion_active: v.bool_field("assertion_active").unwrap_or(false),
                working_agents,
                agent_count: v.u64_field("agent_count").unwrap_or(0) as usize,
                last_transition_unix: v.u64_field("last_transition_unix").unwrap_or(0),
                last_error: owned(v.text_field("last_error")),
                checked_at_unix: v.u64_field("checked_at_unix").unwrap_or(0),
                session_key,
            },
        )
    }

    /// The contents of the file that the state is saved in. It is loaded from
    /// it as it was.
    pub fn save(&self) -> (contents: String)
        ensures
            contents@ == line(pretty(self@.tree())),
            parsed(contents@) == read(self@.tree()),
            forall|path: Seq<char>| #[trigger]
                Status::loaded(path, FileRead::Contents(contents)) == (
                    Some(self@),
                    None::<Seq<char>>,
                ),
    {
        let v = self.to_value();
        proof {
            lemma_writable_deeper(v, 2, NESTING as nat);
            law_status_round_trips(self@);
        }
        end_line(pretty_text(&v))
    }

    /// The recorded state that the parsed contents of the file at `path` stand
    /// for, or an error to report.
    pub fn from_parsed(path: &str, result: Result<Json, String>) -> (r: (
        Option<RuntimeState>,
        Option<String>,
    ))
        ensures
            state_result(r) == Status::parsed_at(
                path@,
                match result {
                    Ok(j) => Ok(j.tree()),
                    Err(e) => Err(e@),
                },
            ),
    {
        match result {
            Ok(v) => match RuntimeState::from_value(&v) {
                Some(rt) => (Some(rt), None),
                None => {
                    let message = path.to_string().concat(" is missing required fields");
                    (None, Some(message))
                },
            },
            Err(e) => (None, Some(problem("failed to parse ", path, e.as_str()))),
        }
    }

    /// The state recorded in the file at `path`.
    ///
    /// Where there is no file, no watcher has run: that is no error. A file
    /// that cannot be read or parsed, or lacks what is needed, gives an error
    /// to report and no state.
    pub fn load(path: &str, file: FileRead) -> (r: (Option<RuntimeState>, Option<String>))
        ensures
            state_result(r) == Status::loaded(path@, file),
    {
        match file {
            FileRead::Missing => (None, None),
            FileRead::Failed(e) => (None, Some(problem("failed to read ", path, e.as_str()))),
            FileRead::Contents(text) => RuntimeState::from_parsed(path, parse(text.as_str())),
        }
    }
}

/// A path below another one starts with it and ends with the part; between them
/// is a slash unless one is there already or there is nothing before it.
pub proof fn law_paths_below_are_joined_by_a_slash(base: Seq<u8>, part: Seq<u8>)
    ensures
        base.len() == 0 ==> below(base, part, 47u8) == part,
        base.len() > 0 && base.last() == 47u8 ==> below(base, part, 47u8) == base + part,
        base.len() > 0 && base.last() != 47u8 ==> below(base, part, 47u8) == base + seq![47u8]
            + part,
{
    assert(Seq::<u8>::empty() + part =~= part);
    if base.len() == 0 {
        assert(base + part =~= part);
    }
    assert(base.push(47u8) + part =~= base + seq![47u8] + part);
}

/// The socket of the session is the one that is given, else the one below the
/// home directory.
pub proof fn law_sessions_have_a_socket(env: Env)
    ensures
        env.socket_path matches Some(p) ==> env.socket_text() == p@,
        env.socket_path is None && env.home is None ==> env.socket_text()
            == "./.config/herdr/herdr.sock"@,
        env.socket_path is None ==> (env.home matches Some(h) ==> {
            &&& h@.len() == 0 ==> env.socket_text() == ".config/herdr/herdr.sock"@
            &&& h@.len() > 0 && h@.last() == '/' ==> env.socket_text() == h@
                + ".config/herdr/herdr.sock"@
            &&& h@.len() > 0 && h@.last() != '/' ==> env.socket_text() == h@
                + "/.config/herdr/herdr.sock"@
        }),
{
    reveal_strlit(".");
    reveal_strlit("./.config/herdr/herdr.sock");
    reveal_strlit(".config/herdr/herdr.sock");
    reveal_strlit("/.config/herdr/herdr.sock");
    let part = ".config/herdr/herdr.sock"@;
    assert("./.config/herdr/herdr.sock"@ =~= "."@.push('/') + part);
    if let Some(h) = env.home {
        if h@.len() == 0 {
            assert(h@ + part =~= part);
        }
        assert(h@.push('/') + part =~= h@ + "/.config/herdr/herdr.sock"@);
    }
}

/// The directories above all sessions are those that are given, else those
/// below the home directory.
pub proof fn law_directories_are_given_or_below_home(env: Env)
    ensures
        env.config_dir matches Some(d) ==> env.config_base() == d@,
        env.state_dir matches Some(d) ==> env.state_base() == d@,
        env.home matches Some(h) ==> {
            &&& env.config_dir is None ==> env.config_base() == below(
                encode_utf8(h@),
                encode_utf8(".config/herdr-wakeup"@),
                47u8,
            )
            &&& env.state_dir is None ==> env.state_base() == below(
                encode_utf8(h@),
                encode_utf8(".local/state/herdr-wakeup"@),
                47u8,
            )
        },
        env.home is None ==> {
            &&& env.config_dir is None ==> env.config_base() == below(
                encode_utf8("."@),
                encode_utf8(".config/herdr-wakeup"@),
                47u8,
            )
            &&& env.state_dir is None ==> env.state_base() == below(
                encode_utf8("."@),
                encode_utf8(".local/state/herdr-wakeup"@),
                47u8,
            )
        },
{
}

/// The directory of a session is named by its key, below `sessions`.
pub proof fn law_session_directories_are_named_by_the_key(base: Seq<u8>, socket: Seq<char>)
    ensures
        session_dir(base, socket) == below(base, encode_utf8("sessions"@), 47u8) + seq![47u8]
            + encode_utf8(key_of(socket)),
{
    reveal_strlit("sessions");
    is_ascii_chars_encode_utf8("sessions"@);
    let above = below(base, encode_utf8("sessions"@), 47u8);
    assert(encode_utf8("sessions"@).last() == 's' as u8);
    assert(above.last() == 's' as u8);
    assert(session_dir(base, socket) =~= above + seq![47u8] + encode_utf8(key_of(socket)));
}

/// The hash starts from its offset and takes in byte after byte: each is mixed
/// in and the result multiplied by the prime, within 64 bits.
pub proof fn law_hash_takes_in_every_byte(bytes: Seq<u8>, b: u8)
    ensures
        fnv1a(Seq::empty()) == 14695981039346656037,
        fnv1a(bytes.push(b)) == ((fnv1a(bytes) ^ (b as u64)) * 1099511628211int)
            % 18446744073709551616,
{
    assert(bytes.push(b).drop_last() =~= bytes);
}

/// The key of a session is the hash of the path of its socket, in sixteen
/// hexadecimal digits.
pub proof fn law_keys_are_the_hash_of_the_socket(socket: Seq<char>)
    ensures
        key_of(socket).len() == 16,
        number_in(key_of(socket), 16) == fnv1a(encode_utf8(socket)),
{
    reveal_with_fuel(sixteen_to, 17);
    assert(sixteen_to(16) == 18446744073709551616);
    law_hexadecimal_reads_back(fnv1a(encode_utf8(socket)) as nat, 16);
}

/// The file that is written first is named after the file itself and the
/// process, so that two processes never write the same one.
pub proof fn law_temporary_files_differ_by_process(name: Option<Seq<char>>, pid: u32, other: u32)
    ensures
        name matches Some(n) ==> temporary(name, pid) == "."@ + n + ".tmp-"@ + decimal(pid as nat),
        name is None ==> temporary(name, pid) == ".wakeup-herdr.tmp.tmp-"@ + decimal(pid as nat),
        temporary(name, pid) == temporary(name, other) ==> pid == other,
{
    reveal_strlit(".");
    reveal_strlit("wakeup-herdr.tmp");
    reveal_strlit(".tmp-");
    reveal_strlit(".wakeup-herdr.tmp.tmp-");
    assert("."@ + "wakeup-herdr.tmp"@ + ".tmp-"@ =~= ".wakeup-herdr.tmp.tmp-"@);
    law_decimal_reads_back(pid as nat);
    law_decimal_reads_back(other as nat);
    let stem = match name {
        Some(n) => n,
        None => "wakeup-herdr.tmp"@,
    };
    let front = ("."@ + stem + ".tmp-"@).len() as int;
    if temporary(name, pid) == temporary(name, other) {
        assert(temporary(name, pid).skip(front) =~= decimal(pid as nat));
        assert(temporary(name, other).skip(front) =~= decimal(other as nat));
    }
}

/// True if `v` is the boolean under `name`, or `otherwise` where there is none.
pub open spec fn reads_bool(t: Tree, name: Seq<char>, otherwise: bool, v: bool) -> bool {
    gives(t, name, Tree::Bool(v)) || (v == otherwise && !gives(t, name, Tree::Bool(!v)))
}

/// True if `v` is the number under `name`, or `otherwise` where there is none.
pub open spec fn reads_u64(t: Tree, name: Seq<char>, otherwise: u64, v: u64) -> bool {
    gives(t, name, Tree::Uint(v)) || (v == otherwise && forall|n: u64|
        !#[trigger] gives(t, name, Tree::Uint(n)))
}

/// True if `v` is the text under `name`, if there is one.
pub open spec fn reads_text(t: Tree, name: Seq<char>, v: Option<Seq<char>>) -> bool {
    match v {
        Some(s) => gives(t, name, Tree::Text(s)),
        None => forall|s: Seq<char>| !#[trigger] gives(t, name, Tree::Text(s)),
    }
}

/// The settings of a fresh installation.
pub proof fn law_fresh_settings()
    ensures
        ({
            let c = Settings::initial();
            &&& c.armed && !c.display && c.notify && !c.allow_cli_fallback
            &&& c.start_grace_seconds == 5 && c.stop_grace_seconds == 30
            &&& c.statuses == seq!["working"@]
            &&& c.wakeup_bin is None && c.herdr_bin is None
        }),
{
}

/// Settings are read field by field: what the file gives with the right type
/// counts, and anything else is as in a fresh installation.
pub proof fn law_settings_are_read_field_by_field(t: Tree, items: Seq<Tree>)
    ensures
        ({
            let c = Settings::of(t);
            &&& reads_bool(t, "armed"@, true, c.armed)
            &&& reads_bool(t, "display"@, false, c.display)
            &&& reads_u64(t, "start_grace_seconds"@, 5, c.start_grace_seconds)
            &&& reads_u64(t, "stop_grace_seconds"@, 30, c.stop_grace_seconds)
            &&& reads_bool(t, "notify"@, true, c.notify)
            &&& reads_text(t, "wakeup_bin"@, c.wakeup_bin)
            &&& reads_text(t, "herdr_bin"@, c.herdr_bin)
            &&& reads_bool(t, "allow_cli_fallback"@, false, c.allow_cli_fallback)
            &&& gives(t, "statuses"@, Tree::List(items)) && texts_in(items).len() > 0
                ==> c.statuses == texts_in(items)
            &&& gives(t, "statuses"@, Tree::List(items)) && texts_in(items).len() == 0
                ==> c.statuses == seq!["working"@]
            &&& (forall|l: Seq<Tree>| !#[trigger] gives(t, "statuses"@, Tree::List(l)))
                ==> c.statuses == seq!["working"@]
        }),
{
    if t.list_field("statuses"@) is Some {
        assert(gives(t, "statuses"@, Tree::List(t.list_field("statuses"@)->Some_0)));
    }
}

/// Settings are written field by field.
pub proof fn law_settings_are_written_field_by_field(c: Settings)
    ensures
        ({
            let t = c.tree();
            &&& gives(t, "armed"@, Tree::Bool(c.armed))
            &&& gives(t, "display"@, Tree::Bool(c.display))
            &&& gives(t, "start_grace_seconds"@, Tree::Uint(c.start_grace_seconds))
            &&& gives(t, "stop_grace_seconds"@, Tree::Uint(c.stop_grace_seconds))
            &&& gives(t, "statuses"@, Tree::List(text_trees(c.statuses)))
            &&& gives(t, "notify"@, Tree::Bool(c.notify))
            &&& reads_text(t, "wakeup_bin"@, c.wakeup_bin)
            &&& reads_text(t, "herdr_bin"@, c.herdr_bin)
            &&& gives(t, "allow_cli_fallback"@, Tree::Bool(c.allow_cli_fallback))
        }),
{
    lemma_setting_names();
}

/// Settings amount to what their fields hold.
pub proof fn law_settings_amount_to_their_fields(c: Config)
    ensures
        c@.armed == c.armed,
        c@.display == c.display,
        c@.start_grace_seconds == c.start_grace_seconds,
        c@.stop_grace_seconds == c.stop_grace_seconds,
        c@.statuses == texts(c.statuses@),
        c@.notify == c.notify,
        c@.wakeup_bin is Some <==> c.wakeup_bin is Some,
        c.wakeup_bin matches Some(s) ==> c@.wakeup_bin == Some(s@),
        c@.herdr_bin is Some <==> c.herdr_bin is Some,
        c.herdr_bin matches Some(s) ==> c@.herdr_bin == Some(s@),
        c@.allow_cli_fallback == c.allow_cli_fallback,
{
}

/// Loading gives what the file holds where it can be read and parsed. Else it
/// gives the settings of a fresh installation, with an error unless there is no
/// file.
pub proof fn law_settings_load_or_fall_back(path: Seq<char>, reason: String, text: String)
    ensures
        Settings::loaded(path, FileRead::Missing) == (Settings::initial(), None::<Seq<char>>),
        Settings::loaded(path, FileRead::Failed(reason)) == (
            Settings::initial(),
            Some("failed to read "@ + path + ": "@ + reason@),
        ),
        parsed(text@) matches Ok(t) ==> Settings::loaded(path, FileRead::Contents(text)) == (
            Settings::of(t),
            None::<Seq<char>>,
        ),
        parsed(text@) matches Err(e) ==> Settings::loaded(path, FileRead::Contents(text)) == (
            Settings::initial(),
            Some("failed to parse "@ + path + ": "@ + e),
        ),
{
}

/// Where there is a file the watcher starts with what it holds; where there is
/// none, with the settings of a fresh installation, and an error if these could
/// not be saved.
pub proof fn law_existing_settings_come_first(path: Seq<char>, file: FileRead, reason: String)
    ensures
        Settings::bootstrapped(path, Found::Existing(file)) == Settings::loaded(path, file),
        Settings::bootstrapped(path, Found::Created) == (Settings::initial(), None::<Seq<char>>),
        Settings::bootstrapped(path, Found::NotCreated(reason)) == (
            Settings::initial(),
            Some("failed to write default config to "@ + path + ": "@ + reason@),
        ),
{
}

/// After arming or disarming, what is read from the written settings is armed
/// as asked for, and the same as before in every other field.
pub proof fn law_switching_keeps_every_other_field(path: Seq<char>, found: Found, armed: bool)
    ensures
        ({
            let before = Settings::bootstrapped(path, found).0;
            let after = Settings::of(before.with_armed(armed).tree());
            &&& after.armed == armed
            &&& after.display == before.display
            &&& after.start_grace_seconds == before.start_grace_seconds
            &&& after.stop_grace_seconds == before.stop_grace_seconds
            &&& after.statuses == before.statuses
            &&& after.notify == before.notify
            &&& after.wakeup_bin == before.wakeup_bin
            &&& after.herdr_bin == before.herdr_bin
            &&& after.allow_cli_fallback == before.allow_cli_fallback
        }),
{
    law_switching_changes_armed_alone(path, found, armed);
}

/// Arming what was disarmed gives back what was there.
pub proof fn law_switching_back_undoes_switching(c: Settings, armed: bool)
    ensures
        c.with_armed(armed).with_armed(c.armed) == c,
        c.with_armed(armed).armed == armed,
{
}

/// A recorded state is read exactly where a state and a process are named, and
/// then field by field: what is given with the right type counts, and anything
/// else is filled in.
pub proof fn law_states_are_read_field_by_field(t: Tree, state: Seq<char>, pid: u64, items: Seq<Tree>)
    ensures
        gives(t, "state"@, Tree::Text(state)) && gives(t, "watcher_pid"@, Tree::Uint(pid)) ==> {
            &&& Status::of(t) matches Some(s)
            &&& s.state == state
            &&& s.watcher_pid == pid as u32
            &&& reads_bool(t, "armed"@, true, s.armed)
            &&& reads_bool(t, "assertion_active"@, false, s.assertion_active)
            &&& reads_u64(t, "last_transition_unix"@, 0, s.last_transition_unix)
            &&& reads_u64(t, "checked_at_unix"@, 0, s.checked_at_unix)
            &&& reads_text(t, "last_error"@, s.last_error)
            &&& reads_text(t, "session_key"@, Some(s.session_key)) || (s.session_key.len() == 0
                && reads_text(t, "session_key"@, None))
            &&& gives(t, "working_agents"@, Tree::List(items)) ==> s.working_agents == texts_in(
                items,
            )
            &&& (forall|l: Seq<Tree>| !#[trigger] gives(t, "working_agents"@, Tree::List(l)))
                ==> s.working_agents.len() == 0
            &&& exists|n: u64| #[trigger]
                reads_u64(t, "agent_count"@, 0, n) && s.agent_count == n as usize
        },
        reads_text(t, "state"@, None) ==> Status::of(t) is None,
        (forall|n: u64| !#[trigger] gives(t, "watcher_pid"@, Tree::Uint(n))) ==> Status::of(
            t,
        ) is None,
{
    let n = t.u64_field("agent_count"@).unwrap_or(0);
    assert(reads_u64(t, "agent_count"@, 0, n));
    if t.list_field("working_agents"@) is Some {
        let l = t.list_field("working_agents"@)->Some_0;
        assert(gives(t, "working_agents"@, Tree::List(l)));
    }
    if t.text_field("state"@) is Some {
        assert(gives(t, "state"@, Tree::Text(t.text_field("state"@)->Some_0)));
    }
    if t.u64_field("watcher_pid"@) is Some {
        assert(gives(t, "watcher_pid"@, Tree::Uint(t.u64_field("watcher_pid"@)->Some_0)));
    }
}

/// A recorded state is written field by field.
pub proof fn law_states_are_written_field_by_field(s: Status)
    ensures
        ({
            let t = s.tree();
            &&& gives(t, "state"@, Tree::Text(s.state))
            &&& gives(t, "armed"@, Tree::Bool(s.armed))
            &&& gives(t, "watcher_pid"@, Tree::Uint(s.watcher_pid as u64))
            &&& gives(t, "assertion_active"@, Tree::Bool(s.assertion_active))
            &&& gives(t, "working_agents"@, Tree::List(text_trees(s.working_agents)))
            &&& gives(t, "agent_count"@, Tree::Uint(s.agent_count as u64))
            &&& gives(t, "last_transition_unix"@, Tree::Uint(s.last_transition_unix))
            &&& s.last_error matches Some(e) ==> gives(t, "last_error"@, Tree::Text(e))
            &&& s.last_error is None ==> gives(t, "last_error"@, Tree::Null)
            &&& gives(t, "checked_at_unix"@, Tree::Uint(s.checked_at_unix))
            &&& gives(t, "session_key"@, Tree::Text(s.session_key))
        }),
{
    lemma_status_names();
}

/// A recorded state amounts to what its fields hold.
pub proof fn law_states_amount_to_their_fields(rt: RuntimeState)
    ensures
        rt@.state == rt.state@,
        rt@.armed == rt.armed,
        rt@.watcher_pid == rt.watcher_pid,
        rt@.assertion_active == rt.assertion_active,
        rt@.working_agents == texts(rt.working_agents@),
        rt@.agent_count == rt.agent_count,
        rt@.last_transition_unix == rt.last_transition_unix,
        rt@.last_error is Some <==> rt.last_error is Some,
        rt.last_error matches Some(e) ==> rt@.last_error == Some(e@),
        rt@.checked_at_unix == rt.checked_at_unix,
        rt@.session_key == rt.session_key@,
{
}

/// Without a file there is no state and no error. A file that cannot be read or
/// parsed, or lacks what is needed, gives an error and no state.
pub proof fn law_states_load_or_are_reported(path: Seq<char>, reason: String, text: String)
    ensures
        Status::loaded(path, FileRead::Missing) == (None::<Status>, None::<Seq<char>>),
        Status::loaded(path, FileRead::Failed(reason)) == (
            None::<Status>,
            Some("failed to read "@ + path + ": "@ + reason@),
        ),
        parsed(text@) matches Ok(t) ==> {
            &&& Status::of(t) matches Some(s) ==> Status::loaded(path, FileRead::Contents(text))
                == (Some(s), None::<Seq<char>>)
            &&& Status::of(t) is None ==> Status::loaded(path, FileRead::Contents(text)) == (
                None::<Status>,
                Some(path + " is missing required fields"@),
            )
        },
        parsed(text@) matches Err(e) ==> Status::loaded(path, FileRead::Contents(text)) == (
            None::<Status>,
            Some("failed to parse "@ + path + ": "@ + e),
        ),
{
}

/// What was loaded amounts to the settings and the error, if there is one.
pub proof fn law_loading_amounts_to_settings_and_error(c: Config, e: Option<String>)
    ensures
        load_result((c, e)).0 == c@,
        load_result((c, e)).1 is Some <==> e is Some,
        e matches Some(m) ==> load_result((c, e)).1 == Some(m@),
{
}

/// What was loaded amounts to the state, if there is one, and the error, if
/// there is one.
pub proof fn law_loading_amounts_to_state_and_error(rt: Option<RuntimeState>, e: Option<String>)
    ensures
        state_result((rt, e)).0 is Some <==> rt is Some,
        rt matches Some(r) ==> state_result((rt, e)).0 == Some(r@),
        state_result((rt, e)).1 is Some <==> e is Some,
        e matches Some(m) ==> state_result((rt, e)).1 == Some(m@),
{
}

} // verus!
