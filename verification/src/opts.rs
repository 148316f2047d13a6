//! The options of the watcher. What the command line gives wins over the
//! environment, this over the settings, and these over what is built in.

use vstd::prelude::*;
use vstd::string::*;
use crate::persist::{socket_hint, Config, Env, Settings, DEFAULT_HERDR_BIN, DEFAULT_WAKEUP_BIN};
use crate::text::{
    copy_texts, lemma_position, lemma_position_is, lowercase, position, quote, quoted, same_text,
    split, texts, to_lowercase, trim, trimmed,
};
use crate::time::{Duration, NANOS_PER_MILLI, NANOS_PER_SEC};

verus! {

/// The options of the watcher.
#[derive(Debug)]
pub struct Opts {
    pub socket: String,
    pub herdr_bin: String,
    pub wakeup_bin: String,
    pub display: bool,
    pub statuses: Vec<String>,
    /// How long work has to last before the assertion is acquired.
    pub start_grace: Duration,
    /// How long idleness has to last before the assertion is released.
    pub grace: Duration,
    pub backstop: Duration,
    pub debounce: Duration,
    pub exit_after: Duration,
    pub no_notify: bool,
    pub verbose: bool,
    pub quiet: bool,
    pub once: bool,
    /// Whether the command line may stand in for a socket that cannot be
    /// reached.
    pub allow_cli_fallback: bool,
}

/// What [`Opts`] amount to.
pub struct Options {
    pub socket: Seq<char>,
    pub herdr_bin: Seq<char>,
    pub wakeup_bin: Seq<char>,
    pub display: bool,
    pub statuses: Seq<Seq<char>>,
    pub start_grace: Duration,
    pub grace: Duration,
    pub backstop: Duration,
    pub debounce: Duration,
    pub exit_after: Duration,
    pub no_notify: bool,
    pub verbose: bool,
    pub quiet: bool,
    pub once: bool,
    pub allow_cli_fallback: bool,
}

impl View for Opts {
    type V = Options;

    open spec fn view(&self) -> Options {
        Options {
            socket: self.socket@,
            herdr_bin: self.herdr_bin@,
            wakeup_bin: self.wakeup_bin@,
            display: self.display,
            statuses: texts(self.statuses@),
            start_grace: self.start_grace,
            grace: self.grace,
            backstop: self.backstop,
            debounce: self.debounce,
            exit_after: self.exit_after,
            no_notify: self.no_notify,
            verbose: self.verbose,
            quiet: self.quiet,
            once: self.once,
            allow_cli_fallback: self.allow_cli_fallback,
        }
    }
}

/// An argument, read as a number.
#[derive(Clone, Copy, Debug, PartialEq, Eq, Structural)]
pub enum Number {
    /// It is no number.
    NotANumber,
    /// It is negative or not finite.
    Unusable,
    /// It is a number, and so many seconds and so many milliseconds, where
    /// such spans of time can be had.
    Usable { secs: Option<Duration>, millis: Option<Duration> },
}

/// An argument of the command line.
#[derive(Debug)]
pub struct Arg {
    pub text: String,
    pub number: Number,
}

/// What the arguments ask for.
#[derive(Debug)]
pub enum Parsed {
    /// To watch, with these options.
    Run(Opts),
    /// The help text.
    Help,
    /// The version.
    Version,
    /// Nothing: they are wrong in this way.
    Invalid(String),
}

/// What [`Parsed`] amounts to.
pub enum Wanted {
    Run(Options),
    Help,
    Version,
    Invalid(Seq<char>),
}

impl View for Parsed {
    type V = Wanted;

    open spec fn view(&self) -> Wanted {
        match self {
            Parsed::Run(o) => Wanted::Run(o@),
            Parsed::Help => Wanted::Help,
            Parsed::Version => Wanted::Version,
            Parsed::Invalid(m) => Wanted::Invalid(m@),
        }
    }
}

/// The options that there are.
#[derive(Clone, Copy, Debug, PartialEq, Eq, Structural)]
pub enum Flag {
    Help,
    Version,
    Display,
    StartGrace,
    Grace,
    Backstop,
    ExitAfter,
    Debounce,
    Statuses,
    Socket,
    Wakeup,
    Herdr,
    AllowCliFallback,
    NoNotify,
    Once,
    Verbose,
    Quiet,
    Unknown,
}

/// The option that an argument names.
pub open spec fn flag_of(text: Seq<char>) -> Flag {
    if text == "-h"@ || text == "--help"@ {
        Flag::Help
    } else if text == "-V"@ || text == "--version"@ {
        Flag::Version
    } else if text == "-d"@ || text == "--display"@ {
        Flag::Display
    } else if text == "--start-grace"@ {
        Flag::StartGrace
    } else if text == "--grace"@ {
        Flag::Grace
    } else if text == "--backstop"@ {
        Flag::Backstop
    } else if text == "--exit-after"@ {
        Flag::ExitAfter
    } else if text == "--debounce"@ {
        Flag::Debounce
    } else if text == "--statuses"@ {
        Flag::Statuses
    } else if text == "--socket"@ {
        Flag::Socket
    } else if text == "--wakeup"@ {
        Flag::Wakeup
    } else if text == "--herdr"@ {
        Flag::Herdr
    } else if text == "--allow-cli-fallback"@ {
        Flag::AllowCliFallback
    } else if text == "--no-notify"@ {
        Flag::NoNotify
    } else if text == "--once"@ {
        Flag::Once
    } else if text == "-v"@ || text == "--verbose"@ {
        Flag::Verbose
    } else if text == "-q"@ || text == "--quiet"@ {
        Flag::Quiet
    } else {
        Flag::Unknown
    }
}

fn flag(text: &str) -> (f: Flag)
    ensures
        f == flag_of(text@),
{
    if same_text(text, "-h") || same_text(text, "--help") {
        Flag::Help
    } else if same_text(text, "-V") || same_text(text, "--version") {
        Flag::Version
    } else if same_text(text, "-d") || same_text(text, "--display") {
        Flag::Display
    } else if same_text(text, "--start-grace") {
        Flag::StartGrace
    } else if same_text(text, "--grace") {
        Flag::Grace
    } else if same_text(text, "--backstop") {
        Flag::Backstop
    } else if same_text(text, "--exit-after") {
        Flag::ExitAfter
    } else if same_text(text, "--debounce") {
        Flag::Debounce
    } else if same_text(text, "--statuses") {
        Flag::Statuses
    } else if same_text(text, "--socket") {
        Flag::Socket
    } else if same_text(text, "--wakeup") {
        Flag::Wakeup
    } else if same_text(text, "--herdr") {
        Flag::Herdr
    } else if same_text(text, "--allow-cli-fallback") {
        Flag::AllowCliFallback
    } else if same_text(text, "--no-notify") {
        Flag::NoNotify
    } else if same_text(text, "--once") {
        Flag::Once
    } else if same_text(text, "-v") || same_text(text, "--verbose") {
        Flag::Verbose
    } else if same_text(text, "-q") || same_text(text, "--quiet") {
        Flag::Quiet
    } else {
        Flag::Unknown
    }
}

/// The options that are switched on by their name alone.
pub open spec fn is_switch(f: Flag) -> bool {
    match f {
        Flag::Display
        | Flag::AllowCliFallback
        | Flag::NoNotify
        | Flag::Once
        | Flag::Verbose
        | Flag::Quiet => true,
        _ => false,
    }
}

/// The span of time that an argument gives, or what is wrong with it.
pub open spec fn span_of(flag: Seq<char>, arg: Arg, millis: bool) -> Result<Duration, Seq<char>> {
    match arg.number {
        Number::NotANumber => Err(flag + " expects a number, got "@ + quoted(arg.text@)),
        Number::Unusable => Err(
            flag + " expects a non-negative finite number, got "@ + quoted(arg.text@),
        ),
        Number::Usable { secs, millis: ms } => match if millis { ms } else { secs } {
            Some(d) => Ok(d),
            None => Err(flag + " is out of range"@),
        },
    }
}

/// The statuses among the parts of a list: in lower case, without whitespace
/// around them, and without empty ones.
pub open spec fn cleaned(parts: Seq<Seq<char>>) -> Seq<Seq<char>>
    decreases parts.len(),
{
    if parts.len() == 0 {
        Seq::empty()
    } else {
        let status = lowercase(trimmed(parts[0]));
        let rest = cleaned(parts.drop_first());
        if status.len() == 0 {
            rest
        } else {
            seq![status] + rest
        }
    }
}

/// The statuses in a text, which has commas between them.
pub open spec fn statuses_in(text: Seq<char>) -> Seq<Seq<char>> {
    cleaned(split(text, ','))
}

impl Options {
    /// With the option `f` switched on.
    pub open spec fn switched(self, f: Flag) -> Options {
        match f {
            Flag::Display => Options { display: true, ..self },
            Flag::AllowCliFallback => Options { allow_cli_fallback: true, ..self },
            Flag::NoNotify => Options { no_notify: true, ..self },
            Flag::Once => Options { once: true, ..self },
            Flag::Verbose => Options { verbose: true, ..self },
            Flag::Quiet => Options { quiet: true, ..self },
            _ => self,
        }
    }

    /// With the option `f`, given as `flag`, set to an argument; or what is
    /// wrong with the argument.
    pub open spec fn set(self, f: Flag, flag: Seq<char>, arg: Arg) -> Result<Options, Seq<char>> {
        match f {
            Flag::StartGrace => match span_of(flag, arg, false) {
                Ok(d) => Ok(Options { start_grace: d, ..self }),
                Err(m) => Err(m),
            },
            Flag::Grace => match span_of(flag, arg, false) {
                Ok(d) => Ok(Options { grace: d, ..self }),
                Err(m) => Err(m),
            },
            Flag::Backstop => match span_of(flag, arg, false) {
                Ok(d) => Ok(Options { backstop: d, ..self }),
                Err(m) => Err(m),
            },
            Flag::ExitAfter => match span_of(flag, arg, false) {
                Ok(d) => Ok(Options { exit_after: d, ..self }),
                Err(m) => Err(m),
            },
            Flag::Debounce => match span_of(flag, arg, true) {
                Ok(d) => Ok(Options { debounce: d, ..self }),
                Err(m) => Err(m),
            },
            Flag::Statuses => if statuses_in(arg.text@).len() == 0 {
                Err("--statuses requires at least one non-empty status"@)
            } else {
                Ok(Options { statuses: statuses_in(arg.text@), ..self })
            },
            Flag::Socket => Ok(Options { socket: arg.text@, ..self }),
            Flag::Wakeup => Ok(Options { wakeup_bin: arg.text@, ..self }),
            Flag::Herdr => Ok(Options { herdr_bin: arg.text@, ..self }),
            _ => Ok(self),
        }
    }

    /// What the arguments ask for, from left to right, starting from these
    /// options. The first that asks for something else, or is wrong, decides.
    pub open spec fn scan(self, args: Seq<Arg>) -> Wanted
        decreases args.len(),
    {
        if args.len() == 0 {
            Wanted::Run(self)
        } else {
            let text = args[0].text@;
            let f = flag_of(text);
            if f is Help {
                Wanted::Help
            } else if f is Version {
                Wanted::Version
            } else if f is Unknown {
                Wanted::Invalid("unknown option: "@ + text)
            } else if is_switch(f) {
                self.switched(f).scan(args.skip(1))
            } else if args.len() == 1 {
                Wanted::Invalid(text + " requires a value"@)
            } else {
                match self.set(f, text, args[1]) {
                    Ok(o) => o.scan(args.skip(2)),
                    Err(m) => Wanted::Invalid(m),
                }
            }
        }
    }

    /// Without periodic evaluations, one comes after a day.
    pub open spec fn finished(self) -> Options {
        if self.backstop.nanos == 0 {
            Options { backstop: Duration { nanos: (86_400 * NANOS_PER_SEC) as u128 }, ..self }
        } else {
            self
        }
    }

    /// The options without any argument.
    pub open spec fn initial(env: Env, cfg: Settings) -> Options {
        Options {
            socket: env.socket_text(),
            herdr_bin: match (env.herdr_bin_path, env.wakeup_herdr_bin) {
                (Some(bin), _) => bin@,
                (None, Some(bin)) => bin@,
                (None, None) => cfg.herdr_bin.unwrap_or(DEFAULT_HERDR_BIN@),
            },
            wakeup_bin: match env.wakeup_bin {
                Some(bin) => bin@,
                None => cfg.wakeup_bin.unwrap_or(DEFAULT_WAKEUP_BIN@),
            },
            display: cfg.display,
            statuses: cfg.statuses,
            start_grace: Duration {
                nanos: (cfg.start_grace_seconds * NANOS_PER_SEC) as u128,
            },
            grace: Duration { nanos: (cfg.stop_grace_seconds * NANOS_PER_SEC) as u128 },
            backstop: Duration { nanos: (60 * NANOS_PER_SEC) as u128 },
            debounce: Duration { nanos: (400 * NANOS_PER_MILLI) as u128 },
            exit_after: Duration { nanos: (120 * NANOS_PER_SEC) as u128 },
            no_notify: !cfg.notify,
            verbose: false,
            quiet: false,
            once: false,
            allow_cli_fallback: cfg.allow_cli_fallback,
        }
    }
}

impl Wanted {
    pub open spec fn finished(self) -> Wanted {
        match self {
            Wanted::Run(o) => Wanted::Run(o.finished()),
            _ => self,
        }
    }
}

/// The value of the option `flag`, if there is one.
fn val<'a>(args: &'a Vec<Arg>, i: usize, flag: &str) -> (r: Result<&'a Arg, String>)
    ensures
        i < args@.len() ==> (r matches Ok(a) && a == args@[i as int]),
        i >= args@.len() ==> (r matches Err(m) && m@ == flag@ + " requires a value"@),
{
    if i < args.len() {
        Ok(&args[i])
    } else {
        Err(flag.to_string().concat(" requires a value"))
    }
}

/// The number of seconds, or of milliseconds, that an argument gives.
fn span(flag: &str, arg: &Arg, millis: bool) -> (r: Result<Duration, String>)
    ensures
        match span_of(flag@, *arg, millis) {
            Ok(d) => r == Ok::<Duration, String>(d),
            Err(m) => r matches Err(e) && e@ == m,
        },
{
    match arg.number {
        Number::NotANumber => {
            let mut m = flag.to_string();
            m.append(" expects a number, got ");
            m.append(quote(arg.text.as_str()).as_str());
            Err(m)
        },
        Number::Unusable => {
            let mut m = flag.to_string();
            m.append(" expects a non-negative finite number, got ");
            m.append(quote(arg.text.as_str()).as_str());
            Err(m)
        },
        Number::Usable { secs, millis: ms } => {
            let span = if millis {
                ms
            } else {
                secs
            };
            match span {
                Some(d) => Ok(d),
                None => Err(flag.to_string().concat(" is out of range")),
            }
        },
    }
}

/// The number of seconds that an argument gives.
fn duration_secs(flag: &str, arg: &Arg) -> (r: Result<Duration, String>)
    ensures
        match span_of(flag@, *arg, false) {
            Ok(d) => r == Ok::<Duration, String>(d),
            Err(m) => r matches Err(e) && e@ == m,
        },
{
    span(flag, arg, false)
}

/// The number of milliseconds that an argument gives.
fn duration_millis(flag: &str, arg: &Arg) -> (r: Result<Duration, String>)
    ensures
        match span_of(flag@, *arg, true) {
            Ok(d) => r == Ok::<Duration, String>(d),
            Err(m) => r matches Err(e) && e@ == m,
        },
{
    span(flag, arg, true)
}

/// The statuses in a text, which has commas between them.
pub fn parse_statuses(text: &str) -> (statuses: Vec<String>)
    ensures
        texts(statuses@) == statuses_in(text@),
{
    let n: usize = text.unicode_len();
    let mut statuses: Vec<String> = Vec::new();
    let mut from: usize = 0;
    let mut done: bool = false;
    assert(text@.skip(0) =~= text@);
    assert(texts(statuses@) =~= Seq::empty());
    assert(statuses_in(text@) =~= texts(statuses@) + statuses_in(text@.skip(0)));
    while !done
        invariant
            n == text@.len(),
            from <= n,
            !done ==> statuses_in(text@) == texts(statuses@) + statuses_in(
                text@.skip(from as int),
            ),
            done ==> statuses_in(text@) == texts(statuses@),
        decreases n - from + if done { 0int } else { 1 },
    {
        let ghost rest = text@.skip(from as int);
        let mut to: usize = from;
        while to < n && text.get_char(to) != ','
            invariant
                n == text@.len(),
                from <= to <= n,
                rest == text@.skip(from as int),
                forall|i: int| 0 <= i < to - from ==> rest[i] != ',',
            decreases n - to,
        {
            assert(rest[to - from] == text@[to as int]);
            to = to + 1;
        }
        proof {
            if to < n {
                assert(rest[to - from] == text@[to as int]);
            }
            lemma_position_is(rest, ',', to - from);
            lemma_cleaned_first(split(rest, ','));
        }
        let part = text.substring_char(from, to);
        let status = to_lowercase(trim(part));
        assert(part@ =~= rest.take(to - from));
        let ghost before = texts(statuses@);
        if !status.as_str().is_empty() {
            let ghost status_text = status@;
            statuses.push(status);
            assert(texts(statuses@) =~= before.push(status_text));
        }
        let ghost added = if lowercase(trimmed(part@)).len() == 0 {
            Seq::<Seq<char>>::empty()
        } else {
            seq![lowercase(trimmed(part@))]
        };
        assert(texts(statuses@) =~= before + added);
        if to < n {
            assert(rest.skip(to - from + 1) =~= text@.skip(to + 1));
            assert(split(rest, ',') =~= seq![part@] + split(text@.skip(to + 1), ','));
            assert(split(rest, ',').drop_first() =~= split(text@.skip(to + 1), ','));
            assert(statuses_in(text@) =~= texts(statuses@) + statuses_in(text@.skip(to + 1)));
            from = to + 1;
        } else {
            assert(part@ =~= rest);
            assert(split(rest, ',') =~= seq![part@]);
            assert(split(rest, ',').drop_first() =~= Seq::empty());
            assert(statuses_in(text@) =~= texts(statuses@));
            done = true;
        }
    }
    statuses
}

/// The first part of a list is cleaned first.
proof fn lemma_cleaned_first(parts: Seq<Seq<char>>)
    ensures
        parts.len() > 0 ==> cleaned(parts) == (if lowercase(trimmed(parts[0])).len() == 0 {
            Seq::<Seq<char>>::empty()
        } else {
            seq![lowercase(trimmed(parts[0]))]
        }) + cleaned(parts.drop_first()),
{
    if parts.len() > 0 && lowercase(trimmed(parts[0])).len() == 0 {
        assert(Seq::<Seq<char>>::empty() + cleaned(parts.drop_first()) =~= cleaned(
            parts.drop_first(),
        ));
    }
}

/// A copy of a text, or another text where there is none.
fn or_else(first: &Option<String>, otherwise: String) -> (s: String)
    ensures
        s@ == match *first {
            Some(t) => t@,
            None => otherwise@,
        },
{
    match first {
        Some(t) => t.clone(),
        None => otherwise,
    }
}

impl Opts {
    /// The options without any argument.
    pub fn defaults(env: &Env, cfg: &Config) -> (o: Opts)
        ensures
            o@ == Options::initial(*env, cfg@),
    {
        Opts {
            socket: socket_hint(env),
            herdr_bin: or_else(
                &env.herdr_bin_path,
                or_else(&env.wakeup_herdr_bin, cfg.effective_herdr_bin()),
            ),
            wakeup_bin: or_else(&env.wakeup_bin, cfg.effective_wakeup_bin()),
            display: cfg.display,
            statuses: copy_texts(&cfg.statuses),
            start_grace: Duration::from_secs(cfg.start_grace_seconds),
            grace: Duration::from_secs(cfg.stop_grace_seconds),
            backstop: Duration::from_secs(60),
            debounce: Duration::from_millis(400),
            exit_after: Duration::from_secs(120),
            no_notify: !cfg.notify,
            verbose: false,
            quiet: false,
            once: false,
            allow_cli_fallback: cfg.allow_cli_fallback,
        }
    }

    /// Switches on the option `f`.
    fn switch(&mut self, f: Flag)
        ensures
            final(self)@ == old(self)@.switched(f),
    {
        match f {
            Flag::Display => {
                self.display = true;
            },
            Flag::AllowCliFallback => {
                self.allow_cli_fallback = true;
            },
            Flag::NoNotify => {
                self.no_notify = true;
            },
            Flag::Once => {
                self.once = true;
            },
            Flag::Verbose => {
                self.verbose = true;
            },
            Flag::Quiet => {
                self.quiet = true;
            },
            _ => {},
        }
    }

    /// Sets the option `f`, given as `flag`, to an argument.
    fn set(self, f: Flag, flag: &str, arg: &Arg) -> (r: Result<Opts, String>)
        ensures
            match self@.set(f, flag@, *arg) {
                Ok(o) => r matches Ok(opts) && opts@ == o,
                Err(m) => r matches Err(e) && e@ == m,
            },
    {
        let mut o = self;
        match f {
            Flag::StartGrace => match duration_secs(flag, arg) {
                Ok(d) => {
                    o.start_grace = d;
                },
                Err(e) => {
                    return Err(e);
                },
            },
            Flag::Grace => match duration_secs(flag, arg) {
                Ok(d) => {
                    o.grace = d;
                },
                Err(e) => {
                    return Err(e);
                },
            },
            Flag::Backstop => match duration_secs(flag, arg) {
                Ok(d) => {
                    o.backstop = d;
                },
                Err(e) => {
                    return Err(e);
                },
            },
            Flag::ExitAfter => match duration_secs(flag, arg) {
                Ok(d) => {
                    o.exit_after = d;
                },
                Err(e) => {
                    return Err(e);
                },
            },
            Flag::Debounce => match duration_millis(flag, arg) {
                Ok(d) => {
                    o.debounce = d;
                },
                Err(e) => {
                    return Err(e);
                },
            },
            Flag::Statuses => {
                let statuses = parse_statuses(arg.text.as_str());
                assert(statuses@.len() == texts(statuses@).len());
                if statuses.len() == 0 {
                    return Err("--statuses requires at least one non-empty status".to_string());
                }
                o.statuses = statuses;
            },
            Flag::Socket => {
                o.socket = arg.text.clone();
            },
            Flag::Wakeup => {
                o.wakeup_bin = arg.text.clone();
            },
            Flag::Herdr => {
                o.herdr_bin = arg.text.clone();
            },
            _ => {},
        }
        Ok(o)
    }

    /// What the arguments ask for. Options that they do not give are those of
    /// the environment, then those of the settings, then the built-in ones.
    pub fn parse(env: &Env, cfg: &Config, args: &Vec<Arg>) -> (p: Parsed)
        ensures
            p@ == Options::initial(*env, cfg@).scan(args@).finished(),
    {
        let mut o = Opts::defaults(env, cfg);
        let ghost wanted = o@.scan(args@);
        let mut i: usize = 0;
        assert(args@.skip(0) =~= args@);
        while i < args.len()
            invariant
                i <= args@.len(),
                wanted == Options::initial(*env, cfg@).scan(args@),
                o@.scan(args@.skip(i as int)) == wanted,
            decreases args@.len() - i,
        {
            let ghost rest = args@.skip(i as int);
            assert(rest[0] == args@[i as int]);
            assert(rest.skip(1) =~= args@.skip(i + 1));
            let text = args[i].text.as_str();
            let f = flag(text);
            match f {
                Flag::Help => {
                    return Parsed::Help;
                },
                Flag::Version => {
                    return Parsed::Version;
                },
                Flag::Unknown => {
                    return Parsed::Invalid("unknown option: ".to_string().concat(text));
                },
                Flag::Display
                | Flag::AllowCliFallback
                | Flag::NoNotify
                | Flag::Once
                | Flag::Verbose
                | Flag::Quiet => {
                    o.switch(f);
                    i = i + 1;
                },
                _ => match val(args, i + 1, text) {
                    Ok(arg) => {
                        assert(rest[1] == args@[i + 1]);
                        assert(rest.skip(2) =~= args@.skip(i + 2));
                        match o.set(f, text, arg) {
                            Ok(next) => {
                                o = next;
                                i = i + 2;
                            },
                            Err(e) => {
                                return Parsed::Invalid(e);
                            },
                        }
                    },
                    Err(e) => {
                        return Parsed::Invalid(e);
                    },
                },
            }
        }
        assert(args@.skip(i as int).len() == 0);
        if o.backstop.is_zero() {
            o.backstop = Duration::from_secs(86_400);
        }
        Parsed::Run(o)
    }
}

/// The arguments count from left to right: where the first ones are in order,
/// further ones start from the options that the first ones gave. So the last
/// argument for an option wins, over any earlier one and over what the options
/// were without arguments.
pub proof fn law_later_arguments_win(o: Options, first: Seq<Arg>, further: Seq<Arg>)
    requires
        o.scan(first) is Run,
    ensures
        o.scan(first + further) == o.scan(first)->Run_0.scan(further),
    decreases first.len(),
{
    let all = first + further;
    if first.len() == 0 {
        assert(all =~= further);
    } else {
        let f = flag_of(first[0].text@);
        assert(all[0] == first[0]);
        if is_switch(f) {
            assert(all.skip(1) =~= first.skip(1) + further);
            law_later_arguments_win(o.switched(f), first.skip(1), further);
        } else {
            assert(all[1] == first[1]);
            assert(all.skip(2) =~= first.skip(2) + further);
            law_later_arguments_win(
                o.set(f, first[0].text@, first[1])->Ok_0,
                first.skip(2),
                further,
            );
        }
    }
}

/// Where options start with a status, they keep at least one.
pub proof fn law_options_have_a_status(o: Options, args: Seq<Arg>)
    requires
        o.statuses.len() > 0,
    ensures
        o.scan(args) matches Wanted::Run(r) ==> r.statuses.len() > 0,
    decreases args.len(),
{
    if args.len() > 0 {
        let f = flag_of(args[0].text@);
        if is_switch(f) {
            law_options_have_a_status(o.switched(f), args.skip(1));
        } else if args.len() > 1 && o.set(f, args[0].text@, args[1]) is Ok {
            law_options_have_a_status(o.set(f, args[0].text@, args[1])->Ok_0, args.skip(2));
        }
    }
}

/// Evaluations always come again: the interval between them is never empty.
pub proof fn law_backstop_is_never_zero(o: Options, args: Seq<Arg>)
    ensures
        o.scan(args).finished() matches Wanted::Run(r) ==> r.backstop.nanos > 0,
{
}

/// The session is told by the socket that is connected to by default.
pub proof fn law_session_socket_is_the_default_socket(env: Env, cfg: Settings)
    ensures
        Options::initial(env, cfg).socket == env.socket_text(),
{
}

/// What a program is started for.
#[derive(Clone, Copy, Debug, PartialEq, Eq, Structural)]
pub enum Command {
    /// To watch, with the options that the arguments give.
    Watch,
    /// To let the watcher act.
    Arm,
    /// To keep the watcher from acting.
    Disarm,
    /// To show the recorded state.
    State,
}

/// What the first argument starts the program for.
pub open spec fn command_for(first: Option<Seq<char>>) -> Command {
    if first == Some("arm"@) {
        Command::Arm
    } else if first == Some("disarm"@) {
        Command::Disarm
    } else if first == Some("state"@) {
        Command::State
    } else {
        Command::Watch
    }
}

/// What the first argument starts the program for.
pub fn command(first: Option<&str>) -> (c: Command)
    ensures
        c == command_for(
            match first {
                Some(t) => Some(t@),
                None => None,
            },
        ),
{
    match first {
        Some(t) => if same_text(t, "arm") {
            Command::Arm
        } else if same_text(t, "disarm") {
            Command::Disarm
        } else if same_text(t, "state") {
            Command::State
        } else {
            Command::Watch
        },
        None => Command::Watch,
    }
}

/// The names of the options are different.
proof fn lemma_option_names()
    ensures
        "-h"@.len() == 2,
        "-h"@[1] == 'h',
        "--help"@.len() == 6,
        "--help"@[2] == 'h',
        "-V"@.len() == 2,
        "-V"@[1] == 'V',
        "--version"@.len() == 9,
        "--version"@[2] == 'v',
        "--version"@[5] == 's',
        "-d"@.len() == 2,
        "-d"@[1] == 'd',
        "--display"@.len() == 9,
        "--display"@[2] == 'd',
        "--start-grace"@.len() == 13,
        "--start-grace"@[2] == 's',
        "--grace"@.len() == 7,
        "--grace"@[2] == 'g',
        "--backstop"@.len() == 10,
        "--backstop"@[2] == 'b',
        "--exit-after"@.len() == 12,
        "--exit-after"@[2] == 'e',
        "--debounce"@.len() == 10,
        "--debounce"@[2] == 'd',
        "--statuses"@.len() == 10,
        "--statuses"@[2] == 's',
        "--socket"@.len() == 8,
        "--socket"@[2] == 's',
        "--wakeup"@.len() == 8,
        "--wakeup"@[2] == 'w',
        "--herdr"@.len() == 7,
        "--herdr"@[2] == 'h',
        "--allow-cli-fallback"@.len() == 20,
        "--allow-cli-fallback"@[2] == 'a',
        "--no-notify"@.len() == 11,
        "--no-notify"@[2] == 'n',
        "--once"@.len() == 6,
        "--once"@[2] == 'o',
        "-v"@.len() == 2,
        "-v"@[1] == 'v',
        "--verbose"@.len() == 9,
        "--verbose"@[2] == 'v',
        "--verbose"@[5] == 'b',
        "-q"@.len() == 2,
        "-q"@[1] == 'q',
        "--quiet"@.len() == 7,
        "--quiet"@[2] == 'q',
{
    reveal_strlit("-h");
    reveal_strlit("--help");
    reveal_strlit("-V");
    reveal_strlit("--version");
    reveal_strlit("-d");
    reveal_strlit("--display");
    reveal_strlit("--start-grace");
    reveal_strlit("--grace");
    reveal_strlit("--backstop");
    reveal_strlit("--exit-after");
    reveal_strlit("--debounce");
    reveal_strlit("--statuses");
    reveal_strlit("--socket");
    reveal_strlit("--wakeup");
    reveal_strlit("--herdr");
    reveal_strlit("--allow-cli-fallback");
    reveal_strlit("--no-notify");
    reveal_strlit("--once");
    reveal_strlit("-v");
    reveal_strlit("--verbose");
    reveal_strlit("-q");
    reveal_strlit("--quiet");
}

/// True of the names of the options that take a number of seconds.
pub open spec fn takes_seconds(flag: Seq<char>) -> bool {
    flag == "--start-grace"@ || flag == "--grace"@ || flag == "--backstop"@ || flag
        == "--exit-after"@
}

/// True of the names of the options that take a value.
pub open spec fn takes_a_value(flag: Seq<char>) -> bool {
    takes_seconds(flag) || flag == "--debounce"@ || flag == "--statuses"@ || flag == "--socket"@
        || flag == "--wakeup"@ || flag == "--herdr"@
}

/// The names of all options.
pub open spec fn option_names() -> Seq<Seq<char>> {
    seq![
        "-h"@,
        "--help"@,
        "-V"@,
        "--version"@,
        "-d"@,
        "--display"@,
        "--start-grace"@,
        "--grace"@,
        "--backstop"@,
        "--exit-after"@,
        "--debounce"@,
        "--statuses"@,
        "--socket"@,
        "--wakeup"@,
        "--herdr"@,
        "--allow-cli-fallback"@,
        "--no-notify"@,
        "--once"@,
        "-v"@,
        "--verbose"@,
        "-q"@,
        "--quiet"@,
    ]
}

/// An option that takes seconds is set to the number of seconds that follows
/// it, and nothing else changes.
pub proof fn law_graces_and_intervals_are_in_seconds(
    o: Options,
    args: Seq<Arg>,
    span: Option<Duration>,
    millis: Option<Duration>,
)
    requires
        args.len() >= 2,
        args[1].number == (Number::Usable { secs: span, millis }),
    ensures
        args[0].text@ == "--start-grace"@ ==> (span matches Some(d) ==> o.scan(args) == (Options {
            start_grace: d,
            ..o
        }).scan(args.skip(2))),
        args[0].text@ == "--grace"@ ==> (span matches Some(d) ==> o.scan(args) == (Options {
            grace: d,
            ..o
        }).scan(args.skip(2))),
        args[0].text@ == "--backstop"@ ==> (span matches Some(d) ==> o.scan(args) == (Options {
            backstop: d,
            ..o
        }).scan(args.skip(2))),
        args[0].text@ == "--exit-after"@ ==> (span matches Some(d) ==> o.scan(args) == (Options {
            exit_after: d,
            ..o
        }).scan(args.skip(2))),
        takes_seconds(args[0].text@) && span is None ==> o.scan(args) == Wanted::Invalid(
            args[0].text@ + " is out of range"@,
        ),
{
    lemma_option_names();
}

/// The time in which messages are taken together is set to the number of
/// milliseconds that follows it, and nothing else changes.
pub proof fn law_debouncing_is_in_milliseconds(
    o: Options,
    args: Seq<Arg>,
    secs: Option<Duration>,
    span: Option<Duration>,
)
    requires
        args.len() >= 2,
        args[0].text@ == "--debounce"@,
        args[1].number == (Number::Usable { secs, millis: span }),
    ensures
        span matches Some(d) ==> o.scan(args) == (Options { debounce: d, ..o }).scan(args.skip(2)),
        span is None ==> o.scan(args) == Wanted::Invalid("--debounce"@ + " is out of range"@),
{
    lemma_option_names();
}

/// Where a number is wanted, what is none is refused, and so is one that is
/// negative or not finite.
pub proof fn law_numbers_are_wanted(o: Options, args: Seq<Arg>)
    requires
        args.len() >= 2,
        takes_seconds(args[0].text@) || args[0].text@ == "--debounce"@,
    ensures
        args[1].number is NotANumber ==> o.scan(args) == Wanted::Invalid(
            args[0].text@ + " expects a number, got "@ + quoted(args[1].text@),
        ),
        args[1].number is Unusable ==> o.scan(args) == Wanted::Invalid(
            args[0].text@ + " expects a non-negative finite number, got "@ + quoted(args[1].text@),
        ),
{
    lemma_option_names();
}

/// The paths are set to the text that follows, and the statuses to those in it,
/// of which there has to be one. Nothing else changes.
pub proof fn law_paths_and_statuses_are_set(o: Options, args: Seq<Arg>)
    requires
        args.len() >= 2,
    ensures
        args[0].text@ == "--socket"@ ==> o.scan(args) == (Options {
            socket: args[1].text@,
            ..o
        }).scan(args.skip(2)),
        args[0].text@ == "--wakeup"@ ==> o.scan(args) == (Options {
            wakeup_bin: args[1].text@,
            ..o
        }).scan(args.skip(2)),
        args[0].text@ == "--herdr"@ ==> o.scan(args) == (Options {
            herdr_bin: args[1].text@,
            ..o
        }).scan(args.skip(2)),
        args[0].text@ == "--statuses"@ && statuses_in(args[1].text@).len() > 0 ==> o.scan(args)
            == (Options { statuses: statuses_in(args[1].text@), ..o }).scan(args.skip(2)),
        args[0].text@ == "--statuses"@ && statuses_in(args[1].text@).len() == 0 ==> o.scan(args)
            == Wanted::Invalid("--statuses requires at least one non-empty status"@),
{
    lemma_option_names();
}

/// An option that takes no value is switched on, and nothing else changes.
pub proof fn law_switches_switch_one_thing_on(o: Options, args: Seq<Arg>)
    requires
        args.len() >= 1,
    ensures
        args[0].text@ == "-d"@ || args[0].text@ == "--display"@ ==> o.scan(args)
            == (Options { display: true, ..o }).scan(args.skip(1)),
        args[0].text@ == "--allow-cli-fallback"@ ==> o.scan(args)
            == (Options { allow_cli_fallback: true, ..o }).scan(args.skip(1)),
        args[0].text@ == "--no-notify"@ ==> o.scan(args)
            == (Options { no_notify: true, ..o }).scan(args.skip(1)),
        args[0].text@ == "--once"@ ==> o.scan(args)
            == (Options { once: true, ..o }).scan(args.skip(1)),
        args[0].text@ == "-v"@ || args[0].text@ == "--verbose"@ ==> o.scan(args)
            == (Options { verbose: true, ..o }).scan(args.skip(1)),
        args[0].text@ == "-q"@ || args[0].text@ == "--quiet"@ ==> o.scan(args)
            == (Options { quiet: true, ..o }).scan(args.skip(1)),
{
    lemma_option_names();
}

/// Help and version are given where they are asked for, an option without its
/// value is refused, and so is anything that is no option. Without arguments
/// the options are as they were.
pub proof fn law_other_arguments_decide_at_once(o: Options, args: Seq<Arg>)
    ensures
        args.len() == 0 ==> o.scan(args) == Wanted::Run(o),
        args.len() > 0 ==> {
            let text = args[0].text@;
            &&& text == "-h"@ || text == "--help"@ ==> o.scan(args) is Help
            &&& text == "-V"@ || text == "--version"@ ==> o.scan(args) is Version
            &&& takes_a_value(text) && args.len() == 1 ==> o.scan(args) == Wanted::Invalid(
                text + " requires a value"@,
            )
            &&& !option_names().contains(text) ==> o.scan(args) == Wanted::Invalid("unknown option: "@ + text)
        },
{
    lemma_option_names();
    let names = option_names();
    if args.len() > 0 && flag_of(args[0].text@) !is Unknown {
        assert(names.contains(args[0].text@)) by {
            assert(names[0] == "-h"@);
            assert(names[1] == "--help"@);
            assert(names[2] == "-V"@);
            assert(names[3] == "--version"@);
            assert(names[4] == "-d"@);
            assert(names[5] == "--display"@);
            assert(names[6] == "--start-grace"@);
            assert(names[7] == "--grace"@);
            assert(names[8] == "--backstop"@);
            assert(names[9] == "--exit-after"@);
            assert(names[10] == "--debounce"@);
            assert(names[11] == "--statuses"@);
            assert(names[12] == "--socket"@);
            assert(names[13] == "--wakeup"@);
            assert(names[14] == "--herdr"@);
            assert(names[15] == "--allow-cli-fallback"@);
            assert(names[16] == "--no-notify"@);
            assert(names[17] == "--once"@);
            assert(names[18] == "-v"@);
            assert(names[19] == "--verbose"@);
            assert(names[20] == "-q"@);
            assert(names[21] == "--quiet"@);
        }
    }
}

/// The statuses in a text are those before a comma and those behind it; where
/// there is no comma, the text is one, in lower case and without whitespace
/// around it, unless nothing is left of it.
pub proof fn law_commas_separate_statuses(a: Seq<char>, b: Seq<char>, word: Seq<char>)
    requires
        !word.contains(','),
    ensures
        statuses_in(a + seq![','] + b) == statuses_in(a) + statuses_in(b),
        lowercase(trimmed(word)).len() > 0 ==> statuses_in(word) == seq![lowercase(trimmed(word))],
        lowercase(trimmed(word)).len() == 0 ==> statuses_in(word).len() == 0,
{
    lemma_position(word, ',');
    assert(split(word, ',') =~= seq![word]);
    lemma_cleaned_first(seq![word]);
    assert(seq![word].drop_first() =~= Seq::empty());
    assert(cleaned(Seq::empty()) =~= Seq::<Seq<char>>::empty());
    assert(statuses_in(word) =~= if lowercase(trimmed(word)).len() == 0 {
        Seq::<Seq<char>>::empty()
    } else {
        seq![lowercase(trimmed(word))]
    });
    lemma_split_at_a_separator(a, b);
    lemma_cleaned_all(split(a, ','), split(b, ','));
}

proof fn lemma_split_at_a_separator(a: Seq<char>, b: Seq<char>)
    ensures
        split(a + seq![','] + b, ',') == split(a, ',') + split(b, ','),
    decreases a.len(),
{
    let s = a + seq![','] + b;
    lemma_position(a, ',');
    let i = position(a, ',') as int;
    assert forall|j: int| 0 <= j < i implies s[j] != ',' by {
        assert(s[j] == a[j]);
    }
    if i < a.len() {
        assert(s[i] == a[i]);
        lemma_position_is(s, ',', i);
        let rest = a.skip(i + 1);
        lemma_split_at_a_separator(rest, b);
        assert(s.skip(i + 1) =~= rest + seq![','] + b);
        assert(s.take(i) =~= a.take(i));
        assert(split(s, ',') =~= split(a, ',') + split(b, ','));
    } else {
        assert(s[i] == ',');
        lemma_position_is(s, ',', i);
        assert(s.skip(i + 1) =~= b);
        assert(s.take(i) =~= a);
        assert(split(s, ',') =~= split(a, ',') + split(b, ','));
    }
}

proof fn lemma_cleaned_all(a: Seq<Seq<char>>, b: Seq<Seq<char>>)
    ensures
        cleaned(a + b) == cleaned(a) + cleaned(b),
    decreases a.len(),
{
    if a.len() == 0 {
        assert(a + b =~= b);
        assert(cleaned(a) + cleaned(b) =~= cleaned(b));
    } else {
        lemma_cleaned_first(a);
        lemma_cleaned_first(a + b);
        assert((a + b).drop_first() =~= a.drop_first() + b);
        lemma_cleaned_all(a.drop_first(), b);
        assert(cleaned(a + b) =~= cleaned(a) + cleaned(b));
    }
}

/// An interval of zero between evaluations stands for a day. Nothing else
/// changes in the end.
pub proof fn law_only_an_empty_interval_is_mended(o: Options)
    ensures
        o.backstop.nanos != 0 ==> o.finished() == o,
        o.backstop.nanos == 0 ==> o.finished() == (Options {
            backstop: Duration { nanos: 86_400_000_000_000 },
            ..o
        }),
        Wanted::Run(o).finished() == Wanted::Run(o.finished()),
        Wanted::Help.finished() == Wanted::Help,
        Wanted::Version.finished() == Wanted::Version,
{
}

/// Without arguments the environment comes before the settings, and these
/// before what is built in.
pub proof fn law_environment_comes_before_settings(env: Env, cfg: Settings)
    ensures
        ({
            let o = Options::initial(env, cfg);
            &&& env.socket_path matches Some(p) ==> o.socket == p@
            &&& env.herdr_bin_path matches Some(bin) ==> o.herdr_bin == bin@
            &&& env.herdr_bin_path is None ==> {
                &&& env.wakeup_herdr_bin matches Some(bin) ==> o.herdr_bin == bin@
                &&& env.wakeup_herdr_bin is None ==> {
                    &&& cfg.herdr_bin matches Some(bin) ==> o.herdr_bin == bin
                    &&& cfg.herdr_bin is None ==> o.herdr_bin == "herdr"@
                }
            }
            &&& env.wakeup_bin matches Some(bin) ==> o.wakeup_bin == bin@
            &&& env.wakeup_bin is None ==> {
                &&& cfg.wakeup_bin matches Some(bin) ==> o.wakeup_bin == bin
                &&& cfg.wakeup_bin is None ==> o.wakeup_bin == "wakeup"@
            }
        }),
{
}

/// The settings seed the other options; the rest is built in.
pub proof fn law_settings_seed_the_options(env: Env, cfg: Settings)
    ensures
        ({
            let o = Options::initial(env, cfg);
            &&& o.display == cfg.display
            &&& o.statuses == cfg.statuses
            &&& o.start_grace.nanos == cfg.start_grace_seconds * 1_000_000_000
            &&& o.grace.nanos == cfg.stop_grace_seconds * 1_000_000_000
            &&& o.no_notify == !cfg.notify
            &&& o.allow_cli_fallback == cfg.allow_cli_fallback
            &&& o.backstop.nanos == 60_000_000_000
            &&& o.debounce.nanos == 400_000_000
            &&& o.exit_after.nanos == 120_000_000_000
            &&& !o.verbose && !o.quiet && !o.once
        }),
{
}

/// Options amount to what their fields hold.
pub proof fn law_options_amount_to_their_fields(o: Opts)
    ensures
        o@.socket == o.socket@,
        o@.herdr_bin == o.herdr_bin@,
        o@.wakeup_bin == o.wakeup_bin@,
        o@.display == o.display,
        o@.statuses == texts(o.statuses@),
        o@.start_grace == o.start_grace,
        o@.grace == o.grace,
        o@.backstop == o.backstop,
        o@.debounce == o.debounce,
        o@.exit_after == o.exit_after,
        o@.no_notify == o.no_notify,
        o@.verbose == o.verbose,
        o@.quiet == o.quiet,
        o@.once == o.once,
        o@.allow_cli_fallback == o.allow_cli_fallback,
{
}

/// What arguments ask for amounts to what it holds.
pub proof fn law_requests_amount_to_what_they_hold(p: Parsed)
    ensures
        match p {
            Parsed::Run(o) => p@ == Wanted::Run(o@),
            Parsed::Help => p@ is Help,
            Parsed::Version => p@ is Version,
            Parsed::Invalid(m) => p@ == Wanted::Invalid(m@),
        },
{
}

/// A command is named by the first argument; anything else is for watching.
pub proof fn law_commands_are_named_first(text: Seq<char>)
    ensures
        command_for(None) is Watch,
        command_for(Some(text)) is Arm <==> text == "arm"@,
        command_for(Some(text)) is Disarm <==> text == "disarm"@,
        command_for(Some(text)) is State <==> text == "state"@,
{
    reveal_strlit("arm");
    reveal_strlit("disarm");
    reveal_strlit("state");
    assert("arm"@.len() == 3 && "disarm"@.len() == 6 && "state"@.len() == 5);
}

} // verus!
