//! The command line: what it asks for, and where sessions are logged.
use crate::text::{
    characters, decimal, decimals_are_read_back, is_digit, same, texts, to_decimal,
};
use vstd::prelude::*;
use vstd::string::*;

verus! {

/// What `--help` and `/help` show.
pub const HELP: &'static str = "Codex Silent — answers first, activity on demand

Usage: codex-silent [OPTIONS]

  --cwd PATH        Work in this directory (default: current directory)
  --codex PATH      Codex executable (default: codex from PATH)
  --resume ID       Resume an existing Codex thread
  --model NAME      Override the configured model
  -c KEY=VALUE      Forward a Codex config override (repeatable)
  --show            Start with activity expanded
  --check           Check the real Codex app-server handshake, without a model turn
  --replay PATH     View a saved events.jsonl without starting Codex
  --log-dir PATH    Parent directory for private session logs
  -h, --help        Show this help
  -V, --version     Show version

Ctrl+O toggles activity. PgUp/PgDn scroll. Ctrl+Home/Ctrl+End jump.
Enter sends; Alt+Enter inserts a newline. Ctrl+C interrupts, or exits when idle.
Commands: /show /hide /toggle /new /resume ID /logs /help /quit

Run this launcher on the HPC host after SSH login. The Codex engine keeps its
full tool output and existing permissions. No special prompt or MCP tool needed.";

/// The version of this program.
pub const VERSION: &'static str = "0.2.0";

/// What the command line asks for.
pub struct Options {
    pub codex: String,
    pub cwd: String,
    pub config: Vec<String>,
    pub resume: Option<String>,
    pub model: Option<String>,
    pub show: bool,
    pub check: bool,
    pub replay: Option<String>,
    pub log_dir: Option<String>,
}

/// What a set of options holds.
#[verifier::ext_equal]
pub struct OptionsView {
    pub codex: Seq<char>,
    pub cwd: Seq<char>,
    pub config: Seq<Seq<char>>,
    pub resume: Option<Seq<char>>,
    pub model: Option<Seq<char>>,
    pub show: bool,
    pub check: bool,
    pub replay: Option<Seq<char>>,
    pub log_dir: Option<Seq<char>>,
}

/// What an optional text holds.
pub open spec fn maybe(text: Option<String>) -> Option<Seq<char>> {
    match text {
        Some(text) => Some(text@),
        None => None,
    }
}

impl Options {
    /// What the options hold.
    pub open spec fn view(&self) -> OptionsView {
        OptionsView {
            codex: self.codex@,
            cwd: self.cwd@,
            config: texts(self.config@),
            resume: maybe(self.resume),
            model: maybe(self.model),
            show: self.show,
            check: self.check,
            replay: maybe(self.replay),
            log_dir: maybe(self.log_dir),
        }
    }
}

/// The options of an empty command line.
pub open spec fn default_options(cwd: Seq<char>) -> OptionsView {
    OptionsView {
        codex: "codex"@,
        cwd,
        config: Seq::empty(),
        resume: None,
        model: None,
        show: false,
        check: false,
        replay: None,
        log_dir: None,
    }
}

/// What a command line asks for.
pub enum Command {
    Help,
    Version,
    Run(Options),
    Invalid(String),
}

/// What a command line asks for, by its contents.
pub enum CommandView {
    Help,
    Version,
    Run(OptionsView),
    Invalid(Seq<char>),
}

impl Command {
    /// What the command holds.
    pub open spec fn view(&self) -> CommandView {
        match self {
            Command::Help => CommandView::Help,
            Command::Version => CommandView::Version,
            Command::Run(options) => CommandView::Run(options@),
            Command::Invalid(reason) => CommandView::Invalid(reason@),
        }
    }
}

/// Whether an option comes with a value.
pub open spec fn takes_value(option: Seq<char>) -> bool {
    option == "--codex"@ || option == "--cwd"@ || option == "--resume"@ || option == "--model"@
        || option == "-c"@ || option == "--config"@ || option == "--replay"@ || option
        == "--log-dir"@
}

impl OptionsView {
    /// With the value of one more option.
    pub open spec fn with_value(self, option: Seq<char>, value: Seq<char>) -> OptionsView {
        if option == "--codex"@ {
            OptionsView { codex: value, ..self }
        } else if option == "--cwd"@ {
            OptionsView { cwd: value, ..self }
        } else if option == "--resume"@ {
            OptionsView { resume: Some(value), ..self }
        } else if option == "--model"@ {
            OptionsView { model: Some(value), ..self }
        } else if option == "--replay"@ {
            OptionsView { replay: Some(value), ..self }
        } else if option == "--log-dir"@ {
            OptionsView { log_dir: Some(value), ..self }
        } else {
            OptionsView { config: self.config.push(value), ..self }
        }
    }
}

/// What the arguments ask for, given what those before them have set. They are read from left to
/// right, up to the first that decides.
pub open spec fn command_of(arguments: Seq<Seq<char>>, options: OptionsView) -> CommandView
    decreases arguments.len(),
{
    if arguments.len() == 0 {
        CommandView::Run(options)
    } else {
        let option = arguments[0];
        if option == "-h"@ || option == "--help"@ {
            CommandView::Help
        } else if option == "-V"@ || option == "--version"@ {
            CommandView::Version
        } else if option == "--show"@ {
            command_of(arguments.skip(1), OptionsView { show: true, ..options })
        } else if option == "--check"@ {
            command_of(arguments.skip(1), OptionsView { check: true, ..options })
        } else if takes_value(option) {
            if arguments.len() == 1 {
                CommandView::Invalid(option + " requires a value"@)
            } else {
                command_of(arguments.skip(2), options.with_value(option, arguments[1]))
            }
        } else {
            CommandView::Invalid("Unknown option: "@ + option + ". Use --help."@)
        }
    }
}

/// Whether an option comes with a value.
fn needs_value(option: &str) -> (r: bool)
    ensures
        r == takes_value(option@),
{
    same(option, "--codex") || same(option, "--cwd") || same(option, "--resume") || same(
        option,
        "--model",
    ) || same(option, "-c") || same(option, "--config") || same(option, "--replay") || same(
        option,
        "--log-dir",
    )
}

impl Options {
    /// Sets the value of an option.
    fn set(&mut self, option: &str, value: String)
        ensures
            final(self)@ == old(self)@.with_value(option@, value@),
    {
        let ghost before = self@;
        let ghost text = value@;
        if same(option, "--codex") {
            self.codex = value;
        } else if same(option, "--cwd") {
            self.cwd = value;
        } else if same(option, "--resume") {
            self.resume = Some(value);
        } else if same(option, "--model") {
            self.model = Some(value);
        } else if same(option, "--replay") {
            self.replay = Some(value);
        } else if same(option, "--log-dir") {
            self.log_dir = Some(value);
        } else {
            self.config.push(value);
            assert(texts(self.config@) =~= before.config.push(text));
        }
    }
}

/// What the arguments of a command line ask for, in a working directory.
pub fn options(arguments: &Vec<String>, cwd: String) -> (r: Command)
    ensures
        r@ == command_of(texts(arguments@), default_options(cwd@)),
{
    let mut o = Options {
        codex: "codex".to_owned(),
        cwd,
        config: Vec::new(),
        resume: None,
        model: None,
        show: false,
        check: false,
        replay: None,
        log_dir: None,
    };
    let ghost all = texts(arguments@);
    let ghost goal = command_of(all, o@);
    assert(o@ =~= default_options(cwd@));
    assert(all.skip(0) =~= all);
    let mut at: usize = 0;
    while at < arguments.len()
        invariant
            all == texts(arguments@),
            at <= arguments.len(),
            goal == command_of(all, default_options(cwd@)),
            command_of(all.skip(at as int), o@) == goal,
        decreases arguments.len() - at,
    {
        let option = arguments[at].as_str();
        let ghost rest = all.skip(at as int);
        assert(rest[0] == option@);
        assert(rest.skip(1) =~= all.skip(at + 1));
        if same(option, "-h") || same(option, "--help") {
            return Command::Help;
        }
        if same(option, "-V") || same(option, "--version") {
            return Command::Version;
        }
        if same(option, "--show") {
            o.show = true;
            at = at + 1;
        } else if same(option, "--check") {
            o.check = true;
            at = at + 1;
        } else if needs_value(option) {
            if at + 1 == arguments.len() {
                let mut reason = option.to_owned();
                reason.append(" requires a value");
                return Command::Invalid(reason);
            }
            assert(rest[1] == arguments@[at + 1]@);
            assert(rest.skip(2) =~= all.skip(at + 2));
            o.set(option, arguments[at + 1].clone());
            at = at + 2;
        } else {
            let mut reason = "Unknown option: ".to_owned();
            reason.append(option);
            reason.append(". Use --help.");
            return Command::Invalid(reason);
        }
    }
    assert(all.skip(at as int) =~= Seq::empty());
    Command::Run(o)
}

/// The directory in which the logs of sessions are kept.
#[derive(Clone, Copy, Debug, PartialEq, Eq, Structural)]
pub enum LogBase {
    Given,
    StateHome,
    Home,
}

/// Where the logs of sessions are kept: in the given directory, else under the directory for state
/// files, else under the home directory.
pub open spec fn log_place(given: bool, state_home: bool, home: bool) -> Option<LogBase> {
    if given {
        Some(LogBase::Given)
    } else if state_home {
        Some(LogBase::StateHome)
    } else if home {
        Some(LogBase::Home)
    } else {
        None
    }
}

/// Where the logs of sessions are kept: in the given directory, else under the directory for state
/// files, else under the home directory.
pub fn log_base(given: bool, state_home: bool, home: bool) -> (r: Option<LogBase>)
    ensures
        r == (if given {
            Some(LogBase::Given)
        } else if state_home {
            Some(LogBase::StateHome)
        } else if home {
            Some(LogBase::Home)
        } else {
            None
        }),
        r == log_place(given, state_home, home),
{
    if given {
        Some(LogBase::Given)
    } else if state_home {
        Some(LogBase::StateHome)
    } else if home {
        Some(LogBase::Home)
    } else {
        None
    }
}

impl LogBase {
    /// Where in that directory the sessions are.
    pub fn below(self) -> (r: Option<&'static str>)
        ensures
            match r {
                Some(path) => path@ == (if self is StateHome {
                    "codex-silent"@
                } else {
                    ".local/state/codex-silent"@
                }) && !(self is Given),
                None => self is Given,
            },
    {
        match self {
            LogBase::Given => None,
            LogBase::StateHome => Some("codex-silent"),
            LogBase::Home => Some(".local/state/codex-silent"),
        }
    }
}

/// The name of the directory of a session, by the time at which it has begun and its process.
pub open spec fn name_of_session(now: nat, process: nat) -> Seq<char> {
    "session-"@ + decimal(now) + "-"@ + decimal(process)
}

/// The name of the directory of a session, by the time at which it has begun and its process.
pub fn session_name(now: u128, process: u32) -> (r: String)
    ensures
        r@ == "session-"@ + decimal(now as nat) + "-"@ + decimal(process as nat),
        r@ == name_of_session(now as nat, process as nat),
{
    let mut name = "session-".to_owned();
    name.append(to_decimal(now).as_str());
    name.append("-");
    name.append(to_decimal(process as u128).as_str());
    name
}

/// Whether a component of a Unix path begins at a position that is not its first: behind a slash,
/// unless another one follows or the component is a single dot, which stands for nothing there.
pub open spec fn component_at(path: Seq<char>, i: int) -> bool {
    &&& 0 < i < path.len()
    &&& path[i - 1] == '/'
    &&& path[i] != '/'
    &&& !(path[i] == '.' && (i + 1 == path.len() || path[i + 1] == '/'))
}

/// Whether an executable is given by its path, and not by a name that is looked up: a Unix path with more
/// components than one. What a path begins with is always a component, be it a name, a dot or the
/// root.
pub fn is_path(codex: &str) -> (r: bool)
    ensures
        r == exists|i: int| component_at(codex@, i),
{
    let chars = characters(codex);
    for i in 0..chars.len()
        invariant
            chars@ == codex@,
            forall|k: int| 0 < k < i ==> !component_at(chars@, k),
    {
        let dot = chars[i] == '.' && (i + 1 == chars.len() || chars[i + 1] == '/');
        if i > 0 && chars[i - 1] == '/' && chars[i] != '/' && !dot {
            assert(component_at(codex@, i as int));
            return true;
        }
    }
    false
}

// ---------------------------------------------------------------------------
// Laws
// ---------------------------------------------------------------------------

proof fn lemma_options_differ()
    ensures
        "-h"@ == seq!['-', 'h'],
        "-V"@ == seq!['-', 'V'],
        "-c"@ == seq!['-', 'c'],
        "--help"@.len() == 6 && "--help"@[2] == 'h',
        "--version"@.len() == 9 && "--version"@[2] == 'v',
        "--show"@.len() == 6 && "--show"@[2] == 's',
        "--check"@.len() == 7 && "--check"@[2] == 'c' && "--check"@[3] == 'h',
        "--codex"@.len() == 7 && "--codex"@[2] == 'c' && "--codex"@[3] == 'o',
        "--cwd"@.len() == 5,
        "--resume"@.len() == 8 && "--resume"@[4] == 's',
        "--model"@.len() == 7 && "--model"@[2] == 'm',
        "--config"@.len() == 8 && "--config"@[4] == 'n',
        "--replay"@.len() == 8 && "--replay"@[4] == 'p',
        "--log-dir"@.len() == 9 && "--log-dir"@[2] == 'l',
{
    reveal_strlit("-h");
    reveal_strlit("-V");
    reveal_strlit("-c");
    reveal_strlit("--help");
    reveal_strlit("--version");
    reveal_strlit("--show");
    reveal_strlit("--check");
    reveal_strlit("--codex");
    reveal_strlit("--cwd");
    reveal_strlit("--resume");
    reveal_strlit("--model");
    reveal_strlit("--config");
    reveal_strlit("--replay");
    reveal_strlit("--log-dir");
    assert("-h"@ =~= seq!['-', 'h']);
    assert("-V"@ =~= seq!['-', 'V']);
    assert("-c"@ =~= seq!['-', 'c']);
}

/// Without arguments the defaults hold: Codex from the path, in the current directory, in a new thread and
/// with the configured model, with activity hidden.
pub proof fn defaults_hold_without_arguments(cwd: Seq<char>)
    ensures
        ({
            let o = default_options(cwd);
            &&& command_of(Seq::empty(), o) == CommandView::Run(o)
            &&& o.codex == "codex"@ && o.cwd == cwd && o.config.len() == 0
            &&& o.resume is None && o.model is None && o.replay is None && o.log_dir is None
            &&& !o.show && !o.check
        }),
{
}

/// A switch turns on what it is named after, and nothing else; help and the version are given whatever
/// follows.
pub proof fn switches_turn_on_what_they_name(rest: Seq<Seq<char>>, o: OptionsView)
    ensures
        command_of(seq!["--show"@] + rest, o) == command_of(rest, OptionsView { show: true, ..o }),
        command_of(seq!["--check"@] + rest, o) == command_of(rest, OptionsView { check: true, ..o }),
        command_of(seq!["-h"@] + rest, o) == CommandView::Help,
        command_of(seq!["--help"@] + rest, o) == CommandView::Help,
        command_of(seq!["-V"@] + rest, o) == CommandView::Version,
        command_of(seq!["--version"@] + rest, o) == CommandView::Version,
{
    lemma_options_differ();
    assert((seq!["--show"@] + rest).skip(1) =~= rest);
    assert((seq!["--check"@] + rest).skip(1) =~= rest);
}

/// An option with a value sets what it is named after to that value, and nothing else. A setting of the
/// configuration is added to those before it.
pub proof fn options_set_what_they_name(value: Seq<char>, rest: Seq<Seq<char>>, o: OptionsView)
    ensures
        command_of(seq!["--codex"@, value] + rest, o) == command_of(
            rest,
            OptionsView { codex: value, ..o },
        ),
        command_of(seq!["--cwd"@, value] + rest, o) == command_of(
            rest,
            OptionsView { cwd: value, ..o },
        ),
        command_of(seq!["--resume"@, value] + rest, o) == command_of(
            rest,
            OptionsView { resume: Some(value), ..o },
        ),
        command_of(seq!["--model"@, value] + rest, o) == command_of(
            rest,
            OptionsView { model: Some(value), ..o },
        ),
        command_of(seq!["--replay"@, value] + rest, o) == command_of(
            rest,
            OptionsView { replay: Some(value), ..o },
        ),
        command_of(seq!["--log-dir"@, value] + rest, o) == command_of(
            rest,
            OptionsView { log_dir: Some(value), ..o },
        ),
        command_of(seq!["-c"@, value] + rest, o) == command_of(
            rest,
            OptionsView { config: o.config.push(value), ..o },
        ),
        command_of(seq!["--config"@, value] + rest, o) == command_of(
            rest,
            OptionsView { config: o.config.push(value), ..o },
        ),
{
    lemma_options_differ();
    assert((seq!["--codex"@, value] + rest).skip(2) =~= rest);
    assert((seq!["--cwd"@, value] + rest).skip(2) =~= rest);
    assert((seq!["--resume"@, value] + rest).skip(2) =~= rest);
    assert((seq!["--model"@, value] + rest).skip(2) =~= rest);
    assert((seq!["--replay"@, value] + rest).skip(2) =~= rest);
    assert((seq!["--log-dir"@, value] + rest).skip(2) =~= rest);
    assert((seq!["-c"@, value] + rest).skip(2) =~= rest);
    assert((seq!["--config"@, value] + rest).skip(2) =~= rest);
}

/// Whether an argument is an option that comes with a value.
pub open spec fn is_valued(option: Seq<char>) -> bool {
    option == "--codex"@ || option == "--cwd"@ || option == "--resume"@ || option == "--model"@
        || option == "-c"@ || option == "--config"@ || option == "--replay"@ || option
        == "--log-dir"@
}

/// An option without its value, and an argument that is no option, are told by name.
pub proof fn mistaken_options_are_told(option: Seq<char>, rest: Seq<Seq<char>>, o: OptionsView)
    ensures
        is_valued(option) ==> command_of(seq![option], o) == CommandView::Invalid(
            option + " requires a value"@,
        ),
        !is_valued(option) && option != "--show"@ && option != "--check"@ && option != "-h"@
            && option != "--help"@ && option != "-V"@ && option != "--version"@ ==> command_of(
            seq![option] + rest,
            o,
        ) == CommandView::Invalid("Unknown option: "@ + option + ". Use --help."@),
{
    lemma_options_differ();
}

/// A name without a slash is looked up, and so is one with nothing but slashes behind it. With anything
/// else behind a slash it is a path.
pub proof fn a_slash_makes_a_path(name: Seq<char>, directory: Seq<char>)
    ensures
        !name.contains('/') ==> forall|k: int| !#[trigger] component_at(name, k),
        name.len() > 0 && name[0] != '/' && name[0] != '.' ==> component_at(
            directory + seq!['/'] + name,
            directory.len() as int + 1,
        ),
        !name.contains('/') ==> forall|k: int| !#[trigger] component_at(name + seq!['/'], k),
{
    if !name.contains('/') {
        assert forall|k: int| !#[trigger] component_at(name, k) by {
            if component_at(name, k) {
                assert(name.contains(name[k - 1]));
            }
        }
        assert forall|k: int| !#[trigger] component_at(name + seq!['/'], k) by {
            if component_at(name + seq!['/'], k) {
                assert((name + seq!['/'])[k - 1] == name[k - 1]);
                assert(name.contains(name[k - 1]));
            }
        }
    }
}

/// A directory that is given is where the logs are, whatever else there is; the home directory serves only where
/// nothing else is known, and without it there is no place.
pub proof fn a_given_directory_comes_first(given: bool, state_home: bool, home: bool)
    ensures
        log_place(given, state_home, home) is None <==> !(given || state_home || home),
        log_place(given, state_home, home) == Some(LogBase::Given) <==> given,
        log_place(given, state_home, home) == Some(LogBase::StateHome) <==> state_home && !given,
{
}

/// Two sessions have the same name only where they have begun at the same time in the same process. The time
/// stands before the process.
pub proof fn sessions_have_names_of_their_own(now: nat, process: nat, other: nat, another: nat)
    ensures
        name_of_session(now, process) == name_of_session(other, another) ==> now == other && process
            == another,
        ("session-"@ + decimal(now)).is_prefix_of(name_of_session(now, process)),
        decimal(process).is_suffix_of(name_of_session(now, process)),
{
    reveal_strlit("-");
    reveal_strlit("session-");
    let a = name_of_session(now, process);
    let b = name_of_session(other, another);
    let n = decimal(now);
    let m = decimal(other);
    let p = decimal(process);
    let q = decimal(another);
    assert(a.subrange(0, 8 + n.len() as int) =~= "session-"@ + n);
    assert(a.subrange(a.len() - p.len(), a.len() as int) =~= p);
    decimals_are_read_back(now);
    decimals_are_read_back(other);
    decimals_are_read_back(process);
    decimals_are_read_back(another);
    if a == b {
        assert(!is_digit('-'));
        assert(a[8 + n.len() as int] == '-');
        assert(b[8 + m.len() as int] == '-');
        if n.len() < m.len() {
            assert(b[8 + n.len() as int] == m[n.len() as int]);
            assert(false);
        }
        if m.len() < n.len() {
            assert(a[8 + m.len() as int] == n[m.len() as int]);
            assert(false);
        }
        assert forall|i: int| 0 <= i < n.len() implies n[i] == m[i] by {
            assert(a[8 + i] == n[i] && b[8 + i] == m[i]);
        }
        assert(n =~= m);
        assert(p.len() == q.len());
        assert forall|i: int| 0 <= i < p.len() implies p[i] == q[i] by {
            assert(a[9 + n.len() + i] == p[i] && b[9 + n.len() + i] == q[i]);
        }
        assert(p =~= q);
    }
}

} // verus!
