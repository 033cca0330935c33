//! Startup configuration: the `Config` value, the write-once slot it is
//! committed to, the shapes of startup arguments, and the fatal startup
//! errors. Everything here is decided before the server accepts a single
//! connection; afterwards the committed value is only read.
use vstd::prelude::*;

verus! {

/// The server configuration. Constructed once at startup, from defaults or
/// from a JSON file, and never mutated after it is committed.
#[derive(Debug, Clone)]
pub struct Config {
    /// The endpoint to listen on, as `host:port` text.
    pub address: String,
    /// Whether the diagnostic route is exposed.
    pub debug: bool,
}

/// The default listen endpoint: all interfaces, port 8888.
pub open spec fn default_address() -> Seq<char> {
    "0.0.0.0:8888"@
}

impl Default for Config {
    /// The built-in defaults.
    fn default() -> (c: Config)
        ensures
            c.address@ == default_address(),
            c.debug == false,
    {
        Config { address: "0.0.0.0:8888".to_owned(), debug: false }
    }
}

/// What committing `c` onto a slot holding `cur` leaves: the first writer
/// wins, a later value is silently discarded.
pub open spec fn commit_spec(cur: Option<Config>, c: Config) -> Option<Config> {
    if cur is None {
        Some(c)
    } else {
        cur
    }
}

/// The process-wide configuration slot: written once, read for the rest of
/// the process lifetime. A second commit is a deliberate no-op (idempotent
/// initialization), not an error.
pub struct ConfigSlot {
    value: Option<Config>,
}

impl ConfigSlot {
    /// What the slot holds.
    pub closed spec fn stored(&self) -> Option<Config> {
        self.value
    }

    /// A slot that holds nothing yet.
    pub fn new() -> (s: ConfigSlot)
        ensures
            s.stored() is None,
    {
        ConfigSlot { value: Option::None }
    }

    /// First-writer-wins commit: fills an empty slot; against a filled slot
    /// the new value is discarded and the slot stands unchanged.
    pub fn commit(&mut self, c: Config)
        ensures
            final (self).stored() == commit_spec(old(self).stored(), c),
    {
        if self.value.is_none() {
            self.value = Option::Some(c);
        }
    }

    /// The committed configuration, when one has been committed.
    pub fn get(&self) -> (r: Option<&Config>)
        ensures
            match r {
                Option::Some(c) => self.stored() == Option::Some(*c),
                Option::None => self.stored() is None,
            },
    {
        self.value.as_ref()
    }
}

/// First writer wins: the first commit fills the slot, and a second commit
/// changes nothing — the originally committed value stands.
pub proof fn lemma_commit_first_writer_wins(c1: Config, c2: Config)
    ensures
        commit_spec(Option::None, c1) == Option::Some(c1),
        commit_spec(Option::Some(c1), c2) == Option::Some(c1),
        commit_spec(commit_spec(Option::None, c1), c2) == Option::Some(c1),
{
}

/// A plain, immutable description of what a failing step was attempting:
/// the context line reported above an underlying failure. It carries no
/// mutable or shared state, so it is safe to share across handlers, and
/// building one has no side effect — logging happens only at the boundary
/// that declares an error fatal.
pub struct Context {
    message: String,
}

impl View for Context {
    type V = Seq<char>;

    closed spec fn view(&self) -> Seq<char> {
        self.message@
    }
}

impl Context {
    /// Wrap a message as context.
    pub fn from(message: String) -> (c: Context)
        ensures
            c@ == message@,
    {
        Context { message }
    }

    /// The message, for display where an error is declared fatal.
    pub fn message(&self) -> (m: &str)
        ensures
            m@ == self@,
    {
        self.message.as_str()
    }
}

/// The action the startup arguments call for.
#[derive(Debug)]
pub enum CliAction {
    /// No arguments beyond the program name: run with the defaults.
    UseDefaults,
    /// `--config <path>`: load the configuration file at `path`.
    LoadFile { path: String },
}

/// A fatal startup failure. Each carries the human-readable message that
/// the startup boundary logs before terminating; none is constructed while
/// serving, and none opens a socket.
#[derive(Debug)]
pub enum StartupError {
    /// The arguments had an unexpected shape or named an unknown option.
    UnknownOption { message: String },
    /// The configuration file could not be read.
    ConfigReadError { context: String },
    /// The configuration text was not valid JSON, not a JSON object, or a
    /// field of it had the wrong type.
    ConfigParseError { context: String },
}

/// The message reported for an unrecognized option.
pub open spec fn unknown_option_message(option: Seq<char>) -> Seq<char> {
    "Unknown option "@ + option
}

/// The message reported for an argument shape that fits no accepted form.
pub open spec fn usage_message() -> Seq<char> {
    "Only expected --config <filename>"@
}

/// Whether two strings hold the same characters.
pub(crate) fn str_eq(a: &str, b: &str) -> (r: bool)
    ensures
        r == (a@ == b@),
{
    let na = a.unicode_len();
    let nb = b.unicode_len();
    if na != nb {
        return false;
    }
    let mut i: usize = 0;
    while i < na
        invariant
            i <= na,
            na == a@.len(),
            na == b@.len(),
            forall|j: int| 0 <= j < i ==> a@[j] == b@[j],
        decreases na - i,
    {
        if a.get_char(i) != b.get_char(i) {
            return false;
        }
        i = i + 1;
    }
    proof {
        assert(a@ =~= b@);
    }
    true
}

/// Decide what the startup arguments call for. `args` is the full argument
/// vector, program name first: no further argument runs the defaults,
/// exactly `--config <path>` loads a file, and any other shape — a wrong
/// count or an unrecognized option — is fatal, naming the option when there
/// is one.
pub fn parse_args(args: &Vec<String>) -> (r: Result<CliAction, StartupError>)
    ensures
        match r {
            Result::Ok(CliAction::UseDefaults) => args@.len() == 1,
            Result::Ok(CliAction::LoadFile { path }) => args@.len() == 3 && args@[1]@
                == "--config"@ && path@ == args@[2]@,
            Result::Err(StartupError::UnknownOption { message }) => if args@.len() == 3 {
                args@[1]@ != "--config"@ && message@ == unknown_option_message(args@[1]@)
            } else {
                args@.len() != 1 && message@ == usage_message()
            },
            Result::Err(_) => false,
        },
{
    if args.len() == 1 {
        return Result::Ok(CliAction::UseDefaults);
    }
    if args.len() == 3 {
        if str_eq(args[1].as_str(), "--config") {
            return Result::Ok(CliAction::LoadFile { path: args[2].clone() });
        }
        let mut message = "Unknown option ".to_owned();
        message.append(args[1].as_str());
        return Result::Err(StartupError::UnknownOption { message });
    }
    Result::Err(
        StartupError::UnknownOption { message: "Only expected --config <filename>".to_owned() },
    )
}

} // verus!
