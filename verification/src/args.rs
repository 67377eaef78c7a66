//! The command line.

use pico_args::Arguments;
use vstd::prelude::*;
use vstd::string::*;

use crate::paths::UnixPath;
use crate::text::{parse_unsigned, same_text, IntError};

verus! {

// ---------------------------------------------------------------------------------------------
// Options and free arguments
// ---------------------------------------------------------------------------------------------

/// Declares `pico_args::Arguments`, the arguments that are still to be parsed.
#[verifier::external_type_specification]
#[verifier::external_body]
pub struct ExArguments(Arguments);

/// The arguments that are still to be parsed, in order; one that is not UTF-8 has no text.
pub uninterp spec fn arguments(args: Arguments) -> Seq<Option<Seq<char>>>;

/// Why an option or a free argument cannot be had.
#[derive(Debug, Clone, Copy, PartialEq, Eq, Structural)]
pub enum TakeError {
    /// The argument is not a UTF-8 string.
    NonUtf8,
    /// The option is given without a value.
    WithoutValue,
    /// There is no argument left.
    Missing,
    /// Any other refusal.
    Other,
}

/// Where the first argument that is `key` itself stands.
pub open spec fn exact_at(args: Seq<Option<Seq<char>>>, key: Seq<char>) -> Option<int>
    decreases args.len(),
{
    if args.len() == 0 {
        None
    } else if args[0] == Some(key) {
        Some(0)
    } else {
        match exact_at(args.skip(1), key) {
            Some(i) => Some(i + 1),
            None => None,
        }
    }
}

/// Whether an argument is `key`, an equals sign, and anything.
pub open spec fn assigns(arg: Option<Seq<char>>, key: Seq<char>) -> bool {
    arg matches Some(text) && key.len() < text.len() && text.take(key.len() as int) == key
        && text[key.len() as int] == '='
}

/// Where the first argument that assigns to `key` stands.
pub open spec fn assigned_at(args: Seq<Option<Seq<char>>>, key: Seq<char>) -> Option<int>
    decreases args.len(),
{
    if args.len() == 0 {
        None
    } else if assigns(args[0], key) {
        Some(0)
    } else {
        match assigned_at(args.skip(1), key) {
            Some(i) => Some(i + 1),
            None => None,
        }
    }
}

/// The value in the text behind an equals sign: a quote at its start must be closed at its end, and
/// something must be left without the quotes.
pub open spec fn unquoted(text: Seq<char>) -> Result<Seq<char>, TakeError> {
    if text.len() > 0 && (text[0] == '"' || text[0] == '\'') {
        if text.len() > 2 && text.last() == text[0] {
            Ok(text.subrange(1, text.len() - 1))
        } else {
            Err(TakeError::WithoutValue)
        }
    } else if text.len() > 0 {
        Ok(text)
    } else {
        Err(TakeError::WithoutValue)
    }
}

/// The value of the option `key`, and the arguments without it. `key value` goes before
/// `key=value`.
pub open spec fn option_taken(args: Seq<Option<Seq<char>>>, key: Seq<char>) -> Result<
    (Option<Seq<char>>, Seq<Option<Seq<char>>>),
    TakeError,
> {
    match exact_at(args, key) {
        Some(i) => if i + 1 >= args.len() {
            Err(TakeError::WithoutValue)
        } else {
            match args[i + 1] {
                Some(value) => Ok((Some(value), args.take(i) + args.skip(i + 2))),
                None => Err(TakeError::NonUtf8),
            }
        },
        None => match assigned_at(args, key) {
            Some(i) => match unquoted(args[i]->0.skip(key.len() as int + 1)) {
                Ok(value) => Ok((Some(value), args.take(i) + args.skip(i + 1))),
                Err(e) => Err(e),
            },
            None => Ok((None, args)),
        },
    }
}

/// The arguments that a list of texts makes.
pub open spec fn words_view(words: Seq<String>) -> Seq<Option<Seq<char>>> {
    words.map_values(|word: String| Some(word@))
}

/// Calls `Arguments::from_vec`.
///
/// Claims that every text of the list is still to be parsed, in the list's order.
#[verifier::external_body]
fn arguments_from(words: Vec<String>) -> (args: Arguments)
    ensures
        arguments(args) == words_view(words@),
{
    Arguments::from_vec(words.into_iter().map(|word| word.into()).collect())
}

/// Calls `Arguments::opt_value_from_str` for a string.
///
/// Claims what the source shows: the first argument that is the key is taken with the one behind
/// it, or else the first that assigns to the key is taken, as [`option_taken`] says; where neither
/// is there the arguments stay as they are. After an error nothing is claimed of the arguments.
#[verifier::external_body]
fn take_option(args: &mut Arguments, key: &'static str) -> (value: Result<
    Option<String>,
    TakeError,
>)
    requires
        key@.len() > 2,
        key@[0] == '-',
        key@[1] == '-',
    ensures
        match value {
            Ok(Some(v)) => option_taken(arguments(*old(args)), key@) == Ok::<
                (Option<Seq<char>>, Seq<Option<Seq<char>>>),
                TakeError,
            >((Some(v@), arguments(*final(args)))),
            Ok(None) => option_taken(arguments(*old(args)), key@) == Ok::<
                (Option<Seq<char>>, Seq<Option<Seq<char>>>),
                TakeError,
            >((None, arguments(*final(args)))),
            Err(e) => option_taken(arguments(*old(args)), key@) == Err::<
                (Option<Seq<char>>, Seq<Option<Seq<char>>>),
                TakeError,
            >(e),
        },
{
    match args.opt_value_from_str::<&'static str, String>(key) {
        Ok(value) => Ok(value),
        Err(pico_args::Error::NonUtf8Argument) => Err(TakeError::NonUtf8),
        Err(pico_args::Error::OptionWithoutAValue(_)) => Err(TakeError::WithoutValue),
        Err(pico_args::Error::MissingArgument) => Err(TakeError::Missing),
        Err(_) => Err(TakeError::Other),
    }
}

/// Calls `Arguments::free_from_str` for a string.
///
/// Claims what the source shows: the first argument is taken, whatever it looks like; it is an
/// error where there is none or where it is not UTF-8. After an error nothing is claimed of the
/// arguments.
#[verifier::external_body]
fn take_free(args: &mut Arguments) -> (value: Result<String, TakeError>)
    ensures
        match value {
            Ok(v) => {
                &&& arguments(*old(args)).len() > 0
                &&& arguments(*old(args))[0] == Some(v@)
                &&& arguments(*final(args)) == arguments(*old(args)).skip(1)
            },
            Err(e) => if arguments(*old(args)).len() == 0 {
                e == TakeError::Missing
            } else {
                arguments(*old(args))[0] is None && e == TakeError::NonUtf8
            },
        },
{
    match args.free_from_str::<String>() {
        Ok(value) => Ok(value),
        Err(pico_args::Error::NonUtf8Argument) => Err(TakeError::NonUtf8),
        Err(pico_args::Error::OptionWithoutAValue(_)) => Err(TakeError::WithoutValue),
        Err(pico_args::Error::MissingArgument) => Err(TakeError::Missing),
        Err(_) => Err(TakeError::Other),
    }
}

// ---------------------------------------------------------------------------------------------
// The arguments of the harness
// ---------------------------------------------------------------------------------------------

/// What runs the tasks.
#[derive(Debug, Clone, Copy, PartialEq, Eq, Structural)]
pub enum WorkerBackend {
    /// Processes on the host.
    Local,
    /// Virtual machines.
    Firecracker,
    /// Nothing: tasks are only taken in.
    Dummy,
}

/// What the harness is asked to do.
#[derive(Debug)]
pub enum Command {
    /// Build the disk images.
    Build,
    /// Start the named instance and open a shell in it.
    Debug(String),
    /// Run a benchmark.
    Bench { id: String, trials: usize, tasks: String },
    /// Show what the named task comes to.
    ExpandTask(String),
}

/// A [`Command`] over its characters.
pub enum CommandView {
    Build,
    Debug(Seq<char>),
    Bench { id: Seq<char>, trials: usize, tasks: Seq<char> },
    ExpandTask(Seq<char>),
}

impl View for Command {
    type V = CommandView;

    open spec fn view(&self) -> CommandView {
        match self {
            Command::Build => CommandView::Build,
            Command::Debug(name) => CommandView::Debug(name@),
            Command::Bench { id, trials, tasks } => CommandView::Bench {
                id: id@,
                trials: *trials,
                tasks: tasks@,
            },
            Command::ExpandTask(name) => CommandView::ExpandTask(name@),
        }
    }
}

/// The arguments of the harness.
#[derive(Debug)]
pub struct Args {
    pub config: UnixPath,
    pub workers: usize,
    pub backend: WorkerBackend,
    pub command: Command,
}

/// [`Args`] over their characters.
pub struct ArgsView {
    pub config: Seq<u8>,
    pub workers: usize,
    pub backend: WorkerBackend,
    pub command: CommandView,
}

impl View for Args {
    type V = ArgsView;

    open spec fn view(&self) -> ArgsView {
        ArgsView {
            config: self.config@,
            workers: self.workers,
            backend: self.backend,
            command: self.command@,
        }
    }
}

/// Why the arguments are refused.
#[derive(Debug)]
pub enum ArgsError {
    /// This option is given without a value.
    WithoutValue(String),
    /// The value of an option is not a UTF-8 string.
    NonUtf8,
    /// The value of an option is no number.
    Number { value: String, reason: IntError },
    /// The value of an option is no backend.
    Backend(String),
    /// There is no command.
    MissingCommand,
    /// There is no name of an instance.
    MissingInstance,
    /// There is no list of tasks.
    MissingTaskList,
    /// There is no name of a task.
    MissingTask,
    /// There is no such command.
    UnknownCommand(String),
}

/// An [`ArgsError`] over its characters.
pub enum ArgsErrorView {
    WithoutValue(Seq<char>),
    NonUtf8,
    Number { value: Seq<char>, reason: IntError },
    Backend(Seq<char>),
    MissingCommand,
    MissingInstance,
    MissingTaskList,
    MissingTask,
    UnknownCommand(Seq<char>),
}

impl View for ArgsError {
    type V = ArgsErrorView;

    open spec fn view(&self) -> ArgsErrorView {
        match self {
            ArgsError::WithoutValue(key) => ArgsErrorView::WithoutValue(key@),
            ArgsError::NonUtf8 => ArgsErrorView::NonUtf8,
            ArgsError::Number { value, reason } => ArgsErrorView::Number {
                value: value@,
                reason: *reason,
            },
            ArgsError::Backend(value) => ArgsErrorView::Backend(value@),
            ArgsError::MissingCommand => ArgsErrorView::MissingCommand,
            ArgsError::MissingInstance => ArgsErrorView::MissingInstance,
            ArgsError::MissingTaskList => ArgsErrorView::MissingTaskList,
            ArgsError::MissingTask => ArgsErrorView::MissingTask,
            ArgsError::UnknownCommand(name) => ArgsErrorView::UnknownCommand(name@),
        }
    }
}

/// What it means that the option `key` cannot be had.
pub open spec fn refusal(key: Seq<char>, cause: TakeError) -> ArgsErrorView {
    match cause {
        TakeError::WithoutValue => ArgsErrorView::WithoutValue(key),
        _ => ArgsErrorView::NonUtf8,
    }
}

/// What it means that the option `key` cannot be had.
fn refused(key: &str, cause: TakeError) -> (error: ArgsError)
    ensures
        error@ == refusal(key@, cause),
{
    match cause {
        TakeError::WithoutValue => ArgsError::WithoutValue(key.to_string()),
        _ => ArgsError::NonUtf8,
    }
}

/// What is said of an [`ArgsError`].
pub open spec fn args_error_text(error: ArgsErrorView) -> Seq<char> {
    match error {
        ArgsErrorView::WithoutValue(key) => "the '"@ + key
            + "' option doesn't have an associated value"@,
        ArgsErrorView::NonUtf8 => "argument is not a UTF-8 string"@,
        ArgsErrorView::Number { value, reason } => "failed to parse '"@ + value + "': "@
            + crate::text::int_error_text(reason),
        ArgsErrorView::Backend(value) => "failed to parse '"@ + value
            + "': Invalid worker backend: "@ + value,
        ArgsErrorView::MissingCommand => "missing COMMAND"@,
        ArgsErrorView::MissingInstance => "expected instance name"@,
        ArgsErrorView::MissingTaskList => "expected task list"@,
        ArgsErrorView::MissingTask => "expected task name"@,
        ArgsErrorView::UnknownCommand(name) => "Unknown command: "@ + name,
    }
}

impl ArgsError {
    /// What is said of the error.
    pub fn message(&self) -> (text: String)
        ensures
            text@ == args_error_text(self@),
    {
        match self {
            ArgsError::WithoutValue(key) => {
                let mut text = "the '".to_string();
                text.append(key.as_str());
                text.append("' option doesn't have an associated value");
                text
            },
            ArgsError::NonUtf8 => "argument is not a UTF-8 string".to_string(),
            ArgsError::Number { value, reason } => {
                let mut text = "failed to parse '".to_string();
                text.append(value.as_str());
                text.append("': ");
                text.append(reason.message());
                text
            },
            ArgsError::Backend(value) => {
                let mut text = "failed to parse '".to_string();
                text.append(value.as_str());
                text.append("': Invalid worker backend: ");
                text.append(value.as_str());
                text
            },
            ArgsError::MissingCommand => "missing COMMAND".to_string(),
            ArgsError::MissingInstance => "expected instance name".to_string(),
            ArgsError::MissingTaskList => "expected task list".to_string(),
            ArgsError::MissingTask => "expected task name".to_string(),
            ArgsError::UnknownCommand(name) => {
                let mut text = "Unknown command: ".to_string();
                text.append(name.as_str());
                text
            },
        }
    }
}

/// The text of an option with a default, and the arguments without it.
pub open spec fn text_option(
    args: Seq<Option<Seq<char>>>,
    key: Seq<char>,
    default: Seq<char>,
) -> Result<(Seq<char>, Seq<Option<Seq<char>>>), ArgsErrorView> {
    match option_taken(args, key) {
        Err(cause) => Err(refusal(key, cause)),
        Ok((Some(value), rest)) => Ok((value, rest)),
        Ok((None, rest)) => Ok((default, rest)),
    }
}

/// The number of an option that is one where it is not given, and the arguments without it.
pub open spec fn number_option(args: Seq<Option<Seq<char>>>, key: Seq<char>) -> Result<
    (usize, Seq<Option<Seq<char>>>),
    ArgsErrorView,
> {
    match option_taken(args, key) {
        Err(cause) => Err(refusal(key, cause)),
        Ok((Some(value), rest)) => match crate::text::unsigned_value(value, usize::MAX as nat) {
            Err(reason) => Err(ArgsErrorView::Number { value, reason }),
            Ok(n) => Ok((n as usize, rest)),
        },
        Ok((None, rest)) => Ok((1, rest)),
    }
}

/// The backend that a text names.
pub open spec fn backend_named(s: Seq<char>) -> Option<WorkerBackend> {
    if s == "local"@ {
        Some(WorkerBackend::Local)
    } else if s == "firecracker"@ {
        Some(WorkerBackend::Firecracker)
    } else if s == "dummy"@ {
        Some(WorkerBackend::Dummy)
    } else {
        None
    }
}

/// The backend, firecracker where it is not given, and the arguments without it.
pub open spec fn backend_option(args: Seq<Option<Seq<char>>>) -> Result<
    (WorkerBackend, Seq<Option<Seq<char>>>),
    ArgsErrorView,
> {
    match option_taken(args, "--backend"@) {
        Err(cause) => Err(refusal("--backend"@, cause)),
        Ok((Some(value), rest)) => match backend_named(value) {
            None => Err(ArgsErrorView::Backend(value)),
            Some(backend) => Ok((backend, rest)),
        },
        Ok((None, rest)) => Ok((WorkerBackend::Firecracker, rest)),
    }
}

/// The first argument, where there is one that is UTF-8.
pub open spec fn first_free(args: Seq<Option<Seq<char>>>) -> Option<Seq<char>> {
    if args.len() == 0 {
        None
    } else {
        args[0]
    }
}

/// The command that the arguments name, and what it is told.
pub open spec fn command_spec(args: Seq<Option<Seq<char>>>) -> Result<CommandView, ArgsErrorView> {
    match first_free(args) {
        None => Err(ArgsErrorView::MissingCommand),
        Some(name) => {
            let rest = args.skip(1);
            if name == "build"@ {
                Ok(CommandView::Build)
            } else if name == "debug"@ {
                match first_free(rest) {
                    Some(instance) => Ok(CommandView::Debug(instance)),
                    None => Err(ArgsErrorView::MissingInstance),
                }
            } else if name == "bench"@ {
                bench_spec(rest)
            } else if name == "expand-task"@ {
                match first_free(rest) {
                    Some(task) => Ok(CommandView::ExpandTask(task)),
                    None => Err(ArgsErrorView::MissingTask),
                }
            } else {
                Err(ArgsErrorView::UnknownCommand(name))
            }
        },
    }
}

/// What `bench` is told.
pub open spec fn bench_spec(args: Seq<Option<Seq<char>>>) -> Result<CommandView, ArgsErrorView> {
    match text_option(args, "--id"@, "debug"@) {
        Err(e) => Err(e),
        Ok((id, after_id)) => match number_option(after_id, "--trials"@) {
            Err(e) => Err(e),
            Ok((trials, rest)) => match first_free(rest) {
                Some(tasks) => Ok(CommandView::Bench { id, trials, tasks }),
                None => Err(ArgsErrorView::MissingTaskList),
            },
        },
    }
}

/// What the arguments say. The options of the harness may stand anywhere; those of `bench` are
/// looked for once the command is known, and the command is the first argument that is left.
pub open spec fn args_spec(args: Seq<Option<Seq<char>>>) -> Result<ArgsView, ArgsErrorView> {
    match text_option(args, "--config"@, "config.toml"@) {
        Err(e) => Err(e),
        Ok((config, after_config)) => match number_option(after_config, "--workers"@) {
            Err(e) => Err(e),
            Ok((workers, after_workers)) => match backend_option(after_workers) {
                Err(e) => Err(e),
                Ok((backend, rest)) => match command_spec(rest) {
                    Err(e) => Err(e),
                    Ok(command) => Ok(
                        ArgsView {
                            config: vstd::utf8::encode_utf8(config),
                            workers,
                            backend,
                            command,
                        },
                    ),
                },
            },
        },
    }
}

fn take_text(args: &mut Arguments, key: &'static str, default: &str) -> (text: Result<
    String,
    ArgsError,
>)
    requires
        key@.len() > 2,
        key@[0] == '-',
        key@[1] == '-',
    ensures
        match text {
            Ok(t) => text_option(arguments(*old(args)), key@, default@) == Ok::<
                (Seq<char>, Seq<Option<Seq<char>>>),
                ArgsErrorView,
            >((t@, arguments(*final(args)))),
            Err(e) => text_option(arguments(*old(args)), key@, default@) == Err::<
                (Seq<char>, Seq<Option<Seq<char>>>),
                ArgsErrorView,
            >(e@),
        },
{
    match take_option(args, key) {
        Err(cause) => Err(refused(key, cause)),
        Ok(Some(text)) => Ok(text),
        Ok(None) => Ok(default.to_string()),
    }
}

fn take_number(args: &mut Arguments, key: &'static str) -> (number: Result<usize, ArgsError>)
    requires
        key@.len() > 2,
        key@[0] == '-',
        key@[1] == '-',
    ensures
        match number {
            Ok(n) => number_option(arguments(*old(args)), key@) == Ok::<
                (usize, Seq<Option<Seq<char>>>),
                ArgsErrorView,
            >((n, arguments(*final(args)))),
            Err(e) => number_option(arguments(*old(args)), key@) == Err::<
                (usize, Seq<Option<Seq<char>>>),
                ArgsErrorView,
            >(e@),
        },
{
    match take_option(args, key) {
        Err(cause) => Err(refused(key, cause)),
        Ok(Some(value)) => match parse_unsigned(value.as_str(), usize::MAX as u64) {
            Err(reason) => Err(ArgsError::Number { value, reason }),
            Ok(n) => Ok(n as usize),
        },
        Ok(None) => Ok(1),
    }
}

fn take_backend(args: &mut Arguments) -> (backend: Result<WorkerBackend, ArgsError>)
    ensures
        match backend {
            Ok(b) => backend_option(arguments(*old(args))) == Ok::<
                (WorkerBackend, Seq<Option<Seq<char>>>),
                ArgsErrorView,
            >((b, arguments(*final(args)))),
            Err(e) => backend_option(arguments(*old(args))) == Err::<
                (WorkerBackend, Seq<Option<Seq<char>>>),
                ArgsErrorView,
            >(e@),
        },
{
    proof {
        reveal_strlit("--backend");
    }
    match take_option(args, "--backend") {
        Err(cause) => Err(refused("--backend", cause)),
        Ok(Some(value)) => WorkerBackend::from_str(value.as_str()),
        Ok(None) => Ok(WorkerBackend::Firecracker),
    }
}

fn take_command(args: &mut Arguments) -> (command: Result<Command, ArgsError>)
    ensures
        match command {
            Ok(c) => command_spec(arguments(*old(args))) == Ok::<CommandView, ArgsErrorView>(c@),
            Err(e) => command_spec(arguments(*old(args))) == Err::<CommandView, ArgsErrorView>(
                e@,
            ),
        },
{
    let name = match take_free(args) {
        Err(_) => return Err(ArgsError::MissingCommand),
        Ok(name) => name,
    };
    if same_text(name.as_str(), "build") {
        Ok(Command::Build)
    } else if same_text(name.as_str(), "debug") {
        match take_free(args) {
            Ok(instance) => Ok(Command::Debug(instance)),
            Err(_) => Err(ArgsError::MissingInstance),
        }
    } else if same_text(name.as_str(), "bench") {
        proof {
            reveal_strlit("--id");
            reveal_strlit("--trials");
        }
        let id = match take_text(args, "--id", "debug") {
            Err(e) => return Err(e),
            Ok(id) => id,
        };
        let trials: usize = match take_number(args, "--trials") {
            Err(e) => return Err(e),
            Ok(trials) => trials,
        };
        match take_free(args) {
            Ok(tasks) => Ok(Command::Bench { id, trials, tasks }),
            Err(_) => Err(ArgsError::MissingTaskList),
        }
    } else if same_text(name.as_str(), "expand-task") {
        match take_free(args) {
            Ok(task) => Ok(Command::ExpandTask(task)),
            Err(_) => Err(ArgsError::MissingTask),
        }
    } else {
        Err(ArgsError::UnknownCommand(name))
    }
}

impl WorkerBackend {
    /// The backend that `s` names.
    pub fn from_str(s: &str) -> (backend: Result<WorkerBackend, ArgsError>)
        ensures
            match backend {
                Ok(b) => backend_named(s@) == Some(b),
                Err(e) => backend_named(s@) is None && e@ == ArgsErrorView::Backend(s@),
            },
    {
        if same_text(s, "local") {
            Ok(WorkerBackend::Local)
        } else if same_text(s, "firecracker") {
            Ok(WorkerBackend::Firecracker)
        } else if same_text(s, "dummy") {
            Ok(WorkerBackend::Dummy)
        } else {
            Err(ArgsError::Backend(s.to_string()))
        }
    }
}

impl Args {
    /// What the arguments say.
    pub fn parse(args: Arguments) -> (parsed: Result<Args, ArgsError>)
        ensures
            match parsed {
                Ok(a) => args_spec(arguments(args)) == Ok::<ArgsView, ArgsErrorView>(a@),
                Err(e) => args_spec(arguments(args)) == Err::<ArgsView, ArgsErrorView>(e@),
            },
    {
        let mut args = args;
        proof {
            reveal_strlit("--config");
            reveal_strlit("--workers");
        }
        let config = match take_text(&mut args, "--config", "config.toml") {
            Err(e) => return Err(e),
            Ok(config) => config,
        };
        let workers: usize = match take_number(&mut args, "--workers") {
            Err(e) => return Err(e),
            Ok(workers) => workers,
        };
        let backend = match take_backend(&mut args) {
            Err(e) => return Err(e),
            Ok(backend) => backend,
        };
        match take_command(&mut args) {
            Err(e) => Err(e),
            Ok(command) => Ok(
                Args { config: UnixPath::new(config.as_str()), workers, backend, command },
            ),
        }
    }

    /// What a list of arguments says, where each of them is a text.
    pub fn parse_words(words: Vec<String>) -> (parsed: Result<Args, ArgsError>)
        ensures
            match parsed {
                Ok(a) => args_spec(words_view(words@)) == Ok::<ArgsView, ArgsErrorView>(a@),
                Err(e) => args_spec(words_view(words@)) == Err::<ArgsView, ArgsErrorView>(e@),
            },
    {
        Args::parse(arguments_from(words))
    }

    /// How the harness is called.
    pub fn usage_str() -> (text: &'static str)
        ensures
            text@
                == "bench-harness [--config=<path>] [--workers=<num>] [--backend=<backend>] COMMAND"@,
    {
        "bench-harness [--config=<path>] [--workers=<num>] [--backend=<backend>] COMMAND"
    }
}

// ---------------------------------------------------------------------------------------------
// Laws
// ---------------------------------------------------------------------------------------------

/// Whether no argument is `key` or assigns to it.
pub open spec fn without_option(args: Seq<Option<Seq<char>>>, key: Seq<char>) -> bool {
    forall|i: int|
        0 <= i < args.len() ==> (#[trigger] args[i]) != Some(key) && !assigns(args[i], key)
}

/// An option may stand anywhere among the arguments, as two of them, as one with an equals sign, or
/// as one with an equals sign and quotes round the value: it is taken alike, and what stands round
/// it is left.
pub proof fn lemma_option_spellings(
    before: Seq<Option<Seq<char>>>,
    after: Seq<Option<Seq<char>>>,
    key: Seq<char>,
    value: Seq<char>,
    quote: char,
)
    requires
        without_option(before, key),
        without_option(after, key),
        value.len() > 0,
        value[0] != '"' && value[0] != '\'',
        quote == '"' || quote == '\'',
    ensures
        option_taken(before + seq![Some(key), Some(value)] + after, key) == Ok::<
            (Option<Seq<char>>, Seq<Option<Seq<char>>>),
            TakeError,
        >((Some(value), before + after)),
        option_taken(before + seq![Some(key + seq!['='] + value)] + after, key) == Ok::<
            (Option<Seq<char>>, Seq<Option<Seq<char>>>),
            TakeError,
        >((Some(value), before + after)),
        option_taken(
            before + seq![Some(key + seq!['=', quote] + value + seq![quote])] + after,
            key,
        ) == Ok::<(Option<Seq<char>>, Seq<Option<Seq<char>>>), TakeError>(
            (Some(value), before + after),
        ),
{
    lemma_pair_taken(before, after, key, value);
    lemma_assigned(before, after, key, value);
    lemma_assigned(before, after, key, seq![quote] + value + seq![quote]);
    assert(key + seq!['='] + (seq![quote] + value + seq![quote]) =~= key + seq!['=', quote] + value
        + seq![quote]);
    assert((seq![quote] + value + seq![quote]).subrange(1, 1 + value.len() as int) =~= value);
}

/// An option that is given as two arguments is taken, whatever its value is.
pub proof fn lemma_pair_taken(
    before: Seq<Option<Seq<char>>>,
    after: Seq<Option<Seq<char>>>,
    key: Seq<char>,
    value: Seq<char>,
)
    requires
        without_option(before, key),
    ensures
        option_taken(before + seq![Some(key), Some(value)] + after, key) == Ok::<
            (Option<Seq<char>>, Seq<Option<Seq<char>>>),
            TakeError,
        >((Some(value), before + after)),
{
    let n = before.len() as int;
    let pair = before + (seq![Some(key), Some(value)] + after);
    assert(before + seq![Some(key), Some(value)] + after =~= pair);
    lemma_exact_after(before, seq![Some(key), Some(value)] + after, key);
    assert(pair.take(n) + pair.skip(n + 2) =~= before + after);
}

proof fn lemma_assigned(
    before: Seq<Option<Seq<char>>>,
    after: Seq<Option<Seq<char>>>,
    key: Seq<char>,
    text: Seq<char>,
)
    requires
        without_option(before, key),
        without_option(after, key),
        unquoted(text) is Ok,
    ensures
        option_taken(before + seq![Some(key + seq!['='] + text)] + after, key) == Ok::<
            (Option<Seq<char>>, Seq<Option<Seq<char>>>),
            TakeError,
        >((Some(unquoted(text)->Ok_0), before + after)),
{
    let n = before.len() as int;
    let arg = key + seq!['='] + text;
    let rest = seq![Some(arg)] + after;
    let all = before + rest;
    assert(before + seq![Some(arg)] + after =~= all);
    assert(arg.len() != key.len());
    assert(rest.skip(1) =~= after);
    lemma_no_exact(after, key);
    lemma_exact_after(before, rest, key);
    assert(arg.take(key.len() as int) =~= key);
    lemma_assigned_after(before, rest, key);
    assert(all[n] == Some(arg));
    assert(arg.skip(key.len() as int + 1) =~= text);
    assert(all.take(n) + all.skip(n + 1) =~= before + after);
}

proof fn lemma_no_exact(args: Seq<Option<Seq<char>>>, key: Seq<char>)
    requires
        without_option(args, key),
    ensures
        exact_at(args, key) is None,
    decreases args.len(),
{
    if args.len() > 0 {
        lemma_without_first(args, key);
        lemma_no_exact(args.skip(1), key);
    }
}

proof fn lemma_without_first(args: Seq<Option<Seq<char>>>, key: Seq<char>)
    requires
        args.len() > 0,
        without_option(args, key),
    ensures
        args[0] != Some(key),
        !assigns(args[0], key),
        without_option(args.skip(1), key),
{
    let rest = args.skip(1);
    assert forall|i: int| 0 <= i < rest.len() implies (#[trigger] rest[i]) != Some(key)
        && !assigns(rest[i], key) by {
        assert(args[i + 1] != Some(key) && !assigns(args[i + 1], key));
    }
}

proof fn lemma_exact_after(
    before: Seq<Option<Seq<char>>>,
    rest: Seq<Option<Seq<char>>>,
    key: Seq<char>,
)
    requires
        without_option(before, key),
    ensures
        exact_at(before + rest, key) == match exact_at(rest, key) {
            Some(i) => Some(before.len() + i),
            None => None,
        },
    decreases before.len(),
{
    if before.len() == 0 {
        assert(before + rest =~= rest);
    } else {
        lemma_without_first(before, key);
        lemma_exact_after(before.skip(1), rest, key);
        assert((before + rest).skip(1) =~= before.skip(1) + rest);
    }
}

proof fn lemma_assigned_after(
    before: Seq<Option<Seq<char>>>,
    rest: Seq<Option<Seq<char>>>,
    key: Seq<char>,
)
    requires
        without_option(before, key),
    ensures
        assigned_at(before + rest, key) == match assigned_at(rest, key) {
            Some(i) => Some(before.len() + i),
            None => None,
        },
    decreases before.len(),
{
    if before.len() == 0 {
        assert(before + rest =~= rest);
    } else {
        lemma_without_first(before, key);
        lemma_assigned_after(before.skip(1), rest, key);
        assert((before + rest).skip(1) =~= before.skip(1) + rest);
    }
}

/// An option that is not given is not taken, and the arguments stay as they are.
pub proof fn lemma_option_not_given(args: Seq<Option<Seq<char>>>, key: Seq<char>)
    requires
        without_option(args, key),
    ensures
        option_taken(args, key) == Ok::<(Option<Seq<char>>, Seq<Option<Seq<char>>>), TakeError>(
            (None, args),
        ),
{
    let none = Seq::<Option<Seq<char>>>::empty();
    lemma_exact_after(args, none, key);
    lemma_assigned_after(args, none, key);
    assert(args + none =~= args);
}

/// A text that differs from `key` at one of its characters neither is it nor assigns to it.
proof fn lemma_other_text(text: Seq<char>, key: Seq<char>, at: int)
    requires
        0 <= at < key.len(),
        at < text.len() ==> text[at] != key[at],
    ensures
        Some(text) != Some(key),
        !assigns(Some(text), key),
{
    if assigns(Some(text), key) {
        assert(text.take(key.len() as int)[at] == text[at]);
    }
}

/// No option of the harness.
pub open spec fn no_option(text: Seq<char>) -> bool {
    forall|key: Seq<char>|
        #![trigger assigns(Some(text), key)]
        key == "--config"@ || key == "--workers"@ || key == "--backend"@ || key == "--id"@ || key
            == "--trials"@ ==> text != key && !assigns(Some(text), key)
}

/// The usual call of a benchmark says what it looks like it says, whatever the numbers, the id and
/// the list of tasks.
pub proof fn lemma_bench_call(workers: usize, id: Seq<char>, trials: usize, tasks: Seq<char>)
    requires
        id.len() > 0,
        id[0] != '"' && id[0] != '\'',
        no_option(tasks),
    ensures
        args_spec(
            seq![
                Some("--workers="@ + crate::text::decimal(workers as nat)),
                Some("bench"@),
                Some("--id="@ + id),
                Some("--trials="@ + crate::text::decimal(trials as nat)),
                Some(tasks),
            ],
        ) == Ok::<ArgsView, ArgsErrorView>(
            ArgsView {
                config: vstd::utf8::encode_utf8("config.toml"@),
                workers,
                backend: WorkerBackend::Firecracker,
                command: CommandView::Bench { id, trials, tasks },
            },
        ),
{
    reveal_strlit("--config");
    reveal_strlit("--workers");
    reveal_strlit("--workers=");
    reveal_strlit("--backend");
    reveal_strlit("--id");
    reveal_strlit("--id=");
    reveal_strlit("--trials");
    reveal_strlit("--trials=");
    reveal_strlit("bench");
    reveal_strlit("build");
    reveal_strlit("debug");
    let none = Seq::<Option<Seq<char>>>::empty();
    let w = crate::text::decimal(workers as nat);
    let t = crate::text::decimal(trials as nat);
    let workers_arg = "--workers="@ + w;
    let id_arg = "--id="@ + id;
    let trials_arg = "--trials="@ + t;
    let of_tasks = seq![Some(tasks)];
    let of_trials = seq![Some(trials_arg), Some(tasks)];
    let of_bench = seq![Some(id_arg), Some(trials_arg), Some(tasks)];
    let of_command = seq![Some("bench"@), Some(id_arg), Some(trials_arg), Some(tasks)];
    let all = seq![
        Some(workers_arg),
        Some("bench"@),
        Some(id_arg),
        Some(trials_arg),
        Some(tasks),
    ];
    crate::text::lemma_decimal_is_digits(workers as nat);
    crate::text::lemma_decimal_is_digits(trials as nat);
    crate::text::lemma_decimal_reads_back(workers as nat, usize::MAX as nat);
    crate::text::lemma_decimal_reads_back(trials as nat, usize::MAX as nat);
    assert(crate::text::is_digit(w[0]) && crate::text::is_digit(t[0]));

    lemma_other_text(workers_arg, "--config"@, 2);
    lemma_other_text(workers_arg, "--backend"@, 2);
    lemma_other_text("bench"@, "--config"@, 0);
    lemma_other_text("bench"@, "--workers"@, 0);
    lemma_other_text("bench"@, "--backend"@, 0);
    lemma_other_text(id_arg, "--config"@, 2);
    lemma_other_text(id_arg, "--workers"@, 2);
    lemma_other_text(id_arg, "--backend"@, 2);
    lemma_other_text(trials_arg, "--config"@, 2);
    lemma_other_text(trials_arg, "--workers"@, 2);
    lemma_other_text(trials_arg, "--backend"@, 2);
    lemma_other_text(trials_arg, "--id"@, 2);
    assert(!assigns(Some(tasks), "--config"@) && !assigns(Some(tasks), "--workers"@) && !assigns(
        Some(tasks),
        "--backend"@,
    ) && !assigns(Some(tasks), "--id"@) && !assigns(Some(tasks), "--trials"@));

    lemma_option_not_given(all, "--config"@);
    assert("--workers"@ + seq!['='] + w =~= workers_arg);
    assert(none + seq![Some(workers_arg)] + of_command =~= all);
    assert(none + of_command =~= of_command);
    lemma_option_spellings(none, of_command, "--workers"@, w, '"');
    lemma_option_not_given(of_command, "--backend"@);

    assert("bench"@[1] != "build"@[1] && "bench"@[0] != "debug"@[0]);
    assert(of_command.skip(1) =~= of_bench);
    assert("--id"@ + seq!['='] + id =~= id_arg);
    assert(none + seq![Some(id_arg)] + of_trials =~= of_bench);
    assert(none + of_trials =~= of_trials);
    lemma_option_spellings(none, of_trials, "--id"@, id, '"');
    assert("--trials"@ + seq!['='] + t =~= trials_arg);
    assert(none + seq![Some(trials_arg)] + of_tasks =~= of_trials);
    assert(none + of_tasks =~= of_tasks);
    lemma_option_spellings(none, of_tasks, "--trials"@, t, '"');
}

/// Whether an argument is `key` or assigns to it.
pub open spec fn gives(arg: Option<Seq<char>>, key: Seq<char>) -> bool {
    arg == Some(key) || assigns(arg, key)
}

/// An option that the harness takes whatever the command is.
pub open spec fn harness_key(key: Seq<char>) -> bool {
    key == "--config"@ || key == "--workers"@ || key == "--backend"@
}

/// Behind every option of the harness that is written with its value as an argument of its own, the
/// value stands among `args`, and it is no option of the harness itself.
pub open spec fn values_stand(args: Seq<Option<Seq<char>>>) -> bool {
    forall|i: int, key: Seq<char>|
        #![trigger args[i], harness_key(key)]
        0 <= i < args.len() && harness_key(key) && args[i] == Some(key) ==> i + 1 < args.len()
            && no_harness_option(args[i + 1])
}

pub open spec fn no_harness_option(arg: Option<Seq<char>>) -> bool {
    forall|key: Seq<char>| #[trigger] harness_key(key) ==> !gives(arg, key)
}

/// The option `key` with `value`, as two arguments or as one.
pub open spec fn spelled(
    option: Seq<Option<Seq<char>>>,
    key: Seq<char>,
    value: Seq<char>,
) -> bool {
    option == seq![Some(key), Some(value)] || option == seq![Some(key + seq!['='] + value)]
}

/// An option of the harness may stand anywhere: the arguments say the same as where it comes first.
/// It must not stand between another option and its value, and must not itself hold another option.
pub proof fn lemma_harness_option_anywhere(
    before: Seq<Option<Seq<char>>>,
    option: Seq<Option<Seq<char>>>,
    after: Seq<Option<Seq<char>>>,
    key: Seq<char>,
    value: Seq<char>,
)
    requires
        harness_key(key),
        spelled(option, key, value),
        option.len() == 1 ==> value.len() > 0 && value[0] != '"' && value[0] != '\'',
        without_option(before, key),
        without_option(after, key),
        values_stand(before),
        forall|other: Seq<char>|
            #[trigger] harness_key(other) && other != key ==> without_option(option, other),
    ensures
        args_spec(before + option + after) == args_spec(option + before + after),
{
    reveal_strlit("--config");
    reveal_strlit("--workers");
    reveal_strlit("--backend");
    assert("--config"@.len() != "--workers"@.len());
    assert("--config"@.len() != "--backend"@.len());
    assert("--workers"@[2] != "--backend"@[2]);
    let none = Seq::<Option<Seq<char>>>::empty();
    let both = before + after;
    assert(option + before + after =~= none + option + both);
    assert(none + both =~= both);
    lemma_without_concat(before, after, key);
    if key == "--config"@ {
        lemma_spelled_taken(before, option, after, key, value);
        lemma_spelled_taken(none, option, both, key, value);
    } else {
        assert(harness_key("--config"@));
        assert(without_option(option, "--config"@));
        let (b1, a1) = lemma_taken_around(before, option, after, "--config"@);
        let (b2, a2) = lemma_taken_around(none, option, both, "--config"@);
        if option_taken(both, "--config"@) is Ok {
            assert(without_option(b1, key) && without_option(a1, key));
            assert(without_option(b2, key) && without_option(a2, key));
            if key == "--workers"@ {
                lemma_spelled_taken(b1, option, a1, key, value);
                lemma_spelled_taken(b2, option, a2, key, value);
            } else {
                assert(harness_key("--workers"@));
                assert(without_option(option, "--workers"@));
                let (b3, a3) = lemma_taken_around(b1, option, a1, "--workers"@);
                let (b4, a4) = lemma_taken_around(b2, option, a2, "--workers"@);
                if option_taken(b1 + a1, "--workers"@) is Ok {
                    assert(without_option(b3, key) && without_option(a3, key));
                    assert(without_option(b4, key) && without_option(a4, key));
                    lemma_spelled_taken(b3, option, a3, key, value);
                    lemma_spelled_taken(b4, option, a4, key, value);
                }
            }
        }
    }
}

/// An option is taken whichever way it is spelled; as two arguments, whatever its value is.
proof fn lemma_spelled_taken(
    before: Seq<Option<Seq<char>>>,
    option: Seq<Option<Seq<char>>>,
    after: Seq<Option<Seq<char>>>,
    key: Seq<char>,
    value: Seq<char>,
)
    requires
        spelled(option, key, value),
        option.len() == 1 ==> value.len() > 0 && value[0] != '"' && value[0] != '\'',
        without_option(before, key),
        without_option(after, key),
    ensures
        option_taken(before + option + after, key) == Ok::<
            (Option<Seq<char>>, Seq<Option<Seq<char>>>),
            TakeError,
        >((Some(value), before + after)),
{
    if option.len() == 1 {
        lemma_option_spellings(before, after, key, value, '"');
    } else {
        lemma_pair_taken(before, after, key, value);
    }
}

proof fn lemma_without_concat(
    one: Seq<Option<Seq<char>>>,
    other: Seq<Option<Seq<char>>>,
    key: Seq<char>,
)
    requires
        without_option(one, key),
        without_option(other, key),
    ensures
        without_option(one + other, key),
{
    let all = one + other;
    assert forall|i: int| 0 <= i < all.len() implies (#[trigger] all[i]) != Some(key) && !assigns(
        all[i],
        key,
    ) by {
        if i < one.len() {
            assert(one[i] != Some(key));
        } else {
            assert(other[i - one.len()] != Some(key));
        }
    }
}

/// Arguments without `n` of them from `i` on.
spec fn without(args: Seq<Option<Seq<char>>>, i: int, n: int) -> Seq<Option<Seq<char>>> {
    args.take(i) + args.skip(i + n)
}

proof fn lemma_still_without(args: Seq<Option<Seq<char>>>, i: int, n: int)
    requires
        0 <= i,
        0 <= n,
        i + n <= args.len(),
    ensures
        forall|key: Seq<char>|
            without_option(args, key) ==> #[trigger] without_option(without(args, i, n), key),
{
    assert forall|key: Seq<char>| without_option(args, key) implies #[trigger] without_option(
        without(args, i, n),
        key,
    ) by {
        let left = without(args, i, n);
        assert forall|j: int| 0 <= j < left.len() implies (#[trigger] left[j]) != Some(key)
            && !assigns(left[j], key) by {
            let k = if j < i { j } else { j + n };
            assert(left[j] == args[k]);
            assert(args[k] != Some(key));
        }
    }
}

/// Where an option and its value are taken away, the values of the others still stand.
proof fn lemma_values_still_stand(
    args: Seq<Option<Seq<char>>>,
    i: int,
    n: int,
    key: Seq<char>,
)
    requires
        values_stand(args),
        harness_key(key),
        0 <= i,
        i + n <= args.len(),
        args[i] == Some(key) && n == 2 || assigns(args[i], key) && n == 1,
    ensures
        values_stand(without(args, i, n)),
{
    let left = without(args, i, n);
    assert forall|j: int, k: Seq<char>|
        #![trigger left[j], harness_key(k)]
        0 <= j < left.len() && harness_key(k) && left[j] == Some(k) implies j + 1 < left.len()
        && no_harness_option(left[j + 1]) by {
        let at = if j < i { j } else { j + n };
        assert(left[j] == args[at]);
        assert(at + 1 < args.len() && no_harness_option(args[at + 1]));
        if at + 1 == i {
            assert(gives(args[i], key));
        }
        assert(left[j + 1] == args[at + 1]);
    }
}

proof fn lemma_exact_concat(
    one: Seq<Option<Seq<char>>>,
    other: Seq<Option<Seq<char>>>,
    key: Seq<char>,
)
    ensures
        exact_at(one + other, key) == match exact_at(one, key) {
            Some(i) => Some(i),
            None => match exact_at(other, key) {
                Some(i) => Some(one.len() + i),
                None => None,
            },
        },
        exact_at(one, key) matches Some(i) ==> 0 <= i < one.len() && one[i] == Some(key),
    decreases one.len(),
{
    if one.len() == 0 {
        assert(one + other =~= other);
    } else {
        lemma_exact_concat(one.skip(1), other, key);
        assert((one + other).skip(1) =~= one.skip(1) + other);
    }
}

proof fn lemma_assigned_concat(
    one: Seq<Option<Seq<char>>>,
    other: Seq<Option<Seq<char>>>,
    key: Seq<char>,
)
    ensures
        assigned_at(one + other, key) == match assigned_at(one, key) {
            Some(i) => Some(i),
            None => match assigned_at(other, key) {
                Some(i) => Some(one.len() + i),
                None => None,
            },
        },
        assigned_at(one, key) matches Some(i) ==> 0 <= i < one.len() && assigns(one[i], key),
    decreases one.len(),
{
    if one.len() == 0 {
        assert(one + other =~= other);
    } else {
        lemma_assigned_concat(one.skip(1), other, key);
        assert((one + other).skip(1) =~= one.skip(1) + other);
    }
}

/// Arguments that do not give `key` do not matter to how it is taken from those around them, and
/// stay where they are: what is left stands before and behind them.
proof fn lemma_taken_around(
    before: Seq<Option<Seq<char>>>,
    option: Seq<Option<Seq<char>>>,
    after: Seq<Option<Seq<char>>>,
    key: Seq<char>,
) -> (left: (Seq<Option<Seq<char>>>, Seq<Option<Seq<char>>>))
    requires
        harness_key(key),
        values_stand(before),
        without_option(option, key),
    ensures
        match option_taken(before + after, key) {
            Err(e) => option_taken(before + option + after, key) == Err::<
                (Option<Seq<char>>, Seq<Option<Seq<char>>>),
                TakeError,
            >(e),
            Ok((value, rest)) => {
                &&& rest == left.0 + left.1
                &&& option_taken(before + option + after, key) == Ok::<
                    (Option<Seq<char>>, Seq<Option<Seq<char>>>),
                    TakeError,
                >((value, left.0 + option + left.1))
            },
        },
        values_stand(left.0),
        forall|k: Seq<char>|
            without_option(before, k) ==> #[trigger] without_option(left.0, k),
        forall|k: Seq<char>| without_option(after, k) ==> #[trigger] without_option(left.1, k),
{
    let none = Seq::<Option<Seq<char>>>::empty();
    let short = before + after;
    let long = before + option + after;
    let n = before.len() as int;
    let m = option.len() as int;
    assert(long =~= before + (option + after));
    assert(after + none =~= after);
    lemma_exact_concat(before, after, key);
    lemma_exact_concat(before, option + after, key);
    lemma_exact_after(option, after, key);
    lemma_exact_concat(after, none, key);
    lemma_assigned_concat(before, after, key);
    lemma_assigned_concat(before, option + after, key);
    lemma_assigned_after(option, after, key);
    lemma_assigned_concat(after, none, key);
    match exact_at(before, key) {
        Some(i) => {
            assert(before[i] == Some(key) && harness_key(key));
            assert(i + 1 < n);
            let b = without(before, i, 2);
            lemma_still_without(before, i, 2);
            lemma_values_still_stand(before, i, 2, key);
            assert(short.take(i) + short.skip(i + 2) =~= b + after);
            assert(long.take(i) + long.skip(i + 2) =~= b + option + after);
            (b, after)
        },
        None => match exact_at(after, key) {
            Some(j) => if j + 1 < after.len() {
                let a = without(after, j, 2);
                lemma_still_without(after, j, 2);
                assert(short[n + j + 1] == after[j + 1]);
                assert(long[n + m + j + 1] == after[j + 1]);
                assert(short.take(n + j) + short.skip(n + j + 2) =~= before + a);
                assert(long.take(n + m + j) + long.skip(n + m + j + 2) =~= before + option + a);
                (before, a)
            } else {
                (before, after)
            },
            None => match assigned_at(before, key) {
                Some(i) => {
                    let b = without(before, i, 1);
                    lemma_still_without(before, i, 1);
                    lemma_values_still_stand(before, i, 1, key);
                    assert(short[i] == before[i] && long[i] == before[i]);
                    assert(short.take(i) + short.skip(i + 1) =~= b + after);
                    assert(long.take(i) + long.skip(i + 1) =~= b + option + after);
                    (b, after)
                },
                None => match assigned_at(after, key) {
                    Some(j) => {
                        let a = without(after, j, 1);
                        lemma_still_without(after, j, 1);
                        assert(short[n + j] == after[j] && long[n + m + j] == after[j]);
                        assert(short.take(n + j) + short.skip(n + j + 1) =~= before + a);
                        assert(long.take(n + m + j) + long.skip(n + m + j + 1) =~= before + option
                            + a);
                        (before, a)
                    },
                    None => (before, after),
                },
            },
        },
    }
}

/// The path of the configuration is the value of `--config`, where the other arguments say anything
/// at all; nothing else that they say changes.
pub proof fn lemma_config_counts(
    option: Seq<Option<Seq<char>>>,
    rest: Seq<Option<Seq<char>>>,
    value: Seq<char>,
)
    requires
        spelled(option, "--config"@, value),
        option.len() == 1 ==> value.len() > 0 && value[0] != '"' && value[0] != '\'',
        without_option(rest, "--config"@),
    ensures
        match (args_spec(option + rest), args_spec(rest)) {
            (Ok(given), Ok(plain)) => {
                &&& given.config == vstd::utf8::encode_utf8(value)
                &&& given.workers == plain.workers
                &&& given.backend == plain.backend
                &&& given.command == plain.command
            },
            (Err(one), Err(other)) => one == other,
            _ => false,
        },
{
    let none = Seq::<Option<Seq<char>>>::empty();
    lemma_spelled_taken(none, option, rest, "--config"@, value);
    assert(none + option + rest =~= option + rest);
    assert(none + rest =~= rest);
    lemma_option_not_given(rest, "--config"@);
}

/// The number of workers is the value of `--workers`, where the other arguments say anything at all;
/// nothing else that they say changes. A value that is no number is an error of its own.
pub proof fn lemma_workers_count(
    option: Seq<Option<Seq<char>>>,
    rest: Seq<Option<Seq<char>>>,
    value: Seq<char>,
)
    requires
        spelled(option, "--workers"@, value),
        option.len() == 1 ==> value.len() > 0 && value[0] != '"' && value[0] != '\'',
        without_option(rest, "--workers"@),
        without_option(option, "--config"@),
    ensures
        match (crate::text::unsigned_value(value, usize::MAX as nat), args_spec(rest)) {
            (Ok(n), Ok(plain)) => args_spec(option + rest) matches Ok(given) && {
                &&& given.config == plain.config
                &&& given.workers == n
                &&& given.backend == plain.backend
                &&& given.command == plain.command
            },
            (Ok(_), Err(e)) => args_spec(option + rest) == Err::<ArgsView, ArgsErrorView>(e),
            (Err(reason), _) => without_option(rest, "--config"@) ==> args_spec(option + rest)
                == Err::<ArgsView, ArgsErrorView>(ArgsErrorView::Number { value, reason }),
        },
{
    let none = Seq::<Option<Seq<char>>>::empty();
    assert(none + option + rest =~= option + rest);
    assert(none + rest =~= rest);
    assert(harness_key("--config"@));
    let (b, a) = lemma_taken_around(none, option, rest, "--config"@);
    if without_option(rest, "--config"@) {
        lemma_option_not_given(rest, "--config"@);
    }
    if option_taken(rest, "--config"@) is Ok {
        assert(without_option(none, "--workers"@));
        assert(without_option(b, "--workers"@) && without_option(a, "--workers"@));
        lemma_spelled_taken(b, option, a, "--workers"@, value);
        lemma_without_concat(b, a, "--workers"@);
        lemma_option_not_given(b + a, "--workers"@);
        crate::text::lemma_number_within(value, usize::MAX as nat);
    }
}

/// The backend is the one that `--backend` names, whatever the command is and where the other
/// arguments say anything at all; nothing else that they say changes. A name of no backend is an
/// error of its own.
pub proof fn lemma_backend_counts(
    option: Seq<Option<Seq<char>>>,
    rest: Seq<Option<Seq<char>>>,
    value: Seq<char>,
)
    requires
        spelled(option, "--backend"@, value),
        option.len() == 1 ==> value.len() > 0 && value[0] != '"' && value[0] != '\'',
        without_option(rest, "--backend"@),
        without_option(option, "--config"@),
        without_option(option, "--workers"@),
    ensures
        value == "local"@ || value == "firecracker"@ || value == "dummy"@ ==> match (
            args_spec(option + rest),
            args_spec(rest),
        ) {
            (Ok(given), Ok(plain)) => {
                &&& given.config == plain.config
                &&& given.workers == plain.workers
                &&& given.command == plain.command
                &&& value == "local"@ ==> given.backend == WorkerBackend::Local
                &&& value == "firecracker"@ ==> given.backend == WorkerBackend::Firecracker
                &&& value == "dummy"@ ==> given.backend == WorkerBackend::Dummy
            },
            (Err(one), Err(other)) => one == other,
            _ => false,
        },
        value != "local"@ && value != "firecracker"@ && value != "dummy"@ && without_option(
            rest,
            "--config"@,
        ) && without_option(rest, "--workers"@) ==> args_spec(option + rest) == Err::<
            ArgsView,
            ArgsErrorView,
        >(ArgsErrorView::Backend(value)),
{
    reveal_strlit("local");
    reveal_strlit("firecracker");
    reveal_strlit("dummy");
    assert("local"@.len() != "firecracker"@.len());
    assert("dummy"@.len() != "firecracker"@.len());
    assert("local"@[0] != "dummy"@[0]);
    let none = Seq::<Option<Seq<char>>>::empty();
    assert(none + option + rest =~= option + rest);
    assert(none + rest =~= rest);
    assert(harness_key("--config"@) && harness_key("--workers"@));
    let (b, a) = lemma_taken_around(none, option, rest, "--config"@);
    if without_option(rest, "--config"@) {
        lemma_option_not_given(rest, "--config"@);
    }
    if option_taken(rest, "--config"@) is Ok {
        assert(without_option(none, "--backend"@));
        assert(without_option(b, "--backend"@) && without_option(a, "--backend"@));
        let (c, d) = lemma_taken_around(b, option, a, "--workers"@);
        if without_option(rest, "--config"@) && without_option(rest, "--workers"@) {
            lemma_option_not_given(b + a, "--workers"@);
        }
        if option_taken(b + a, "--workers"@) is Ok {
            assert(without_option(c, "--backend"@) && without_option(d, "--backend"@));
            lemma_spelled_taken(c, option, d, "--backend"@, value);
            lemma_without_concat(c, d, "--backend"@);
            lemma_option_not_given(c + d, "--backend"@);
        }
    }
}

/// None of the options that the harness takes whatever the command is.
pub open spec fn no_harness_options(args: Seq<Option<Seq<char>>>) -> bool {
    &&& without_option(args, "--config"@)
    &&& without_option(args, "--workers"@)
    &&& without_option(args, "--backend"@)
}

/// What is not given is taken from `config.toml`, with one worker, in virtual machines.
pub proof fn lemma_defaults(args: Seq<Option<Seq<char>>>)
    requires
        no_harness_options(args),
    ensures
        args_spec(args) matches Ok(said) ==> said.config == vstd::utf8::encode_utf8(
            "config.toml"@,
        ) && said.workers == 1 && said.backend == WorkerBackend::Firecracker,
{
    lemma_option_not_given(args, "--config"@);
    lemma_option_not_given(args, "--workers"@);
    lemma_option_not_given(args, "--backend"@);
}

/// The first argument that is no option says what is to be done: it is an error where there is none,
/// or where it names no command, and the name is part of that error.
pub proof fn lemma_command_is_named(args: Seq<Option<Seq<char>>>)
    requires
        no_harness_options(args),
    ensures
        args.len() == 0 || args[0] is None ==> args_spec(args) == Err::<ArgsView, ArgsErrorView>(
            ArgsErrorView::MissingCommand,
        ),
        args.len() > 0 && args[0] == Some("build"@) ==> (args_spec(args) matches Ok(said)
            && said.command == CommandView::Build),
        args.len() > 0 && args[0] is Some && args[0] != Some("build"@) && args[0] != Some("debug"@)
            && args[0] != Some("bench"@) && args[0] != Some("expand-task"@) ==> args_spec(args)
            == Err::<ArgsView, ArgsErrorView>(ArgsErrorView::UnknownCommand(args[0]->0)),
{
    lemma_defaults(args);
    lemma_option_not_given(args, "--config"@);
    lemma_option_not_given(args, "--workers"@);
    lemma_option_not_given(args, "--backend"@);
}

/// `debug` and `expand-task` are told a name, and it is an error of their own where there is none.
pub proof fn lemma_name_is_told(args: Seq<Option<Seq<char>>>)
    requires
        no_harness_options(args),
        args.len() > 0,
        args[0] == Some("debug"@) || args[0] == Some("expand-task"@),
    ensures
        args.len() > 1 && args[1] is Some ==> (args_spec(args) matches Ok(said) && {
            &&& args[0] == Some("debug"@) ==> said.command == CommandView::Debug(args[1]->0)
            &&& args[0] == Some("expand-task"@) ==> said.command == CommandView::ExpandTask(
                args[1]->0,
            )
        }),
        args.len() == 1 || args[1] is None ==> args_spec(args) == Err::<ArgsView, ArgsErrorView>(
            if args[0] == Some("debug"@) {
                ArgsErrorView::MissingInstance
            } else {
                ArgsErrorView::MissingTask
            },
        ),
{
    reveal_strlit("build");
    reveal_strlit("debug");
    reveal_strlit("bench");
    reveal_strlit("expand-task");
    assert("debug"@[0] != "build"@[0] && "debug"@[0] != "bench"@[0]);
    assert("expand-task"@.len() != "build"@.len() && "expand-task"@.len() != "debug"@.len()
        && "expand-task"@.len() != "bench"@.len());
    lemma_option_not_given(args, "--config"@);
    lemma_option_not_given(args, "--workers"@);
    lemma_option_not_given(args, "--backend"@);
    if args.len() > 1 {
        assert(args.skip(1)[0] == args[1]);
    }
}

/// A benchmark without options is called `debug` and has one trial; the first argument behind the
/// command is its list of tasks, and it is an error where there is none.
pub proof fn lemma_bench_defaults(args: Seq<Option<Seq<char>>>)
    requires
        no_harness_options(args),
        args.len() > 0,
        args[0] == Some("bench"@),
        without_option(args, "--id"@),
        without_option(args, "--trials"@),
    ensures
        args.len() > 1 && args[1] is Some ==> (args_spec(args) matches Ok(said) && said.command == (
        CommandView::Bench { id: "debug"@, trials: 1, tasks: args[1]->0 })),
        args.len() == 1 || args[1] is None ==> args_spec(args) == Err::<ArgsView, ArgsErrorView>(
            ArgsErrorView::MissingTaskList,
        ),
{
    lemma_bench_rest(args);
    lemma_without_first(args, "--id"@);
    lemma_without_first(args, "--trials"@);
    lemma_option_not_given(args.skip(1), "--id"@);
    lemma_option_not_given(args.skip(1), "--trials"@);
    if args.len() > 1 {
        assert(args.skip(1)[0] == args[1]);
    }
}

/// What `bench` is told is told behind it.
proof fn lemma_bench_rest(args: Seq<Option<Seq<char>>>)
    requires
        no_harness_options(args),
        args.len() > 0,
        args[0] == Some("bench"@),
    ensures
        match (args_spec(args), bench_spec(args.skip(1))) {
            (Ok(said), Ok(command)) => said == (ArgsView {
                config: vstd::utf8::encode_utf8("config.toml"@),
                workers: 1,
                backend: WorkerBackend::Firecracker,
                command,
            }),
            (Err(one), Err(other)) => one == other,
            _ => false,
        },
{
    reveal_strlit("build");
    reveal_strlit("debug");
    reveal_strlit("bench");
    assert("bench"@[1] != "build"@[1] && "bench"@[0] != "debug"@[0]);
    lemma_option_not_given(args, "--config"@);
    lemma_option_not_given(args, "--workers"@);
    lemma_option_not_given(args, "--backend"@);
}

/// A benchmark goes by the value of `--id`, wherever it stands behind the command and where the
/// other arguments say anything at all; nothing else that they say changes.
pub proof fn lemma_id_counts(
    before: Seq<Option<Seq<char>>>,
    option: Seq<Option<Seq<char>>>,
    after: Seq<Option<Seq<char>>>,
    value: Seq<char>,
)
    requires
        spelled(option, "--id"@, value),
        option.len() == 1 ==> value.len() > 0 && value[0] != '"' && value[0] != '\'',
        without_option(before, "--id"@),
        without_option(after, "--id"@),
        no_harness_options(seq![Some("bench"@)] + before + option + after),
        no_harness_options(seq![Some("bench"@)] + before + after),
    ensures
        match (
            args_spec(seq![Some("bench"@)] + before + option + after),
            args_spec(seq![Some("bench"@)] + before + after),
        ) {
            (Ok(given), Ok(plain)) => {
                &&& given.config == plain.config
                &&& given.workers == plain.workers
                &&& given.backend == plain.backend
                &&& plain.command matches CommandView::Bench { trials, tasks, .. }
                    && given.command == (CommandView::Bench { id: value, trials, tasks })
            },
            (Err(one), Err(other)) => one == other,
            _ => false,
        },
{
    let long = seq![Some("bench"@)] + before + option + after;
    let short = seq![Some("bench"@)] + before + after;
    lemma_bench_rest(long);
    lemma_bench_rest(short);
    assert(long.skip(1) =~= before + option + after);
    assert(short.skip(1) =~= before + after);
    lemma_spelled_taken(before, option, after, "--id"@, value);
    lemma_without_concat(before, after, "--id"@);
    lemma_option_not_given(before + after, "--id"@);
}

/// A benchmark has as many trials as `--trials` says, wherever it stands behind the command and
/// where the other arguments say anything at all; nothing else that they say changes. A value that
/// is no number is an error of its own.
pub proof fn lemma_trials_count(
    before: Seq<Option<Seq<char>>>,
    option: Seq<Option<Seq<char>>>,
    after: Seq<Option<Seq<char>>>,
    value: Seq<char>,
)
    requires
        spelled(option, "--trials"@, value),
        option.len() == 1 ==> value.len() > 0 && value[0] != '"' && value[0] != '\'',
        without_option(before, "--trials"@),
        without_option(after, "--trials"@),
        without_option(before, "--id"@),
        without_option(option, "--id"@),
        without_option(after, "--id"@),
        no_harness_options(seq![Some("bench"@)] + before + option + after),
        no_harness_options(seq![Some("bench"@)] + before + after),
    ensures
        match (
            crate::text::unsigned_value(value, usize::MAX as nat),
            args_spec(seq![Some("bench"@)] + before + after),
        ) {
            (Ok(n), Ok(plain)) => args_spec(seq![Some("bench"@)] + before + option + after) matches Ok(
                given,
            ) && {
                &&& given.config == plain.config
                &&& given.workers == plain.workers
                &&& given.backend == plain.backend
                &&& plain.command matches CommandView::Bench { id, tasks, .. } && given.command == (
                CommandView::Bench { id, trials: n as usize, tasks })
            },
            (Ok(_), Err(e)) => args_spec(seq![Some("bench"@)] + before + option + after) == Err::<
                ArgsView,
                ArgsErrorView,
            >(e),
            (Err(reason), _) => args_spec(seq![Some("bench"@)] + before + option + after) == Err::<
                ArgsView,
                ArgsErrorView,
            >(ArgsErrorView::Number { value, reason }),
        },
        crate::text::unsigned_value(value, usize::MAX as nat) matches Ok(n) ==> n <= usize::MAX,
{
    let long = seq![Some("bench"@)] + before + option + after;
    let short = seq![Some("bench"@)] + before + after;
    lemma_bench_rest(long);
    lemma_bench_rest(short);
    assert(long.skip(1) =~= before + option + after);
    assert(short.skip(1) =~= before + after);
    lemma_without_concat(before, option, "--id"@);
    lemma_without_concat(before + option, after, "--id"@);
    lemma_without_concat(before, after, "--id"@);
    lemma_option_not_given(before + option + after, "--id"@);
    lemma_option_not_given(before + after, "--id"@);
    lemma_spelled_taken(before, option, after, "--trials"@, value);
    lemma_without_concat(before, after, "--trials"@);
    lemma_option_not_given(before + after, "--trials"@);
    crate::text::lemma_number_within(value, usize::MAX as nat);
}

/// An option of the harness that comes last, without a value, is an error that names it; and one
/// whose value is no text is an error too.
pub proof fn lemma_option_needs_value(
    before: Seq<Option<Seq<char>>>,
    after: Seq<Option<Seq<char>>>,
    key: Seq<char>,
)
    requires
        harness_key(key),
        no_harness_options(before),
        no_harness_options(after),
    ensures
        args_spec(before + seq![Some(key)]) == Err::<ArgsView, ArgsErrorView>(
            ArgsErrorView::WithoutValue(key),
        ),
        args_spec(before + seq![Some(key), None] + after) == Err::<ArgsView, ArgsErrorView>(
            ArgsErrorView::NonUtf8,
        ),
{
    reveal_strlit("--config");
    reveal_strlit("--workers");
    reveal_strlit("--backend");
    assert("--config"@.len() != "--workers"@.len());
    assert("--config"@.len() != "--backend"@.len());
    assert("--workers"@[2] != "--backend"@[2]);
    let last = seq![Some(key)];
    let bad = seq![Some(key), None::<Seq<char>>] + after;
    assert(before + seq![Some(key), None] + after =~= before + bad);
    lemma_exact_after(before, last, key);
    lemma_exact_after(before, bad, key);
    assert((before + bad)[before.len() as int + 1] is None);
    assert forall|other: Seq<char>| #[trigger] harness_key(other) && other != key implies
        without_option(before + last, other) && without_option(before + bad, other) by {
        assert(key[2] != other[2]);
        lemma_other_text(key, other, 2);
        assert forall|i: int| 0 <= i < last.len() implies (#[trigger] last[i]) != Some(other)
            && !assigns(last[i], other) by {}
        assert forall|i: int| 0 <= i < bad.len() implies (#[trigger] bad[i]) != Some(other)
            && !assigns(bad[i], other) by {
            if i >= 2 {
                assert(after[i - 2] != Some(other));
            }
        }
        assert(without_option(before, other));
        lemma_without_concat(before, last, other);
        lemma_without_concat(before, bad, other);
    }
    assert(harness_key("--config"@) && harness_key("--workers"@));
    if key != "--config"@ {
        lemma_option_not_given(before + last, "--config"@);
        lemma_option_not_given(before + bad, "--config"@);
        if key != "--workers"@ {
            lemma_option_not_given(before + last, "--workers"@);
            lemma_option_not_given(before + bad, "--workers"@);
        }
    }
}

/// What is said of refused arguments names what was refused.
pub proof fn lemma_refusals_name_the_cause(text: Seq<char>, reason: IntError)
    ensures
        args_error_text(ArgsErrorView::WithoutValue(text)) == "the '"@ + text
            + "' option doesn't have an associated value"@,
        args_error_text(ArgsErrorView::Number { value: text, reason }) == "failed to parse '"@ + text
            + "': "@ + crate::text::int_error_text(reason),
        args_error_text(ArgsErrorView::Backend(text)) == "failed to parse '"@ + text
            + "': Invalid worker backend: "@ + text,
        args_error_text(ArgsErrorView::UnknownCommand(text)) == "Unknown command: "@ + text,
        args_error_text(ArgsErrorView::NonUtf8) == "argument is not a UTF-8 string"@,
        args_error_text(ArgsErrorView::MissingCommand) == "missing COMMAND"@,
        args_error_text(ArgsErrorView::MissingInstance) == "expected instance name"@,
        args_error_text(ArgsErrorView::MissingTaskList) == "expected task list"@,
        args_error_text(ArgsErrorView::MissingTask) == "expected task name"@,
{
}

/// The usual call of a benchmark may name a backend, and that is the one that runs it.
pub proof fn lemma_bench_call_on_backend(
    workers: usize,
    backend: Seq<char>,
    id: Seq<char>,
    trials: usize,
    tasks: Seq<char>,
)
    requires
        backend == "local"@ || backend == "firecracker"@ || backend == "dummy"@,
        id.len() > 0,
        id[0] != '"' && id[0] != '\'',
        no_option(tasks),
    ensures
        args_spec(
            seq![
                Some("--workers="@ + crate::text::decimal(workers as nat)),
                Some("--backend="@ + backend),
                Some("bench"@),
                Some("--id="@ + id),
                Some("--trials="@ + crate::text::decimal(trials as nat)),
                Some(tasks),
            ],
        ) == Ok::<ArgsView, ArgsErrorView>(
            ArgsView {
                config: vstd::utf8::encode_utf8("config.toml"@),
                workers,
                backend: if backend == "local"@ {
                    WorkerBackend::Local
                } else if backend == "dummy"@ {
                    WorkerBackend::Dummy
                } else {
                    WorkerBackend::Firecracker
                },
                command: CommandView::Bench { id, trials, tasks },
            },
        ),
{
    reveal_strlit("--config");
    reveal_strlit("--workers");
    reveal_strlit("--workers=");
    reveal_strlit("--backend");
    reveal_strlit("--backend=");
    reveal_strlit("--id=");
    reveal_strlit("--trials=");
    reveal_strlit("bench");
    reveal_strlit("local");
    reveal_strlit("firecracker");
    reveal_strlit("dummy");
    assert("local"@[0] == 'l' && "firecracker"@[0] == 'f' && "dummy"@[0] == 'd');
    let workers_arg = "--workers="@ + crate::text::decimal(workers as nat);
    let backend_arg = "--backend="@ + backend;
    let id_arg = "--id="@ + id;
    let trials_arg = "--trials="@ + crate::text::decimal(trials as nat);
    let before = seq![Some(workers_arg)];
    let option = seq![Some(backend_arg)];
    let after = seq![Some("bench"@), Some(id_arg), Some(trials_arg), Some(tasks)];
    assert("--backend"@ + seq!['='] + backend =~= backend_arg);
    lemma_other_text(backend_arg, "--config"@, 2);
    lemma_other_text(backend_arg, "--workers"@, 2);
    lemma_other_text(workers_arg, "--backend"@, 2);
    lemma_other_text(workers_arg, "--config"@, 2);
    lemma_other_text("bench"@, "--backend"@, 0);
    lemma_other_text(id_arg, "--backend"@, 2);
    lemma_other_text(trials_arg, "--backend"@, 2);
    assert(!assigns(Some(tasks), "--backend"@));
    assert(workers_arg[9] == '=');
    assert(values_stand(before)) by {
        assert forall|i: int, key: Seq<char>|
            #![trigger before[i], harness_key(key)]
            0 <= i < before.len() && harness_key(key) && before[i] == Some(key) implies i + 1
            < before.len() && no_harness_option(before[i + 1]) by {
            assert(workers_arg.len() > "--workers"@.len());
        }
    }
    lemma_harness_option_anywhere(before, option, after, "--backend"@, backend);
    lemma_without_concat(before, after, "--backend"@);
    assert(option + before + after =~= option + (before + after));
    lemma_backend_counts(option, before + after, backend);
    lemma_bench_call(workers, id, trials, tasks);
    assert(before + after =~= seq![
        Some(workers_arg),
        Some("bench"@),
        Some(id_arg),
        Some(trials_arg),
        Some(tasks),
    ]);
    assert(before + option + after =~= seq![
        Some(workers_arg),
        Some(backend_arg),
        Some("bench"@),
        Some(id_arg),
        Some(trials_arg),
        Some(tasks),
    ]);
}

/// An option of `bench` that comes last, without a value, is an error that names it; and one whose
/// value is no text is an error too.
pub proof fn lemma_bench_option_needs_value(
    before: Seq<Option<Seq<char>>>,
    after: Seq<Option<Seq<char>>>,
    key: Seq<char>,
)
    requires
        key == "--id"@ || key == "--trials"@,
        without_option(before, "--id"@),
        without_option(before, "--trials"@),
        without_option(after, "--id"@),
        without_option(after, "--trials"@),
        no_harness_options(before),
        no_harness_options(after),
    ensures
        args_spec(seq![Some("bench"@)] + before + seq![Some(key)]) == Err::<
            ArgsView,
            ArgsErrorView,
        >(ArgsErrorView::WithoutValue(key)),
        args_spec(seq![Some("bench"@)] + before + seq![Some(key), None] + after) == Err::<
            ArgsView,
            ArgsErrorView,
        >(ArgsErrorView::NonUtf8),
{
    reveal_strlit("--config");
    reveal_strlit("--workers");
    reveal_strlit("--backend");
    reveal_strlit("--id");
    reveal_strlit("--trials");
    reveal_strlit("bench");
    let head = seq![Some("bench"@)];
    let last = seq![Some(key)];
    let bad = seq![Some(key), None::<Seq<char>>] + after;
    let one = head + before + last;
    let other = head + before + seq![Some(key), None] + after;
    assert(other =~= head + before + bad);
    assert(one.skip(1) =~= before + last);
    assert(other.skip(1) =~= before + bad);
    assert(key[2] == 'i' || key[2] == 't');
    assert("--config"@[2] == 'c' && "--workers"@[2] == 'w' && "--backend"@[2] == 'b');
    assert forall|k: Seq<char>|
        k == "--config"@ || k == "--workers"@ || k == "--backend"@ implies #[trigger] without_option(
        one,
        k,
    ) && without_option(other, k) by {
        lemma_other_text("bench"@, k, 0);
        lemma_other_text(key, k, 2);
        assert(without_option(head, k));
        assert(without_option(last, k));
        lemma_key_then_none(key, after, k);
        lemma_without_concat(head, before, k);
        lemma_without_concat(head + before, last, k);
        lemma_without_concat(head + before, bad, k);
    }
    assert(without_option(one, "--config"@) && without_option(one, "--workers"@) && without_option(
        one,
        "--backend"@,
    ));
    lemma_bench_rest(one);
    lemma_bench_rest(other);
    lemma_exact_after(before, last, key);
    lemma_exact_after(before, bad, key);
    assert((before + bad)[before.len() as int + 1] is None);
    if key == "--trials"@ {
        lemma_other_text(key, "--id"@, 2);
        assert(without_option(last, "--id"@));
        lemma_key_then_none(key, after, "--id"@);
        lemma_without_concat(before, last, "--id"@);
        lemma_without_concat(before, bad, "--id"@);
        lemma_option_not_given(before + last, "--id"@);
        lemma_option_not_given(before + bad, "--id"@);
    }
}

proof fn lemma_key_then_none(key: Seq<char>, after: Seq<Option<Seq<char>>>, other: Seq<char>)
    requires
        Some(key) != Some(other),
        !assigns(Some(key), other),
        without_option(after, other),
    ensures
        without_option(seq![Some(key), None::<Seq<char>>] + after, other),
{
    let bad = seq![Some(key), None::<Seq<char>>] + after;
    assert forall|i: int| 0 <= i < bad.len() implies (#[trigger] bad[i]) != Some(other) && !assigns(
        bad[i],
        other,
    ) by {
        if i >= 2 {
            assert(after[i - 2] != Some(other));
        }
    }
}

} // verus!
