//! Commands of the host's shell, and how they end.

use vstd::prelude::*;
use vstd::string::*;
use vstd::utf8::*;

use crate::text::{string_from_utf8, string_from_utf8_lossy, utf8_bytes};

verus! {

/// A command of the host's shell: a program and its arguments.
#[derive(Debug)]
pub struct ShellCommand {
    pub program: String,
    pub args: Vec<Vec<u8>>,
}

/// A [`ShellCommand`] over its characters and bytes.
#[verifier::ext_equal]
pub struct ShellCommandView {
    pub program: Seq<char>,
    pub args: Seq<Seq<u8>>,
}

impl View for ShellCommand {
    type V = ShellCommandView;

    open spec fn view(&self) -> ShellCommandView {
        ShellCommandView {
            program: self.program@,
            args: crate::agent::byte_strings(self.args@),
        }
    }
}

impl ShellCommand {
    /// `program`, without arguments.
    pub fn new(program: &str) -> (command: ShellCommand)
        ensures
            command@ == (ShellCommandView { program: program@, args: Seq::empty() }),
    {
        let command = ShellCommand { program: program.to_string(), args: Vec::new() };
        assert(command@.args =~= Seq::<Seq<u8>>::empty());
        command
    }

    /// Adds an argument.
    pub fn arg(self, text: &str) -> (command: ShellCommand)
        ensures
            command@ == (ShellCommandView {
                program: self@.program,
                args: self@.args.push(encode_utf8(text@)),
            }),
    {
        self.arg_bytes(utf8_bytes(text))
    }

    /// Adds an argument.
    pub fn arg_bytes(self, bytes: Vec<u8>) -> (command: ShellCommand)
        ensures
            command@ == (ShellCommandView {
                program: self@.program,
                args: self@.args.push(bytes@),
            }),
    {
        let ghost before = self@;
        let mut command = self;
        command.args.push(bytes);
        assert(command@.args =~= before.args.push(bytes@));
        command
    }
}

/// How a command ended: whether it succeeded, and what it wrote.
#[derive(Debug)]
pub struct CmdOutput {
    pub success: bool,
    pub stdout: Vec<u8>,
    pub stderr: Vec<u8>,
}

/// A command on its way: what it is shown as, whether it is shown, and how it ended.
#[derive(Debug)]
pub struct ShellRun {
    /// What the command is shown as.
    pub line: String,
    /// Whether the command is run without being shown.
    pub quiet: bool,
    /// How the command ended; nothing before it is run, or where it cannot be run.
    pub output: Option<CmdOutput>,
}

/// Why the output of a command cannot be had.
#[derive(Debug)]
pub enum CommandError {
    /// The command was not run.
    NotRun,
    /// The command failed: what it is shown as, and what it wrote to standard error.
    Failed { line: String, stderr: String },
    /// What the command wrote is not UTF-8.
    NonUtf8(std::string::FromUtf8Error),
}

/// A [`CommandError`] over its characters.
pub enum CommandErrorView {
    NotRun,
    Failed { line: Seq<char>, stderr: Seq<char> },
    NonUtf8,
}

impl View for CommandError {
    type V = CommandErrorView;

    open spec fn view(&self) -> CommandErrorView {
        match self {
            CommandError::NotRun => CommandErrorView::NotRun,
            CommandError::Failed { line, stderr } => CommandErrorView::Failed {
                line: line@,
                stderr: stderr@,
            },
            CommandError::NonUtf8(_) => CommandErrorView::NonUtf8,
        }
    }
}

impl CommandError {
    /// What is said of a command that failed. On one that cannot be run the shell speaks, and on
    /// output that is not UTF-8 the decoder.
    pub fn message(&self) -> (text: Option<String>)
        ensures
            match (self@, text) {
                (CommandErrorView::Failed { line, stderr }, Some(t)) => t@ == "`"@ + line
                    + "` failed with "@ + stderr,
                (CommandErrorView::Failed { .. }, None) => false,
                (_, Some(_)) => false,
                (_, None) => true,
            },
    {
        match self {
            CommandError::Failed { line, stderr } => {
                let mut text = "`".to_string();
                text.append(line.as_str());
                text.append("` failed with ");
                text.append(stderr.as_str());
                Some(text)
            },
            _ => None,
        }
    }
}

/// What the harness asks of a command beyond running it.
pub trait XShellExt: Sized {
    /// What the command wrote to standard output, where it succeeded; what it wrote to standard
    /// error is part of the error.
    fn read_with_err(self) -> Result<String, CommandError>;

    /// Has the command shown.
    fn trace_cmd(self) -> Self;
}

/// What comes back from a command that is shown as `line` and ended so.
pub open spec fn output_text(line: Seq<char>, output: Option<CmdOutput>) -> Result<
    Seq<char>,
    CommandErrorView,
> {
    match output {
        None => Err(CommandErrorView::NotRun),
        Some(end) => if !end.success {
            Err(
                CommandErrorView::Failed { line, stderr: crate::text::utf8_lossy(end.stderr@) },
            )
        } else if valid_utf8(end.stdout@) {
            Ok(decode_utf8(end.stdout@))
        } else {
            Err(CommandErrorView::NonUtf8)
        },
    }
}

impl ShellRun {
    /// A command that is not run yet, and not shown.
    pub fn new(line: String) -> (run: ShellRun)
        ensures
            run.line == line,
            run.quiet,
            run.output is None,
    {
        ShellRun { line, quiet: true, output: None }
    }

    /// What is shown before the command is run, if anything is.
    pub fn shown(&self) -> (text: Option<String>)
        ensures
            match text {
                Some(t) => !self.quiet && t@ == "$ "@ + self.line@,
                None => self.quiet,
            },
    {
        if self.quiet {
            None
        } else {
            let mut text = "$ ".to_string();
            text.append(self.line.as_str());
            Some(text)
        }
    }
}

impl XShellExt for ShellRun {
    fn read_with_err(self) -> (text: Result<String, CommandError>)
        ensures
            match text {
                Ok(t) => output_text(self.line@, self.output) == Ok::<
                    Seq<char>,
                    CommandErrorView,
                >(t@),
                Err(e) => output_text(self.line@, self.output) == Err::<
                    Seq<char>,
                    CommandErrorView,
                >(e@),
            },
    {
        match self.output {
            None => Err(CommandError::NotRun),
            Some(end) => if end.success {
                match string_from_utf8(end.stdout) {
                    Ok(text) => Ok(text),
                    Err(e) => Err(CommandError::NonUtf8(e)),
                }
            } else {
                let stderr = string_from_utf8_lossy(end.stderr.as_slice());
                Err(CommandError::Failed { line: self.line, stderr })
            },
        }
    }

    fn trace_cmd(self) -> (run: Self)
        ensures
            !run.quiet,
            run.line == self.line,
            run.output == self.output,
    {
        ShellRun { line: self.line, quiet: false, output: self.output }
    }
}

/// What a command writes comes back as it was written where the command succeeded, whatever it
/// wrote to standard error.
pub proof fn lemma_written_comes_back(line: Seq<char>, text: Seq<char>, output: CmdOutput)
    requires
        output.success,
        output.stdout@ == encode_utf8(text),
    ensures
        output_text(line, Some(output)) == Ok::<Seq<char>, CommandErrorView>(text),
{
    encode_utf8_valid_utf8(text);
    encode_utf8_decode_utf8(text);
}

/// A command that failed gives what it is shown as and what it wrote to standard error, whatever it
/// wrote to standard output; and one that was not run gives neither.
pub proof fn lemma_failure_is_told(line: Seq<char>, output: CmdOutput)
    ensures
        !output.success ==> output_text(line, Some(output)) == Err::<Seq<char>, CommandErrorView>(
            CommandErrorView::Failed { line, stderr: crate::text::utf8_lossy(output.stderr@) },
        ),
        output.success && !valid_utf8(output.stdout@) ==> output_text(line, Some(output)) == Err::<
            Seq<char>,
            CommandErrorView,
        >(CommandErrorView::NonUtf8),
        output_text(line, None) == Err::<Seq<char>, CommandErrorView>(CommandErrorView::NotRun),
{
}

} // verus!
