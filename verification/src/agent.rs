//! What an agent is asked to do: the commands that it runs and how they end.

use vstd::prelude::*;
use vstd::utf8::*;

use crate::paths::UnixPath;
use crate::text::{copy_bytes, utf8_bytes};

verus! {

/// The bytes of a list of byte strings.
pub open spec fn byte_strings(list: Seq<Vec<u8>>) -> Seq<Seq<u8>> {
    list.map_values(|s: Vec<u8>| s@)
}

/// Where a standard stream of a command leads.
#[derive(Debug)]
pub enum Stdio {
    /// Nowhere.
    Null,
    /// To the stream of the agent.
    Inherit,
    /// To the one who asked for the command.
    Capture,
    /// To a file.
    File(UnixPath),
}

/// A [`Stdio`] over the bytes of its path.
pub enum StdioView {
    Null,
    Inherit,
    Capture,
    File(Seq<u8>),
}

impl View for Stdio {
    type V = StdioView;

    open spec fn view(&self) -> StdioView {
        match self {
            Stdio::Null => StdioView::Null,
            Stdio::Inherit => StdioView::Inherit,
            Stdio::Capture => StdioView::Capture,
            Stdio::File(path) => StdioView::File(path@),
        }
    }
}

impl Clone for Stdio {
    fn clone(&self) -> (copy: Self)
        ensures
            copy@ == self@,
    {
        match self {
            Stdio::Null => Stdio::Null,
            Stdio::Inherit => Stdio::Inherit,
            Stdio::Capture => Stdio::Capture,
            Stdio::File(path) => Stdio::File(path.clone()),
        }
    }
}

/// A command that an agent runs.
#[derive(Debug)]
pub struct RunCommand {
    pub program: Vec<u8>,
    pub args: Vec<Vec<u8>>,
    pub stdin: Stdio,
    pub stdout: Stdio,
    pub stderr: Stdio,
}

/// A [`RunCommand`] over its bytes.
#[verifier::ext_equal]
pub struct RunCommandView {
    pub program: Seq<u8>,
    pub args: Seq<Seq<u8>>,
    pub stdin: StdioView,
    pub stdout: StdioView,
    pub stderr: StdioView,
}

impl View for RunCommand {
    type V = RunCommandView;

    open spec fn view(&self) -> RunCommandView {
        RunCommandView {
            program: self.program@,
            args: byte_strings(self.args@),
            stdin: self.stdin@,
            stdout: self.stdout@,
            stderr: self.stderr@,
        }
    }
}

/// A copy of a list of byte strings.
pub fn copy_byte_strings(list: &Vec<Vec<u8>>) -> (copy: Vec<Vec<u8>>)
    ensures
        byte_strings(copy@) == byte_strings(list@),
{
    let mut copy: Vec<Vec<u8>> = Vec::new();
    for i in 0..list.len()
        invariant
            byte_strings(copy@) == byte_strings(list@).take(i as int),
            copy@.len() == i,
    {
        copy.push(copy_bytes(&list[i]));
        assert(byte_strings(copy@) =~= byte_strings(list@).take(i + 1));
    }
    assert(byte_strings(list@).take(list@.len() as int) =~= byte_strings(list@));
    copy
}

impl Clone for RunCommand {
    fn clone(&self) -> (copy: Self)
        ensures
            copy@ == self@,
    {
        RunCommand {
            program: copy_bytes(&self.program),
            args: copy_byte_strings(&self.args),
            stdin: self.stdin.clone(),
            stdout: self.stdout.clone(),
            stderr: self.stderr.clone(),
        }
    }
}

impl RunCommand {
    /// `program`, without arguments and with every stream captured.
    pub fn new(program: &str) -> (command: RunCommand)
        ensures
            command@ == (RunCommandView {
                program: encode_utf8(program@),
                args: Seq::empty(),
                stdin: StdioView::Capture,
                stdout: StdioView::Capture,
                stderr: StdioView::Capture,
            }),
    {
        let command = RunCommand {
            program: utf8_bytes(program),
            args: Vec::new(),
            stdin: Stdio::Capture,
            stdout: Stdio::Capture,
            stderr: Stdio::Capture,
        };
        assert(command@.args =~= Seq::<Seq<u8>>::empty());
        command
    }
}

/// How a command ended.
#[derive(Debug, Clone, Copy, PartialEq, Eq, Structural)]
pub enum ExitKind {
    /// It crashed.
    Crash,
    /// It ended in any other way.
    Other,
}

} // verus!
