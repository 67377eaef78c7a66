//! A shell in a virtual machine.

use vstd::prelude::*;
use vstd::utf8::*;

use crate::agent::{RunCommand, RunCommandView, Stdio, StdioView};
use crate::text::{copy_bytes, utf8_bytes};

verus! {

/// The name of the directory that the virtual machine works in.
pub const DEBUG_VM: &'static str = "vm-debug-data";

/// What the agent in the virtual machine is asked.
#[derive(Debug)]
pub enum DebugRequest {
    /// To feed its kernel with entropy.
    AddEntropy(Vec<u8>),
    /// To start a command.
    Spawn(RunCommand),
}

/// A [`DebugRequest`] over its bytes.
pub enum DebugRequestView {
    AddEntropy(Seq<u8>),
    Spawn(RunCommandView),
}

impl View for DebugRequest {
    type V = DebugRequestView;

    open spec fn view(&self) -> DebugRequestView {
        match self {
            DebugRequest::AddEntropy(entropy) => DebugRequestView::AddEntropy(entropy@),
            DebugRequest::Spawn(command) => DebugRequestView::Spawn(command@),
        }
    }
}

/// An interactive shell on the streams of the agent.
pub open spec fn shell_spec() -> RunCommandView {
    RunCommandView {
        program: encode_utf8("/bin/bash"@),
        args: seq![encode_utf8("-i"@)],
        stdin: StdioView::Inherit,
        stdout: StdioView::Inherit,
        stderr: StdioView::Inherit,
    }
}

/// What the agent is asked, in order: to take the entropy where there is some, and then to start a
/// shell.
pub open spec fn debug_requests(entropy: Option<Seq<u8>>) -> Seq<DebugRequestView> {
    match entropy {
        Some(bytes) => seq![
            DebugRequestView::AddEntropy(bytes),
            DebugRequestView::Spawn(shell_spec()),
        ],
        None => seq![DebugRequestView::Spawn(shell_spec())],
    }
}

/// What the agent of a virtual machine is asked, in order, so that there is a shell in it.
pub fn spawn_debug_vm(kernel_entropy: &Option<Vec<u8>>) -> (requests: Vec<DebugRequest>)
    ensures
        requests@.map_values(|r: DebugRequest| r@) == debug_requests(
            crate::instances::entropy_view(*kernel_entropy),
        ),
{
    let mut requests: Vec<DebugRequest> = Vec::new();
    if let Some(entropy) = kernel_entropy {
        requests.push(DebugRequest::AddEntropy(copy_bytes(entropy)));
    }
    let mut command = RunCommand::new("/bin/bash");
    command.args.push(utf8_bytes("-i"));
    command.stdin = Stdio::Inherit;
    command.stdout = Stdio::Inherit;
    command.stderr = Stdio::Inherit;
    assert(command@ =~= shell_spec());
    requests.push(DebugRequest::Spawn(command));
    assert(requests@.map_values(|r: DebugRequest| r@) =~= debug_requests(
        crate::instances::entropy_view(*kernel_entropy),
    ));
    requests
}

/// The last thing that the agent is asked is to start an interactive shell on its own streams, and
/// nothing stands before that but the entropy, where there is some.
pub proof fn lemma_shell_comes_last(entropy: Seq<u8>)
    ensures
        debug_requests(None) == seq![
            DebugRequestView::Spawn(
                RunCommandView {
                    program: encode_utf8("/bin/bash"@),
                    args: seq![encode_utf8("-i"@)],
                    stdin: StdioView::Inherit,
                    stdout: StdioView::Inherit,
                    stderr: StdioView::Inherit,
                },
            ),
        ],
        debug_requests(Some(entropy)) == seq![DebugRequestView::AddEntropy(entropy)]
            + debug_requests(None),
{
    assert(debug_requests(Some(entropy)) =~= seq![DebugRequestView::AddEntropy(entropy)]
        + debug_requests(None));
}

} // verus!
