//! Running one input of the fuzzer through the target.

use std::collections::BTreeSet;

use vstd::prelude::*;
use vstd::utf8::*;

use crate::agent::{RunCommand, RunCommandView, Stdio, StdioView};
use crate::lava::report::find_lava_bugs;
use crate::paths::UnixPath;
use crate::text::{same_bytes, utf8_bytes};

verus! {

/// The argument that stands for the path of the input.
pub const INPUT_MARKER: &'static str = "@@";

/// An input of the fuzzer.
#[derive(Debug)]
pub struct DirEntry {
    pub path: UnixPath,
    /// When the input was made, in time since the fuzzer started.
    pub time: u64,
}

/// A [`DirEntry`] over the bytes of its path.
pub struct DirEntryView {
    pub path: Seq<u8>,
    pub time: u64,
}

impl View for DirEntry {
    type V = DirEntryView;

    open spec fn view(&self) -> DirEntryView {
        DirEntryView { path: self.path@, time: self.time }
    }
}

impl Clone for DirEntry {
    fn clone(&self) -> (copy: Self)
        ensures
            copy@ == self@,
    {
        DirEntry { path: self.path.clone(), time: self.time }
    }
}

/// Runs inputs through a command and reads which bugs they trigger.
pub struct LavaVerifier {
    pub command: RunCommand,
    /// The argument that the path of the input is put into.
    pub input_index: Option<usize>,
}

/// `command`, run on the input at `path`: the path is put into the argument at `index` and the
/// input is read from standard input.
pub open spec fn on_input(
    command: RunCommandView,
    index: Option<usize>,
    path: Seq<u8>,
) -> RunCommandView {
    RunCommandView {
        args: match index {
            Some(i) => command.args.update(i as int, path),
            None => command.args,
        },
        stdin: StdioView::File(path),
        ..command
    }
}

impl LavaVerifier {
    /// Prepares to run inputs through `command`.
    pub fn new(command: RunCommand) -> (verifier: LavaVerifier)
        ensures
            verifier.command@ == command@,
            match verifier.input_index {
                Some(i) => command@.args.index_of_first(encode_utf8(INPUT_MARKER@)) == Some(
                    i as int,
                ),
                None => command@.args.index_of_first(encode_utf8(INPUT_MARKER@)) is None,
            },
            verifier.wf(),
    {
        let marker = utf8_bytes(INPUT_MARKER);
        let mut index: usize = 0;
        while index < command.args.len()
            invariant
                index <= command@.args.len(),
                command@.args.len() == command.args@.len(),
                marker@ == encode_utf8(INPUT_MARKER@),
                forall|j: int| 0 <= j < index ==> #[trigger] command@.args[j] != marker@,
            decreases command.args@.len() - index,
        {
            assert(command@.args[index as int] == command.args@[index as int]@);
            if same_bytes(command.args[index].as_slice(), marker.as_slice()) {
                proof {
                    command@.args.index_of_first_ensures(marker@);
                }
                return LavaVerifier { command, input_index: Some(index) };
            }
            index += 1;
        }
        proof {
            command@.args.index_of_first_ensures(marker@);
        }
        LavaVerifier { command, input_index: None }
    }

    /// The place of the input is one of the command's arguments.
    pub open spec fn wf(&self) -> bool {
        self.input_index matches Some(i) ==> i < self.command@.args.len()
    }

    /// The command that runs `input`.
    pub fn check_one(&mut self, input: &DirEntry) -> (command: RunCommand)
        requires
            old(self).wf(),
        ensures
            final(self).wf(),
            final(self).input_index == old(self).input_index,
            command@ == on_input(old(self).command@, old(self).input_index, input@.path),
            command@.program == old(self).command@.program,
            command@.stdout == old(self).command@.stdout,
            command@.stderr == old(self).command@.stderr,
            command@.stdin == StdioView::File(input@.path),
            final(self).command@ == command@,
    {
        let ghost before = self.command@;
        if let Some(index) = self.input_index {
            let path = input.path.clone();
            self.command.args.set(index, path.bytes);
            assert(self.command@.args =~= before.args.update(index as int, input@.path));
        }
        self.command.stdin = Stdio::File(input.path.clone());
        self.command.clone()
    }

    /// The bugs that a run reports, on either of its outputs.
    pub fn found_bugs(&self, stdout: &[u8], stderr: &[u8]) -> (bugs: BTreeSet<u64>)
        requires
            crate::lava::report::ids_fit(stdout@),
            crate::lava::report::ids_fit(stderr@),
        ensures
            bugs@ == crate::lava::report::run_ids(stdout@, stderr@),
    {
        let mut bugs: BTreeSet<u64> = BTreeSet::new();
        find_lava_bugs(stdout, &mut bugs);
        find_lava_bugs(stderr, &mut bugs);
        assert(bugs@ =~= crate::lava::report::run_ids(stdout@, stderr@));
        bugs
    }
}

} // verus!
