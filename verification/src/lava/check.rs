//! Checking every crash that a fuzzer found, with retries for those that do not reproduce.

use std::collections::BTreeMap;

use vstd::prelude::*;
use vstd::string::*;
use vstd::utf8::*;

use crate::agent::{ExitKind, RunCommand, RunCommandView};
use crate::lava::runner::{DirEntry, DirEntryView, LavaVerifier, INPUT_MARKER};
use crate::paths::UnixPath;
use crate::text::string_from_utf8;

verus! {

broadcast use vstd::laws_cmp::group_laws_cmp;

/// How often an input that crashes without a report is run.
pub const MAX_ATTEMPTS: usize = 10;

/// What was found out about a bug.
#[derive(Debug)]
pub struct CheckStatus {
    /// The name of the file that was checked.
    pub name: String,
    /// The time that the file was generated at.
    pub time: u64,
    /// How the input exited when it was run by the host.
    pub exit: ExitKind,
}

/// A [`CheckStatus`] over the characters of its name.
pub struct CheckStatusView {
    pub name: Seq<char>,
    pub time: u64,
    pub exit: ExitKind,
}

impl View for CheckStatus {
    type V = CheckStatusView;

    open spec fn view(&self) -> CheckStatusView {
        CheckStatusView { name: self.name@, time: self.time, exit: self.exit }
    }
}

impl Clone for CheckStatus {
    fn clone(&self) -> (copy: Self)
        ensures
            copy == *self,
    {
        CheckStatus { name: self.name.clone(), time: self.time, exit: self.exit }
    }
}

/// The name that the input at `path` goes by.
pub open spec fn input_name(path: Seq<u8>) -> Seq<char> {
    match crate::paths::last_name(path) {
        Some(name) => if valid_utf8(name) {
            decode_utf8(name)
        } else {
            "unknown"@
        },
        None => "unknown"@,
    }
}

fn name_of(path: &UnixPath) -> (name: String)
    ensures
        name@ == input_name(path@),
{
    match path.file_name() {
        Some(bytes) => match string_from_utf8(bytes) {
            Ok(name) => name,
            Err(_) => "unknown".to_string(),
        },
        None => "unknown".to_string(),
    }
}

/// What a run of `entry` that ended with `exit` says about a bug that it triggers.
pub open spec fn status_of(entry: DirEntryView, exit: ExitKind) -> CheckStatusView {
    CheckStatusView { name: input_name(entry.path), time: entry.time, exit }
}

/// How running one input came out.
pub enum Outcome {
    /// It could not be run.
    Failed,
    /// It ended with `exit` and reported the bugs `ids`.
    Ran { exit: ExitKind, ids: Set<u64> },
}

/// How far the check has come.
#[verifier::ext_equal]
pub struct CheckState {
    /// The round, from zero.
    pub round: nat,
    /// What is still to be run in this round.
    pub queue: Seq<DirEntryView>,
    /// What is to be run again in the next round.
    pub retry: Seq<DirEntryView>,
    /// What was found out about each bug.
    pub bugs: Map<u64, CheckStatusView>,
}

/// `bugs` with what one run says about the bugs `ids`: of two runs the earlier input counts.
pub open spec fn with_found(
    bugs: Map<u64, CheckStatusView>,
    ids: Set<u64>,
    status: CheckStatusView,
) -> Map<u64, CheckStatusView> {
    Map::new(
        |id: u64| bugs.contains_key(id) || ids.contains(id),
        |id: u64|
            if ids.contains(id) && (!bugs.contains_key(id) || bugs[id].time > status.time) {
                status
            } else {
                bugs[id]
            },
    )
}

/// Finding several bugs is finding one after another.
proof fn lemma_found_one(
    bugs: Map<u64, CheckStatusView>,
    ids: Set<u64>,
    id: u64,
    status: CheckStatusView,
)
    ensures
        with_found(bugs, ids.insert(id), status) == {
            let known = with_found(bugs, ids, status);
            if !known.contains_key(id) || known[id].time > status.time {
                known.insert(id, status)
            } else {
                known
            }
        },
{
    let known = with_found(bugs, ids, status);
    let all = with_found(bugs, ids.insert(id), status);
    if !known.contains_key(id) || known[id].time > status.time {
        assert(all =~= known.insert(id, status));
    } else {
        assert(all =~= known);
    }
}

/// The check before its first run.
pub open spec fn check_start(crashes: Seq<DirEntryView>) -> CheckState {
    CheckState { round: 0, queue: crashes, retry: Seq::empty(), bugs: Map::empty() }
}

/// Goes on to the next round where this one is done and something is to be run again.
pub open spec fn next_round(state: CheckState) -> CheckState {
    if state.queue.len() == 0 && state.retry.len() > 0 {
        CheckState {
            round: state.round + 1,
            queue: state.retry,
            retry: Seq::empty(),
            bugs: state.bugs,
        }
    } else {
        state
    }
}

/// The check after the first input of its queue was run. A crash without a report may be
/// non-deterministic, so it is tried again, as long as there are attempts left.
pub open spec fn check_step(state: CheckState, outcome: Outcome) -> CheckState {
    let entry = state.queue[0];
    let rest = CheckState { queue: state.queue.skip(1), ..state };
    next_round(
        match outcome {
            Outcome::Failed => rest,
            Outcome::Ran { exit, ids } => if !ids.is_empty() {
                CheckState { bugs: with_found(state.bugs, ids, status_of(entry, exit)), ..rest }
            } else if exit is Crash && state.round + 1 < MAX_ATTEMPTS {
                CheckState { retry: state.retry.push(entry), ..rest }
            } else {
                rest
            },
        },
    )
}

/// Whether nothing is left to be run.
pub open spec fn check_done(state: CheckState) -> bool {
    state.queue.len() == 0
}

/// Rounds are counted up to the number of attempts, and nothing waits behind an empty queue.
pub open spec fn check_wf(state: CheckState) -> bool {
    &&& state.round < MAX_ATTEMPTS
    &&& state.retry.len() > 0 ==> state.round + 1 < MAX_ATTEMPTS && state.queue.len() > 0
}

/// `command`, run on the input at `path`: the path is put in the place of the first marker among
/// the arguments, and the input is read from standard input.
pub open spec fn input_command(command: RunCommandView, path: Seq<u8>) -> RunCommandView {
    crate::lava::runner::on_input(
        command,
        match command.args.index_of_first(encode_utf8(INPUT_MARKER@)) {
            Some(i) => Some(i as usize),
            None => None,
        },
        path,
    )
}

/// What the check asks for.
pub enum CheckAction {
    /// Run this command, and say how it came out.
    Run(RunCommand),
    /// Nothing: everything is checked.
    Finished,
    /// Nothing: a stop was asked for.
    Stopped,
}

/// A check of the crashes that a fuzzer found.
pub struct LavaCheck {
    verifier: LavaVerifier,
    round: usize,
    queue: Vec<DirEntry>,
    next: usize,
    retry: Vec<DirEntry>,
    bugs: BTreeMap<u64, CheckStatus>,
}

pub open spec fn entries_view(entries: Seq<DirEntry>) -> Seq<DirEntryView> {
    entries.map_values(|entry: DirEntry| entry@)
}

/// What is known about each bug, over views.
pub open spec fn statuses_view(bugs: Map<u64, CheckStatus>) -> Map<u64, CheckStatusView> {
    bugs.map_values(|status: CheckStatus| status@)
}

impl View for LavaCheck {
    type V = CheckState;

    closed spec fn view(&self) -> CheckState {
        CheckState {
            round: self.round as nat,
            queue: entries_view(self.queue@).skip(self.next as int),
            retry: entries_view(self.retry@),
            bugs: statuses_view(self.bugs@),
        }
    }
}

impl LavaCheck {
    pub closed spec fn wf(&self) -> bool {
        &&& self.next <= self.queue@.len()
        &&& self.verifier.wf()
        &&& check_wf(self@)
    }

    /// The command that runs the input at `path`.
    pub closed spec fn command_for(&self, path: Seq<u8>) -> RunCommandView {
        crate::lava::runner::on_input(self.verifier.command@, self.verifier.input_index, path)
    }

    /// Prepares to check `crashes` with `command`.
    pub fn new(command: RunCommand, crashes: Vec<DirEntry>) -> (check: LavaCheck)
        ensures
            check.wf(),
            check@ == check_start(entries_view(crashes@)),
            forall|path: Seq<u8>|
                #[trigger] check.command_for(path) == input_command(command@, path),
    {
        let check = LavaCheck {
            verifier: LavaVerifier::new(command),
            round: 0,
            queue: crashes,
            next: 0,
            retry: Vec::new(),
            bugs: BTreeMap::new(),
        };
        assert(check@ =~= check_start(entries_view(crashes@)));
        check
    }

    /// What is to be done next; `stop` tells whether a stop was asked for.
    pub fn next(&mut self, stop: bool) -> (action: CheckAction)
        requires
            old(self).wf(),
        ensures
            final(self).wf(),
            final(self)@ == old(self)@,
            forall|path: Seq<u8>|
                #[trigger] final(self).command_for(path) == old(self).command_for(path),
            match action {
                CheckAction::Finished => check_done(old(self)@),
                CheckAction::Stopped => !check_done(old(self)@) && stop,
                CheckAction::Run(command) => {
                    &&& !check_done(old(self)@)
                    &&& !stop
                    &&& command@ == old(self).command_for(old(self)@.queue[0].path)
                },
            },
    {
        if self.next >= self.queue.len() {
            return CheckAction::Finished;
        }
        if stop {
            return CheckAction::Stopped;
        }
        let ghost before = *self;
        let command = self.verifier.check_one(&self.queue[self.next]);
        assert forall|path: Seq<u8>| #[trigger]
            self.command_for(path) == before.command_for(path) by {
            assert(self.command_for(path).args =~= before.command_for(path).args);
        }
        CheckAction::Run(command)
    }

    /// Moves past the first input of the queue.
    fn advance(&mut self)
        requires
            old(self).next < old(self).queue@.len(),
        ensures
            final(self).next <= final(self).queue@.len(),
            final(self).verifier == old(self).verifier,
            old(self).round + 1 < MAX_ATTEMPTS || old(self)@.retry.len() == 0 ==> final(self)@
                == next_round(CheckState { queue: old(self)@.queue.skip(1), ..old(self)@ }),
    {
        let ghost before = *self;
        let len = self.queue.len();
        self.next = self.next + 1;
        assert(self@.queue =~= before@.queue.skip(1));
        if self.next >= len && self.retry.len() > 0 && self.round < MAX_ATTEMPTS {
            self.round = self.round + 1;
            let mut retry: Vec<DirEntry> = Vec::new();
            std::mem::swap(&mut self.retry, &mut retry);
            self.queue = retry;
            self.next = 0;
            assert(self@.queue =~= before@.retry);
            assert(self@.retry =~= Seq::<DirEntryView>::empty());
        }
    }

    /// Takes in that the input could not be run.
    pub fn failed(&mut self)
        requires
            old(self).wf(),
            !check_done(old(self)@),
        ensures
            final(self).wf(),
            final(self)@ == check_step(old(self)@, Outcome::Failed),
            forall|path: Seq<u8>|
                #[trigger] final(self).command_for(path) == old(self).command_for(path),
    {
        self.advance();
    }

    /// Takes in how the run of the input ended and what it wrote.
    pub fn ran(&mut self, exit: ExitKind, stdout: &[u8], stderr: &[u8])
        requires
            old(self).wf(),
            !check_done(old(self)@),
            crate::lava::report::ids_fit(stdout@),
            crate::lava::report::ids_fit(stderr@),
        ensures
            final(self).wf(),
            final(self)@ == check_step(
                old(self)@,
                Outcome::Ran { exit, ids: crate::lava::report::run_ids(stdout@, stderr@) },
            ),
            forall|path: Seq<u8>|
                #[trigger] final(self).command_for(path) == old(self).command_for(path),
    {
        let ghost before = *self;
        let found = self.verifier.found_bugs(stdout, stderr);
        let ghost ids = crate::lava::report::run_ids(stdout@, stderr@);
        if found.is_empty() {
            if exit == ExitKind::Crash && self.round + 1 < MAX_ATTEMPTS {
                let entry = self.queue[self.next].clone();
                self.retry.push(entry);
                assert(self@.retry =~= before@.retry.push(before@.queue[0]));
            }
        } else {
            let entry = self.queue[self.next].clone();
            let ghost status = status_of(entry@, exit);
            let ghost done = Set::<u64>::empty();
            let ghost found_iter = vstd::std_specs::iter::IteratorSpec::remaining(&found.iter());
            for id in it: found.iter()
                invariant
                    it.seq() == found_iter,
                    found_iter.unref().to_set() == ids,
                    forall|k: u64| #[trigger] done.contains(k) <==> exists|j: int|
                        0 <= j < it.index() && *(#[trigger] it.seq()[j]) == k,
                    status == status_of(entry@, exit),
                    self.verifier == before.verifier,
                    self.round == before.round,
                    self.queue == before.queue,
                    self.next == before.next,
                    self.retry == before.retry,
                    statuses_view(self.bugs@) == with_found(
                        statuses_view(before.bugs@),
                        done,
                        status,
                    ),
            {
                let newer = match self.bugs.get(id) {
                    None => true,
                    Some(known) => known.time > entry.time,
                };
                let ghost old_bugs = self.bugs@;
                if newer {
                    let new = CheckStatus { name: name_of(&entry.path), time: entry.time, exit };
                    self.bugs.insert(*id, new);
                    assert(statuses_view(self.bugs@) =~= statuses_view(old_bugs).insert(
                        *id,
                        status,
                    ));
                }
                proof {
                    lemma_found_one(statuses_view(before.bugs@), done, *id, status);
                    done = done.insert(*id);
                }
            }
            assert forall|k: u64| #[trigger] ids.contains(k) implies done.contains(k) by {
                let all = found_iter.unref();
                assert(all.contains(k));
                let j = choose|j: int| 0 <= j < all.len() && all[j] == k;
                assert(*found_iter[j] == k);
            }
            assert forall|k: u64| #[trigger] done.contains(k) implies ids.contains(k) by {
                let j = choose|j: int| 0 <= j < found_iter.len() && *(#[trigger] found_iter[j]) == k;
                assert(found_iter.unref()[j] == k);
            }
            assert(done =~= ids);
        }
        self.advance();
    }

    /// What was found out about each bug.
    pub fn into_bugs(self) -> (bugs: BTreeMap<u64, CheckStatus>)
        ensures
            statuses_view(bugs@) == self@.bugs,
    {
        self.bugs
    }
}

} // verus!
