//! The verification of a fuzzer's crashes, from the first look at their directory to the table.

use std::collections::BTreeMap;

use vstd::prelude::*;
use vstd::utf8::*;

use crate::agent::{ExitKind, RunCommand, RunCommandView};
use crate::lava::check::{
    CheckAction, CheckState, CheckStatus, CheckStatusView, LavaCheck, Outcome,
};
use crate::lava::runner::{DirEntry, DirEntryView};
use crate::lava::task::{BugRow, BugRowView, LavaPlan, LavaPlanView, LavaVerifierTask};
use crate::paths::UnixPath;
use crate::vars::Variables;

verus! {

/// What is to be done next.
#[derive(Debug)]
pub enum LavaAction {
    /// Look when the directory of the crashes was made.
    Stat(UnixPath),
    /// List the crashes in the directory.
    List(UnixPath),
    /// Make a command of this template.
    Prepare(String),
    /// Run this command.
    Run(RunCommand),
    /// Add rows to the end of the table at `dst`.
    Append { dst: UnixPath, rows: Vec<BugRow> },
    /// Nothing: the task is complete.
    Done,
    /// Nothing: the last action failed.
    Failed,
    /// Nothing: a stop was asked for.
    Stopped,
}

/// A [`LavaAction`] over its characters and bytes.
#[verifier::ext_equal]
pub enum LavaActionView {
    Stat(Seq<u8>),
    List(Seq<u8>),
    Prepare(Seq<char>),
    Run(RunCommandView),
    Append { dst: Seq<u8>, rows: Seq<BugRowView> },
    Done,
    Failed,
    Stopped,
}

impl View for LavaAction {
    type V = LavaActionView;

    open spec fn view(&self) -> LavaActionView {
        match self {
            LavaAction::Stat(path) => LavaActionView::Stat(path@),
            LavaAction::List(path) => LavaActionView::List(path@),
            LavaAction::Prepare(template) => LavaActionView::Prepare(template@),
            LavaAction::Run(command) => LavaActionView::Run(command@),
            LavaAction::Append { dst, rows } => LavaActionView::Append {
                dst: dst@,
                rows: crate::lava::task::rows_view(rows@),
            },
            LavaAction::Done => LavaActionView::Done,
            LavaAction::Failed => LavaActionView::Failed,
            LavaAction::Stopped => LavaActionView::Stopped,
        }
    }
}

/// What became of the last action.
#[derive(Debug)]
pub enum LavaEvent {
    /// It succeeded.
    Succeeded,
    /// The crashes were listed.
    Listed(Vec<DirEntry>),
    /// The command was made.
    Prepared(RunCommand),
    /// The command was run.
    Ran { exit: ExitKind, stdout: Vec<u8>, stderr: Vec<u8> },
    /// It failed.
    Failed,
}

/// A [`LavaEvent`] over what it says; of a run, the bugs that it reports.
pub enum LavaEventView {
    Succeeded,
    Listed(Seq<DirEntryView>),
    Prepared(RunCommandView),
    Ran { exit: ExitKind, ids: Set<u64> },
    Failed,
}

impl View for LavaEvent {
    type V = LavaEventView;

    open spec fn view(&self) -> LavaEventView {
        match self {
            LavaEvent::Succeeded => LavaEventView::Succeeded,
            LavaEvent::Listed(entries) => LavaEventView::Listed(
                crate::lava::check::entries_view(entries@),
            ),
            LavaEvent::Prepared(command) => LavaEventView::Prepared(command@),
            LavaEvent::Ran { exit, stdout, stderr } => LavaEventView::Ran {
                exit: *exit,
                ids: crate::lava::report::run_ids(stdout@, stderr@),
            },
            LavaEvent::Failed => LavaEventView::Failed,
        }
    }
}

/// How a task ended.
#[derive(Debug, Clone, Copy, PartialEq, Eq, Structural)]
pub enum LavaEnd {
    /// It is complete.
    Done,
    /// Something failed.
    Failed,
    /// A stop was asked for.
    Stopped,
}

/// How far a task has come.
pub enum LavaStage {
    /// The directory of the crashes is being looked at.
    Statting,
    /// The crashes are being listed.
    Listing,
    /// The command is being made.
    Preparing(Seq<DirEntryView>),
    /// The crashes are being run through the command.
    Checking { command: RunCommandView, state: CheckState },
    /// What was found is being added to the table.
    Appending(Map<u64, CheckStatusView>),
    /// Everything is done.
    Ended(LavaEnd),
}

/// What is to be done at a stage.
pub open spec fn lava_action(plan: LavaPlanView, stage: LavaStage) -> LavaActionView {
    match stage {
        LavaStage::Statting => LavaActionView::Stat(encode_utf8(plan.crash_dir)),
        LavaStage::Listing => LavaActionView::List(encode_utf8(plan.crash_dir)),
        LavaStage::Preparing(_) => LavaActionView::Prepare(plan.command),
        LavaStage::Checking { command, state } => LavaActionView::Run(
            crate::lava::check::input_command(command, state.queue[0].path),
        ),
        LavaStage::Appending(bugs) => LavaActionView::Append {
            dst: plan.dst,
            rows: crate::lava::task::table_rows(plan.tag, bugs),
        },
        LavaStage::Ended(LavaEnd::Done) => LavaActionView::Done,
        LavaStage::Ended(LavaEnd::Failed) => LavaActionView::Failed,
        LavaStage::Ended(LavaEnd::Stopped) => LavaActionView::Stopped,
    }
}

/// Goes on with a check: to its next run, unless a stop was asked for, or to the table where
/// nothing is left to be run.
pub open spec fn go_on(command: RunCommandView, state: CheckState, stop: bool) -> LavaStage {
    if crate::lava::check::check_done(state) {
        LavaStage::Appending(state.bugs)
    } else if stop {
        LavaStage::Ended(LavaEnd::Stopped)
    } else {
        LavaStage::Checking { command, state }
    }
}

/// How a run came out; one that failed is passed over.
pub open spec fn outcome_of(event: LavaEventView) -> Outcome {
    match event {
        LavaEventView::Ran { exit, ids } => Outcome::Ran { exit, ids },
        _ => Outcome::Failed,
    }
}

/// The stage that follows an event, where `stop` tells whether a stop was asked for. Whatever fails
/// but a run of a crash ends the task.
pub open spec fn lava_next(stage: LavaStage, event: LavaEventView, stop: bool) -> LavaStage {
    match (stage, event) {
        (LavaStage::Ended(_), _) => stage,
        (LavaStage::Checking { command, state }, _) => go_on(
            command,
            crate::lava::check::check_step(state, outcome_of(event)),
            stop,
        ),
        (_, LavaEventView::Failed) => LavaStage::Ended(LavaEnd::Failed),
        (LavaStage::Statting, _) => LavaStage::Listing,
        (LavaStage::Listing, LavaEventView::Listed(crashes)) => LavaStage::Preparing(crashes),
        (LavaStage::Listing, _) => LavaStage::Ended(LavaEnd::Failed),
        (LavaStage::Preparing(crashes), LavaEventView::Prepared(command)) => go_on(
            command,
            crate::lava::check::check_start(crashes),
            stop,
        ),
        (LavaStage::Preparing(_), _) => LavaStage::Ended(LavaEnd::Failed),
        (LavaStage::Appending(_), _) => LavaStage::Ended(LavaEnd::Done),
    }
}

enum Progress {
    Statting,
    Listing,
    Preparing(Vec<DirEntry>),
    Checking { check: LavaCheck, command: Ghost<RunCommandView> },
    Appending(BTreeMap<u64, CheckStatus>),
    Ended(LavaEnd),
}

/// A run of a [`LavaVerifierTask`].
pub struct LavaRun {
    plan: LavaPlan,
    progress: Progress,
}

impl LavaVerifierTask {
    /// Starts a run under `vars`: the directory of the crashes is looked at first.
    pub fn run(&self, vars: &Variables) -> (started: (LavaRun, LavaAction))
        ensures
            started.0.wf(),
            started.0.plan() == crate::lava::task::lava_plan(*self, vars@),
            started.0.stage() == LavaStage::Statting,
            started.1@ == lava_action(started.0.plan(), LavaStage::Statting),
    {
        let run = LavaRun { plan: self.plan(vars), progress: Progress::Statting };
        let action = LavaAction::Stat(UnixPath::new(run.plan.crash_dir.as_str()));
        (run, action)
    }
}

impl LavaRun {
    /// What the run is about.
    pub closed spec fn plan(&self) -> LavaPlanView {
        self.plan@
    }

    /// How far the run has come.
    pub closed spec fn stage(&self) -> LavaStage {
        match self.progress {
            Progress::Statting => LavaStage::Statting,
            Progress::Listing => LavaStage::Listing,
            Progress::Preparing(crashes) => LavaStage::Preparing(
                crate::lava::check::entries_view(crashes@),
            ),
            Progress::Checking { check, command } => LavaStage::Checking {
                command: command@,
                state: check@,
            },
            Progress::Appending(bugs) => LavaStage::Appending(
                crate::lava::check::statuses_view(bugs@),
            ),
            Progress::Ended(end) => LavaStage::Ended(end),
        }
    }

    /// A check that goes on has something to run, and runs it with the command of the run.
    pub closed spec fn wf(&self) -> bool {
        self.progress matches Progress::Checking { check, command } ==> {
            &&& check.wf()
            &&& !crate::lava::check::check_done(check@)
            &&& forall|path: Seq<u8>|
                #[trigger] check.command_for(path) == crate::lava::check::input_command(
                    command@,
                    path,
                )
        }
    }

    /// What is said where the directory of the crashes cannot be looked at.
    pub fn stat_context(&self) -> (text: String)
        ensures
            text@ == "Failed to stat: "@ + self.plan().crash_dir,
    {
        self.plan.stat_context()
    }

    /// Goes on with `check`.
    fn check_on(
        &mut self,
        check: LavaCheck,
        command: Ghost<RunCommandView>,
        stop: bool,
    ) -> (action: LavaAction)
        requires
            check.wf(),
            forall|path: Seq<u8>|
                #[trigger] check.command_for(path) == crate::lava::check::input_command(
                    command@,
                    path,
                ),
        ensures
            final(self).wf(),
            final(self).plan() == old(self).plan(),
            final(self).stage() == go_on(command@, check@, stop),
            action@ == lava_action(final(self).plan(), final(self).stage()),
    {
        let mut check = check;
        let ghost state = check@;
        match check.next(stop) {
            CheckAction::Run(run) => {
                self.progress = Progress::Checking { check, command };
                LavaAction::Run(run)
            },
            CheckAction::Finished => {
                let bugs = check.into_bugs();
                let rows = self.plan.rows(&bugs);
                self.progress = Progress::Appending(bugs);
                LavaAction::Append { dst: self.plan.dst.clone(), rows }
            },
            CheckAction::Stopped => {
                self.progress = Progress::Ended(LavaEnd::Stopped);
                LavaAction::Stopped
            },
        }
    }

    /// What follows `event`, where `stop` tells whether a stop was asked for.
    pub fn step(&mut self, event: LavaEvent, stop: bool) -> (action: LavaAction)
        requires
            old(self).wf(),
            event matches LavaEvent::Ran { stdout, stderr, .. } ==> crate::lava::report::ids_fit(
                stdout@,
            ) && crate::lava::report::ids_fit(stderr@),
        ensures
            final(self).wf(),
            final(self).plan() == old(self).plan(),
            final(self).stage() == lava_next(old(self).stage(), event@, stop),
            action@ == lava_action(final(self).plan(), final(self).stage()),
    {
        let mut progress = Progress::Ended(LavaEnd::Failed);
        std::mem::swap(&mut self.progress, &mut progress);
        match (progress, event) {
            (Progress::Ended(end), _) => {
                self.progress = Progress::Ended(end);
                match end {
                    LavaEnd::Done => LavaAction::Done,
                    LavaEnd::Failed => LavaAction::Failed,
                    LavaEnd::Stopped => LavaAction::Stopped,
                }
            },
            (Progress::Checking { check, command }, event) => {
                let mut check = check;
                match event {
                    LavaEvent::Ran { exit, stdout, stderr } => {
                        check.ran(exit, stdout.as_slice(), stderr.as_slice());
                    },
                    _ => {
                        check.failed();
                    },
                }
                self.check_on(check, command, stop)
            },
            (_, LavaEvent::Failed) => LavaAction::Failed,
            (Progress::Statting, _) => {
                self.progress = Progress::Listing;
                LavaAction::List(UnixPath::new(self.plan.crash_dir.as_str()))
            },
            (Progress::Listing, LavaEvent::Listed(crashes)) => {
                self.progress = Progress::Preparing(crashes);
                LavaAction::Prepare(self.plan.command.clone())
            },
            (Progress::Preparing(crashes), LavaEvent::Prepared(command)) => {
                let view: Ghost<RunCommandView> = Ghost(command@);
                self.check_on(LavaCheck::new(command, crashes), view, stop)
            },
            (Progress::Appending(_), _) => {
                self.progress = Progress::Ended(LavaEnd::Done);
                LavaAction::Done
            },
            _ => LavaAction::Failed,
        }
    }
}

// ---------------------------------------------------------------------------------------------
// What holds of a whole run
// ---------------------------------------------------------------------------------------------

/// The stage that a run has come to after `events`, each with whether a stop was asked for by then.
pub open spec fn lava_after(events: Seq<(LavaEventView, bool)>) -> LavaStage
    decreases events.len(),
{
    if events.len() == 0 {
        LavaStage::Statting
    } else {
        lava_next(lava_after(events.drop_last()), events.last().0, events.last().1)
    }
}

/// Whether a failure at this stage ends the run.
pub open spec fn before_check(stage: LavaStage) -> bool {
    stage is Statting || stage is Listing || stage is Preparing
}

/// Where the directory of the crashes cannot be looked at, the crashes cannot be listed, or the
/// command cannot be made, the run has failed and asks for nothing any more: nothing is listed, run
/// or appended from then on.
pub proof fn lemma_failure_appends_nothing(events: Seq<(LavaEventView, bool)>, at: int)
    requires
        0 <= at < events.len(),
        before_check(lava_after(events.take(at))),
        events[at].0 is Failed,
    ensures
        lava_after(events) == LavaStage::Ended(LavaEnd::Failed),
    decreases events.len(),
{
    let before = events.drop_last();
    if at == before.len() {
        assert(events.take(at) =~= before);
    } else {
        assert(before.take(at) =~= events.take(at));
        lemma_failure_appends_nothing(before, at);
    }
}

/// Once a run has ended, in whatever way, it stays ended.
pub proof fn lemma_end_is_final(events: Seq<(LavaEventView, bool)>, at: int)
    requires
        0 <= at <= events.len(),
        lava_after(events.take(at)) is Ended,
    ensures
        lava_after(events) == lava_after(events.take(at)),
    decreases events.len(),
{
    if at == events.len() {
        assert(events.take(at) =~= events);
    } else {
        let before = events.drop_last();
        assert(before.take(at) =~= events.take(at));
        lemma_end_is_final(before, at);
    }
}

/// How the runs of a check came out.
pub open spec fn outcomes_of(events: Seq<(LavaEventView, bool)>) -> Seq<Outcome> {
    events.map_values(|event: (LavaEventView, bool)| outcome_of(event.0))
}

/// A run comes to its table only after the directory was looked at, the crashes were listed, the
/// command was made and every crash was checked; and the table then holds what that check found.
pub proof fn lemma_table_holds_check(events: Seq<(LavaEventView, bool)>)
    ensures
        match lava_after(events) {
            LavaStage::Statting => events.len() == 0,
            LavaStage::Listing => events.len() == 1 && !(events[0].0 is Failed),
            LavaStage::Preparing(crashes) => events.len() == 2 && !(events[0].0 is Failed)
                && events[1].0 == LavaEventView::Listed(crashes),
            LavaStage::Checking { command, state } => {
                &&& listed_and_prepared(events)
                &&& events[2].0 == LavaEventView::Prepared(command)
                &&& crate::lava::laws::check_trace(crashes_of(events), runs_of(events))
                &&& state == crate::lava::laws::check_after(crashes_of(events), runs_of(events))
                &&& !crate::lava::check::check_done(state)
            },
            LavaStage::Appending(bugs) => {
                let state = crate::lava::laws::check_after(crashes_of(events), runs_of(events));
                &&& listed_and_prepared(events)
                &&& crate::lava::laws::check_trace(crashes_of(events), runs_of(events))
                &&& crate::lava::check::check_done(state)
                &&& bugs == state.bugs
            },
            LavaStage::Ended(_) => true,
        },
    decreases events.len(),
{
    if events.len() > 0 {
        let before = events.drop_last();
        lemma_table_holds_check(before);
        if events.len() == 3 {
            assert(runs_of(events) =~= Seq::<Outcome>::empty());
        } else if events.len() > 3 && listed_and_prepared(before) {
            assert(runs_of(events).drop_last() =~= runs_of(before));
            assert(runs_of(events).last() == outcome_of(events.last().0));
        }
    }
}

/// The directory was looked at, the crashes were listed, and the command was made.
pub open spec fn listed_and_prepared(events: Seq<(LavaEventView, bool)>) -> bool {
    &&& events.len() >= 3
    &&& !(events[0].0 is Failed)
    &&& events[1].0 is Listed
    &&& events[2].0 is Prepared
}

/// The crashes that were listed.
pub open spec fn crashes_of(events: Seq<(LavaEventView, bool)>) -> Seq<DirEntryView> {
    events[1].0->Listed_0
}

/// How the runs of the crashes came out.
pub open spec fn runs_of(events: Seq<(LavaEventView, bool)>) -> Seq<Outcome> {
    outcomes_of(events.skip(3))
}

/// A stop that is asked for while crashes are left to be run ends the run, without a table then or
/// later.
pub proof fn lemma_stop_appends_nothing(events: Seq<(LavaEventView, bool)>, at: int)
    requires
        0 <= at < events.len(),
        events[at].1,
        lava_after(events.take(at)) matches LavaStage::Checking { state, .. }
            && !crate::lava::check::check_done(
            crate::lava::check::check_step(state, outcome_of(events[at].0)),
        ),
    ensures
        lava_after(events) == LavaStage::Ended(LavaEnd::Stopped),
{
    let upto = events.take(at + 1);
    assert(upto.drop_last() =~= events.take(at));
    lemma_end_is_final(events, at + 1);
}

/// What a run asks for after `events`.
pub open spec fn asked_after(
    plan: LavaPlanView,
    events: Seq<(LavaEventView, bool)>,
) -> LavaActionView {
    lava_action(plan, lava_after(events))
}

/// The crashes were listed, the command was made, and the runs came out as `outcomes`; no stop was
/// asked for.
pub open spec fn goes_well(
    events: Seq<(LavaEventView, bool)>,
    crashes: Seq<DirEntryView>,
    command: RunCommandView,
    outcomes: Seq<Outcome>,
) -> bool {
    &&& events.len() > 0 ==> events[0].0 == LavaEventView::Succeeded
    &&& events.len() > 1 ==> events[1].0 == LavaEventView::Listed(crashes)
    &&& events.len() > 2 ==> events[2].0 == LavaEventView::Prepared(command)
    &&& events.len() > 2 ==> outcomes.len() == events.len() - 3
    &&& forall|i: int| 0 <= i < events.len() ==> !(#[trigger] events[i]).1
    &&& forall|i: int|
        0 <= i < events.len() - 3 ==> match (#[trigger] events[i + 3]).0 {
            LavaEventView::Ran { exit, ids } => outcomes[i] == (Outcome::Ran { exit, ids }),
            LavaEventView::Failed => outcomes[i] == Outcome::Failed,
            _ => false,
        }
}

/// A run looks at the directory of the crashes, lists them, and has its command made. Then it runs
/// the crashes through that command as the check asks for it; when nothing is left to be run it adds
/// what was found to its table, and then it is complete.
pub proof fn lemma_run_in_order(
    task: LavaVerifierTask,
    vars: Seq<(Seq<char>, Seq<char>)>,
    crashes: Seq<DirEntryView>,
    command: RunCommandView,
    outcomes: Seq<Outcome>,
    events: Seq<(LavaEventView, bool)>,
    last: LavaEventView,
)
    requires
        goes_well(events, crashes, command, outcomes),
        events.len() > 2 ==> crate::lava::laws::check_trace(crashes, outcomes),
    ensures
        ({
            let plan = crate::lava::task::lava_plan(task, vars);
            let asked = asked_after(plan, events);
            let dir = encode_utf8(crate::vars::expanded(vars, task.crash_dir@));
            let state = crate::lava::laws::check_after(crashes, outcomes);
            &&& events.len() == 0 ==> asked == LavaActionView::Stat(dir)
            &&& events.len() == 1 ==> asked == LavaActionView::List(dir)
            &&& events.len() == 2 ==> asked == LavaActionView::Prepare(task.command@)
            &&& events.len() > 2 && state.queue.len() > 0 ==> asked == LavaActionView::Run(
                crate::lava::check::input_command(command, state.queue[0].path),
            )
            &&& events.len() > 2 && state.queue.len() == 0 ==> {
                &&& asked == (LavaActionView::Append {
                    dst: encode_utf8(crate::vars::expanded(vars, task.dst@)),
                    rows: crate::lava::task::table_rows(
                        match crate::vars::value_of(vars, "TAG"@) {
                            Some(tag) => tag,
                            None => "?"@,
                        },
                        state.bugs,
                    ),
                })
                &&& asked_after(plan, events.push((last, false))) == if last is Failed {
                    LavaActionView::Failed
                } else {
                    LavaActionView::Done
                }
            }
        }),
{
    lemma_stage_in_order(crashes, command, outcomes, events);
    assert(events.push((last, false)).drop_last() =~= events);
}

/// The stage that a run that goes well has come to.
proof fn lemma_stage_in_order(
    crashes: Seq<DirEntryView>,
    command: RunCommandView,
    outcomes: Seq<Outcome>,
    events: Seq<(LavaEventView, bool)>,
)
    requires
        goes_well(events, crashes, command, outcomes),
        events.len() > 2 ==> crate::lava::laws::check_trace(crashes, outcomes),
    ensures
        ({
            let stage = lava_after(events);
            let state = crate::lava::laws::check_after(crashes, outcomes);
            &&& events.len() == 0 ==> stage == LavaStage::Statting
            &&& events.len() == 1 ==> stage == LavaStage::Listing
            &&& events.len() == 2 ==> stage == LavaStage::Preparing(crashes)
            &&& events.len() > 2 ==> stage == if state.queue.len() > 0 {
                LavaStage::Checking { command, state }
            } else {
                LavaStage::Appending(state.bugs)
            }
        }),
    decreases events.len(),
{
    if events.len() > 0 {
        let before = events.drop_last();
        let fewer = if events.len() > 3 {
            outcomes.drop_last()
        } else {
            outcomes
        };
        assert(!events[events.len() - 1].1);
        assert forall|i: int| 0 <= i < before.len() implies !(#[trigger] before[i]).1 by {
            assert(before[i] == events[i]);
        }
        assert forall|i: int| 0 <= i < before.len() - 3 implies match (#[trigger] before[i + 3]).0 {
            LavaEventView::Ran { exit, ids } => fewer[i] == (Outcome::Ran { exit, ids }),
            LavaEventView::Failed => fewer[i] == Outcome::Failed,
            _ => false,
        } by {
            assert(before[i + 3] == events[i + 3]);
            assert(fewer[i] == outcomes[i]);
        }
        lemma_stage_in_order(crashes, command, fewer, before);
        if events.len() > 3 {
            let i = events.len() - 4;
            assert(events[i + 3] == events.last());
            assert(outcome_of(events.last().0) == outcomes.last());
        }
    }
}

/// A run that cannot look at the directory, list the crashes or make its command has failed, and so
/// has one that is told neither the crashes nor the command that it asked for. A stop that is asked
/// for while a crash is left to be run stops it before the next one.
pub proof fn lemma_run_ends_early(
    plan: LavaPlanView,
    crashes: Seq<DirEntryView>,
    command: RunCommandView,
    events: Seq<(LavaEventView, bool)>,
    stop: bool,
)
    requires
        events.len() < 3,
        goes_well(events, crashes, command, Seq::empty()),
    ensures
        asked_after(plan, events.push((LavaEventView::Failed, stop))) == LavaActionView::Failed,
        events.len() > 0 ==> asked_after(plan, events.push((LavaEventView::Succeeded, stop)))
            == LavaActionView::Failed,
        events.len() == 2 && crashes.len() > 0 ==> asked_after(
            plan,
            events.push((LavaEventView::Prepared(command), true)),
        ) == LavaActionView::Stopped,
        events.len() == 2 && crashes.len() == 0 ==> asked_after(
            plan,
            events.push((LavaEventView::Prepared(command), stop)),
        ) == (LavaActionView::Append {
            dst: plan.dst,
            rows: crate::lava::task::table_rows(plan.tag, Map::empty()),
        }),
{
    lemma_stage_in_order(crashes, command, Seq::empty(), events);
    assert(events.push((LavaEventView::Failed, stop)).drop_last() =~= events);
    assert(events.push((LavaEventView::Succeeded, stop)).drop_last() =~= events);
    assert(events.push((LavaEventView::Prepared(command), true)).drop_last() =~= events);
    assert(events.push((LavaEventView::Prepared(command), stop)).drop_last() =~= events);
}

/// A stop that is asked for after a run of a crash, while another is left to be run, stops the run
/// of the task: it asks for nothing more.
pub proof fn lemma_stop_is_told(plan: LavaPlanView, events: Seq<(LavaEventView, bool)>, at: int)
    requires
        0 <= at < events.len(),
        events[at].1,
        lava_after(events.take(at)) matches LavaStage::Checking { state, .. }
            && !crate::lava::check::check_done(
            crate::lava::check::check_step(state, outcome_of(events[at].0)),
        ),
    ensures
        asked_after(plan, events) == LavaActionView::Stopped,
{
    lemma_stop_appends_nothing(events, at);
}

/// Once a run has ended it asks for nothing more: what it said last it says to whatever comes.
pub proof fn lemma_run_stays_ended(
    plan: LavaPlanView,
    events: Seq<(LavaEventView, bool)>,
    next: (LavaEventView, bool),
)
    requires
        asked_after(plan, events) is Done || asked_after(plan, events) is Failed || asked_after(
            plan,
            events,
        ) is Stopped,
    ensures
        asked_after(plan, events.push(next)) == asked_after(plan, events),
{
    assert(events.push(next).drop_last() =~= events);
}

} // verus!
