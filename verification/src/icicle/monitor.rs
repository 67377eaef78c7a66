//! A run of the monitor alone.

use vstd::prelude::*;
use vstd::utf8::*;

use crate::agent::{RunCommand, RunCommandView};
use crate::icicle::files::{
    copy_monitor_output, mkdir_p_command, output_dir_context, spawn_request, workdir_context,
    FileCopy, SpawnRequest, SpawnRequestView, StatsCopy, StatsCopyView,
};
use crate::icicle::fuzz::{IcicleEvent, TaskError};
use crate::paths::UnixPath;
use crate::vars::Variables;

verus! {

/// Runs the monitor to its end.
#[derive(Debug)]
pub struct IcicleMonitorOnlyTask {
    pub monitor_command: String,
    pub stats_src: String,
    pub stats_header: String,
    pub stats_dst: String,
    pub copy_stdio_dir: Option<String>,
}

impl Clone for IcicleMonitorOnlyTask {
    fn clone(&self) -> (copy: Self)
        ensures
            copy == *self,
    {
        IcicleMonitorOnlyTask {
            monitor_command: self.monitor_command.clone(),
            stats_src: self.stats_src.clone(),
            stats_header: self.stats_header.clone(),
            stats_dst: self.stats_dst.clone(),
            copy_stdio_dir: match &self.copy_stdio_dir {
                Some(dir) => Some(dir.clone()),
                None => None,
            },
        }
    }
}

/// How far a run has come.
#[derive(Debug, Clone, Copy, PartialEq, Eq, Structural)]
pub enum MonitorStage {
    /// The working directory is being created.
    MakingDir,
    /// The monitor is being started.
    Starting,
    /// The monitor runs.
    Waiting(u64),
    /// The statistics are being copied.
    CopyingStats,
    /// The directory for the output of the monitor is being created.
    MakingOutputDir,
    /// The file of this number, of those that hold the output, is being copied.
    CopyingOutput(usize),
    /// Everything is done; the flag tells whether the run went wrong.
    Ended(bool),
}

/// What is to be done next.
#[derive(Debug)]
pub enum MonitorAction {
    /// Run a command to its end.
    RunTask(RunCommand),
    /// Start a process.
    Spawn(SpawnRequest),
    /// Wait for a process to end.
    Wait(u64),
    /// Copy statistics.
    CopyStats(StatsCopy),
    /// Create the directory for the output of the monitor.
    MakeOutputDir(UnixPath),
    /// Copy a file that holds output of the monitor.
    CopyOutput(FileCopy),
    /// Nothing: the run is complete.
    Done,
    /// Nothing: the run went wrong.
    Failed,
}

/// A [`MonitorAction`] over its characters and bytes.
#[verifier::ext_equal]
pub enum MonitorActionView {
    RunTask(RunCommandView),
    Spawn(SpawnRequestView),
    Wait(u64),
    CopyStats(StatsCopyView),
    MakeOutputDir(Seq<u8>),
    CopyOutput((Seq<u8>, Seq<u8>)),
    Done,
    Failed,
}

impl View for MonitorAction {
    type V = MonitorActionView;

    open spec fn view(&self) -> MonitorActionView {
        match self {
            MonitorAction::RunTask(command) => MonitorActionView::RunTask(command@),
            MonitorAction::Spawn(request) => MonitorActionView::Spawn(request@),
            MonitorAction::Wait(pid) => MonitorActionView::Wait(*pid),
            MonitorAction::CopyStats(stats) => MonitorActionView::CopyStats(stats@),
            MonitorAction::MakeOutputDir(dir) => MonitorActionView::MakeOutputDir(dir@),
            MonitorAction::CopyOutput(copy) => MonitorActionView::CopyOutput(copy@),
            MonitorAction::Done => MonitorActionView::Done,
            MonitorAction::Failed => MonitorActionView::Failed,
        }
    }
}

/// A run of an [`IcicleMonitorOnlyTask`]. Its paths are expanded; its commands are templates still.
#[derive(Debug)]
pub struct MonitorRun {
    workdir: UnixPath,
    monitor_command: String,
    stats: StatsCopy,
    output_dir: Option<UnixPath>,
    stage: MonitorStage,
}

/// What a run is about, over its characters and bytes.
#[verifier::ext_equal]
pub struct MonitorParams {
    pub workdir: Seq<u8>,
    pub monitor_command: Seq<char>,
    pub stats: StatsCopyView,
    pub output_dir: Option<Seq<u8>>,
}

/// The run that a task comes to under `vars`, where the working directory is defined.
pub open spec fn monitor_params(
    task: IcicleMonitorOnlyTask,
    vars: Seq<(Seq<char>, Seq<char>)>,
    workdir: Seq<char>,
) -> MonitorParams {
    MonitorParams {
        workdir: encode_utf8(workdir),
        monitor_command: task.monitor_command@,
        stats: StatsCopyView {
            src: crate::icicle::fuzz::expanded_path(vars, task.stats_src@),
            dst: crate::icicle::fuzz::expanded_path(vars, task.stats_dst@),
            header: task.stats_header@,
        },
        output_dir: match task.copy_stdio_dir {
            Some(dir) => Some(crate::icicle::fuzz::expanded_path(vars, dir@)),
            None => None,
        },
    }
}

/// The copies that keep the output of the monitor.
pub open spec fn output_copies(params: MonitorParams) -> Seq<(Seq<u8>, Seq<u8>)> {
    crate::icicle::files::monitor_output(params.workdir, params.output_dir->0)
}

/// Goes on to copy the output, from file number `n` on.
pub open spec fn copying_from(params: MonitorParams, n: int) -> MonitorStage {
    if n < output_copies(params).len() {
        MonitorStage::CopyingOutput(n as usize)
    } else {
        MonitorStage::Ended(false)
    }
}

/// What is to be done at a stage.
pub open spec fn monitor_action(params: MonitorParams, stage: MonitorStage) -> MonitorActionView {
    match stage {
        MonitorStage::MakingDir => MonitorActionView::RunTask(
            crate::icicle::files::mkdir_p_spec(params.workdir),
        ),
        MonitorStage::Starting => MonitorActionView::Spawn(
            crate::icicle::files::spawn_spec(
                params.workdir,
                params.monitor_command,
                "monitor.stdout"@,
                "monitor.stderr"@,
            ),
        ),
        MonitorStage::Waiting(pid) => MonitorActionView::Wait(pid),
        MonitorStage::CopyingStats => MonitorActionView::CopyStats(params.stats),
        MonitorStage::MakingOutputDir => MonitorActionView::MakeOutputDir(params.output_dir->0),
        MonitorStage::CopyingOutput(n) => MonitorActionView::CopyOutput(
            output_copies(params)[n as int],
        ),
        MonitorStage::Ended(failed) => if failed {
            MonitorActionView::Failed
        } else {
            MonitorActionView::Done
        },
    }
}

/// The stage that follows an event. A failure ends the run.
pub open spec fn monitor_next(
    params: MonitorParams,
    stage: MonitorStage,
    event: IcicleEvent,
) -> MonitorStage {
    match (stage, event) {
        (MonitorStage::Ended(failed), _) => stage,
        (_, IcicleEvent::Failed) => MonitorStage::Ended(true),
        (MonitorStage::MakingDir, _) => MonitorStage::Starting,
        (MonitorStage::Starting, IcicleEvent::Started(pid)) => MonitorStage::Waiting(pid),
        (MonitorStage::Starting, _) => MonitorStage::Ended(true),
        (MonitorStage::Waiting(_), _) => MonitorStage::CopyingStats,
        (MonitorStage::CopyingStats, _) => if params.output_dir is Some {
            MonitorStage::MakingOutputDir
        } else {
            MonitorStage::Ended(false)
        },
        (MonitorStage::MakingOutputDir, _) => copying_from(params, 0),
        (MonitorStage::CopyingOutput(n), _) => copying_from(params, n + 1),
    }
}

impl IcicleMonitorOnlyTask {
    /// Starts a run under `vars`: the working directory is created first.
    pub fn run(&self, vars: &Variables) -> (started: Result<(MonitorRun, MonitorAction), TaskError>)
        ensures
            match crate::vars::value_of(vars@, "WORKDIR"@) {
                None => started == Err::<(MonitorRun, MonitorAction), TaskError>(
                    TaskError::NoWorkdir,
                ),
                Some(workdir) => {
                    &&& started is Ok
                    &&& started->Ok_0.0.params() == monitor_params(*self, vars@, workdir)
                    &&& started->Ok_0.0.stage() == MonitorStage::MakingDir
                    &&& started->Ok_0.0.wf()
                    &&& started->Ok_0.1@ == monitor_action(
                        started->Ok_0.0.params(),
                        MonitorStage::MakingDir,
                    )
                },
            },
    {
        let workdir = match vars.get("WORKDIR") {
            None => return Err(TaskError::NoWorkdir),
            Some(workdir) => UnixPath::new(workdir),
        };
        let output_dir = match &self.copy_stdio_dir {
            Some(dir) => Some(UnixPath::new(vars.expand_vars(dir.as_str()).as_str())),
            None => None,
        };
        let run = MonitorRun {
            workdir,
            monitor_command: self.monitor_command.clone(),
            stats: StatsCopy {
                src: UnixPath::new(vars.expand_vars(self.stats_src.as_str()).as_str()),
                dst: UnixPath::new(vars.expand_vars(self.stats_dst.as_str()).as_str()),
                header: self.stats_header.clone(),
            },
            output_dir,
            stage: MonitorStage::MakingDir,
        };
        let action = run.action();
        Ok((run, action))
    }
}

impl MonitorRun {
    /// How far the run has come.
    pub closed spec fn stage(&self) -> MonitorStage {
        self.stage
    }

    /// What the run is about.
    pub closed spec fn params(&self) -> MonitorParams {
        MonitorParams {
            workdir: self.workdir@,
            monitor_command: self.monitor_command@,
            stats: self.stats@,
            output_dir: crate::paths::path_view(self.output_dir),
        }
    }

    /// The output is copied only where there is a directory for it, and a file that is being copied
    /// is one of those that hold it.
    pub open spec fn wf(&self) -> bool {
        match self.stage() {
            MonitorStage::MakingOutputDir => self.params().output_dir is Some,
            MonitorStage::CopyingOutput(n) => self.params().output_dir is Some && n
                < output_copies(self.params()).len(),
            _ => true,
        }
    }

    /// What is said where the directory for the output cannot be created.
    pub fn output_context(&self) -> (text: Option<String>)
        ensures
            match (text, self.params().output_dir) {
                (Some(t), Some(dir)) => t@ == "failed to create "@ + crate::text::utf8_lossy(dir)
                    + " to copy stdout/stderr"@,
                (None, None) => true,
                _ => false,
            },
    {
        match &self.output_dir {
            Some(dir) => Some(output_dir_context(dir)),
            None => None,
        }
    }

    /// What is said where the working directory cannot be created.
    pub fn workdir_context(&self) -> (text: String)
        ensures
            text@ == "failed to create WORKDIR: "@ + crate::text::utf8_lossy(self.params().workdir),
    {
        workdir_context(&self.workdir)
    }

    /// What is to be done at the stage that the run has come to.
    pub fn action(&self) -> (action: MonitorAction)
        requires
            self.wf(),
        ensures
            action@ == monitor_action(self.params(), self.stage()),
    {
        match self.stage {
            MonitorStage::MakingDir => MonitorAction::RunTask(mkdir_p_command(&self.workdir)),
            MonitorStage::Starting => MonitorAction::Spawn(
                spawn_request(
                    &self.workdir,
                    &self.monitor_command,
                    "monitor.stdout",
                    "monitor.stderr",
                ),
            ),
            MonitorStage::Waiting(pid) => MonitorAction::Wait(pid),
            MonitorStage::CopyingStats => MonitorAction::CopyStats(self.stats.clone()),
            MonitorStage::MakingOutputDir => match &self.output_dir {
                Some(dir) => MonitorAction::MakeOutputDir(dir.clone()),
                None => MonitorAction::Done,
            },
            MonitorStage::CopyingOutput(n) => match &self.output_dir {
                Some(dir) => {
                    let copies = copy_monitor_output(&self.workdir, dir);
                    assert(output_copies(self.params())
                        == crate::icicle::files::copies_view(copies@));
                    MonitorAction::CopyOutput(copies[n].clone())
                },
                None => MonitorAction::Done,
            },
            MonitorStage::Ended(failed) => if failed {
                MonitorAction::Failed
            } else {
                MonitorAction::Done
            },
        }
    }

    /// What follows `event`.
    pub fn step(&mut self, event: IcicleEvent) -> (action: MonitorAction)
        requires
            old(self).wf(),
        ensures
            final(self).wf(),
            final(self).params() == old(self).params(),
            final(self).stage() == monitor_next(old(self).params(), old(self).stage(), event),
            action@ == monitor_action(final(self).params(), final(self).stage()),
    {
        let failed = event == IcicleEvent::Failed;
        self.stage = match self.stage {
            MonitorStage::Ended(over) => MonitorStage::Ended(over),
            stage => if failed {
                MonitorStage::Ended(true)
            } else {
                match stage {
                    MonitorStage::MakingDir => MonitorStage::Starting,
                    MonitorStage::Starting => match event {
                        IcicleEvent::Started(pid) => MonitorStage::Waiting(pid),
                        _ => MonitorStage::Ended(true),
                    },
                    MonitorStage::Waiting(_) => MonitorStage::CopyingStats,
                    MonitorStage::CopyingStats => if self.output_dir.is_some() {
                        MonitorStage::MakingOutputDir
                    } else {
                        MonitorStage::Ended(false)
                    },
                    MonitorStage::MakingOutputDir => MonitorStage::CopyingOutput(0),
                    MonitorStage::CopyingOutput(0) => MonitorStage::CopyingOutput(1),
                    _ => MonitorStage::Ended(false),
                }
            },
        };
        self.action()
    }
}

/// The stage that a run has come to after `events`.
pub open spec fn monitor_after(params: MonitorParams, events: Seq<IcicleEvent>) -> MonitorStage
    decreases events.len(),
{
    if events.len() == 0 {
        MonitorStage::MakingDir
    } else {
        monitor_next(params, monitor_after(params, events.drop_last()), events.last())
    }
}

/// A run copies nothing before the monitor that it started has ended, and each stage is come to by
/// exactly the events before it, none of which is a failure.
pub proof fn lemma_copies_after_end(params: MonitorParams, events: Seq<IcicleEvent>)
    ensures
        match monitor_after(params, events) {
            MonitorStage::MakingDir => events.len() == 0,
            MonitorStage::Starting => events.len() == 1,
            MonitorStage::Waiting(pid) => events.len() == 2 && events[1] == IcicleEvent::Started(
                pid,
            ),
            MonitorStage::CopyingStats => events.len() == 3,
            MonitorStage::MakingOutputDir => events.len() == 4 && params.output_dir is Some,
            MonitorStage::CopyingOutput(n) => events.len() == 5 + n && params.output_dir is Some,
            MonitorStage::Ended(_) => true,
        },
        monitor_after(params, events) is Ended || forall|i: int|
            0 <= i < events.len() ==> !(#[trigger] events[i] is Failed),
    decreases events.len(),
{
    if events.len() > 0 {
        let before = events.drop_last();
        lemma_copies_after_end(params, before);
        assert forall|i: int|
            !(monitor_after(params, events) is Ended) && 0 <= i < events.len() implies !(
        #[trigger] events[i] is Failed) by {
            if i < before.len() {
                assert(before[i] == events[i]);
            }
        }
    }
}

/// The first failure ends the run, also where it is a copy of the output that fails: nothing is
/// copied after it.
pub proof fn lemma_first_failure_ends(params: MonitorParams, events: Seq<IcicleEvent>, at: int)
    requires
        0 <= at < events.len(),
        !(monitor_after(params, events.take(at)) is Ended),
        events[at] is Failed,
    ensures
        monitor_after(params, events) == MonitorStage::Ended(true),
    decreases events.len(),
{
    let before = events.drop_last();
    if at == before.len() {
        assert(events.take(at) =~= before);
    } else {
        assert(before.take(at) =~= events.take(at));
        lemma_first_failure_ends(params, before, at);
    }
}

/// What a run asks for after `events`.
pub open spec fn asked_after(
    params: MonitorParams,
    events: Seq<IcicleEvent>,
) -> MonitorActionView {
    monitor_action(params, monitor_after(params, events))
}

/// The monitor was started, as the process `pid`, and nothing went wrong.
pub open spec fn goes_well(events: Seq<IcicleEvent>, pid: u64) -> bool {
    &&& events.len() > 1 ==> events[1] == IcicleEvent::Started(pid)
    &&& forall|i: int| 0 <= i < events.len() ==> !(#[trigger] events[i] is Failed)
}

/// A run in which nothing fails creates its working directory, starts the monitor with its output in
/// that directory, waits for it, copies the statistics, and then, where the task names a directory
/// for it, creates that directory and copies the output of the monitor there. The command is the
/// task's, and the paths are those of the task with the variables in them replaced.
pub proof fn lemma_run_in_order(
    task: IcicleMonitorOnlyTask,
    vars: Seq<(Seq<char>, Seq<char>)>,
    workdir: Seq<char>,
    pid: u64,
    events: Seq<IcicleEvent>,
)
    requires
        goes_well(events, pid),
    ensures
        ({
            let asked = asked_after(monitor_params(task, vars, workdir), events);
            let from = encode_utf8(workdir);
            let n = events.len();
            &&& n == 0 ==> asked == MonitorActionView::RunTask(
                RunCommandView {
                    program: encode_utf8("mkdir"@),
                    args: seq![encode_utf8("-p"@), from],
                    stdin: crate::agent::StdioView::Capture,
                    stdout: crate::agent::StdioView::Capture,
                    stderr: crate::agent::StdioView::Capture,
                },
            )
            &&& n == 1 ==> asked == MonitorActionView::Spawn(
                SpawnRequestView {
                    command: task.monitor_command@,
                    stdin: crate::agent::StdioView::Null,
                    stdout: crate::agent::StdioView::File(
                        crate::paths::joined(from, encode_utf8("monitor.stdout"@)),
                    ),
                    stderr: crate::agent::StdioView::File(
                        crate::paths::joined(from, encode_utf8("monitor.stderr"@)),
                    ),
                },
            )
            &&& n == 2 ==> asked == MonitorActionView::Wait(pid)
            &&& n == 3 ==> asked == MonitorActionView::CopyStats(
                StatsCopyView {
                    src: encode_utf8(crate::vars::expanded(vars, task.stats_src@)),
                    dst: encode_utf8(crate::vars::expanded(vars, task.stats_dst@)),
                    header: task.stats_header@,
                },
            )
            &&& match task.copy_stdio_dir {
                None => n > 3 ==> asked == MonitorActionView::Done,
                Some(dir) => {
                    let to = encode_utf8(crate::vars::expanded(vars, dir@));
                    &&& n == 4 ==> asked == MonitorActionView::MakeOutputDir(to)
                    &&& n == 5 ==> asked == MonitorActionView::CopyOutput(
                        (
                            crate::paths::joined(from, encode_utf8("monitor.stdout"@)),
                            crate::paths::joined(to, encode_utf8("monitor.stdout"@)),
                        ),
                    )
                    &&& n == 6 ==> asked == MonitorActionView::CopyOutput(
                        (
                            crate::paths::joined(from, encode_utf8("monitor.stderr"@)),
                            crate::paths::joined(to, encode_utf8("monitor.stderr"@)),
                        ),
                    )
                    &&& n > 6 ==> asked == MonitorActionView::Done
                },
            }
        }),
{
    lemma_stage_in_order(monitor_params(task, vars, workdir), pid, events);
}

/// The stage that a run that goes well has come to.
proof fn lemma_stage_in_order(params: MonitorParams, pid: u64, events: Seq<IcicleEvent>)
    requires
        goes_well(events, pid),
    ensures
        ({
            let n = events.len();
            let stage = monitor_after(params, events);
            &&& n == 0 ==> stage == MonitorStage::MakingDir
            &&& n == 1 ==> stage == MonitorStage::Starting
            &&& n == 2 ==> stage == MonitorStage::Waiting(pid)
            &&& n == 3 ==> stage == MonitorStage::CopyingStats
            &&& n > 3 && params.output_dir is None ==> stage == MonitorStage::Ended(false)
            &&& n == 4 && params.output_dir is Some ==> stage == MonitorStage::MakingOutputDir
            &&& n > 4 && params.output_dir is Some ==> stage == copying_from(params, n - 5)
        }),
    decreases events.len(),
{
    if events.len() > 0 {
        let before = events.drop_last();
        assert forall|i: int| 0 <= i < before.len() implies !(#[trigger] before[i] is Failed) by {
            assert(before[i] == events[i]);
        }
        lemma_stage_in_order(params, pid, before);
        assert(!(events[events.len() - 1] is Failed));
        assert(output_copies(params).len() == 2);
    }
}

/// A reference in a path of a task stands for the variable that it names: the statistics are copied
/// from, and to, the path with the value in its place, and so is the output. The header is the
/// task's.
pub proof fn lemma_paths_are_expanded(
    task: IcicleMonitorOnlyTask,
    vars: Seq<(Seq<char>, Seq<char>)>,
    workdir: Seq<char>,
    before: Seq<char>,
    name: Seq<char>,
    value: Seq<char>,
    after: Seq<char>,
    pid: u64,
    events: Seq<IcicleEvent>,
)
    requires
        !before.contains('{'),
        !name.contains('}'),
        !after.contains('{'),
        crate::vars::value_of(vars, name) == Some(value),
        goes_well(events, pid),
    ensures
        ({
            let template = before + seq!['{'] + name + seq!['}'] + after;
            let path = encode_utf8(before + value + after);
            let asked = asked_after(monitor_params(task, vars, workdir), events);
            &&& events.len() == 3 ==> (asked matches MonitorActionView::CopyStats(stats) && {
                &&& task.stats_src@ == template ==> stats.src == path
                &&& task.stats_dst@ == template ==> stats.dst == path
                &&& stats.header == task.stats_header@
            })
            &&& task.copy_stdio_dir matches Some(dir) ==> events.len() == 4 && dir@ == template
                ==> asked == MonitorActionView::MakeOutputDir(path)
        }),
{
    lemma_run_in_order(task, vars, workdir, pid, events);
    crate::vars::lemma_expand_one(vars, before, name, value, after);
}

/// A run goes wrong at the first thing that fails, whatever it is, and where it is not told which
/// process it started.
pub proof fn lemma_run_goes_wrong(
    task: IcicleMonitorOnlyTask,
    vars: Seq<(Seq<char>, Seq<char>)>,
    workdir: Seq<char>,
    pid: u64,
    events: Seq<IcicleEvent>,
)
    requires
        goes_well(events, pid),
        events.len() < 4 || events.len() < 7 && task.copy_stdio_dir is Some,
    ensures
        asked_after(
            monitor_params(task, vars, workdir),
            events.push(IcicleEvent::Failed),
        ) == MonitorActionView::Failed,
        events.len() == 1 ==> asked_after(
            monitor_params(task, vars, workdir),
            events.push(IcicleEvent::Succeeded),
        ) == MonitorActionView::Failed,
{
    let params = monitor_params(task, vars, workdir);
    lemma_stage_in_order(params, pid, events);
    assert(events.push(IcicleEvent::Failed).drop_last() =~= events);
    assert(events.push(IcicleEvent::Succeeded).drop_last() =~= events);
}

/// Once a run has ended it asks for nothing more: what it said last it says to whatever comes.
pub proof fn lemma_run_stays_ended(
    params: MonitorParams,
    events: Seq<IcicleEvent>,
    next: IcicleEvent,
)
    requires
        asked_after(params, events) is Done || asked_after(params, events) is Failed,
    ensures
        asked_after(params, events.push(next)) == asked_after(params, events),
{
    assert(events.push(next).drop_last() =~= events);
}

} // verus!
