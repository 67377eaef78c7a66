//! A run of the fuzzer together with its monitor.

use vstd::prelude::*;
use vstd::utf8::*;

use crate::agent::{RunCommand, RunCommandView};
use crate::icicle::files::{
    copy_dir_context, copy_fuzzing_metadata, mkdir_p_command, spawn_request, workdir_context,
    FileCopy, SpawnRequest, SpawnRequestView, StatsCopy, StatsCopyView,
};
use crate::paths::UnixPath;
use crate::vars::Variables;

verus! {

/// Runs the fuzzer and its monitor side by side. How long they run is up to the one who watches
/// them.
#[derive(Debug)]
pub struct IcicleTask {
    pub fuzzer_command: String,
    pub monitor_command: String,
    pub stats_src: String,
    pub stats_header: String,
    pub stats_dst: String,
    pub metadata_dir: Option<String>,
}

impl Clone for IcicleTask {
    fn clone(&self) -> (copy: Self)
        ensures
            copy == *self,
    {
        IcicleTask {
            fuzzer_command: self.fuzzer_command.clone(),
            monitor_command: self.monitor_command.clone(),
            stats_src: self.stats_src.clone(),
            stats_header: self.stats_header.clone(),
            stats_dst: self.stats_dst.clone(),
            metadata_dir: match &self.metadata_dir {
                Some(dir) => Some(dir.clone()),
                None => None,
            },
        }
    }
}

/// Why a task cannot be started.
#[derive(Debug, Clone, Copy, PartialEq, Eq, Structural)]
pub enum TaskError {
    /// `WORKDIR` is not defined.
    NoWorkdir,
}

impl TaskError {
    /// What is said of the error.
    pub fn message(self) -> (text: &'static str)
        ensures
            text@ == match self {
                TaskError::NoWorkdir => "`WORKDIR` not defined"@,
            },
    {
        match self {
            TaskError::NoWorkdir => "`WORKDIR` not defined",
        }
    }
}

/// A signal to a process.
#[derive(Debug, Clone, Copy, PartialEq, Eq, Structural)]
pub enum Signal {
    /// Asks it to end.
    Interrupt,
    /// Ends it.
    Kill,
}

/// How far a run has come.
#[derive(Debug, Clone, Copy, PartialEq, Eq, Structural)]
pub enum IcicleStage {
    /// The working directory is being created.
    MakingDir,
    /// The fuzzer is being started.
    StartingFuzzer,
    /// The monitor is being started.
    StartingMonitor { fuzzer: u64 },
    /// Both run.
    Watching { fuzzer: u64, monitor: u64 },
    /// The monitor is being stopped.
    Stopping { fuzzer: u64, monitor: u64, signal: Signal },
    /// The fuzzer is being stopped.
    StoppingFuzzer { fuzzer: u64, signal: Signal },
    /// The statistics are being copied.
    CopyingStats,
    /// The directory for what the run left behind is being created.
    MakingMetadataDir,
    /// The file of this number, of those that the run left behind, is being copied.
    CopyingMetadata(usize),
    /// Everything is done; the flag tells whether the run went wrong.
    Ended(bool),
}

/// What became of the last action.
#[derive(Debug, Clone, Copy, PartialEq, Eq, Structural)]
pub enum IcicleEvent {
    /// It succeeded.
    Succeeded,
    /// It started the process with this number.
    Started(u64),
    /// It failed.
    Failed,
}

/// What is to be done next.
#[derive(Debug)]
pub enum IcicleAction {
    /// Run a command to its end.
    RunTask(RunCommand),
    /// Start a process.
    Spawn(SpawnRequest),
    /// Let the two processes run for as long as the task says.
    Watch { fuzzer: u64, monitor: u64 },
    /// Send a signal to a process.
    SendSignal { pid: u64, signal: Signal },
    /// Copy statistics.
    CopyStats(StatsCopy),
    /// Create the directory for what the run left behind.
    MakeMetadataDir(UnixPath),
    /// Copy a file that the run left behind.
    CopyMetadata(FileCopy),
    /// Nothing: the run is complete.
    Done,
    /// Nothing: the run went wrong.
    Failed,
}

/// An [`IcicleAction`] over its characters and bytes.
#[verifier::ext_equal]
pub enum IcicleActionView {
    RunTask(RunCommandView),
    Spawn(SpawnRequestView),
    Watch { fuzzer: u64, monitor: u64 },
    SendSignal { pid: u64, signal: Signal },
    CopyStats(StatsCopyView),
    MakeMetadataDir(Seq<u8>),
    CopyMetadata((Seq<u8>, Seq<u8>)),
    Done,
    Failed,
}

impl View for IcicleAction {
    type V = IcicleActionView;

    open spec fn view(&self) -> IcicleActionView {
        match self {
            IcicleAction::RunTask(command) => IcicleActionView::RunTask(command@),
            IcicleAction::Spawn(request) => IcicleActionView::Spawn(request@),
            IcicleAction::Watch { fuzzer, monitor } => IcicleActionView::Watch {
                fuzzer: *fuzzer,
                monitor: *monitor,
            },
            IcicleAction::SendSignal { pid, signal } => IcicleActionView::SendSignal {
                pid: *pid,
                signal: *signal,
            },
            IcicleAction::CopyStats(stats) => IcicleActionView::CopyStats(stats@),
            IcicleAction::MakeMetadataDir(dir) => IcicleActionView::MakeMetadataDir(dir@),
            IcicleAction::CopyMetadata(copy) => IcicleActionView::CopyMetadata(copy@),
            IcicleAction::Done => IcicleActionView::Done,
            IcicleAction::Failed => IcicleActionView::Failed,
        }
    }
}

/// A run of an [`IcicleTask`]. Its paths are expanded; its commands are templates still.
#[derive(Debug)]
pub struct IcicleRun {
    workdir: UnixPath,
    fuzzer_command: String,
    monitor_command: String,
    stats: StatsCopy,
    metadata_dir: Option<UnixPath>,
    monitor_dir: Option<UnixPath>,
    stage: IcicleStage,
}

/// What a run is about, over its characters and bytes.
#[verifier::ext_equal]
pub struct IcicleParams {
    pub workdir: Seq<u8>,
    pub fuzzer_command: Seq<char>,
    pub monitor_command: Seq<char>,
    pub stats: StatsCopyView,
    pub metadata_dir: Option<Seq<u8>>,
    pub monitor_dir: Option<Seq<u8>>,
}

/// The path that a template comes to.
pub open spec fn expanded_path(vars: Seq<(Seq<char>, Seq<char>)>, template: Seq<char>) -> Seq<u8> {
    encode_utf8(crate::vars::expanded(vars, template))
}

/// The run that a task comes to under `vars`, where the working directory is defined.
pub open spec fn icicle_params(
    task: IcicleTask,
    vars: Seq<(Seq<char>, Seq<char>)>,
    workdir: Seq<char>,
) -> IcicleParams {
    IcicleParams {
        workdir: encode_utf8(workdir),
        fuzzer_command: task.fuzzer_command@,
        monitor_command: task.monitor_command@,
        stats: StatsCopyView {
            src: expanded_path(vars, task.stats_src@),
            dst: expanded_path(vars, task.stats_dst@),
            header: task.stats_header@,
        },
        metadata_dir: match task.metadata_dir {
            Some(dir) => Some(expanded_path(vars, dir@)),
            None => None,
        },
        monitor_dir: match crate::vars::value_of(vars, "MONITOR_DIR"@) {
            Some(dir) => Some(encode_utf8(dir)),
            None => None,
        },
    }
}

/// The copies that keep what a run left behind.
pub open spec fn metadata_copies(params: IcicleParams) -> Seq<(Seq<u8>, Seq<u8>)> {
    crate::icicle::files::fuzzing_metadata(
        params.workdir,
        params.monitor_dir,
        params.metadata_dir->0,
    )
}

/// Goes on to copy what a run left behind, from file number `n` on.
pub open spec fn copying_from(params: IcicleParams, n: int) -> IcicleStage {
    if n < metadata_copies(params).len() {
        IcicleStage::CopyingMetadata(n as usize)
    } else {
        IcicleStage::Ended(false)
    }
}

/// What is to be done at a stage.
pub open spec fn icicle_action(params: IcicleParams, stage: IcicleStage) -> IcicleActionView {
    match stage {
        IcicleStage::MakingDir => IcicleActionView::RunTask(
            crate::icicle::files::mkdir_p_spec(params.workdir),
        ),
        IcicleStage::StartingFuzzer => IcicleActionView::Spawn(
            crate::icicle::files::spawn_spec(
                params.workdir,
                params.fuzzer_command,
                "fuzzer.stdout"@,
                "fuzzer.stderr"@,
            ),
        ),
        IcicleStage::StartingMonitor { .. } => IcicleActionView::Spawn(
            crate::icicle::files::spawn_spec(
                params.workdir,
                params.monitor_command,
                "monitor.stdout"@,
                "monitor.stderr"@,
            ),
        ),
        IcicleStage::Watching { fuzzer, monitor } => IcicleActionView::Watch { fuzzer, monitor },
        IcicleStage::Stopping { monitor, signal, .. } => IcicleActionView::SendSignal {
            pid: monitor,
            signal,
        },
        IcicleStage::StoppingFuzzer { fuzzer, signal } => IcicleActionView::SendSignal {
            pid: fuzzer,
            signal,
        },
        IcicleStage::CopyingStats => IcicleActionView::CopyStats(params.stats),
        IcicleStage::MakingMetadataDir => IcicleActionView::MakeMetadataDir(
            params.metadata_dir->0,
        ),
        IcicleStage::CopyingMetadata(n) => IcicleActionView::CopyMetadata(
            metadata_copies(params)[n as int],
        ),
        IcicleStage::Ended(failed) => if failed {
            IcicleActionView::Failed
        } else {
            IcicleActionView::Done
        },
    }
}

/// The stage that follows an event. A process that cannot be interrupted is killed, and a file that
/// was left behind and cannot be copied is passed over; any other failure ends the run.
pub open spec fn icicle_next(
    params: IcicleParams,
    stage: IcicleStage,
    event: IcicleEvent,
) -> IcicleStage {
    match (stage, event) {
        (IcicleStage::Ended(failed), _) => stage,
        (
            IcicleStage::Stopping { fuzzer, monitor, signal: Signal::Interrupt },
            IcicleEvent::Failed,
        ) => IcicleStage::Stopping { fuzzer, monitor, signal: Signal::Kill },
        (
            IcicleStage::StoppingFuzzer { fuzzer, signal: Signal::Interrupt },
            IcicleEvent::Failed,
        ) => IcicleStage::StoppingFuzzer { fuzzer, signal: Signal::Kill },
        (IcicleStage::CopyingMetadata(n), _) => copying_from(params, n + 1),
        (_, IcicleEvent::Failed) => IcicleStage::Ended(true),
        (IcicleStage::MakingDir, _) => IcicleStage::StartingFuzzer,
        (IcicleStage::StartingFuzzer, IcicleEvent::Started(fuzzer)) => IcicleStage::StartingMonitor {
            fuzzer,
        },
        (IcicleStage::StartingFuzzer, _) => IcicleStage::Ended(true),
        (
            IcicleStage::StartingMonitor { fuzzer },
            IcicleEvent::Started(monitor),
        ) => IcicleStage::Watching { fuzzer, monitor },
        (IcicleStage::StartingMonitor { .. }, _) => IcicleStage::Ended(true),
        (IcicleStage::Watching { fuzzer, monitor }, _) => IcicleStage::Stopping {
            fuzzer,
            monitor,
            signal: Signal::Interrupt,
        },
        (IcicleStage::Stopping { fuzzer, .. }, _) => IcicleStage::StoppingFuzzer {
            fuzzer,
            signal: Signal::Interrupt,
        },
        (IcicleStage::StoppingFuzzer { .. }, _) => IcicleStage::CopyingStats,
        (IcicleStage::CopyingStats, _) => if params.metadata_dir is Some {
            IcicleStage::MakingMetadataDir
        } else {
            IcicleStage::Ended(false)
        },
        (IcicleStage::MakingMetadataDir, _) => copying_from(params, 0),
    }
}

impl IcicleTask {
    /// Starts a run under `vars`: the working directory is created first.
    pub fn run(&self, vars: &Variables) -> (started: Result<(IcicleRun, IcicleAction), TaskError>)
        ensures
            match crate::vars::value_of(vars@, "WORKDIR"@) {
                None => started == Err::<(IcicleRun, IcicleAction), TaskError>(
                    TaskError::NoWorkdir,
                ),
                Some(workdir) => {
                    &&& started is Ok
                    &&& started->Ok_0.0.params() == icicle_params(*self, vars@, workdir)
                    &&& started->Ok_0.0.stage() == IcicleStage::MakingDir
                    &&& started->Ok_0.0.wf()
                    &&& started->Ok_0.1@ == icicle_action(
                        started->Ok_0.0.params(),
                        IcicleStage::MakingDir,
                    )
                },
            },
    {
        let workdir = match vars.get("WORKDIR") {
            None => return Err(TaskError::NoWorkdir),
            Some(workdir) => UnixPath::new(workdir),
        };
        let metadata_dir = match &self.metadata_dir {
            Some(dir) => Some(UnixPath::new(vars.expand_vars(dir.as_str()).as_str())),
            None => None,
        };
        let monitor_dir = match vars.get("MONITOR_DIR") {
            Some(dir) => Some(UnixPath::new(dir)),
            None => None,
        };
        let run = IcicleRun {
            workdir,
            fuzzer_command: self.fuzzer_command.clone(),
            monitor_command: self.monitor_command.clone(),
            stats: StatsCopy {
                src: UnixPath::new(vars.expand_vars(self.stats_src.as_str()).as_str()),
                dst: UnixPath::new(vars.expand_vars(self.stats_dst.as_str()).as_str()),
                header: self.stats_header.clone(),
            },
            metadata_dir,
            monitor_dir,
            stage: IcicleStage::MakingDir,
        };
        let action = run.action();
        Ok((run, action))
    }
}

impl IcicleRun {
    /// How far the run has come.
    pub closed spec fn stage(&self) -> IcicleStage {
        self.stage
    }

    /// What the run is about.
    pub closed spec fn params(&self) -> IcicleParams {
        IcicleParams {
            workdir: self.workdir@,
            fuzzer_command: self.fuzzer_command@,
            monitor_command: self.monitor_command@,
            stats: self.stats@,
            metadata_dir: crate::paths::path_view(self.metadata_dir),
            monitor_dir: crate::paths::path_view(self.monitor_dir),
        }
    }

    /// What the run left behind is copied only where there is a directory for it, and a file that
    /// is being copied is one of those.
    pub open spec fn wf(&self) -> bool {
        match self.stage() {
            IcicleStage::MakingMetadataDir => self.params().metadata_dir is Some,
            IcicleStage::CopyingMetadata(n) => self.params().metadata_dir is Some && n
                < metadata_copies(self.params()).len(),
            _ => true,
        }
    }

    /// What is said where the directory for what the run left behind cannot be created.
    pub fn metadata_context(&self) -> (text: Option<String>)
        ensures
            match (text, self.params().metadata_dir) {
                (Some(t), Some(dir)) => t@ == "failed to create "@ + crate::text::utf8_lossy(dir),
                (None, None) => true,
                _ => false,
            },
    {
        match &self.metadata_dir {
            Some(dir) => Some(copy_dir_context(dir)),
            None => None,
        }
    }

    /// What is said where the working directory cannot be created.
    pub fn workdir_context(&self) -> (text: String)
        ensures
            text@ == "failed to create WORKDIR: "@ + crate::text::utf8_lossy(self.params().workdir),
    {
        workdir_context(&self.workdir)
    }

    /// What is to be done at the stage that the run has come to.
    pub fn action(&self) -> (action: IcicleAction)
        requires
            self.wf(),
        ensures
            action@ == icicle_action(self.params(), self.stage()),
    {
        match self.stage {
            IcicleStage::MakingDir => IcicleAction::RunTask(mkdir_p_command(&self.workdir)),
            IcicleStage::StartingFuzzer => IcicleAction::Spawn(
                spawn_request(
                    &self.workdir,
                    &self.fuzzer_command,
                    "fuzzer.stdout",
                    "fuzzer.stderr",
                ),
            ),
            IcicleStage::StartingMonitor { .. } => IcicleAction::Spawn(
                spawn_request(
                    &self.workdir,
                    &self.monitor_command,
                    "monitor.stdout",
                    "monitor.stderr",
                ),
            ),
            IcicleStage::Watching { fuzzer, monitor } => IcicleAction::Watch { fuzzer, monitor },
            IcicleStage::Stopping { fuzzer: _, monitor, signal } => IcicleAction::SendSignal {
                pid: monitor,
                signal,
            },
            IcicleStage::StoppingFuzzer { fuzzer, signal } => IcicleAction::SendSignal {
                pid: fuzzer,
                signal,
            },
            IcicleStage::CopyingStats => IcicleAction::CopyStats(self.stats.clone()),
            IcicleStage::MakingMetadataDir => match &self.metadata_dir {
                Some(dir) => IcicleAction::MakeMetadataDir(dir.clone()),
                None => IcicleAction::Done,
            },
            IcicleStage::CopyingMetadata(n) => match &self.metadata_dir {
                Some(dir) => {
                    let copies = copy_fuzzing_metadata(&self.workdir, &self.monitor_dir, dir);
                    assert(metadata_copies(self.params())
                        == crate::icicle::files::copies_view(copies@));
                    IcicleAction::CopyMetadata(copies[n].clone())
                },
                None => IcicleAction::Done,
            },
            IcicleStage::Ended(failed) => if failed {
                IcicleAction::Failed
            } else {
                IcicleAction::Done
            },
        }
    }

    /// Goes on after file number `n` of those that the run left behind.
    fn copy_on(&self, n: usize) -> (stage: IcicleStage)
        requires
            n < metadata_copies(self.params()).len(),
        ensures
            stage == copying_from(self.params(), n + 1),
    {
        let count: usize = if self.monitor_dir.is_some() {
            6
        } else {
            4
        };
        if n + 1 < count {
            IcicleStage::CopyingMetadata(n + 1)
        } else {
            IcicleStage::Ended(false)
        }
    }

    /// What follows `event`.
    pub fn step(&mut self, event: IcicleEvent) -> (action: IcicleAction)
        requires
            old(self).wf(),
        ensures
            final(self).wf(),
            final(self).params() == old(self).params(),
            final(self).stage() == icicle_next(old(self).params(), old(self).stage(), event),
            action@ == icicle_action(final(self).params(), final(self).stage()),
    {
        let failed = event == IcicleEvent::Failed;
        self.stage = match self.stage {
            IcicleStage::Ended(over) => IcicleStage::Ended(over),
            IcicleStage::Stopping { fuzzer, monitor, signal } => if !failed {
                IcicleStage::StoppingFuzzer { fuzzer, signal: Signal::Interrupt }
            } else if signal == Signal::Interrupt {
                IcicleStage::Stopping { fuzzer, monitor, signal: Signal::Kill }
            } else {
                IcicleStage::Ended(true)
            },
            IcicleStage::StoppingFuzzer { fuzzer, signal } => if !failed {
                IcicleStage::CopyingStats
            } else if signal == Signal::Interrupt {
                IcicleStage::StoppingFuzzer { fuzzer, signal: Signal::Kill }
            } else {
                IcicleStage::Ended(true)
            },
            IcicleStage::CopyingMetadata(n) => self.copy_on(n),
            stage => if failed {
                IcicleStage::Ended(true)
            } else {
                match stage {
                    IcicleStage::MakingDir => IcicleStage::StartingFuzzer,
                    IcicleStage::StartingFuzzer => match event {
                        IcicleEvent::Started(fuzzer) => IcicleStage::StartingMonitor { fuzzer },
                        _ => IcicleStage::Ended(true),
                    },
                    IcicleStage::StartingMonitor { fuzzer } => match event {
                        IcicleEvent::Started(monitor) => IcicleStage::Watching { fuzzer, monitor },
                        _ => IcicleStage::Ended(true),
                    },
                    IcicleStage::Watching { fuzzer, monitor } => IcicleStage::Stopping {
                        fuzzer,
                        monitor,
                        signal: Signal::Interrupt,
                    },
                    IcicleStage::CopyingStats => if self.metadata_dir.is_some() {
                        IcicleStage::MakingMetadataDir
                    } else {
                        IcicleStage::Ended(false)
                    },
                    _ => IcicleStage::CopyingMetadata(0),
                }
            },
        };
        self.action()
    }
}

// ---------------------------------------------------------------------------------------------
// What holds of a whole run
// ---------------------------------------------------------------------------------------------

/// The stage that a run has come to after `events`.
pub open spec fn icicle_after(params: IcicleParams, events: Seq<IcicleEvent>) -> IcicleStage
    decreases events.len(),
{
    if events.len() == 0 {
        IcicleStage::MakingDir
    } else {
        icicle_next(params, icicle_after(params, events.drop_last()), events.last())
    }
}

/// Event `i` tells that the monitor was stopped.
pub open spec fn monitor_stopped(params: IcicleParams, events: Seq<IcicleEvent>, i: int) -> bool {
    0 <= i < events.len() && icicle_after(params, events.take(i)) is Stopping && !(
    events[i] is Failed)
}

/// Event `i` tells that the fuzzer was stopped.
pub open spec fn fuzzer_stopped(params: IcicleParams, events: Seq<IcicleEvent>, i: int) -> bool {
    0 <= i < events.len() && icicle_after(params, events.take(i)) is StoppingFuzzer && !(
    events[i] is Failed)
}

/// Nothing is copied, and no run is complete, before the monitor and then the fuzzer were stopped.
pub proof fn lemma_copies_after_stop(params: IcicleParams, events: Seq<IcicleEvent>)
    ensures
        icicle_after(params, events) is StoppingFuzzer ==> exists|i: int|
            monitor_stopped(params, events, i),
        icicle_after(params, events) is CopyingStats || icicle_after(params, events)
            is MakingMetadataDir || icicle_after(params, events) is CopyingMetadata || icicle_after(
            params,
            events,
        ) == IcicleStage::Ended(false) ==> exists|i: int, j: int|
            i < j && #[trigger] monitor_stopped(params, events, i) && #[trigger] fuzzer_stopped(
                params,
                events,
                j,
            ),
    decreases events.len(),
{
    if events.len() > 0 {
        let before = events.drop_last();
        let n = events.len() - 1;
        lemma_copies_after_stop(params, before);
        assert(events.take(n) =~= before);
        assert forall|i: int| monitor_stopped(params, before, i) implies monitor_stopped(
            params,
            events,
            i,
        ) by {
            assert(events.take(i) =~= before.take(i));
        }
        assert forall|i: int| fuzzer_stopped(params, before, i) implies fuzzer_stopped(
            params,
            events,
            i,
        ) by {
            assert(events.take(i) =~= before.take(i));
        }
        let stage = icicle_after(params, before);
        let after = icicle_after(params, events);
        if stage is Stopping && after is StoppingFuzzer {
            assert(monitor_stopped(params, events, n));
        } else if stage is StoppingFuzzer {
            let i = choose|i: int| monitor_stopped(params, before, i);
            assert(monitor_stopped(params, events, i));
            if after is CopyingStats {
                assert(fuzzer_stopped(params, events, n));
            }
        } else if stage is CopyingStats || stage is MakingMetadataDir || stage is CopyingMetadata
            || stage
            == IcicleStage::Ended(false) {
            let (i, j) = choose|i: int, j: int|
                i < j && #[trigger] monitor_stopped(params, before, i)
                    && #[trigger] fuzzer_stopped(params, before, j);
            assert(monitor_stopped(params, events, i) && fuzzer_stopped(params, events, j));
        }
    }
}

/// A process is killed only after it could not be interrupted.
pub proof fn lemma_kill_follows_failed_interrupt(params: IcicleParams, events: Seq<IcicleEvent>)
    ensures
        icicle_after(params, events) matches IcicleStage::Stopping {
            fuzzer,
            monitor,
            signal: Signal::Kill,
        } ==> events.len() > 0 && events.last() is Failed && icicle_after(
            params,
            events.drop_last(),
        ) == (IcicleStage::Stopping { fuzzer, monitor, signal: Signal::Interrupt }),
        icicle_after(params, events) matches IcicleStage::StoppingFuzzer {
            fuzzer,
            signal: Signal::Kill,
        } ==> events.len() > 0 && events.last() is Failed && icicle_after(
            params,
            events.drop_last(),
        ) == (IcicleStage::StoppingFuzzer { fuzzer, signal: Signal::Interrupt }),
{
}

/// The processes that are watched and stopped are those that were started.
pub proof fn lemma_started_are_stopped(params: IcicleParams, events: Seq<IcicleEvent>)
    ensures
        match icicle_after(params, events) {
            IcicleStage::MakingDir => events.len() == 0,
            IcicleStage::StartingFuzzer => events.len() == 1,
            IcicleStage::StartingMonitor { fuzzer } => events.len() == 2 && events[1]
                == IcicleEvent::Started(fuzzer),
            IcicleStage::Watching { fuzzer, monitor } => events.len() == 3 && events[1]
                == IcicleEvent::Started(fuzzer) && events[2] == IcicleEvent::Started(monitor),
            IcicleStage::Stopping { fuzzer, monitor, .. } => events.len() > 3 && events[1]
                == IcicleEvent::Started(fuzzer) && events[2] == IcicleEvent::Started(monitor),
            IcicleStage::StoppingFuzzer { fuzzer, .. } => events.len() > 3 && events[1]
                == IcicleEvent::Started(fuzzer),
            _ => true,
        },
    decreases events.len(),
{
    if events.len() > 0 {
        lemma_started_are_stopped(params, events.drop_last());
    }
}

/// Once the directory for what the run left behind is there, every file is tried in turn, and the
/// run is complete after the last, whichever of them cannot be copied.
pub proof fn lemma_every_file_is_tried(params: IcicleParams, events: Seq<IcicleEvent>, at: int)
    requires
        0 <= at < events.len(),
        icicle_after(params, events.take(at)) is MakingMetadataDir,
        !(events[at] is Failed),
    ensures
        icicle_after(params, events) == copying_from(params, events.len() - at - 1),
    decreases events.len(),
{
    let before = events.drop_last();
    if at == before.len() {
        assert(events.take(at) =~= before);
    } else {
        assert(before.take(at) =~= events.take(at));
        lemma_every_file_is_tried(params, before, at);
        assert(metadata_copies(params).len() <= 6);
    }
}

/// What a run asks for after `events`.
pub open spec fn asked_after(params: IcicleParams, events: Seq<IcicleEvent>) -> IcicleActionView {
    icicle_action(params, icicle_after(params, events))
}

/// The fuzzer and the monitor were started, as the processes `fuzzer` and `monitor`, and nothing
/// went wrong before the files that the run left behind.
pub open spec fn goes_well(events: Seq<IcicleEvent>, fuzzer: u64, monitor: u64) -> bool {
    &&& events.len() > 1 ==> events[1] == IcicleEvent::Started(fuzzer)
    &&& events.len() > 2 ==> events[2] == IcicleEvent::Started(monitor)
    &&& forall|i: int| 0 <= i < events.len() && i < 8 ==> !(#[trigger] events[i] is Failed)
}

/// A run that goes well creates its working directory, starts the fuzzer and then the monitor with
/// their output in that directory, watches both, interrupts the monitor and then the fuzzer, and
/// copies the statistics. Both commands are the task's, and the paths are those of the task with the
/// variables in them replaced.
pub proof fn lemma_run_in_order(
    task: IcicleTask,
    vars: Seq<(Seq<char>, Seq<char>)>,
    workdir: Seq<char>,
    fuzzer: u64,
    monitor: u64,
    events: Seq<IcicleEvent>,
)
    requires
        goes_well(events, fuzzer, monitor),
    ensures
        ({
            let asked = asked_after(icicle_params(task, vars, workdir), events);
            let dir = encode_utf8(workdir);
            let n = events.len();
            &&& n == 0 ==> asked == IcicleActionView::RunTask(
                RunCommandView {
                    program: encode_utf8("mkdir"@),
                    args: seq![encode_utf8("-p"@), dir],
                    stdin: crate::agent::StdioView::Capture,
                    stdout: crate::agent::StdioView::Capture,
                    stderr: crate::agent::StdioView::Capture,
                },
            )
            &&& n == 1 ==> asked == IcicleActionView::Spawn(
                SpawnRequestView {
                    command: task.fuzzer_command@,
                    stdin: crate::agent::StdioView::Null,
                    stdout: crate::agent::StdioView::File(
                        crate::paths::joined(dir, encode_utf8("fuzzer.stdout"@)),
                    ),
                    stderr: crate::agent::StdioView::File(
                        crate::paths::joined(dir, encode_utf8("fuzzer.stderr"@)),
                    ),
                },
            )
            &&& n == 2 ==> asked == IcicleActionView::Spawn(
                SpawnRequestView {
                    command: task.monitor_command@,
                    stdin: crate::agent::StdioView::Null,
                    stdout: crate::agent::StdioView::File(
                        crate::paths::joined(dir, encode_utf8("monitor.stdout"@)),
                    ),
                    stderr: crate::agent::StdioView::File(
                        crate::paths::joined(dir, encode_utf8("monitor.stderr"@)),
                    ),
                },
            )
            &&& n == 3 ==> asked == (IcicleActionView::Watch { fuzzer, monitor })
            &&& n == 4 ==> asked == (IcicleActionView::SendSignal {
                pid: monitor,
                signal: Signal::Interrupt,
            })
            &&& n == 5 ==> asked == (IcicleActionView::SendSignal {
                pid: fuzzer,
                signal: Signal::Interrupt,
            })
            &&& n == 6 ==> asked == IcicleActionView::CopyStats(
                StatsCopyView {
                    src: encode_utf8(crate::vars::expanded(vars, task.stats_src@)),
                    dst: encode_utf8(crate::vars::expanded(vars, task.stats_dst@)),
                    header: task.stats_header@,
                },
            )
            &&& n > 6 && task.metadata_dir is None ==> asked == IcicleActionView::Done
        }),
{
    lemma_stage_in_order(icicle_params(task, vars, workdir), fuzzer, monitor, events);
}

/// What a run leaves behind is copied to the directory that the task names for it, which is created
/// before: the output of the monitor and of the fuzzer from the working directory, and then, where
/// `MONITOR_DIR` is set, the two files of the monitor from there. Each is copied once, under its own
/// name, and whether or not the others could be; then the run is complete.
pub proof fn lemma_metadata_in_order(
    task: IcicleTask,
    vars: Seq<(Seq<char>, Seq<char>)>,
    workdir: Seq<char>,
    fuzzer: u64,
    monitor: u64,
    events: Seq<IcicleEvent>,
)
    requires
        goes_well(events, fuzzer, monitor),
        task.metadata_dir is Some,
        events.len() > 6,
    ensures
        ({
            let asked = asked_after(icicle_params(task, vars, workdir), events);
            let from = encode_utf8(workdir);
            let to = encode_utf8(crate::vars::expanded(vars, task.metadata_dir->0@));
            let n = events.len();
            &&& n == 7 ==> asked == IcicleActionView::MakeMetadataDir(to)
            &&& n == 8 ==> asked == IcicleActionView::CopyMetadata(
                (
                    crate::paths::joined(from, encode_utf8("monitor.stdout"@)),
                    crate::paths::joined(to, encode_utf8("monitor.stdout"@)),
                ),
            )
            &&& n == 9 ==> asked == IcicleActionView::CopyMetadata(
                (
                    crate::paths::joined(from, encode_utf8("monitor.stderr"@)),
                    crate::paths::joined(to, encode_utf8("monitor.stderr"@)),
                ),
            )
            &&& n == 10 ==> asked == IcicleActionView::CopyMetadata(
                (
                    crate::paths::joined(from, encode_utf8("fuzzer.stdout"@)),
                    crate::paths::joined(to, encode_utf8("fuzzer.stdout"@)),
                ),
            )
            &&& n == 11 ==> asked == IcicleActionView::CopyMetadata(
                (
                    crate::paths::joined(from, encode_utf8("fuzzer.stderr"@)),
                    crate::paths::joined(to, encode_utf8("fuzzer.stderr"@)),
                ),
            )
            &&& match crate::vars::value_of(vars, "MONITOR_DIR"@) {
                Some(dir) => {
                    &&& n == 12 ==> asked == IcicleActionView::CopyMetadata(
                        (
                            crate::paths::joined(
                                encode_utf8(dir),
                                encode_utf8("hit_blocks.json"@),
                            ),
                            crate::paths::joined(to, encode_utf8("hit_blocks.json"@)),
                        ),
                    )
                    &&& n == 13 ==> asked == IcicleActionView::CopyMetadata(
                        (
                            crate::paths::joined(
                                encode_utf8(dir),
                                encode_utf8("input_graph.json"@),
                            ),
                            crate::paths::joined(to, encode_utf8("input_graph.json"@)),
                        ),
                    )
                    &&& n > 13 ==> asked == IcicleActionView::Done
                },
                None => n > 11 ==> asked == IcicleActionView::Done,
            }
        }),
{
    lemma_stage_in_order(icicle_params(task, vars, workdir), fuzzer, monitor, events);
}

/// The stage that a run that goes well has come to.
proof fn lemma_stage_in_order(
    params: IcicleParams,
    fuzzer: u64,
    monitor: u64,
    events: Seq<IcicleEvent>,
)
    requires
        goes_well(events, fuzzer, monitor),
    ensures
        ({
            let n = events.len();
            let stage = icicle_after(params, events);
            &&& n == 0 ==> stage == IcicleStage::MakingDir
            &&& n == 1 ==> stage == IcicleStage::StartingFuzzer
            &&& n == 2 ==> stage == (IcicleStage::StartingMonitor { fuzzer })
            &&& n == 3 ==> stage == (IcicleStage::Watching { fuzzer, monitor })
            &&& n == 4 ==> stage == (IcicleStage::Stopping {
                fuzzer,
                monitor,
                signal: Signal::Interrupt,
            })
            &&& n == 5 ==> stage == (IcicleStage::StoppingFuzzer {
                fuzzer,
                signal: Signal::Interrupt,
            })
            &&& n == 6 ==> stage == IcicleStage::CopyingStats
            &&& n > 6 && params.metadata_dir is None ==> stage == IcicleStage::Ended(false)
            &&& n == 7 && params.metadata_dir is Some ==> stage == IcicleStage::MakingMetadataDir
            &&& n > 7 && params.metadata_dir is Some ==> stage == copying_from(params, n - 8)
        }),
    decreases events.len(),
{
    if events.len() > 0 {
        let before = events.drop_last();
        assert forall|i: int| 0 <= i < before.len() && i < 8 implies !(
        #[trigger] before[i] is Failed) by {
            assert(before[i] == events[i]);
        }
        lemma_stage_in_order(params, fuzzer, monitor, before);
        if events.len() <= 8 {
            assert(!(events[events.len() - 1] is Failed));
        }
        assert(metadata_copies(params).len() <= 6);
    }
}

/// A run that cannot create its working directory, start or watch its processes, copy the statistics
/// or create the directory for what it leaves behind goes wrong, and so does one that is not told
/// which process it started. A monitor that cannot be
/// interrupted is killed, and so is a fuzzer; after that the run goes on as if it had been
/// interrupted, and it goes wrong where it cannot be killed either.
pub proof fn lemma_run_goes_wrong(
    task: IcicleTask,
    vars: Seq<(Seq<char>, Seq<char>)>,
    workdir: Seq<char>,
    fuzzer: u64,
    monitor: u64,
    events: Seq<IcicleEvent>,
)
    requires
        goes_well(events, fuzzer, monitor),
        events.len() < 7 || events.len() == 7 && task.metadata_dir is Some,
    ensures
        ({
            let params = icicle_params(task, vars, workdir);
            let failed = events.push(IcicleEvent::Failed);
            if events.len() == 4 {
                &&& asked_after(params, failed) == (IcicleActionView::SendSignal {
                    pid: monitor,
                    signal: Signal::Kill,
                })
                &&& icicle_after(params, failed.push(IcicleEvent::Succeeded)) == icicle_after(
                    params,
                    events.push(IcicleEvent::Succeeded),
                )
                &&& asked_after(params, failed.push(IcicleEvent::Failed))
                    == IcicleActionView::Failed
            } else if events.len() == 5 {
                &&& asked_after(params, failed) == (IcicleActionView::SendSignal {
                    pid: fuzzer,
                    signal: Signal::Kill,
                })
                &&& icicle_after(params, failed.push(IcicleEvent::Succeeded)) == icicle_after(
                    params,
                    events.push(IcicleEvent::Succeeded),
                )
                &&& asked_after(params, failed.push(IcicleEvent::Failed))
                    == IcicleActionView::Failed
            } else {
                &&& asked_after(params, failed) == IcicleActionView::Failed
                &&& events.len() == 1 || events.len() == 2 ==> asked_after(
                    params,
                    events.push(IcicleEvent::Succeeded),
                ) == IcicleActionView::Failed
            }
        }),
{
    let params = icicle_params(task, vars, workdir);
    let failed = events.push(IcicleEvent::Failed);
    lemma_stage_in_order(params, fuzzer, monitor, events);
    assert(failed.drop_last() =~= events);
    assert(events.push(IcicleEvent::Succeeded).drop_last() =~= events);
    assert(failed.push(IcicleEvent::Succeeded).drop_last() =~= failed);
    assert(failed.push(IcicleEvent::Failed).drop_last() =~= failed);
}

/// A reference in a path of a task stands for the variable that it names: the statistics are copied
/// from, and to, the path with the value in its place.
pub proof fn lemma_paths_are_expanded(
    task: IcicleTask,
    vars: Seq<(Seq<char>, Seq<char>)>,
    workdir: Seq<char>,
    before: Seq<char>,
    name: Seq<char>,
    value: Seq<char>,
    after: Seq<char>,
)
    requires
        !before.contains('{'),
        !name.contains('}'),
        !after.contains('{'),
        crate::vars::value_of(vars, name) == Some(value),
    ensures
        ({
            let template = before + seq!['{'] + name + seq!['}'] + after;
            let path = encode_utf8(before + value + after);
            let params = icicle_params(task, vars, workdir);
            &&& task.stats_src@ == template ==> params.stats.src == path
            &&& task.stats_dst@ == template ==> params.stats.dst == path
            &&& task.metadata_dir matches Some(dir) ==> dir@ == template ==> params.metadata_dir
                == Some(path)
            &&& params.stats.header == task.stats_header@
            &&& params.workdir == encode_utf8(workdir)
        }),
{
    crate::vars::lemma_expand_one(vars, before, name, value, after);
}

/// Once a run has ended it asks for nothing more: what it said last it says to whatever comes.
pub proof fn lemma_run_stays_ended(
    params: IcicleParams,
    events: Seq<IcicleEvent>,
    next: IcicleEvent,
)
    requires
        asked_after(params, events) is Done || asked_after(params, events) is Failed,
    ensures
        asked_after(params, events.push(next)) == asked_after(params, events),
{
    assert(events.push(next).drop_last() =~= events);
}

} // verus!
