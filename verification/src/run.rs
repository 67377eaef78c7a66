//! What the harness does from start to end.

use vstd::prelude::*;
use vstd::string::*;

use crate::args::{Args, Command, CommandView};
use crate::config::{config_files, ConfigFile, ConfigFileView};
use crate::paths::UnixPath;

verus! {

/// What is to be done next.
#[derive(Debug)]
pub enum RunAction<'a> {
    /// Read the configuration.
    Load(UnixPath),
    /// Read a further file and merge it into the configuration.
    Merge(ConfigFile),
    /// Create the directory that images are kept in.
    CreateCache,
    /// Do what the command says.
    Execute(&'a Command),
    /// Nothing: the command was carried out.
    Done,
    /// Nothing: the last action failed.
    Failed,
}

/// A [`RunAction`] over its characters and bytes.
pub enum RunActionView {
    Load(Seq<u8>),
    Merge(ConfigFileView),
    CreateCache,
    Execute(CommandView),
    Done,
    Failed,
}

impl<'a> View for RunAction<'a> {
    type V = RunActionView;

    open spec fn view(&self) -> RunActionView {
        match self {
            RunAction::Load(path) => RunActionView::Load(path@),
            RunAction::Merge(file) => RunActionView::Merge(file@),
            RunAction::CreateCache => RunActionView::CreateCache,
            RunAction::Execute(command) => RunActionView::Execute(command@),
            RunAction::Done => RunActionView::Done,
            RunAction::Failed => RunActionView::Failed,
        }
    }
}

/// What became of the last action.
#[derive(Debug)]
pub enum RunEvent {
    /// The configuration was read; the files that it names.
    Loaded { plain: Vec<UnixPath>, templates: Vec<UnixPath> },
    /// It succeeded.
    Succeeded,
    /// It failed.
    Failed,
}

/// A [`RunEvent`] over its bytes.
pub enum RunEventView {
    Loaded { plain: Seq<Seq<u8>>, templates: Seq<Seq<u8>> },
    Succeeded,
    Failed,
}

impl View for RunEvent {
    type V = RunEventView;

    open spec fn view(&self) -> RunEventView {
        match self {
            RunEvent::Loaded { plain, templates } => RunEventView::Loaded {
                plain: crate::paths::paths_view(plain@),
                templates: crate::paths::paths_view(templates@),
            },
            RunEvent::Succeeded => RunEventView::Succeeded,
            RunEvent::Failed => RunEventView::Failed,
        }
    }
}

/// How far the harness has come.
#[derive(Debug, Clone, Copy, PartialEq, Eq, Structural)]
pub enum RunStage {
    /// The configuration is being read.
    Loading,
    /// The file of this number is being merged.
    Merging(usize),
    /// The directory for images is being created.
    CreatingCache,
    /// The command is being carried out.
    Executing,
    /// Everything is done; the flag tells whether something failed.
    Ended(bool),
}

/// How far the harness has come, and the files that it merges.
#[verifier::ext_equal]
pub struct RunState {
    pub files: Seq<ConfigFileView>,
    pub stage: RunStage,
}

/// What is to be done at a stage.
pub open spec fn run_action(
    config: Seq<u8>,
    command: CommandView,
    state: RunState,
) -> RunActionView {
    match state.stage {
        RunStage::Loading => RunActionView::Load(config),
        RunStage::Merging(n) => RunActionView::Merge(state.files[n as int]),
        RunStage::CreatingCache => RunActionView::CreateCache,
        RunStage::Executing => RunActionView::Execute(command),
        RunStage::Ended(failed) => if failed {
            RunActionView::Failed
        } else {
            RunActionView::Done
        },
    }
}

/// Goes on to merge files, from number `n` on.
pub open spec fn from_file(files: Seq<ConfigFileView>, n: int) -> RunState {
    RunState {
        files,
        stage: if n < files.len() {
            RunStage::Merging(n as usize)
        } else {
            RunStage::CreatingCache
        },
    }
}

/// What follows an event. The files of the configuration are found from the directory that the
/// configuration is in; whatever fails is the last that is done.
pub open spec fn run_next(config: Seq<u8>, state: RunState, event: RunEventView) -> RunState {
    match (state.stage, event) {
        (RunStage::Ended(_), _) => state,
        (_, RunEventView::Failed) => RunState { stage: RunStage::Ended(true), ..state },
        (RunStage::Loading, RunEventView::Loaded { plain, templates }) => from_file(
            crate::config::config_files_spec(
                crate::paths::parent_of(config),
                plain,
                templates,
            ),
            0,
        ),
        (RunStage::Loading, _) => RunState { stage: RunStage::Ended(true), ..state },
        (RunStage::Merging(n), _) => from_file(state.files, n + 1),
        (RunStage::CreatingCache, _) => RunState { stage: RunStage::Executing, ..state },
        (RunStage::Executing, _) => RunState { stage: RunStage::Ended(false), ..state },
    }
}

/// A call of the harness.
pub struct HarnessRun<'a> {
    args: &'a Args,
    files: Vec<ConfigFile>,
    stage: RunStage,
}

impl<'a> View for HarnessRun<'a> {
    type V = RunState;

    closed spec fn view(&self) -> RunState {
        RunState { files: crate::config::files_view(self.files@), stage: self.stage }
    }
}

/// Starts a call of the harness: its configuration is read first.
pub fn run<'a>(args: &'a Args) -> (started: (HarnessRun<'a>, RunAction<'a>))
    ensures
        started.0.wf(),
        started.0.config() == args.config@,
        started.0.command() == args.command@,
        started.0@ == run_start(),
        started.1@ == run_action(args.config@, args.command@, run_start()),
{
    let run = HarnessRun { args, files: Vec::new(), stage: RunStage::Loading };
    assert(run@ =~= run_start());
    let action = run.action();
    (run, action)
}

/// Nothing is done yet.
pub open spec fn run_start() -> RunState {
    RunState { files: Seq::empty(), stage: RunStage::Loading }
}

impl<'a> HarnessRun<'a> {
    /// The path of the configuration.
    pub closed spec fn config(&self) -> Seq<u8> {
        self.args.config@
    }

    /// The command.
    pub closed spec fn command(&self) -> CommandView {
        self.args.command@
    }

    /// A file that is being merged is there.
    pub open spec fn wf(&self) -> bool {
        self@.stage matches RunStage::Merging(n) ==> n < self@.files.len()
    }

    fn action(&self) -> (action: RunAction<'a>)
        requires
            self.wf(),
        ensures
            action@ == run_action(self.config(), self.command(), self@),
    {
        match self.stage {
            RunStage::Loading => RunAction::Load(self.args.config.clone()),
            RunStage::Merging(n) => RunAction::Merge(self.files[n].clone()),
            RunStage::CreatingCache => RunAction::CreateCache,
            RunStage::Executing => RunAction::Execute(&self.args.command),
            RunStage::Ended(failed) => if failed {
                RunAction::Failed
            } else {
                RunAction::Done
            },
        }
    }

    /// What follows `event`.
    pub fn step(&mut self, event: RunEvent) -> (action: RunAction<'a>)
        requires
            old(self).wf(),
        ensures
            final(self).wf(),
            final(self).config() == old(self).config(),
            final(self).command() == old(self).command(),
            final(self)@ == run_next(old(self).config(), old(self)@, event@),
            action@ == run_action(final(self).config(), final(self).command(), final(self)@),
    {
        let ghost before = self@;
        match self.stage {
            RunStage::Ended(_) => {},
            stage => match (stage, event) {
                (_, RunEvent::Failed) => {
                    self.stage = RunStage::Ended(true);
                },
                (RunStage::Loading, RunEvent::Loaded { plain, templates }) => {
                    let parent = self.args.config.parent();
                    self.files = config_files(&parent, &plain, &templates);
                    self.merge_from(0);
                },
                (RunStage::Loading, _) => {
                    self.stage = RunStage::Ended(true);
                },
                (RunStage::Merging(n), _) => {
                    let count: usize = self.files.len();
                    assert(before.files.len() == count);
                    self.merge_from(n + 1);
                },
                (RunStage::CreatingCache, _) => {
                    self.stage = RunStage::Executing;
                },
                _ => {
                    self.stage = RunStage::Ended(false);
                },
            },
        }
        self.action()
    }

    fn merge_from(&mut self, n: usize)
        ensures
            final(self).args == old(self).args,
            final(self)@ == from_file(old(self)@.files, n as int),
    {
        self.stage = if n < self.files.len() {
            RunStage::Merging(n)
        } else {
            RunStage::CreatingCache
        };
    }
}

/// What is said of a file that cannot be merged.
pub fn merge_context(path: &UnixPath) -> (text: String)
    ensures
        text@ == "error loading config from "@ + crate::text::utf8_lossy(path@),
{
    let mut text = "error loading config from ".to_string();
    text.append(path.display().as_str());
    text
}

/// What is said of a directory for images that cannot be created.
pub fn cache_context(path: &UnixPath) -> (text: String)
    ensures
        text@ == "error creating cache directory "@ + crate::text::utf8_lossy(path@),
{
    let mut text = "error creating cache directory ".to_string();
    text.append(path.display().as_str());
    text
}

// ---------------------------------------------------------------------------------------------
// What holds of a whole call
// ---------------------------------------------------------------------------------------------

/// How far the harness has come after `events`.
pub open spec fn run_after(config: Seq<u8>, events: Seq<RunEventView>) -> RunState
    decreases events.len(),
{
    if events.len() == 0 {
        run_start()
    } else {
        run_next(config, run_after(config, events.drop_last()), events.last())
    }
}

/// What the harness asks for over `events`, in order, beginning with what it asks for before them.
/// To end is to ask for nothing.
pub open spec fn asked(
    config: Seq<u8>,
    command: CommandView,
    events: Seq<RunEventView>,
) -> Seq<RunActionView>
    decreases events.len(),
{
    let action = run_action(config, command, run_after(config, events));
    let before = if events.len() == 0 {
        Seq::empty()
    } else {
        asked(config, command, events.drop_last())
    };
    if action is Done || action is Failed {
        before
    } else {
        before.push(action)
    }
}

/// Everything that a call asks for, where the configuration names these files.
pub open spec fn whole_run(
    config: Seq<u8>,
    command: CommandView,
    plain: Seq<Seq<u8>>,
    templates: Seq<Seq<u8>>,
) -> Seq<RunActionView> {
    let files = crate::config::config_files_spec(
        crate::paths::parent_of(config),
        plain,
        templates,
    );
    seq![RunActionView::Load(config)] + files.map_values(
        |file: ConfigFileView| RunActionView::Merge(file),
    ) + seq![RunActionView::CreateCache, RunActionView::Execute(command)]
}

/// Where nothing fails, the configuration is read, its files are merged in order, the directory for
/// images is created and the command is carried out, each once and in this order.
pub proof fn lemma_run_in_order(
    config: Seq<u8>,
    command: CommandView,
    plain: Seq<Seq<u8>>,
    templates: Seq<Seq<u8>>,
    events: Seq<RunEventView>,
)
    requires
        plain.len() + templates.len() <= usize::MAX,
        events.len() > 0,
        events[0] == (RunEventView::Loaded { plain, templates }),
        forall|i: int| 0 <= i < events.len() ==> !(#[trigger] events[i] is Failed),
    ensures
        events.len() >= plain.len() + templates.len() + 3 ==> asked(config, command, events)
            == whole_run(config, command, plain, templates) && run_action(
            config,
            command,
            run_after(config, events),
        ) is Done,
        events.len() < plain.len() + templates.len() + 3 ==> asked(config, command, events)
            == whole_run(config, command, plain, templates).take(events.len() as int + 1),
    decreases events.len(),
{
    let files = crate::config::config_files_spec(
        crate::paths::parent_of(config),
        plain,
        templates,
    );
    let all = whole_run(config, command, plain, templates);
    let n = files.len() as int;
    lemma_stage_of(config, plain, templates, events);
    let before = events.drop_last();
    if before.len() == 0 {
        assert(before =~= Seq::<RunEventView>::empty());
        assert(asked(config, command, before) =~= seq![RunActionView::Load(config)]);
        assert(asked(config, command, events) =~= all.take(2));
    } else {
        assert forall|i: int| 0 <= i < before.len() implies !(#[trigger] before[i] is Failed) by {
            assert(!(events[i] is Failed));
        }
        lemma_run_in_order(config, command, plain, templates, before);
        if events.len() < n + 3 {
            assert(asked(config, command, events) =~= all.take(events.len() as int + 1));
        } else if events.len() == n + 3 {
            assert(all.take(before.len() as int + 1) =~= all);
        }
    }
}

/// The stage that a call without a failure has come to.
proof fn lemma_stage_of(
    config: Seq<u8>,
    plain: Seq<Seq<u8>>,
    templates: Seq<Seq<u8>>,
    events: Seq<RunEventView>,
)
    requires
        plain.len() + templates.len() <= usize::MAX,
        events.len() > 0,
        events[0] == (RunEventView::Loaded { plain, templates }),
        forall|i: int| 0 <= i < events.len() ==> !(#[trigger] events[i] is Failed),
    ensures
        ({
            let files = crate::config::config_files_spec(
                crate::paths::parent_of(config),
                plain,
                templates,
            );
            let n = files.len() as int;
            let k = events.len() as int;
            run_after(config, events) == RunState {
                files,
                stage: if k <= n {
                    RunStage::Merging((k - 1) as usize)
                } else if k == n + 1 {
                    RunStage::CreatingCache
                } else if k == n + 2 {
                    RunStage::Executing
                } else {
                    RunStage::Ended(false)
                },
            }
        }),
    decreases events.len(),
{
    let before = events.drop_last();
    assert(!(events[events.len() - 1] is Failed));
    if before.len() == 0 {
        assert(before =~= Seq::<RunEventView>::empty());
        assert(run_after(config, before) == run_start());
    } else {
        assert forall|i: int| 0 <= i < before.len() implies !(#[trigger] before[i] is Failed) by {
            assert(!(events[i] is Failed));
        }
        lemma_stage_of(config, plain, templates, before);
    }
}

/// Whatever fails is the last that is done: nothing is asked for after the first failure, neither a
/// further file nor the directory for images nor the command.
pub proof fn lemma_failure_is_last(
    config: Seq<u8>,
    command: CommandView,
    events: Seq<RunEventView>,
    at: int,
)
    requires
        0 <= at < events.len(),
        events[at] is Failed,
        !(run_after(config, events.take(at)).stage is Ended),
    ensures
        run_action(config, command, run_after(config, events)) is Failed,
        asked(config, command, events) == asked(config, command, events.take(at)),
    decreases events.len(),
{
    let before = events.drop_last();
    if at == before.len() {
        assert(events.take(at) =~= before);
    } else {
        assert(before.take(at) =~= events.take(at));
        lemma_failure_is_last(config, command, before, at);
    }
}

/// The files that a configuration names are found beside it, wherever the harness is called from;
/// one with an absolute path is found there.
pub proof fn lemma_entries_stand_beside_config(
    dir: Seq<u8>,
    name: Seq<u8>,
    plain: Seq<Seq<u8>>,
    templates: Seq<Seq<u8>>,
)
    requires
        crate::paths::tidied(dir, crate::paths::body_start(dir)) == dir,
        name.len() > 0,
        !name.contains(crate::paths::SEPARATOR),
        name != seq![crate::paths::DOT],
    ensures
        ({
            let files = crate::config::config_files_spec(
                crate::paths::parent_of(crate::paths::joined(dir, name)),
                plain,
                templates,
            );
            &&& files.len() == plain.len() + templates.len()
            &&& forall|i: int|
                0 <= i < plain.len() ==> #[trigger] files[i] == ConfigFileView::Plain(
                    crate::paths::joined(dir, plain[i]),
                )
            &&& forall|i: int|
                0 <= i < templates.len() ==> files[plain.len() + i] == ConfigFileView::Template(
                    crate::paths::joined(dir, #[trigger] templates[i]),
                )
        }),
{
    crate::paths::lemma_parent_of_joined(dir, name);
}

/// A configuration that is not read, or of which it is not told what it names, ends the call: nothing
/// is merged, and no command is carried out.
pub proof fn lemma_unread_config_fails(
    config: Seq<u8>,
    command: CommandView,
    more: Seq<RunEventView>,
)
    requires
        more.len() > 0,
        !(more[0] is Loaded),
    ensures
        run_action(config, command, run_after(config, more)) is Failed,
        asked(config, command, more) == seq![RunActionView::Load(config)],
    decreases more.len(),
{
    let before = more.drop_last();
    if before.len() == 0 {
        assert(before =~= Seq::<RunEventView>::empty());
        assert(asked(config, command, before) =~= seq![RunActionView::Load(config)]);
    } else {
        assert(before[0] == more[0]);
        lemma_unread_config_fails(config, command, before);
    }
}

} // verus!
