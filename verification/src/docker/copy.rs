//! Copying the contents of a docker image to a directory.

use vstd::prelude::*;
use vstd::string::*;
use vstd::utf8::*;

use crate::docker::image::DockerSource;
use crate::paths::UnixPath;
use crate::shell::{CmdOutput, ShellCommand, ShellCommandView};
use crate::text::{string_from_utf8_lossy, trim};

verus! {

/// The name of the temporary file that the archives of a container are written to.
pub const EXTRACT_NAME: &'static str = "bench-harness-docker-extract";

/// What is said where a container cannot be created.
pub const CREATE_FAILED: &'static str = "failed to create container";

/// What is said where a container cannot be removed.
pub const REMOVE_FAILED: &'static str = "failed to remove container";

/// What is said where the temporary file cannot be created.
pub const TEMP_FILE_FAILED: &'static str = "failed to create temporary file for copying";

/// What is said where the command that copies a file cannot be run.
pub const COPY_FAILED: &'static str = "error running docker cp";

/// What is said where an archive cannot be unpacked.
pub const UNPACK_FAILED: &'static str = "error unpacking archive";

/// The command that creates a container of `image`.
pub open spec fn create_spec(image: Seq<char>) -> ShellCommandView {
    ShellCommandView {
        program: "docker"@,
        args: seq![encode_utf8("create"@), encode_utf8(image)],
    }
}

/// The command that removes the container `name`.
pub open spec fn remove_spec(name: Seq<char>) -> ShellCommandView {
    ShellCommandView { program: "docker"@, args: seq![encode_utf8("rm"@), encode_utf8(name)] }
}

/// The command that writes `file` of the container `name`, as an archive, to standard output.
pub open spec fn copy_spec(name: Seq<char>, file: Seq<u8>) -> ShellCommandView {
    ShellCommandView {
        program: "docker"@,
        args: seq![
            encode_utf8("cp"@),
            encode_utf8(name + ":/"@ + crate::text::utf8_lossy(file)),
            encode_utf8("-"@),
        ],
    }
}

/// The command that creates the directory `dir` under `root`.
pub open spec fn mkdir_spec(root: Seq<u8>, dir: Seq<u8>) -> ShellCommandView {
    ShellCommandView { program: "mkdir"@, args: seq![crate::paths::joined(root, dir)] }
}

/// The command that creates a container of `image`. It writes the name of the container.
pub fn create_container(image: &str) -> (command: ShellCommand)
    ensures
        command@ == create_spec(image@),
{
    let command = ShellCommand::new("docker").arg("create").arg(image);
    assert(command@ =~= create_spec(image@));
    command
}

/// The command that removes the container `name`.
pub fn remove_container(name: &str) -> (command: ShellCommand)
    ensures
        command@ == remove_spec(name@),
{
    let command = ShellCommand::new("docker").arg("rm").arg(name);
    assert(command@ =~= remove_spec(name@));
    command
}

/// The command that writes `file` of the container `name`, as an archive, to standard output.
pub fn copy_file(name: &str, file: &UnixPath) -> (command: ShellCommand)
    ensures
        command@ == copy_spec(name@, file@),
{
    let mut source = name.to_string();
    source.append(":/");
    source.append(file.display().as_str());
    let command = ShellCommand::new("docker").arg("cp").arg(source.as_str()).arg("-");
    assert(command@ =~= copy_spec(name@, file@));
    command
}

/// Whether the command of [`copy_file`] wrote its archive; what is said where it did not.
pub fn check_copy(output: &CmdOutput) -> (written: Result<(), String>)
    ensures
        match written {
            Ok(_) => output.success,
            Err(text) => !output.success && text@ == "error running docker cp: "@
                + crate::text::utf8_lossy(output.stderr@),
        },
{
    if output.success {
        Ok(())
    } else {
        let mut text = "error running docker cp: ".to_string();
        text.append(string_from_utf8_lossy(output.stderr.as_slice()).as_str());
        Err(text)
    }
}

/// The command that creates the directory `dir` under `root`.
pub fn make_dir(root: &UnixPath, dir: &UnixPath) -> (command: ShellCommand)
    ensures
        command@ == mkdir_spec(root@, dir@),
{
    let path = root.join_path(dir);
    let command = ShellCommand::new("mkdir").arg_bytes(path.bytes);
    assert(command@ =~= mkdir_spec(root@, dir@));
    command
}

/// How far a copy has come.
#[derive(Debug, Clone, Copy, PartialEq, Eq, Structural)]
pub enum CopyStage {
    /// The container is being created.
    Creating,
    /// The file of this number is being copied.
    Copying(usize),
    /// The directory of this number is being created.
    Making(usize),
    /// The container is being removed; the flag tells whether the copy went wrong before.
    Removing(bool),
    /// Everything is done; the flag tells whether the copy went wrong.
    Ended(bool),
}

/// What became of the last action.
#[derive(Debug)]
pub enum CopyEvent {
    /// The container was created; what the command wrote.
    Created(String),
    /// It succeeded.
    Succeeded,
    /// It failed.
    Failed,
}

/// A [`CopyEvent`] over its characters.
pub enum CopyEventView {
    Created(Seq<char>),
    Succeeded,
    Failed,
}

impl View for CopyEvent {
    type V = CopyEventView;

    open spec fn view(&self) -> CopyEventView {
        match self {
            CopyEvent::Created(text) => CopyEventView::Created(text@),
            CopyEvent::Succeeded => CopyEventView::Succeeded,
            CopyEvent::Failed => CopyEventView::Failed,
        }
    }
}

/// What is to be done next.
#[derive(Debug)]
pub enum CopyAction {
    /// Create a container.
    Create(ShellCommand),
    /// Extract the archive that the command writes to the target directory.
    Copy(ShellCommand),
    /// Create a directory.
    MakeDir(ShellCommand),
    /// Remove the container.
    Remove(ShellCommand),
    /// Nothing: the copy is complete.
    Done,
    /// Nothing: the copy went wrong.
    Failed,
}

/// A [`CopyAction`] over its commands.
#[verifier::ext_equal]
pub enum CopyActionView {
    Create(ShellCommandView),
    Copy(ShellCommandView),
    MakeDir(ShellCommandView),
    Remove(ShellCommandView),
    Done,
    Failed,
}

impl View for CopyAction {
    type V = CopyActionView;

    open spec fn view(&self) -> CopyActionView {
        match self {
            CopyAction::Create(command) => CopyActionView::Create(command@),
            CopyAction::Copy(command) => CopyActionView::Copy(command@),
            CopyAction::MakeDir(command) => CopyActionView::MakeDir(command@),
            CopyAction::Remove(command) => CopyActionView::Remove(command@),
            CopyAction::Done => CopyActionView::Done,
            CopyAction::Failed => CopyActionView::Failed,
        }
    }
}

/// A copy of an image to the directory `root`.
pub struct CopyState<'a> {
    config: &'a DockerSource,
    container: Option<String>,
    root: &'a UnixPath,
    stage: CopyStage,
}

/// What a copy is about, over its characters and bytes.
pub struct CopyPlan {
    pub tag: Seq<char>,
    pub files: Seq<Seq<u8>>,
    pub dirs: Seq<Seq<u8>>,
    pub root: Seq<u8>,
}

/// What a copy of the image of `config` to `root` is about.
pub open spec fn copy_plan(config: DockerSource, root: Seq<u8>) -> CopyPlan {
    CopyPlan {
        tag: config.tag@,
        files: crate::paths::paths_view(config.copy@),
        dirs: crate::paths::paths_view(config.create_dirs@),
        root,
    }
}

/// How far a copy has come, over its characters.
pub struct CopyProgress {
    pub container: Option<Seq<char>>,
    pub stage: CopyStage,
}

/// Takes the container away, if there is one, so that it is removed once.
pub open spec fn cleaned_up(
    progress: CopyProgress,
    failed: bool,
) -> (CopyProgress, CopyActionView) {
    match progress.container {
        Some(name) => (
            CopyProgress { container: None, stage: CopyStage::Removing(failed) },
            CopyActionView::Remove(remove_spec(name)),
        ),
        None => (
            CopyProgress { container: None, stage: CopyStage::Ended(failed) },
            if failed {
                CopyActionView::Failed
            } else {
                CopyActionView::Done
            },
        ),
    }
}

/// Goes on to create directories, from number `n` on, and then cleans up.
pub open spec fn from_dir(plan: CopyPlan, progress: CopyProgress, n: int) -> (
    CopyProgress,
    CopyActionView,
) {
    if n < plan.dirs.len() {
        (
            CopyProgress { stage: CopyStage::Making(n as usize), ..progress },
            CopyActionView::MakeDir(mkdir_spec(plan.root, plan.dirs[n])),
        )
    } else {
        cleaned_up(progress, false)
    }
}

/// Goes on to copy files, from number `n` on.
pub open spec fn from_file(plan: CopyPlan, progress: CopyProgress, n: int) -> (
    CopyProgress,
    CopyActionView,
) {
    if n < plan.files.len() {
        (
            CopyProgress { stage: CopyStage::Copying(n as usize), ..progress },
            CopyActionView::Copy(copy_spec(progress.container->0, plan.files[n])),
        )
    } else {
        from_dir(plan, progress, 0)
    }
}

/// What follows an event: files are copied and directories created one after another, a failure
/// ends the copy, and either way the container is removed before the copy ends.
pub open spec fn copy_step(plan: CopyPlan, progress: CopyProgress, event: CopyEventView) -> (
    CopyProgress,
    CopyActionView,
) {
    match progress.stage {
        CopyStage::Creating => match event {
            CopyEventView::Created(text) => from_file(
                plan,
                CopyProgress { container: Some(crate::text::trimmed(text)), ..progress },
                0,
            ),
            _ => cleaned_up(progress, true),
        },
        CopyStage::Copying(n) => match event {
            CopyEventView::Failed => cleaned_up(progress, true),
            _ => from_file(plan, progress, n + 1),
        },
        CopyStage::Making(n) => match event {
            CopyEventView::Failed => cleaned_up(progress, true),
            _ => from_dir(plan, progress, n + 1),
        },
        CopyStage::Removing(failed) => cleaned_up(progress, failed || event is Failed),
        CopyStage::Ended(failed) => cleaned_up(progress, failed),
    }
}

/// There is a container to remove exactly while there is something to copy or to create, and each
/// is there.
pub open spec fn copy_wf(plan: CopyPlan, progress: CopyProgress) -> bool {
    match progress.stage {
        CopyStage::Creating => progress.container is None,
        CopyStage::Copying(n) => progress.container is Some && n < plan.files.len(),
        CopyStage::Making(n) => progress.container is Some && n < plan.dirs.len(),
        CopyStage::Removing(_) => progress.container is None,
        CopyStage::Ended(_) => progress.container is None,
    }
}

impl<'a> CopyState<'a> {
    /// What the copy is about.
    pub closed spec fn plan(&self) -> CopyPlan {
        copy_plan(*self.config, self.root@)
    }

    /// How far the copy has come.
    pub closed spec fn progress(&self) -> CopyProgress {
        CopyProgress {
            container: match self.container {
                Some(name) => Some(name@),
                None => None,
            },
            stage: self.stage,
        }
    }

    pub open spec fn wf(&self) -> bool {
        copy_wf(self.plan(), self.progress())
    }

    /// Starts a copy of the image of `config` to `root`: a container is created first.
    pub fn copy_image(config: &'a DockerSource, root: &'a UnixPath) -> (started: (
        CopyState<'a>,
        CopyAction,
    ))
        ensures
            started.0.wf(),
            started.0.plan() == copy_plan(*config, root@),
            started.0.progress() == (CopyProgress { container: None, stage: CopyStage::Creating }),
            started.1@ == CopyActionView::Create(create_spec(config.tag@)),
    {
        let state = CopyState { config, container: None, root, stage: CopyStage::Creating };
        (state, CopyAction::Create(create_container(config.tag.as_str())))
    }

    /// The command that removes the container, if there is one. It is handed out once.
    pub fn cleanup(&mut self) -> (command: Option<ShellCommand>)
        ensures
            final(self).plan() == old(self).plan(),
            final(self).progress() == (CopyProgress { container: None, ..old(self).progress() }),
            match command {
                Some(c) => old(self).progress().container is Some && c@ == remove_spec(
                    old(self).progress().container->0,
                ),
                None => old(self).progress().container is None,
            },
    {
        match self.container.take() {
            Some(name) => Some(remove_container(name.as_str())),
            None => None,
        }
    }

    fn end(&mut self, failed: bool) -> (action: CopyAction)
        ensures
            final(self).plan() == old(self).plan(),
            (final(self).progress(), action@) == cleaned_up(old(self).progress(), failed),
    {
        match self.cleanup() {
            Some(command) => {
                self.stage = CopyStage::Removing(failed);
                CopyAction::Remove(command)
            },
            None => {
                self.stage = CopyStage::Ended(failed);
                if failed {
                    CopyAction::Failed
                } else {
                    CopyAction::Done
                }
            },
        }
    }

    fn go_on_with_dir(&mut self, n: usize) -> (action: CopyAction)
        ensures
            final(self).plan() == old(self).plan(),
            (final(self).progress(), action@) == from_dir(
                old(self).plan(),
                old(self).progress(),
                n as int,
            ),
    {
        if n < self.config.create_dirs.len() {
            self.stage = CopyStage::Making(n);
            CopyAction::MakeDir(make_dir(self.root, &self.config.create_dirs[n]))
        } else {
            self.end(false)
        }
    }

    fn go_on_with_file(&mut self, n: usize) -> (action: CopyAction)
        requires
            old(self).progress().container is Some,
        ensures
            final(self).plan() == old(self).plan(),
            (final(self).progress(), action@) == from_file(
                old(self).plan(),
                old(self).progress(),
                n as int,
            ),
    {
        if n < self.config.copy.len() {
            if let Some(name) = &self.container {
                let command = copy_file(name.as_str(), &self.config.copy[n]);
                self.stage = CopyStage::Copying(n);
                return CopyAction::Copy(command);
            }
        }
        self.go_on_with_dir(0)
    }

    /// What follows `event`.
    pub fn step(&mut self, event: CopyEvent) -> (action: CopyAction)
        requires
            old(self).wf(),
        ensures
            final(self).wf(),
            final(self).plan() == old(self).plan(),
            (final(self).progress(), action@) == copy_step(
                old(self).plan(),
                old(self).progress(),
                event@,
            ),
    {
        let files = self.config.copy.len();
        let dirs = self.config.create_dirs.len();
        assert(self.plan().files.len() == files && self.plan().dirs.len() == dirs);
        match self.stage {
            CopyStage::Creating => match event {
                CopyEvent::Created(text) => {
                    self.container = Some(trim(text.as_str()).to_string());
                    self.go_on_with_file(0)
                },
                _ => self.end(true),
            },
            CopyStage::Copying(n) => match event {
                CopyEvent::Failed => self.end(true),
                _ => self.go_on_with_file(n + 1),
            },
            CopyStage::Making(n) => match event {
                CopyEvent::Failed => self.end(true),
                _ => self.go_on_with_dir(n + 1),
            },
            CopyStage::Removing(failed) => {
                let failed = match event {
                    CopyEvent::Failed => true,
                    _ => failed,
                };
                self.end(failed)
            },
            CopyStage::Ended(failed) => self.end(failed),
        }
    }
}

// ---------------------------------------------------------------------------------------------
// What holds of a whole copy
// ---------------------------------------------------------------------------------------------

/// How far a copy has come after `events`.
pub open spec fn copy_after(plan: CopyPlan, events: Seq<CopyEventView>) -> CopyProgress
    decreases events.len(),
{
    if events.len() == 0 {
        CopyProgress { container: None, stage: CopyStage::Creating }
    } else {
        copy_step(plan, copy_after(plan, events.drop_last()), events.last()).0
    }
}

/// How many times a copy asks for a container to be removed, over `events`.
pub open spec fn removals(plan: CopyPlan, events: Seq<CopyEventView>) -> nat
    decreases events.len(),
{
    if events.len() == 0 {
        0
    } else {
        let before = events.drop_last();
        removals(plan, before) + if copy_step(
            plan,
            copy_after(plan, before),
            events.last(),
        ).1 is Remove {
            1nat
        } else {
            0nat
        }
    }
}

/// Whether a container was created.
pub open spec fn was_created(events: Seq<CopyEventView>) -> bool {
    events.len() > 0 && events[0] is Created
}

/// Files and directories can be counted.
pub open spec fn plan_wf(plan: CopyPlan) -> bool {
    plan.files.len() <= usize::MAX && plan.dirs.len() <= usize::MAX
}

/// A container that was created is removed exactly once by the time that the copy ends, whatever
/// goes wrong; it is not removed before something went wrong or everything is copied; and none is
/// removed where none was created.
pub proof fn lemma_container_is_removed_once(plan: CopyPlan, events: Seq<CopyEventView>)
    requires
        plan_wf(plan),
    ensures
        copy_wf(plan, copy_after(plan, events)),
        removals(plan, events) == match copy_after(plan, events).stage {
            CopyStage::Removing(_) => 1nat,
            CopyStage::Ended(_) => if was_created(events) {
                1nat
            } else {
                0nat
            },
            _ => 0nat,
        },
    decreases events.len(),
{
    if events.len() > 0 {
        let before = events.drop_last();
        lemma_container_is_removed_once(plan, before);
        if before.len() > 0 {
            assert(before[0] == events[0]);
        }
        lemma_started(plan, before);
    }
}

/// A copy comes to remove its container without a failure only after it copied every file and
/// created every directory, each once.
pub proof fn lemma_everything_is_copied(plan: CopyPlan, events: Seq<CopyEventView>)
    requires
        plan_wf(plan),
    ensures
        match copy_after(plan, events).stage {
            CopyStage::Copying(n) => events.len() == 1 + n && no_failure(events),
            CopyStage::Making(n) => events.len() == 1 + plan.files.len() + n && no_failure(events),
            CopyStage::Removing(false) => events.len() == 1 + plan.files.len() + plan.dirs.len()
                && no_failure(events),
            _ => true,
        },
    decreases events.len(),
{
    if events.len() > 0 {
        let before = events.drop_last();
        lemma_everything_is_copied(plan, before);
        lemma_container_is_removed_once(plan, before);
        lemma_started(plan, before);
        assert forall|i: int|
            no_failure(before) && !(events.last() is Failed) && 0 <= i < events.len() implies !(
        #[trigger] events[i] is Failed) by {
            if i < before.len() {
                assert(before[i] == events[i]);
            }
        }
    }
}

/// Nothing went wrong.
pub open spec fn no_failure(events: Seq<CopyEventView>) -> bool {
    forall|i: int| 0 <= i < events.len() ==> !(#[trigger] events[i] is Failed)
}

/// A copy is past its first stage exactly after the first event, and has seen a container exactly
/// where that event created one.
proof fn lemma_started(plan: CopyPlan, events: Seq<CopyEventView>)
    ensures
        copy_after(plan, events).stage is Creating <==> events.len() == 0,
        events.len() > 0 && !was_created(events) ==> copy_after(plan, events).stage is Ended,
        copy_after(plan, events).container is Some ==> was_created(events),
        copy_after(plan, events).stage is Removing ==> was_created(events),
    decreases events.len(),
{
    if events.len() > 0 {
        let before = events.drop_last();
        lemma_started(plan, before);
        if before.len() > 0 {
            assert(before[0] == events[0]);
        }
    }
}

/// What a copy asks for after `events`, of which there is one at least.
pub open spec fn asked_after(plan: CopyPlan, events: Seq<CopyEventView>) -> CopyActionView {
    copy_step(plan, copy_after(plan, events.drop_last()), events.last()).1
}

/// A copy in which nothing fails asks for each file of the image, in order and each once; then for
/// each directory under the target, in order and each once; then for the container to be removed,
/// by the name that docker gave it; and then for nothing more.
pub proof fn lemma_copy_in_order(
    config: DockerSource,
    root: Seq<u8>,
    text: Seq<char>,
    events: Seq<CopyEventView>,
)
    requires
        events.len() > 0,
        events[0] == CopyEventView::Created(text),
        no_failure(events),
    ensures
        ({
            let name = crate::text::trimmed(text);
            let n = events.len() - 1;
            let files = config.copy@.len();
            let dirs = config.create_dirs@.len();
            let asked = asked_after(copy_plan(config, root), events);
            &&& n < files ==> asked == CopyActionView::Copy(
                ShellCommandView {
                    program: "docker"@,
                    args: seq![
                        encode_utf8("cp"@),
                        encode_utf8(name + ":/"@ + crate::text::utf8_lossy(config.copy@[n]@)),
                        encode_utf8("-"@),
                    ],
                },
            )
            &&& files <= n < files + dirs ==> asked == CopyActionView::MakeDir(
                ShellCommandView {
                    program: "mkdir"@,
                    args: seq![crate::paths::joined(root, config.create_dirs@[n - files]@)],
                },
            )
            &&& n == files + dirs ==> asked == CopyActionView::Remove(
                ShellCommandView {
                    program: "docker"@,
                    args: seq![encode_utf8("rm"@), encode_utf8(name)],
                },
            )
            &&& n > files + dirs ==> asked == CopyActionView::Done
        }),
{
    let plan = copy_plan(config, root);
    assert(config.copy.len() == plan.files.len() && config.create_dirs.len() == plan.dirs.len());
    lemma_progress_in_order(plan, text, events.drop_last());
}

/// How far a copy in which nothing failed has come.
proof fn lemma_progress_in_order(plan: CopyPlan, text: Seq<char>, events: Seq<CopyEventView>)
    requires
        plan_wf(plan),
        events.len() > 0 ==> events[0] == CopyEventView::Created(text),
        no_failure(events),
    ensures
        ({
            let n = events.len() - 1;
            let name = Some(crate::text::trimmed(text));
            let files = plan.files.len();
            let dirs = plan.dirs.len();
            let progress = copy_after(plan, events);
            if n < 0 {
                progress == CopyProgress { container: None, stage: CopyStage::Creating }
            } else if n < files {
                progress == CopyProgress { container: name, stage: CopyStage::Copying(n as usize) }
            } else if n < files + dirs {
                progress == CopyProgress {
                    container: name,
                    stage: CopyStage::Making((n - files) as usize),
                }
            } else if n == files + dirs {
                progress == CopyProgress { container: None, stage: CopyStage::Removing(false) }
            } else {
                progress == CopyProgress { container: None, stage: CopyStage::Ended(false) }
            }
        }),
    decreases events.len(),
{
    if events.len() > 0 {
        let before = events.drop_last();
        assert forall|i: int| 0 <= i < before.len() implies !(#[trigger] before[i] is Failed) by {
            assert(before[i] == events[i]);
        }
        if before.len() > 0 {
            assert(before[0] == events[0]);
        }
        lemma_progress_in_order(plan, text, before);
        assert(!(events[events.len() - 1] is Failed));
    }
}

/// Where a file cannot be copied or a directory cannot be created, the container is to be removed
/// next, by the name that docker gave it; whatever becomes of that, the copy went wrong, and so it
/// did where the container was not created, or not removed, or has no name.
pub proof fn lemma_copy_goes_wrong(
    config: DockerSource,
    root: Seq<u8>,
    text: Seq<char>,
    events: Seq<CopyEventView>,
    next: CopyEventView,
)
    requires
        events.len() > 0 ==> events[0] == CopyEventView::Created(text),
        no_failure(events),
    ensures
        asked_after(copy_plan(config, root), seq![CopyEventView::Succeeded])
            == CopyActionView::Failed,
        ({
            let failed = events.push(CopyEventView::Failed);
            let plan = copy_plan(config, root);
            if 0 < events.len() <= config.copy@.len() + config.create_dirs@.len() {
                &&& asked_after(plan, failed) == CopyActionView::Remove(
                    ShellCommandView {
                        program: "docker"@,
                        args: seq![
                            encode_utf8("rm"@),
                            encode_utf8(crate::text::trimmed(text)),
                        ],
                    },
                )
                &&& asked_after(plan, failed.push(next)) == CopyActionView::Failed
            } else {
                events.len() <= 1 + config.copy@.len() + config.create_dirs@.len() ==> asked_after(
                    plan,
                    failed,
                ) == CopyActionView::Failed
            }
        }),
{
    let plan = copy_plan(config, root);
    let failed = events.push(CopyEventView::Failed);
    assert(config.copy.len() == plan.files.len() && config.create_dirs.len() == plan.dirs.len());
    lemma_progress_in_order(plan, text, events);
    assert(failed.drop_last() =~= events);
    assert(failed.push(next).drop_last() =~= failed);
    let unnamed = seq![CopyEventView::Succeeded];
    assert(unnamed.drop_last() =~= Seq::<CopyEventView>::empty());
    lemma_started(plan, unnamed.drop_last());
}

/// A container is created of the image that the configuration names.
pub proof fn lemma_container_of_image(image: Seq<char>)
    ensures
        create_spec(image).program == "docker"@,
        create_spec(image).args == seq![encode_utf8("create"@), encode_utf8(image)],
{
}

/// Once a copy has ended it asks for nothing more: what it said last it says to whatever comes.
pub proof fn lemma_copy_stays_ended(
    plan: CopyPlan,
    events: Seq<CopyEventView>,
    next: CopyEventView,
)
    requires
        events.len() > 0,
        asked_after(plan, events) is Done || asked_after(plan, events) is Failed,
    ensures
        asked_after(plan, events.push(next)) == asked_after(plan, events),
{
    assert(events.push(next).drop_last() =~= events);
}

} // verus!
