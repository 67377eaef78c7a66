//! Building the disk images, one after the other.

use vstd::prelude::*;
use vstd::string::*;

verus! {

/// What is to be done about the images.
#[derive(Debug)]
pub enum BuildStep {
    /// Build this image.
    Build(String),
    /// Nothing: every image is built.
    Done,
    /// Stop: this image cannot be built.
    Failed(String),
}

/// A [`BuildStep`] over its characters.
pub enum BuildStepView {
    Build(Seq<char>),
    Done,
    Failed(Seq<char>),
}

impl View for BuildStep {
    type V = BuildStepView;

    open spec fn view(&self) -> BuildStepView {
        match self {
            BuildStep::Build(name) => BuildStepView::Build(name@),
            BuildStep::Done => BuildStepView::Done,
            BuildStep::Failed(name) => BuildStepView::Failed(name@),
        }
    }
}

/// How far a build has come: how many of the images are built, and whether the next one failed.
pub struct BuildState {
    pub built: nat,
    pub failed: bool,
}

/// What is to be done.
pub open spec fn build_step(names: Seq<Seq<char>>, state: BuildState) -> BuildStepView {
    if state.built >= names.len() {
        BuildStepView::Done
    } else if state.failed {
        BuildStepView::Failed(names[state.built as int])
    } else {
        BuildStepView::Build(names[state.built as int])
    }
}

/// The build after an image was tried, with success or without.
pub open spec fn build_next(names: Seq<Seq<char>>, state: BuildState, success: bool) -> BuildState {
    if !(build_step(names, state) is Build) {
        state
    } else if success {
        BuildState { built: state.built + 1, ..state }
    } else {
        BuildState { failed: true, ..state }
    }
}

/// A build of the images `names`, one after the other.
pub struct ImageBuild<'a> {
    names: &'a Vec<String>,
    built: usize,
    failed: bool,
}

impl<'a> View for ImageBuild<'a> {
    type V = BuildState;

    closed spec fn view(&self) -> BuildState {
        BuildState { built: self.built as nat, failed: self.failed }
    }
}

/// Nothing is built yet.
pub open spec fn build_start() -> BuildState {
    BuildState { built: 0, failed: false }
}

/// Starts a build of the images `names`.
pub fn build_images<'a>(names: &'a Vec<String>) -> (started: (ImageBuild<'a>, BuildStep))
    ensures
        started.0.names() == crate::text::strings_view(names@),
        started.0@ == build_start(),
        started.1@ == build_step(crate::text::strings_view(names@), build_start()),
{
    let build = ImageBuild { names, built: 0, failed: false };
    let step = build.next();
    (build, step)
}

impl<'a> ImageBuild<'a> {
    /// The images.
    pub closed spec fn names(&self) -> Seq<Seq<char>> {
        crate::text::strings_view(self.names@)
    }

    fn next(&self) -> (step: BuildStep)
        ensures
            step@ == build_step(self.names(), self@),
    {
        if self.built >= self.names.len() {
            BuildStep::Done
        } else if self.failed {
            BuildStep::Failed(self.names[self.built].clone())
        } else {
            BuildStep::Build(self.names[self.built].clone())
        }
    }

    /// What follows a try of an image, with success or without.
    pub fn step(&mut self, success: bool) -> (step: BuildStep)
        ensures
            final(self).names() == old(self).names(),
            final(self)@ == build_next(old(self).names(), old(self)@, success),
            step@ == build_step(final(self).names(), final(self)@),
    {
        if self.built < self.names.len() && !self.failed {
            if success {
                self.built = self.built + 1;
            } else {
                self.failed = true;
            }
        }
        self.next()
    }
}

/// What is said of something that cannot be built.
pub fn build_context(name: &str) -> (text: String)
    ensures
        text@ == "failed to build: "@ + name@,
{
    let mut text = "failed to build: ".to_string();
    text.append(name);
    text
}

/// The images that are tried, and where that ends, from `state` on, where each try comes out as
/// `outcomes` says.
pub open spec fn tried(names: Seq<Seq<char>>, state: BuildState, outcomes: Seq<bool>) -> (
    Seq<Seq<char>>,
    BuildStepView,
)
    decreases outcomes.len(),
{
    let step = build_step(names, state);
    if outcomes.len() == 0 {
        (Seq::empty(), step)
    } else {
        let (rest, end) = tried(names, build_next(names, state, outcomes[0]), outcomes.skip(1));
        match step {
            BuildStepView::Build(name) => (seq![name] + rest, end),
            _ => (rest, end),
        }
    }
}

/// Where every try succeeds, each image is built once, in order.
pub proof fn lemma_every_image_is_built(names: Seq<Seq<char>>, outcomes: Seq<bool>)
    requires
        outcomes.len() == names.len(),
        forall|i: int| 0 <= i < outcomes.len() ==> outcomes[i],
    ensures
        tried(names, build_start(), outcomes) == (names, BuildStepView::Done),
{
    lemma_built_from(names, 0, outcomes);
    assert(names.skip(0) =~= names);
}

proof fn lemma_built_from(names: Seq<Seq<char>>, built: nat, outcomes: Seq<bool>)
    requires
        built <= names.len(),
        outcomes.len() == names.len() - built,
        forall|i: int| 0 <= i < outcomes.len() ==> outcomes[i],
    ensures
        tried(names, BuildState { built, failed: false }, outcomes) == (
            names.skip(built as int),
            BuildStepView::Done,
        ),
    decreases outcomes.len(),
{
    if built < names.len() {
        assert(outcomes[0]);
        lemma_built_from(names, built + 1, outcomes.skip(1));
        assert(names.skip(built as int) =~= seq![names[built as int]] + names.skip(
            built as int + 1,
        ));
    } else {
        assert(names.skip(built as int) =~= Seq::<Seq<char>>::empty());
    }
}

/// The first image that cannot be built is the last that is tried, and the one that is named,
/// whatever comes after it.
pub proof fn lemma_first_failure_stops(names: Seq<Seq<char>>, outcomes: Seq<bool>, at: int)
    requires
        0 <= at < outcomes.len(),
        at < names.len(),
        forall|i: int| 0 <= i < at ==> outcomes[i],
        !outcomes[at],
    ensures
        tried(names, build_start(), outcomes) == (
            names.take(at + 1),
            BuildStepView::Failed(names[at]),
        ),
{
    lemma_fails_from(names, 0, outcomes, at);
    assert(names.subrange(0, at + 1) =~= names.take(at + 1));
}

proof fn lemma_fails_from(names: Seq<Seq<char>>, built: nat, outcomes: Seq<bool>, at: int)
    requires
        0 <= at < outcomes.len(),
        built + at < names.len(),
        forall|i: int| 0 <= i < at ==> outcomes[i],
        !outcomes[at],
    ensures
        tried(names, BuildState { built, failed: false }, outcomes) == (
            names.subrange(built as int, built + at + 1),
            BuildStepView::Failed(names[built + at]),
        ),
    decreases outcomes.len(),
{
    if at > 0 {
        assert(outcomes[0]);
        lemma_fails_from(names, built + 1, outcomes.skip(1), at - 1);
        assert(names.subrange(built as int, built + at + 1) =~= seq![names[built as int]]
            + names.subrange(built as int + 1, built + at + 1));
    } else {
        lemma_nothing_after(names, BuildState { built, failed: true }, outcomes.skip(1));
        assert(names.subrange(built as int, built as int + 1) =~= seq![names[built as int]]
            + Seq::<Seq<char>>::empty());
    }
}

/// A build that failed tries nothing any more.
proof fn lemma_nothing_after(names: Seq<Seq<char>>, state: BuildState, outcomes: Seq<bool>)
    requires
        state.failed,
    ensures
        tried(names, state, outcomes) == (Seq::<Seq<char>>::empty(), build_step(names, state)),
    decreases outcomes.len(),
{
    if outcomes.len() > 0 {
        lemma_nothing_after(names, state, outcomes.skip(1));
    }
}

} // verus!
