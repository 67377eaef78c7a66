//! What holds of a whole check, however its runs come out.

use vstd::prelude::*;

use crate::lava::check;
use crate::lava::check::{CheckState, Outcome, MAX_ATTEMPTS};
use crate::lava::runner::DirEntryView;

verus! {

/// The check after runs that came out as `outcomes`.
pub open spec fn check_after(crashes: Seq<DirEntryView>, outcomes: Seq<Outcome>) -> CheckState
    decreases outcomes.len(),
{
    if outcomes.len() == 0 {
        check::check_start(crashes)
    } else {
        check::check_step(check_after(crashes, outcomes.drop_last()), outcomes.last())
    }
}

/// Each of the runs was asked for: there was an input left before it.
pub open spec fn check_trace(crashes: Seq<DirEntryView>, outcomes: Seq<Outcome>) -> bool
    decreases outcomes.len(),
{
    outcomes.len() > 0 ==> {
        &&& check_trace(crashes, outcomes.drop_last())
        &&& !check::check_done(check_after(crashes, outcomes.drop_last()))
    }
}

/// The input of run `k`.
pub open spec fn input_of(crashes: Seq<DirEntryView>, outcomes: Seq<Outcome>, k: int) -> DirEntryView {
    check_after(crashes, outcomes.take(k)).queue[0]
}

/// How often `entry` was run.
pub open spec fn times_run(
    crashes: Seq<DirEntryView>,
    outcomes: Seq<Outcome>,
    entry: DirEntryView,
) -> nat
    decreases outcomes.len(),
{
    if outcomes.len() == 0 {
        0
    } else {
        let before = outcomes.drop_last();
        times_run(crashes, before, entry) + if check_after(crashes, before).queue[0] == entry {
            1nat
        } else {
            0nat
        }
    }
}

/// How often `entry` stands in `list`.
pub open spec fn occurrences(list: Seq<DirEntryView>, entry: DirEntryView) -> nat {
    list.to_multiset().count(entry)
}

/// Whether a run reported the bug `id`.
pub open spec fn reported(outcome: Outcome, id: u64) -> bool {
    outcome matches Outcome::Ran { ids, .. } && ids.contains(id)
}

/// How often `entry` can still be run.
spec fn runs_left(state: CheckState, entry: DirEntryView) -> int {
    occurrences(state.queue, entry) + (MAX_ATTEMPTS - 1 - state.round) * (occurrences(
        state.queue,
        entry,
    ) + occurrences(state.retry, entry))
}

proof fn lemma_occurrences(list: Seq<DirEntryView>, entry: DirEntryView)
    ensures
        list.len() > 0 ==> occurrences(list, entry) == occurrences(list.skip(1), entry) + if list[0]
            == entry {
            1nat
        } else {
            0nat
        },
        forall|e: DirEntryView|
            occurrences(#[trigger] list.push(e), entry) == occurrences(list, entry) + if e == entry {
                1nat
            } else {
                0nat
            },
        list.len() == 0 ==> occurrences(list, entry) == 0,
{
    broadcast use vstd::seq_lib::group_to_multiset_ensures;

    if list.len() > 0 {
        let rest = list.skip(1);
        assert(list =~= seq![list[0]] + rest);
        vstd::seq_lib::lemma_multiset_commutative(seq![list[0]], rest);
        assert(seq![list[0]] =~= Seq::<DirEntryView>::empty().push(list[0]));
    } else {
        assert(list =~= Seq::<DirEntryView>::empty());
    }
}

/// Every state that a check comes to is well formed, and what can still be run covers what is to
/// be run.
proof fn lemma_step(state: CheckState, outcome: Outcome, entry: DirEntryView)
    requires
        check::check_wf(state),
        !check::check_done(state),
    ensures
        check::check_wf(check::check_step(state, outcome)),
        runs_left(check::check_step(state, outcome), entry) + (if state.queue[0] == entry {
            1int
        } else {
            0
        }) <= runs_left(state, entry),
{
    lemma_occurrences(state.queue, entry);
    lemma_occurrences(state.queue.skip(1), entry);
    lemma_occurrences(state.retry, entry);
    lemma_occurrences(Seq::<DirEntryView>::empty(), entry);
    let after = check::check_step(state, outcome);
    let left = MAX_ATTEMPTS - 1 - state.round;
    let q = occurrences(state.queue.skip(1), entry) as int;
    let r = occurrences(state.retry, entry) as int;
    let d: int = if state.queue[0] == entry { 1 } else { 0 };
    let retried = outcome matches Outcome::Ran { exit, ids } && ids.is_empty() && exit is Crash
        && state.round + 1 < MAX_ATTEMPTS;
    let r2 = if retried { r + d } else { r };
    assert(left * (q + r2) <= left * (q + d + r)) by (nonlinear_arith)
        requires
            left >= 0,
            r2 <= r + d,
    ;
    if after.round == state.round + 1 {
        assert(q == 0);
        assert((left - 1) * (r2 + 0) + r2 == left * (0 + r2)) by (nonlinear_arith);
    }
}

proof fn lemma_trace(crashes: Seq<DirEntryView>, outcomes: Seq<Outcome>, entry: DirEntryView)
    requires
        check_trace(crashes, outcomes),
    ensures
        check::check_wf(check_after(crashes, outcomes)),
        runs_left(check_after(crashes, outcomes), entry) + times_run(crashes, outcomes, entry)
            <= MAX_ATTEMPTS * occurrences(crashes, entry),
    decreases outcomes.len(),
{
    if outcomes.len() == 0 {
        lemma_occurrences(Seq::<DirEntryView>::empty(), entry);
        let n = occurrences(crashes, entry) as int;
        assert(n + (MAX_ATTEMPTS - 1 - 0) * (n + 0) == MAX_ATTEMPTS * n) by (nonlinear_arith);
    } else {
        lemma_trace(crashes, outcomes.drop_last(), entry);
        lemma_step(check_after(crashes, outcomes.drop_last()), outcomes.last(), entry);
    }
}

/// An input is run at most as often as attempts are allowed.
pub proof fn lemma_attempts_are_bounded(
    crashes: Seq<DirEntryView>,
    outcomes: Seq<Outcome>,
    entry: DirEntryView,
)
    requires
        check_trace(crashes, outcomes),
    ensures
        times_run(crashes, outcomes, entry) <= MAX_ATTEMPTS * occurrences(crashes, entry),
{
    lemma_trace(crashes, outcomes, entry);
    let state = check_after(crashes, outcomes);
    assert(runs_left(state, entry) >= 0) by (nonlinear_arith)
        requires
            state.round < MAX_ATTEMPTS,
            runs_left(state, entry) == occurrences(state.queue, entry) + (MAX_ATTEMPTS - 1
                - state.round) * (occurrences(state.queue, entry) + occurrences(
                state.retry,
                entry,
            )),
    ;
}

/// How many runs a check can still ask for.
spec fn total_left(state: CheckState) -> int {
    state.queue.len() + (MAX_ATTEMPTS - 1 - state.round) * (state.queue.len() + state.retry.len())
}

/// A check comes to an end: it asks for no more than the allowed attempts for each crash.
pub proof fn lemma_check_ends(crashes: Seq<DirEntryView>, outcomes: Seq<Outcome>)
    requires
        check_trace(crashes, outcomes),
    ensures
        outcomes.len() <= MAX_ATTEMPTS * crashes.len(),
{
    lemma_total(crashes, outcomes);
    let state = check_after(crashes, outcomes);
    assert(total_left(state) >= 0) by (nonlinear_arith)
        requires
            state.round < MAX_ATTEMPTS,
            total_left(state) == state.queue.len() + (MAX_ATTEMPTS - 1 - state.round) * (
            state.queue.len() + state.retry.len()),
    ;
}

proof fn lemma_total(crashes: Seq<DirEntryView>, outcomes: Seq<Outcome>)
    requires
        check_trace(crashes, outcomes),
    ensures
        check::check_wf(check_after(crashes, outcomes)),
        total_left(check_after(crashes, outcomes)) + outcomes.len() <= MAX_ATTEMPTS
            * crashes.len(),
    decreases outcomes.len(),
{
    if outcomes.len() == 0 {
        let n = crashes.len() as int;
        assert(n + (MAX_ATTEMPTS - 1 - 0) * (n + 0) == MAX_ATTEMPTS * n) by (nonlinear_arith);
    } else {
        let state = check_after(crashes, outcomes.drop_last());
        let outcome = outcomes.last();
        lemma_total(crashes, outcomes.drop_last());
        let after = check::check_step(state, outcome);
        let left = MAX_ATTEMPTS - 1 - state.round;
        let q = state.queue.len() - 1;
        let r = state.retry.len() as int;
        let retried = outcome matches Outcome::Ran { exit, ids } && ids.is_empty() && exit is Crash
            && state.round + 1 < MAX_ATTEMPTS;
        let r2 = if retried { r + 1 } else { r };
        assert(left * (q + r2) <= left * (q + 1 + r)) by (nonlinear_arith)
            requires
                left >= 0,
                r2 <= r + 1,
        ;
        if after.round == state.round + 1 {
            assert((left - 1) * (r2 + 0) + r2 == left * (0 + r2)) by (nonlinear_arith);
        }
    }
}

/// Nothing but a crash without a report, with attempts left, is run again: after any other run the
/// input is no longer among those to be run, and no input is lost or added otherwise.
pub proof fn lemma_only_crashes_are_retried(state: CheckState, outcome: Outcome)
    requires
        check::check_wf(state),
        !check::check_done(state),
    ensures
        forall|entry: DirEntryView|
            #![trigger occurrences(check::check_step(state, outcome).queue, entry)]
            ({
                let after = check::check_step(state, outcome);
                let retried = outcome matches Outcome::Ran { exit, ids } && ids.is_empty()
                    && exit is Crash && state.round + 1 < MAX_ATTEMPTS;
                occurrences(after.queue, entry) + occurrences(after.retry, entry) + (if !retried
                    && state.queue[0] == entry {
                    1nat
                } else {
                    0nat
                }) == occurrences(state.queue, entry) + occurrences(state.retry, entry)
            }),
{
    assert forall|entry: DirEntryView|
        #![trigger occurrences(check::check_step(state, outcome).queue, entry)]
        ({
            let after = check::check_step(state, outcome);
            let retried = outcome matches Outcome::Ran { exit, ids } && ids.is_empty()
                && exit is Crash && state.round + 1 < MAX_ATTEMPTS;
            occurrences(after.queue, entry) + occurrences(after.retry, entry) + (if !retried
                && state.queue[0] == entry {
                1nat
            } else {
                0nat
            }) == occurrences(state.queue, entry) + occurrences(state.retry, entry)
        }) by {
        lemma_occurrences(state.queue, entry);
        lemma_occurrences(state.queue.skip(1), entry);
        lemma_occurrences(state.retry, entry);
        lemma_occurrences(Seq::<DirEntryView>::empty(), entry);
    }
}

/// What a step makes known about the bug `id`.
proof fn lemma_step_bug(state: CheckState, outcome: Outcome, id: u64)
    ensures
        ({
            let known = state.bugs.contains_key(id);
            let bugs = check::check_step(state, outcome).bugs;
            &&& bugs.contains_key(id) <==> known || reported(outcome, id)
            &&& bugs.contains_key(id) ==> bugs[id] == if reported(outcome, id) && (!known
                || state.bugs[id].time > state.queue[0].time) {
                check::status_of(state.queue[0], outcome->exit)
            } else {
                state.bugs[id]
            }
        }),
{
    if let Outcome::Ran { exit, ids } = outcome {
        if ids.is_empty() {
            assert(!ids.contains(id));
        }
    }
}

/// A check knows a bug exactly where some run reported it, and knows it from the earliest input
/// among those that triggered it; of inputs that are equally early, from the one that was run
/// first.
pub proof fn lemma_earliest_input_counts(
    crashes: Seq<DirEntryView>,
    outcomes: Seq<Outcome>,
    id: u64,
)
    requires
        check_trace(crashes, outcomes),
    ensures
        check_after(crashes, outcomes).bugs.contains_key(id) <==> exists|k: int|
            0 <= k < outcomes.len() && #[trigger] reported(outcomes[k], id),
        forall|k: int|
            0 <= k < outcomes.len() && #[trigger] reported(outcomes[k], id) ==> check_after(
                crashes,
                outcomes,
            ).bugs[id].time <= input_of(crashes, outcomes, k).time,
        check_after(crashes, outcomes).bugs.contains_key(id) ==> exists|k: int|
            0 <= k < outcomes.len() && #[trigger] reported(outcomes[k], id) && check_after(
                crashes,
                outcomes,
            ).bugs[id] == check::status_of(input_of(crashes, outcomes, k), outcomes[k]->exit)
                && forall|j: int|
                0 <= j < k && #[trigger] reported(outcomes[j], id) ==> input_of(
                    crashes,
                    outcomes,
                    j,
                ).time > input_of(crashes, outcomes, k).time,
    decreases outcomes.len(),
{
    if outcomes.len() > 0 {
        let before = outcomes.drop_last();
        let n = outcomes.len() - 1;
        let state = check_after(crashes, before);
        let after = check_after(crashes, outcomes);
        lemma_earliest_input_counts(crashes, before, id);
        lemma_step_bug(state, outcomes[n], id);
        assert(outcomes.take(n) =~= before);
        assert(input_of(crashes, outcomes, n) == state.queue[0]);
        assert forall|k: int| 0 <= k < n implies input_of(crashes, outcomes, k) == input_of(
            crashes,
            before,
            k,
        ) && #[trigger] reported(outcomes[k], id) == reported(before[k], id) by {
            assert(outcomes.take(k) =~= before.take(k));
        }
        if state.bugs.contains_key(id) {
            let k = choose|k: int|
                0 <= k < before.len() && #[trigger] reported(before[k], id) && state.bugs[id]
                    == check::status_of(input_of(crashes, before, k), before[k]->exit)
                    && forall|j: int|
                    0 <= j < k && #[trigger] reported(before[j], id) ==> input_of(
                        crashes,
                        before,
                        j,
                    ).time > input_of(crashes, before, k).time;
            assert(reported(outcomes[k], id));
            assert forall|j: int| 0 <= j < k && #[trigger] reported(outcomes[j], id) implies input_of(
                crashes,
                outcomes,
                j,
            ).time > input_of(crashes, outcomes, k).time by {
                assert(reported(before[j], id));
            }
        }
        assert forall|j: int| 0 <= j < n && #[trigger] reported(outcomes[j], id) implies reported(
            before[j],
            id,
        ) && state.bugs[id].time <= input_of(crashes, outcomes, j).time by {
            assert(reported(before[j], id));
        }
        assert forall|k: int|
            0 <= k < outcomes.len() && #[trigger] reported(outcomes[k], id) implies after.bugs.contains_key(
            id,
        ) && after.bugs[id].time <= input_of(crashes, outcomes, k).time by {
            if k < n {
                assert(reported(before[k], id));
            }
        }
    }
}

/// Of a command that runs an input, nothing but the input's place differs from the command that was
/// prepared: the program and both outputs stay, the input is read from standard input, and its path
/// stands where the first `@@` stood among the arguments; every other argument stays.
pub proof fn lemma_only_the_input_differs(
    command: crate::agent::RunCommandView,
    path: Seq<u8>,
)
    requires
        command.args.len() <= usize::MAX,
    ensures
        check::input_command(command, path).program == command.program,
        check::input_command(command, path).stdout == command.stdout,
        check::input_command(command, path).stderr == command.stderr,
        check::input_command(command, path).stdin == crate::agent::StdioView::File(path),
        check::input_command(command, path).args.len() == command.args.len(),
        forall|i: int|
            0 <= i < command.args.len() ==> #[trigger] check::input_command(command, path).args[i]
                == if command.args[i] == vstd::utf8::encode_utf8("@@"@) && forall|j: int|
                0 <= j < i ==> #[trigger] command.args[j] != vstd::utf8::encode_utf8("@@"@) {
                path
            } else {
                command.args[i]
            },
{
    let marker = vstd::utf8::encode_utf8("@@"@);
    command.args.index_of_first_ensures(marker);
}

/// Running one input after another through the same verifier: the command of the second is what it
/// is without the first, and no input is left in the place of another.
pub proof fn lemma_inputs_do_not_mix(
    command: crate::agent::RunCommandView,
    index: Option<usize>,
    first: Seq<u8>,
    second: Seq<u8>,
)
    requires
        index matches Some(i) ==> i < command.args.len(),
    ensures
        ({
            let run = crate::lava::runner::on_input(command, index, first);
            let next = crate::lava::runner::on_input(run, index, second);
            &&& next == crate::lava::runner::on_input(command, index, second)
            &&& next.program == command.program
            &&& next.stdout == command.stdout
            &&& next.stderr == command.stderr
            &&& next.stdin == crate::agent::StdioView::File(second)
            &&& next.args.len() == command.args.len()
            &&& forall|i: int|
                0 <= i < command.args.len() ==> #[trigger] next.args[i] == if index == Some(
                    i as usize,
                ) && i <= usize::MAX {
                    second
                } else {
                    command.args[i]
                }
        }),
{
    let run = crate::lava::runner::on_input(command, index, first);
    let next = crate::lava::runner::on_input(run, index, second);
    assert(next.args =~= crate::lava::runner::on_input(command, index, second).args);
}

/// What is known about a bug is known from the input that triggered it: its time, how its run ended,
/// and the name of its file.
pub proof fn lemma_status_is_of_input(
    entry: DirEntryView,
    name: Seq<char>,
    exit: crate::agent::ExitKind,
)
    ensures
        check::status_of(entry, exit).time == entry.time,
        check::status_of(entry, exit).exit == exit,
        crate::paths::last_name(entry.path) == Some(vstd::utf8::encode_utf8(name))
            ==> check::status_of(entry, exit).name == name,
{
    vstd::utf8::encode_utf8_valid_utf8(name);
    vstd::utf8::encode_utf8_decode_utf8(name);
}

/// An input without a name, or with one that is not UTF-8, goes by the name `unknown`.
pub proof fn lemma_unnamed_input(path: Seq<u8>, time: u64, exit: crate::agent::ExitKind)
    requires
        crate::paths::last_name(path) matches Some(name) ==> !vstd::utf8::valid_utf8(name),
    ensures
        check::input_name(path) == "unknown"@,
        check::status_of(DirEntryView { path, time }, exit).name == "unknown"@,
{
}

/// Whether a run crashed and reported nothing.
pub open spec fn is_silent(outcome: Outcome) -> bool {
    outcome matches Outcome::Ran { exit, ids } && exit is Crash && forall|id: u64|
        !(#[trigger] ids.contains(id))
}

/// Inputs are run in turn. One that crashed without a report comes behind all the others, as long as
/// it can be run again; any other is gone. A round ends when all that stood in it were run.
pub proof fn lemma_retried_come_last(state: CheckState, outcome: Outcome)
    requires
        check::check_wf(state),
        !check::check_done(state),
    ensures
        ({
            let after = check::check_step(state, outcome);
            &&& after.queue + after.retry == state.queue.skip(1) + state.retry + if is_silent(
                outcome,
            ) && state.round + 1 < 10 {
                seq![state.queue[0]]
            } else {
                Seq::empty()
            }
            &&& check::check_done(after) <==> after.queue.len() + after.retry.len() == 0
            &&& after.round == if state.queue.len() == 1 && !check::check_done(after) {
                state.round + 1
            } else {
                state.round
            }
        }),
{
    let after = check::check_step(state, outcome);
    if let Outcome::Ran { exit, ids } = outcome {
        assert(ids.is_empty() <==> forall|id: u64| !(#[trigger] ids.contains(id))) by {
            if forall|id: u64| !(#[trigger] ids.contains(id)) {
                assert(ids =~= Set::empty());
            }
        }
    }
    assert(after.queue + after.retry =~= state.queue.skip(1) + state.retry + if is_silent(outcome)
        && state.round + 1 < 10 {
        seq![state.queue[0]]
    } else {
        Seq::empty()
    });
}

/// A check starts with the crashes in the order that they were listed in, and knows no bug.
pub proof fn lemma_check_starts(crashes: Seq<DirEntryView>, id: u64)
    ensures
        check_after(crashes, Seq::empty()).queue + check_after(crashes, Seq::empty()).retry
            == crashes,
        check_after(crashes, Seq::empty()).round == 0,
        !check_after(crashes, Seq::empty()).bugs.contains_key(id),
        check::check_done(check_after(crashes, Seq::empty())) <==> crashes.len() == 0,
{
    assert(crashes + Seq::<DirEntryView>::empty() =~= crashes);
}

/// Crashes that never report anything are run ten times each, one after the other and round after
/// round; then the check is done.
pub proof fn lemma_silent_crashes(
    crashes: Seq<DirEntryView>,
    outcomes: Seq<Outcome>,
    round: nat,
    k: nat,
)
    requires
        k < crashes.len(),
        round < 10,
        outcomes.len() == round * crashes.len() + k,
        forall|i: int| 0 <= i < outcomes.len() ==> is_silent(#[trigger] outcomes[i]),
    ensures
        !check::check_done(check_after(crashes, outcomes)),
        check_after(crashes, outcomes).queue[0] == crashes[k as int],
        check_after(crashes, outcomes).round == round,
        round == 9 && k == crashes.len() - 1 ==> forall|last: Outcome|
            is_silent(last) ==> check::check_done(
                #[trigger] check_after(crashes, outcomes.push(last)),
            ),
{
    lemma_silent_state(crashes, outcomes, round, k);
    let state = check_after(crashes, outcomes);
    if round == 9 && k == crashes.len() - 1 {
        assert forall|last: Outcome| is_silent(last) implies check::check_done(
            #[trigger] check_after(crashes, outcomes.push(last)),
        ) by {
            assert(outcomes.push(last).drop_last() =~= outcomes);
            lemma_retried_come_last(state, last);
        }
    }
}

proof fn lemma_silent_state(
    crashes: Seq<DirEntryView>,
    outcomes: Seq<Outcome>,
    round: nat,
    k: nat,
)
    requires
        k < crashes.len(),
        round < 10,
        outcomes.len() == round * crashes.len() + k,
        forall|i: int| 0 <= i < outcomes.len() ==> is_silent(#[trigger] outcomes[i]),
    ensures
        check::check_wf(check_after(crashes, outcomes)),
        check_after(crashes, outcomes).round == round,
        check_after(crashes, outcomes).queue == crashes.skip(k as int),
        check_after(crashes, outcomes).retry == if round < 9 {
            crashes.take(k as int)
        } else {
            Seq::empty()
        },
    decreases outcomes.len(),
{
    let n = crashes.len();
    if outcomes.len() == 0 {
        assert(round == 0) by (nonlinear_arith)
            requires
                round * n + k == 0,
                n > 0,
        ;
        assert(crashes.skip(0) =~= crashes);
        assert(crashes.take(0) =~= Seq::<DirEntryView>::empty());
    } else {
        let before = outcomes.drop_last();
        assert(is_silent(outcomes[outcomes.len() - 1]));
        assert forall|i: int| 0 <= i < before.len() implies is_silent(#[trigger] before[i]) by {
            assert(before[i] == outcomes[i]);
        }
        let state = check_after(crashes, before);
        if let Outcome::Ran { exit, ids } = outcomes.last() {
            assert(ids =~= Set::empty());
        }
        if k > 0 {
            lemma_silent_state(crashes, before, round, (k - 1) as nat);
            assert(state.queue.skip(1) =~= crashes.skip(k as int));
            assert(crashes.take(k - 1).push(crashes[k - 1]) =~= crashes.take(k as int));
        } else {
            assert(round > 0) by (nonlinear_arith)
                requires
                    round * n + k > 0,
                    k == 0,
            ;
            assert(round * n == (round - 1) * n + n) by (nonlinear_arith);
            lemma_silent_state(crashes, before, (round - 1) as nat, (n - 1) as nat);
            assert(state.queue.skip(1) =~= Seq::<DirEntryView>::empty());
            assert(crashes.take(n - 1).push(crashes[n - 1]) =~= crashes);
            assert(crashes.skip(0) =~= crashes);
            assert(crashes.take(0) =~= Seq::<DirEntryView>::empty());
        }
    }
}

} // verus!
