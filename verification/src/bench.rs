//! A benchmark: which tasks it runs, how often, and with which variables.

use vstd::prelude::*;
use vstd::string::*;

use crate::text::{decimal_string, split_once, trim};

verus! {

// ---------------------------------------------------------------------------------------------
// Task lists
// ---------------------------------------------------------------------------------------------

/// Task names are separated by commas or line ends.
pub open spec fn is_delimiter(c: char) -> bool {
    c == ',' || c == '\n'
}

/// Where the first delimiter of `s` stands.
pub open spec fn first_delimiter(s: Seq<char>) -> Option<int>
    decreases s.len(),
{
    if s.len() == 0 {
        None
    } else if is_delimiter(s[0]) {
        Some(0)
    } else {
        match first_delimiter(s.skip(1)) {
            Some(i) => Some(i + 1),
            None => None,
        }
    }
}

pub proof fn lemma_first_delimiter(s: Seq<char>)
    ensures
        match first_delimiter(s) {
            Some(i) => {
                &&& 0 <= i < s.len()
                &&& is_delimiter(s[i])
                &&& forall|j: int| 0 <= j < i ==> !is_delimiter(#[trigger] s[j])
            },
            None => forall|j: int| 0 <= j < s.len() ==> !is_delimiter(#[trigger] s[j]),
        },
    decreases s.len(),
{
    if s.len() > 0 && !is_delimiter(s[0]) {
        let rest = s.skip(1);
        lemma_first_delimiter(rest);
        assert forall|j: int| 0 < j < s.len() implies #[trigger] s[j] == rest[j - 1] by {}
    }
}

/// The pieces of `s` between its delimiters.
pub open spec fn pieces(s: Seq<char>) -> Seq<Seq<char>>
    decreases s.len(),
{
    match first_delimiter(s) {
        None => seq![s],
        Some(i) => {
            proof {
                lemma_first_delimiter(s);
            }
            seq![s.take(i)] + pieces(s.skip(i + 1))
        },
    }
}

/// The pieces with the white space around them taken off, without those of which nothing is left.
pub open spec fn names_among(pieces: Seq<Seq<char>>) -> Seq<Seq<char>>
    decreases pieces.len(),
{
    if pieces.len() == 0 {
        Seq::empty()
    } else {
        let name = crate::text::trimmed(pieces[0]);
        let rest = names_among(pieces.skip(1));
        if name.len() == 0 {
            rest
        } else {
            seq![name] + rest
        }
    }
}

/// The names in a list of tasks.
pub open spec fn listed_names(list: Seq<char>) -> Seq<Seq<char>> {
    names_among(pieces(list))
}

/// The names in a list of tasks.
pub fn task_names(task_list: &str) -> (names: Vec<String>)
    ensures
        crate::text::strings_view(names@) == listed_names(task_list@),
{
    let delimiters = vec![',', '\n'];
    assert forall|c: char| #[trigger] delimiters@.contains(c) <==> is_delimiter(c) by {
        assert(delimiters@[0] == ',' && delimiters@[1] == '\n');
    }
    let mut names: Vec<String> = Vec::new();
    let mut rest: &str = task_list;
    assert(crate::text::strings_view(names@) + listed_names(rest@) =~= listed_names(task_list@));
    loop
        invariant
            forall|c: char| #[trigger] delimiters@.contains(c) <==> is_delimiter(c),
            crate::text::strings_view(names@) + listed_names(rest@) == listed_names(task_list@),
        decreases rest@.len(),
    {
        let ghost before = names@;
        proof {
            lemma_first_delimiter(rest@);
        }
        match split_once(rest, delimiters.as_slice()) {
            None => {
                let name = trim(rest);
                assert(pieces(rest@).skip(1) =~= Seq::<Seq<char>>::empty());
                assert(names_among(Seq::empty()) =~= Seq::<Seq<char>>::empty());
                assert(listed_names(rest@) =~= if crate::text::trimmed(rest@).len() == 0 {
                    Seq::empty()
                } else {
                    seq![crate::text::trimmed(rest@)]
                });
                if !name.is_empty() {
                    names.push(name.to_string());
                    assert(crate::text::strings_view(names@) =~= crate::text::strings_view(before).push(name@));
                }
                assert(crate::text::strings_view(names@) =~= listed_names(task_list@));
                return names;
            },
            Some((piece, after)) => {
                let name = trim(piece);
                assert(first_delimiter(rest@) == Some(piece@.len() as int));
                assert(pieces(rest@).skip(1) =~= pieces(after@));
                if !name.is_empty() {
                    names.push(name.to_string());
                    assert(crate::text::strings_view(names@) =~= crate::text::strings_view(before).push(name@));
                }
                assert(crate::text::strings_view(names@) + listed_names(after@) =~= listed_names(task_list@));
                rest = after;
            },
        }
    }
}

// ---------------------------------------------------------------------------------------------
// Trials
// ---------------------------------------------------------------------------------------------

/// A variable and its value, as a configuration sets it.
#[derive(Debug)]
pub struct KeyValue {
    pub key: String,
    pub value: String,
}

impl View for KeyValue {
    type V = (Seq<char>, Seq<char>);

    open spec fn view(&self) -> (Seq<char>, Seq<char>) {
        (self.key@, self.value@)
    }
}

impl Clone for KeyValue {
    fn clone(&self) -> (copy: Self)
        ensures
            copy@ == self@,
    {
        KeyValue { key: self.key.clone(), value: self.value.clone() }
    }
}

impl KeyValue {
    pub fn new(key: &str, value: &str) -> (entry: KeyValue)
        ensures
            entry@ == (key@, value@),
    {
        KeyValue { key: key.to_string(), value: value.to_string() }
    }
}

/// The characters of a list of variables.
pub open spec fn key_values_view(list: Seq<KeyValue>) -> Seq<(Seq<char>, Seq<char>)> {
    list.map_values(|entry: KeyValue| entry@)
}

/// Adds a copy of each of `more` to `list`.
fn extend_key_values(list: &mut Vec<KeyValue>, more: &Vec<KeyValue>)
    ensures
        key_values_view(final(list)@) == key_values_view(old(list)@) + key_values_view(more@),
{
    let ghost start = list@;
    assert(key_values_view(list@) =~= key_values_view(start) + key_values_view(more@).take(0));
    for i in 0..more.len()
        invariant
            key_values_view(list@) == key_values_view(start) + key_values_view(more@).take(
                i as int,
            ),
    {
        let ghost before = list@;
        list.push(more[i].clone());
        assert(key_values_view(list@) =~= key_values_view(before).push(more@[i as int]@));
        assert(key_values_view(list@) =~= key_values_view(start) + key_values_view(more@).take(
            i + 1,
        ));
    }
    assert(key_values_view(more@).take(more@.len() as int) =~= key_values_view(more@));
}

/// A task as the configuration resolves it: where it runs, with which variables of its own, and
/// what it does.
#[derive(Debug)]
pub struct ResolvedTask<T> {
    pub instance: String,
    pub vars: Vec<KeyValue>,
    pub tasks: Vec<T>,
}

/// One trial of a task.
#[derive(Debug)]
pub struct Task<'a, T> {
    pub name: String,
    pub instance: String,
    pub vars: Vec<KeyValue>,
    pub tasks: &'a Vec<T>,
}

/// A [`Task`] over its characters.
#[verifier::ext_equal]
pub struct TaskView<T> {
    pub name: Seq<char>,
    pub instance: Seq<char>,
    pub vars: Seq<(Seq<char>, Seq<char>)>,
    pub tasks: Seq<T>,
}

impl<'a, T> View for Task<'a, T> {
    type V = TaskView<T>;

    open spec fn view(&self) -> TaskView<T> {
        TaskView {
            name: self.name@,
            instance: self.instance@,
            vars: key_values_view(self.vars@),
            tasks: self.tasks@,
        }
    }
}

/// A step of a benchmark.
#[derive(Debug)]
pub enum BenchStep<'a, T> {
    /// The task cannot be run; say why and go on.
    Skip { task_name: String, error: String },
    /// Hand the trial to the workers.
    Run(Task<'a, T>),
}

/// A [`BenchStep`] over its characters.
#[verifier::ext_equal]
pub enum BenchStepView<T> {
    Skip { task_name: Seq<char>, error: Seq<char> },
    Run(TaskView<T>),
}

impl<'a, T> View for BenchStep<'a, T> {
    type V = BenchStepView<T>;

    open spec fn view(&self) -> BenchStepView<T> {
        match self {
            BenchStep::Skip { task_name, error } => BenchStepView::Skip {
                task_name: task_name@,
                error: error@,
            },
            BenchStep::Run(task) => BenchStepView::Run(task@),
        }
    }
}

pub open spec fn steps_view<T>(steps: Seq<BenchStep<'_, T>>) -> Seq<BenchStepView<T>> {
    steps.map_values(|step: BenchStep<'_, T>| step@)
}

/// The variables of a trial. The order matters: a variable of the task may refer to those before
/// it.
pub open spec fn trial_vars(
    vars: Seq<(Seq<char>, Seq<char>)>,
    id: Seq<char>,
    task_name: Seq<char>,
    trial: nat,
    local: Seq<(Seq<char>, Seq<char>)>,
) -> Seq<(Seq<char>, Seq<char>)> {
    vars + seq![
        ("BENCH_ID"@, id),
        ("TRIAL"@, crate::text::decimal(trial)),
        ("TASK_NAME"@, task_name),
    ] + local
}

/// The steps of one task: one for each trial, or one that skips it.
pub open spec fn task_steps<T>(
    vars: Seq<(Seq<char>, Seq<char>)>,
    id: Seq<char>,
    trials: nat,
    task_name: Seq<char>,
    resolved: Result<ResolvedTask<T>, String>,
) -> Seq<BenchStepView<T>> {
    match resolved {
        Err(error) => seq![BenchStepView::Skip { task_name, error: error@ }],
        Ok(task) => Seq::new(
            trials,
            |i: int|
                BenchStepView::Run(
                    TaskView {
                        name: task_name,
                        instance: task.instance@,
                        vars: trial_vars(
                            vars,
                            id,
                            task_name,
                            i as nat,
                            key_values_view(task.vars@),
                        ),
                        tasks: task.tasks@,
                    },
                ),
        ),
    }
}

/// The steps of a benchmark: those of each named task, in turn.
pub open spec fn bench_steps<T>(
    vars: Seq<(Seq<char>, Seq<char>)>,
    id: Seq<char>,
    trials: nat,
    names: Seq<Seq<char>>,
    resolved: Seq<Result<ResolvedTask<T>, String>>,
) -> Seq<BenchStepView<T>>
    decreases names.len(),
{
    if names.len() == 0 {
        Seq::empty()
    } else {
        bench_steps(vars, id, trials, names.drop_last(), resolved) + task_steps(
            vars,
            id,
            trials,
            names.last(),
            resolved[names.len() - 1],
        )
    }
}

/// One trial of `task`.
fn make_trial<'a, T>(
    vars: &Vec<KeyValue>,
    id: &str,
    task_name: &str,
    trial: u64,
    task: &'a ResolvedTask<T>,
) -> (made: Task<'a, T>)
    ensures
        made@ == (TaskView {
            name: task_name@,
            instance: task.instance@,
            vars: trial_vars(
                key_values_view(vars@),
                id@,
                task_name@,
                trial as nat,
                key_values_view(task.vars@),
            ),
            tasks: task.tasks@,
        }),
{
    let mut all: Vec<KeyValue> = Vec::new();
    extend_key_values(&mut all, vars);
    all.push(KeyValue::new("BENCH_ID", id));
    all.push(KeyValue::new("TRIAL", decimal_string(trial).as_str()));
    all.push(KeyValue::new("TASK_NAME", task_name));
    assert(key_values_view(all@) =~= key_values_view(vars@) + seq![
        ("BENCH_ID"@, id@),
        ("TRIAL"@, crate::text::decimal(trial as nat)),
        ("TASK_NAME"@, task_name@),
    ]);
    extend_key_values(&mut all, &task.vars);
    Task {
        name: task_name.to_string(),
        instance: task.instance.clone(),
        vars: all,
        tasks: &task.tasks,
    }
}

/// The steps of the benchmark `id`: `trials` trials of each task in `task_list`, where `resolved`
/// holds what the configuration has for each of its [`task_names`].
pub fn run_bench<'a, T>(
    vars: &Vec<KeyValue>,
    id: &str,
    trials: usize,
    task_list: &str,
    resolved: &'a Vec<Result<ResolvedTask<T>, String>>,
) -> (steps: Vec<BenchStep<'a, T>>)
    requires
        resolved@.len() == listed_names(task_list@).len(),
    ensures
        steps_view(steps@) == bench_steps(
            key_values_view(vars@),
            id@,
            trials as nat,
            listed_names(task_list@),
            resolved@,
        ),
{
    let names = task_names(task_list);
    let ghost all = listed_names(task_list@);
    let ghost globals = key_values_view(vars@);
    let mut steps: Vec<BenchStep<'a, T>> = Vec::new();
    assert(steps_view(steps@) =~= bench_steps(globals, id@, trials as nat, all.take(0), resolved@));
    for i in 0..names.len()
        invariant
            all == crate::text::strings_view(names@),
            resolved@.len() == all.len(),
            globals == key_values_view(vars@),
            steps_view(steps@) == bench_steps(
                globals,
                id@,
                trials as nat,
                all.take(i as int),
                resolved@,
            ),
    {
        let ghost before = steps_view(steps@);
        let task_name = names[i].as_str();
        assert(all.take(i + 1).drop_last() =~= all.take(i as int));
        assert(all[i as int] == task_name@);
        match &resolved[i] {
            Err(error) => {
                let ghost old_steps = steps@;
                steps.push(
                    BenchStep::Skip { task_name: task_name.to_string(), error: error.clone() },
                );
                assert(steps_view(steps@) =~= steps_view(old_steps).push(steps@.last()@));
                assert(steps_view(steps@) =~= before + task_steps(
                    globals,
                    id@,
                    trials as nat,
                    task_name@,
                    resolved@[i as int],
                ));
            },
            Ok(task) => {
                let ghost of_task = task_steps(
                    globals,
                    id@,
                    trials as nat,
                    task_name@,
                    resolved@[i as int],
                );
                assert(steps_view(steps@) =~= before + of_task.take(0));
                for k in 0..trials
                    invariant
                        globals == key_values_view(vars@),
                        resolved@[i as int] == Ok::<ResolvedTask<T>, String>(*task),
                        of_task == task_steps(
                            globals,
                            id@,
                            trials as nat,
                            task_name@,
                            resolved@[i as int],
                        ),
                        steps_view(steps@) == before + of_task.take(k as int),
                {
                    let ghost old_steps = steps@;
                    steps.push(BenchStep::Run(make_trial(vars, id, task_name, k as u64, task)));
                    assert(steps_view(steps@) =~= steps_view(old_steps).push(steps@.last()@));
                    assert(steps_view(steps@) =~= before + of_task.take(k + 1));
                }
                assert(of_task.take(trials as int) =~= of_task);
            },
        }
    }
    assert(all.take(names@.len() as int) =~= all);
    steps
}

// ---------------------------------------------------------------------------------------------
// Laws
// ---------------------------------------------------------------------------------------------

/// A name in a list of tasks is not empty, has no white space around it, and holds no delimiter.
pub proof fn lemma_listed_name(list: Seq<char>, i: int)
    requires
        0 <= i < listed_names(list).len(),
    ensures
        listed_names(list)[i].len() > 0,
        crate::text::trimmed(listed_names(list)[i]) == listed_names(list)[i],
        forall|k: int|
            0 <= k < listed_names(list)[i].len() ==> !is_delimiter(
                #[trigger] listed_names(list)[i][k],
            ),
{
    lemma_pieces(list);
    lemma_names_among(pieces(list), i);
}

proof fn lemma_pieces(s: Seq<char>)
    ensures
        forall|p: int, k: int|
            0 <= p < pieces(s).len() && 0 <= k < pieces(s)[p].len() ==> !is_delimiter(
                #[trigger] pieces(s)[p][k],
            ),
    decreases s.len(),
{
    lemma_first_delimiter(s);
    if let Some(i) = first_delimiter(s) {
        let rest = pieces(s.skip(i + 1));
        lemma_pieces(s.skip(i + 1));
        assert forall|p: int, k: int|
            0 <= p < pieces(s).len() && 0 <= k < pieces(s)[p].len() implies !is_delimiter(
            #[trigger] pieces(s)[p][k],
        ) by {
            if p > 0 {
                assert(pieces(s)[p] == rest[p - 1]);
                assert(!is_delimiter(rest[p - 1][k]));
            }
        }
    }
}

proof fn lemma_names_among(list: Seq<Seq<char>>, i: int)
    requires
        forall|p: int, k: int|
            0 <= p < list.len() && 0 <= k < list[p].len() ==> !is_delimiter(
                #[trigger] list[p][k],
            ),
        0 <= i < names_among(list).len(),
    ensures
        names_among(list)[i].len() > 0,
        crate::text::trimmed(names_among(list)[i]) == names_among(list)[i],
        forall|k: int|
            0 <= k < names_among(list)[i].len() ==> !is_delimiter(
                #[trigger] names_among(list)[i][k],
            ),
    decreases list.len(),
{
    let piece = list[0];
    let name = crate::text::trimmed(piece);
    let rest = list.skip(1);
    crate::text::lemma_trimmed(piece);
    if name.len() > 0 && i == 0 {
        let (start, end) = choose|start: int, end: int|
            0 <= start <= end <= piece.len() && name == #[trigger] piece.subrange(start, end);
        assert forall|k: int| 0 <= k < name.len() implies !is_delimiter(#[trigger] name[k]) by {
            assert(!is_delimiter(list[0][start + k]));
        }
    } else {
        assert forall|p: int, k: int|
            0 <= p < rest.len() && 0 <= k < rest[p].len() implies !is_delimiter(
            #[trigger] rest[p][k],
        ) by {
            assert(!is_delimiter(list[p + 1][k]));
        }
        lemma_names_among(rest, if name.len() > 0 { i - 1 } else { i });
    }
}

/// Every trial of every task that the configuration has is run.
pub proof fn lemma_every_trial_runs<T>(
    vars: Seq<(Seq<char>, Seq<char>)>,
    id: Seq<char>,
    trials: nat,
    names: Seq<Seq<char>>,
    resolved: Seq<Result<ResolvedTask<T>, String>>,
    n: int,
    trial: nat,
)
    requires
        resolved.len() == names.len(),
        0 <= n < names.len(),
        resolved[n] is Ok,
        trial < trials,
    ensures
        bench_steps(vars, id, trials, names, resolved).contains(
            BenchStepView::Run(
                TaskView {
                    name: names[n],
                    instance: resolved[n]->Ok_0.instance@,
                    vars: trial_vars(
                        vars,
                        id,
                        names[n],
                        trial,
                        key_values_view(resolved[n]->Ok_0.vars@),
                    ),
                    tasks: resolved[n]->Ok_0.tasks@,
                },
            ),
        ),
{
    let steps = task_steps(vars, id, trials, names[n], resolved[n]);
    lemma_steps_of_task(vars, id, trials, names, resolved, n, trial as int);
    assert(steps[trial as int] is Run);
}

/// A task that the configuration does not have is skipped, with what is said of it.
pub proof fn lemma_unresolved_is_skipped<T>(
    vars: Seq<(Seq<char>, Seq<char>)>,
    id: Seq<char>,
    trials: nat,
    names: Seq<Seq<char>>,
    resolved: Seq<Result<ResolvedTask<T>, String>>,
    n: int,
)
    requires
        resolved.len() == names.len(),
        0 <= n < names.len(),
        resolved[n] is Err,
    ensures
        bench_steps(vars, id, trials, names, resolved).contains(
            BenchStepView::Skip { task_name: names[n], error: resolved[n]->Err_0@ },
        ),
{
    lemma_steps_of_task(vars, id, trials, names, resolved, n, 0);
}

proof fn lemma_steps_of_task<T>(
    vars: Seq<(Seq<char>, Seq<char>)>,
    id: Seq<char>,
    trials: nat,
    names: Seq<Seq<char>>,
    resolved: Seq<Result<ResolvedTask<T>, String>>,
    n: int,
    k: int,
)
    requires
        0 <= n < names.len(),
        0 <= k < task_steps(vars, id, trials, names[n], resolved[n]).len(),
    ensures
        bench_steps(vars, id, trials, names, resolved).contains(
            task_steps(vars, id, trials, names[n], resolved[n])[k],
        ),
    decreases names.len(),
{
    let all = bench_steps(vars, id, trials, names, resolved);
    let before = bench_steps(vars, id, trials, names.drop_last(), resolved);
    let step = task_steps(vars, id, trials, names[n], resolved[n])[k];
    if n == names.len() - 1 {
        assert(all[before.len() + k] == step);
    } else {
        lemma_steps_of_task(vars, id, trials, names.drop_last(), resolved, n, k);
        let i = choose|i: int| 0 <= i < before.len() && before[i] == step;
        assert(all[i] == step);
    }
}

/// Where the configuration has every task, there are as many steps as tasks and trials together
/// make.
pub proof fn lemma_step_count<T>(
    vars: Seq<(Seq<char>, Seq<char>)>,
    id: Seq<char>,
    trials: nat,
    names: Seq<Seq<char>>,
    resolved: Seq<Result<ResolvedTask<T>, String>>,
)
    requires
        resolved.len() == names.len(),
        forall|n: int| 0 <= n < resolved.len() ==> (#[trigger] resolved[n]) is Ok,
    ensures
        bench_steps(vars, id, trials, names, resolved).len() == names.len() * trials,
{
    lemma_steps_up_to(vars, id, trials, names, resolved);
}

proof fn lemma_steps_up_to<T>(
    vars: Seq<(Seq<char>, Seq<char>)>,
    id: Seq<char>,
    trials: nat,
    names: Seq<Seq<char>>,
    resolved: Seq<Result<ResolvedTask<T>, String>>,
)
    requires
        names.len() <= resolved.len(),
        forall|n: int| 0 <= n < resolved.len() ==> (#[trigger] resolved[n]) is Ok,
    ensures
        bench_steps(vars, id, trials, names, resolved).len() == names.len() * trials,
    decreases names.len(),
{
    if names.len() > 0 {
        lemma_steps_up_to(vars, id, trials, names.drop_last(), resolved);
        assert(names.len() * trials == (names.len() - 1) * trials + trials) by (nonlinear_arith)
            requires
                names.len() > 0,
        ;
        assert(resolved[names.len() - 1] is Ok);
    } else {
        assert(names.len() * trials == 0) by (nonlinear_arith)
            requires
                names.len() == 0,
        ;
    }
}

/// A variable of a task may refer to the number of the trial: where the first variable of the task
/// is a reference to `TRIAL`, its value is the number of the trial.
pub proof fn lemma_task_refers_to_trial(
    vars: Seq<(Seq<char>, Seq<char>)>,
    id: Seq<char>,
    task_name: Seq<char>,
    trial: nat,
    key: Seq<char>,
)
    ensures
        crate::vars::value_of(
            crate::vars::with_all(
                Seq::empty(),
                trial_vars(
                    vars,
                    id,
                    task_name,
                    trial,
                    seq![(key, seq!['{'] + "TRIAL"@ + seq!['}'])],
                ),
            ),
            key,
        ) == Some(crate::text::decimal(trial)),
{
    reveal_strlit("TRIAL");
    reveal_strlit("TASK_NAME");
    let none = Seq::<(Seq<char>, Seq<char>)>::empty();
    let number = crate::text::decimal(trial);
    let up_to_id = vars.push(("BENCH_ID"@, id));
    let up_to_trial = up_to_id.push(("TRIAL"@, number));
    let earlier = up_to_trial.push(("TASK_NAME"@, task_name));
    let reference = (key, seq!['{'] + "TRIAL"@ + seq!['}']);
    assert(trial_vars(vars, id, task_name, trial, seq![reference]) =~= earlier.push(reference));
    crate::vars::lemma_later_refers_to_earlier(none, earlier, key, "TRIAL"@);

    let before = crate::vars::with_all(none, up_to_id);
    let done = crate::vars::with_all(none, up_to_trial);
    assert(up_to_trial.drop_last() =~= up_to_id);
    crate::text::lemma_decimal_is_digits(trial);
    assert(!number.contains('{'));
    crate::vars::lemma_expand_plain(before, number);
    crate::vars::lemma_get_after_insert(before, "TRIAL"@, number, "TRIAL"@);
    assert(earlier.drop_last() =~= up_to_trial);
    assert("TRIAL"@.len() != "TASK_NAME"@.len());
    crate::vars::lemma_get_after_insert(
        done,
        "TASK_NAME"@,
        crate::vars::expanded(done, task_name),
        "TRIAL"@,
    );
}

/// A variable of a task may refer to any variable before it: to those of the configuration, those
/// of the trial, and the earlier ones of the task.
pub proof fn lemma_task_refers_to_earlier(
    vars: Seq<(Seq<char>, Seq<char>)>,
    id: Seq<char>,
    task_name: Seq<char>,
    trial: nat,
    local: Seq<(Seq<char>, Seq<char>)>,
    key: Seq<char>,
    name: Seq<char>,
)
    requires
        !name.contains('}'),
    ensures
        crate::vars::value_of(
            crate::vars::with_all(
                Seq::empty(),
                trial_vars(
                    vars,
                    id,
                    task_name,
                    trial,
                    local.push((key, seq!['{'] + name + seq!['}'])),
                ),
            ),
            key,
        ) == Some(
            crate::vars::substitution(
                crate::vars::with_all(
                    Seq::empty(),
                    trial_vars(vars, id, task_name, trial, local),
                ),
                name,
            ),
        ),
{
    let reference = (key, seq!['{'] + name + seq!['}']);
    let earlier = trial_vars(vars, id, task_name, trial, local);
    assert(trial_vars(vars, id, task_name, trial, local.push(reference)) =~= earlier.push(
        reference,
    ));
    crate::vars::lemma_later_refers_to_earlier(Seq::empty(), earlier, key, name);
}

/// A list of tasks in which `parts` stand between delimiters: behind each but the last stands one.
pub open spec fn delimited(parts: Seq<Seq<char>>, delimiters: Seq<char>) -> Seq<char>
    decreases parts.len(),
{
    if parts.len() == 0 {
        Seq::empty()
    } else if parts.len() == 1 {
        parts[0]
    } else {
        parts[0] + seq![delimiters[0]] + delimited(parts.skip(1), delimiters.skip(1))
    }
}

/// Parts of a list hold no delimiters, and what stands between them are delimiters.
pub open spec fn delimits(parts: Seq<Seq<char>>, delimiters: Seq<char>) -> bool {
    &&& parts.len() > 0
    &&& delimiters.len() == parts.len() - 1
    &&& forall|i: int| 0 <= i < delimiters.len() ==> is_delimiter(#[trigger] delimiters[i])
    &&& forall|p: int, k: int|
        0 <= p < parts.len() && 0 <= k < parts[p].len() ==> !is_delimiter(#[trigger] parts[p][k])
}

/// Lists of tasks that differ only in which delimiters they use, in the blanks around the names and
/// in empty parts name the same tasks, and give the same steps.
pub proof fn lemma_same_names_same_steps<T>(
    vars: Seq<(Seq<char>, Seq<char>)>,
    id: Seq<char>,
    trials: nat,
    resolved: Seq<Result<ResolvedTask<T>, String>>,
    one: Seq<Seq<char>>,
    one_delimiters: Seq<char>,
    other: Seq<Seq<char>>,
    other_delimiters: Seq<char>,
)
    requires
        delimits(one, one_delimiters),
        delimits(other, other_delimiters),
        names_among(one) == names_among(other),
    ensures
        listed_names(delimited(one, one_delimiters)) == names_among(one),
        listed_names(delimited(one, one_delimiters)) == listed_names(
            delimited(other, other_delimiters),
        ),
        bench_steps(
            vars,
            id,
            trials,
            listed_names(delimited(one, one_delimiters)),
            resolved,
        ) == bench_steps(
            vars,
            id,
            trials,
            listed_names(delimited(other, other_delimiters)),
            resolved,
        ),
{
    lemma_pieces_of_delimited(one, one_delimiters);
    lemma_pieces_of_delimited(other, other_delimiters);
}

/// Blanks around a part do not matter, and a part of blanks alone names nothing.
pub proof fn lemma_blanks_do_not_matter(
    before: Seq<Seq<char>>,
    left: Seq<char>,
    part: Seq<char>,
    right: Seq<char>,
    after: Seq<Seq<char>>,
)
    requires
        forall|i: int| 0 <= i < left.len() ==> crate::text::is_white_space(#[trigger] left[i]),
        forall|i: int| 0 <= i < right.len() ==> crate::text::is_white_space(#[trigger] right[i]),
    ensures
        names_among(before + seq![left + part + right] + after) == names_among(
            before + seq![part] + after,
        ),
        names_among(before + seq![left] + after) == names_among(before + after),
    decreases before.len(),
{
    if before.len() == 0 {
        crate::text::lemma_trimmed_blanks(left, part, right);
        crate::text::lemma_trimmed_blanks(left, Seq::empty(), Seq::empty());
        assert(left + Seq::<char>::empty() + Seq::<char>::empty() =~= left);
        assert((before + seq![left + part + right] + after).skip(1) =~= after);
        assert((before + seq![part] + after).skip(1) =~= after);
        assert((before + seq![left] + after).skip(1) =~= after);
        assert(before + after =~= after);
    } else {
        let rest = before.skip(1);
        lemma_blanks_do_not_matter(rest, left, part, right, after);
        assert((before + seq![left + part + right] + after).skip(1) =~= rest + seq![
            left + part + right,
        ] + after);
        assert((before + seq![part] + after).skip(1) =~= rest + seq![part] + after);
        assert((before + seq![left] + after).skip(1) =~= rest + seq![left] + after);
        assert((before + after).skip(1) =~= rest + after);
    }
}

proof fn lemma_pieces_of_delimited(parts: Seq<Seq<char>>, delimiters: Seq<char>)
    requires
        delimits(parts, delimiters),
    ensures
        pieces(delimited(parts, delimiters)) == parts,
    decreases parts.len(),
{
    let s = delimited(parts, delimiters);
    lemma_first_delimiter(s);
    let first = parts[0];
    assert forall|k: int| 0 <= k < first.len() implies !is_delimiter(#[trigger] first[k]) by {
        assert(!is_delimiter(parts[0][k]));
    }
    if parts.len() == 1 {
        assert(pieces(s) =~= parts);
    } else {
        let rest = parts.skip(1);
        let others = delimiters.skip(1);
        assert(is_delimiter(delimiters[0]));
        assert forall|i: int| 0 <= i < others.len() implies is_delimiter(#[trigger] others[i]) by {
            assert(is_delimiter(delimiters[i + 1]));
        }
        assert forall|p: int, k: int|
            0 <= p < rest.len() && 0 <= k < rest[p].len() implies !is_delimiter(
            #[trigger] rest[p][k],
        ) by {
            assert(!is_delimiter(parts[p + 1][k]));
        }
        lemma_pieces_of_delimited(rest, others);
        let n = first.len() as int;
        assert(s[n] == delimiters[0]);
        assert(forall|k: int| 0 <= k < n ==> s[k] == first[k]);
        assert(first_delimiter(s) == Some(n));
        assert(s.take(n) =~= first);
        assert(s.skip(n + 1) =~= delimited(rest, others));
        assert(pieces(s) =~= parts);
    }
}

/// A trial has every variable of the configuration, in order; then the id of the benchmark, the
/// number of the trial and the name of the task; then every variable of the task, in order; and no
/// others.
pub proof fn lemma_variables_of_trial(
    vars: Seq<(Seq<char>, Seq<char>)>,
    id: Seq<char>,
    task_name: Seq<char>,
    trial: nat,
    local: Seq<(Seq<char>, Seq<char>)>,
)
    ensures
        trial_vars(vars, id, task_name, trial, local).len() == vars.len() + 3 + local.len(),
        forall|i: int|
            0 <= i < vars.len() ==> #[trigger] trial_vars(vars, id, task_name, trial, local)[i]
                == vars[i],
        trial_vars(vars, id, task_name, trial, local)[vars.len() as int] == ("BENCH_ID"@, id),
        trial_vars(vars, id, task_name, trial, local)[vars.len() as int + 1] == (
            "TRIAL"@,
            crate::text::decimal(trial),
        ),
        trial_vars(vars, id, task_name, trial, local)[vars.len() as int + 2] == (
            "TASK_NAME"@,
            task_name,
        ),
        forall|i: int|
            0 <= i < local.len() ==> trial_vars(vars, id, task_name, trial, local)[vars.len() + 3
                + i] == #[trigger] local[i],
{
}

/// Two trials of a task differ in the number of the trial alone.
pub proof fn lemma_trials_differ_in_number(
    vars: Seq<(Seq<char>, Seq<char>)>,
    id: Seq<char>,
    task_name: Seq<char>,
    one: nat,
    other: nat,
    local: Seq<(Seq<char>, Seq<char>)>,
)
    ensures
        trial_vars(vars, id, task_name, other, local) == trial_vars(
            vars,
            id,
            task_name,
            one,
            local,
        ).update(vars.len() as int + 1, ("TRIAL"@, crate::text::decimal(other))),
        one != other ==> crate::text::decimal(one) != crate::text::decimal(other),
{
    let max = one + other;
    crate::text::lemma_decimal_reads_back(one, max);
    crate::text::lemma_decimal_reads_back(other, max);
    assert(trial_vars(vars, id, task_name, other, local) =~= trial_vars(
        vars,
        id,
        task_name,
        one,
        local,
    ).update(vars.len() as int + 1, ("TRIAL"@, crate::text::decimal(other))));
}

/// A benchmark of one task runs its trials in order, from trial 0 on: each under the name of the
/// task, on its instance, with what it does, and with the variables of the configuration before
/// those of the trial before those of the task.
pub proof fn lemma_trials_of_task<T>(
    vars: Seq<(Seq<char>, Seq<char>)>,
    id: Seq<char>,
    trials: nat,
    name: Seq<char>,
    task: ResolvedTask<T>,
    k: int,
)
    requires
        0 <= k < trials,
    ensures
        bench_steps(vars, id, trials, seq![name], seq![Ok(task)]).len() == trials,
        bench_steps(vars, id, trials, seq![name], seq![Ok(task)])[k] matches BenchStepView::Run(
            trial,
        ) && {
            &&& trial.name == name
            &&& trial.instance == task.instance@
            &&& trial.tasks == task.tasks@
            &&& trial.vars.take(vars.len() as int) == vars
            &&& trial.vars[vars.len() as int] == ("BENCH_ID"@, id)
            &&& trial.vars[vars.len() as int + 1] == ("TRIAL"@, crate::text::decimal(k as nat))
            &&& trial.vars[vars.len() as int + 2] == ("TASK_NAME"@, name)
            &&& trial.vars.skip(vars.len() as int + 3) == key_values_view(task.vars@)
        },
{
    let resolved = seq![Ok::<ResolvedTask<T>, String>(task)];
    let steps = bench_steps(vars, id, trials, seq![name], resolved);
    assert(seq![name].drop_last() =~= Seq::<Seq<char>>::empty());
    assert(bench_steps(vars, id, trials, Seq::<Seq<char>>::empty(), resolved) =~= Seq::empty());
    assert(steps =~= task_steps(vars, id, trials, name, resolved[0]));
    let local = key_values_view(task.vars@);
    let all = trial_vars(vars, id, name, k as nat, local);
    assert(all.take(vars.len() as int) =~= vars);
    assert(all.skip(vars.len() as int + 3) =~= local);
}

/// A benchmark of one task that the configuration does not have is one step, which skips it, however
/// many trials were asked for; and a benchmark of no task is no step.
pub proof fn lemma_skip_of_task<T>(
    vars: Seq<(Seq<char>, Seq<char>)>,
    id: Seq<char>,
    trials: nat,
    name: Seq<char>,
    error: String,
)
    ensures
        bench_steps(vars, id, trials, seq![name], seq![Err::<ResolvedTask<T>, String>(error)])
            == seq![BenchStepView::<T>::Skip { task_name: name, error: error@ }],
        bench_steps(
            vars,
            id,
            trials,
            Seq::<Seq<char>>::empty(),
            Seq::<Result<ResolvedTask<T>, String>>::empty(),
        ) == Seq::<BenchStepView<T>>::empty(),
{
    let resolved = seq![Err::<ResolvedTask<T>, String>(error)];
    assert(seq![name].drop_last() =~= Seq::<Seq<char>>::empty());
    assert(bench_steps(vars, id, trials, Seq::<Seq<char>>::empty(), resolved) =~= Seq::empty());
    assert(bench_steps(vars, id, trials, seq![name], resolved) =~= seq![
        BenchStepView::<T>::Skip { task_name: name, error: error@ },
    ]);
}

/// The tasks of a benchmark go one after the other: the steps for some tasks and then others are the
/// steps for the first, and then those for the others.
pub proof fn lemma_tasks_in_turn<T>(
    vars: Seq<(Seq<char>, Seq<char>)>,
    id: Seq<char>,
    trials: nat,
    names: Seq<Seq<char>>,
    resolved: Seq<Result<ResolvedTask<T>, String>>,
    more_names: Seq<Seq<char>>,
    more_resolved: Seq<Result<ResolvedTask<T>, String>>,
)
    requires
        names.len() == resolved.len(),
        more_names.len() == more_resolved.len(),
    ensures
        bench_steps(vars, id, trials, names + more_names, resolved + more_resolved)
            == bench_steps(vars, id, trials, names, resolved) + bench_steps(
            vars,
            id,
            trials,
            more_names,
            more_resolved,
        ),
    decreases more_names.len(),
{
    let all = names + more_names;
    let all_resolved = resolved + more_resolved;
    if more_names.len() == 0 {
        assert(all =~= names);
        assert(all_resolved =~= resolved);
        assert(bench_steps(vars, id, trials, more_names, more_resolved) =~= Seq::empty());
        assert(bench_steps(vars, id, trials, names, resolved) + Seq::<BenchStepView<T>>::empty()
            =~= bench_steps(vars, id, trials, names, resolved));
    } else {
        let fewer = more_names.drop_last();
        let fewer_resolved = more_resolved.drop_last();
        lemma_tasks_in_turn(vars, id, trials, names, resolved, fewer, fewer_resolved);
        assert(all.drop_last() =~= names + fewer);
        assert(all_resolved[all.len() - 1] == more_resolved[more_names.len() - 1]);
        lemma_only_named_count(vars, id, trials, fewer, fewer_resolved, more_resolved);
        lemma_only_named_count(
            vars,
            id,
            trials,
            names + fewer,
            resolved + fewer_resolved,
            all_resolved,
        );
        assert(bench_steps(vars, id, trials, all, all_resolved) =~= bench_steps(
            vars,
            id,
            trials,
            names,
            resolved,
        ) + bench_steps(vars, id, trials, more_names, more_resolved));
    }
}

proof fn lemma_only_named_count<T>(
    vars: Seq<(Seq<char>, Seq<char>)>,
    id: Seq<char>,
    trials: nat,
    names: Seq<Seq<char>>,
    resolved: Seq<Result<ResolvedTask<T>, String>>,
    more: Seq<Result<ResolvedTask<T>, String>>,
)
    requires
        names.len() <= resolved.len() <= more.len(),
        forall|i: int| 0 <= i < names.len() ==> resolved[i] == #[trigger] more[i],
    ensures
        bench_steps(vars, id, trials, names, resolved) == bench_steps(
            vars,
            id,
            trials,
            names,
            more,
        ),
    decreases names.len(),
{
    if names.len() > 0 {
        lemma_only_named_count(vars, id, trials, names.drop_last(), resolved, more);
        assert(resolved[names.len() - 1] == more[names.len() - 1]);
    }
}

/// A comma or a line end stands between two lists of tasks: what is named is what the first names,
/// and then what the second names.
pub proof fn lemma_lists_join(one: Seq<char>, delimiter: char, other: Seq<char>)
    requires
        delimiter == ',' || delimiter == '\n',
    ensures
        listed_names(one + seq![delimiter] + other) == listed_names(one) + listed_names(other),
{
    lemma_pieces_join(one, delimiter, other);
    lemma_names_join(pieces(one), pieces(other));
}

/// A text without commas and line ends names one task, whatever else it holds: the text without the
/// white space around it, where anything is left of it.
pub proof fn lemma_one_name(text: Seq<char>)
    requires
        forall|i: int| 0 <= i < text.len() ==> (#[trigger] text[i]) != ',' && text[i] != '\n',
    ensures
        crate::text::trimmed(text).len() > 0 ==> listed_names(text) == seq![
            crate::text::trimmed(text),
        ],
        crate::text::trimmed(text).len() == 0 ==> listed_names(text) == Seq::<Seq<char>>::empty(),
{
    lemma_first_delimiter(text);
    if let Some(i) = first_delimiter(text) {
        assert(text[i] != ',');
    }
    assert(seq![text].skip(1) =~= Seq::<Seq<char>>::empty());
    assert(names_among(Seq::<Seq<char>>::empty()) =~= Seq::<Seq<char>>::empty());
    assert(listed_names(text) =~= if crate::text::trimmed(text).len() > 0 {
        seq![crate::text::trimmed(text)]
    } else {
        Seq::empty()
    });
}

proof fn lemma_pieces_join(one: Seq<char>, delimiter: char, other: Seq<char>)
    requires
        is_delimiter(delimiter),
    ensures
        pieces(one + seq![delimiter] + other) == pieces(one) + pieces(other),
    decreases one.len(),
{
    let all = one + seq![delimiter] + other;
    lemma_first_delimiter(one);
    lemma_first_delimiter(all);
    let at = match first_delimiter(one) {
        Some(i) => i,
        None => one.len() as int,
    };
    assert(forall|j: int| 0 <= j < at ==> all[j] == one[j]);
    assert(is_delimiter(all[at]));
    assert(first_delimiter(all) == Some(at)) by {
        let i = first_delimiter(all)->0;
        if i < at {
            assert(!is_delimiter(one[i]));
        }
    }
    assert(all.take(at) =~= one.take(at));
    if at < one.len() {
        lemma_pieces_join(one.skip(at + 1), delimiter, other);
        assert(all.skip(at + 1) =~= one.skip(at + 1) + seq![delimiter] + other);
        assert(pieces(all) =~= pieces(one) + pieces(other));
    } else {
        assert(one.take(at) =~= one);
        assert(all.skip(at + 1) =~= other);
        assert(pieces(all) =~= pieces(one) + pieces(other));
    }
}

proof fn lemma_names_join(one: Seq<Seq<char>>, other: Seq<Seq<char>>)
    ensures
        names_among(one + other) == names_among(one) + names_among(other),
    decreases one.len(),
{
    if one.len() == 0 {
        assert(one + other =~= other);
        assert(names_among(one) + names_among(other) =~= names_among(other));
    } else {
        lemma_names_join(one.skip(1), other);
        assert((one + other).skip(1) =~= one.skip(1) + other);
        assert(names_among(one + other) =~= names_among(one) + names_among(other));
    }
}

} // verus!
