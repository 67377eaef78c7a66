use bench_harness::args::WorkerBackend;
use bench_harness::bench::{run_bench, task_names, BenchStep, KeyValue, ResolvedTask};
use bench_harness::vars::Variables;
use bench_harness::workers::{plan_workers, WorkerSpec};

fn task(instance: &str, vars: &[(&str, &str)]) -> ResolvedTask<u32> {
    ResolvedTask {
        instance: instance.to_string(),
        vars: vars.iter().map(|(k, v)| KeyValue::new(k, v)).collect(),
        tasks: vec![7, 8],
    }
}

fn pairs(vars: &[KeyValue]) -> Vec<(&str, &str)> {
    vars.iter().map(|entry| (entry.key.as_str(), entry.value.as_str())).collect()
}

#[test]
fn names_are_listed() {
    assert_eq!(task_names("task-1,task-2,task-n"), vec!["task-1", "task-2", "task-n"]);
    assert_eq!(task_names(" a ,\n b\n\n,c\t"), vec!["a", "b", "c"]);
    assert_eq!(task_names("one two"), vec!["one two"]);
    assert_eq!(task_names(", \n ,"), Vec::<String>::new());
    assert_eq!(task_names(""), Vec::<String>::new());
    assert_eq!(task_names("\u{3000}x\u{a0}"), vec!["x"]);
}

#[test]
fn delimiters_blanks_and_empty_parts_do_not_matter() {
    let names = task_names("a,b,c");
    assert_eq!(task_names("a\nb\nc"), names);
    assert_eq!(task_names(",, a ,\n\tb,\n \nc  ,"), names);
}

#[test]
fn every_trial_of_every_task_is_run() {
    let globals = vec![KeyValue::new("ROOT", "/data")];
    let resolved = vec![Ok(task("vm-a", &[("OUT", "{ROOT}/{TRIAL}")])), Ok(task("vm-b", &[]))];
    let steps = run_bench(&globals, "001", 2, "first, second", &resolved);
    assert_eq!(steps.len(), 4);
    let mut seen = Vec::new();
    for step in &steps {
        match step {
            BenchStep::Run(task) => {
                seen.push((task.name.as_str(), task.instance.as_str(), task.tasks.len()))
            }
            BenchStep::Skip { .. } => panic!("nothing is skipped"),
        }
    }
    assert_eq!(
        seen,
        vec![("first", "vm-a", 2), ("first", "vm-a", 2), ("second", "vm-b", 2), ("second", "vm-b", 2)]
    );
    match &steps[1] {
        BenchStep::Run(task) => assert_eq!(
            pairs(&task.vars),
            vec![
                ("ROOT", "/data"),
                ("BENCH_ID", "001"),
                ("TRIAL", "1"),
                ("TASK_NAME", "first"),
                ("OUT", "{ROOT}/{TRIAL}"),
            ]
        ),
        BenchStep::Skip { .. } => panic!("nothing is skipped"),
    }
}

#[test]
fn variables_of_a_task_refer_to_those_of_the_trial() {
    let globals = vec![KeyValue::new("ROOT", "/data")];
    let resolved = vec![Ok(task("vm", &[("OUT", "{ROOT}/{TASK_NAME}/{TRIAL}"), ("LOG", "{OUT}.log")]))];
    let steps = run_bench(&globals, "x", 12, "lava", &resolved);
    match &steps[11] {
        BenchStep::Run(task) => {
            let mut vars = Variables::default();
            vars.insert_all(
                task.vars.iter().map(|kv| (kv.key.clone(), kv.value.clone())).collect(),
            );
            assert_eq!(vars.get("LOG"), Some("/data/lava/11.log"));
        }
        BenchStep::Skip { .. } => panic!("nothing is skipped"),
    }
}

#[test]
fn a_task_that_is_not_there_is_skipped() {
    let resolved = vec![Err("unknown task".to_string()), Ok(task("vm", &[]))];
    let steps = run_bench(&vec![], "x", 1, "a,b", &resolved);
    assert_eq!(steps.len(), 2);
    match &steps[0] {
        BenchStep::Skip { task_name, error } => {
            assert_eq!(task_name, "a");
            assert_eq!(error, "unknown task");
        }
        BenchStep::Run(_) => panic!("there is no such task"),
    }
    assert!(matches!(&steps[1], BenchStep::Run(_)));
}

#[test]
fn without_trials_nothing_is_run() {
    let resolved = vec![Ok(task("vm", &[]))];
    assert_eq!(run_bench(&vec![], "x", 0, "a", &resolved).len(), 0);
}

#[test]
fn workers_are_numbered() {
    let local = plan_workers(WorkerBackend::Local, 2, true).unwrap();
    assert!(matches!(local[0], WorkerSpec::Local { id: 0 }));
    assert!(matches!(local[1], WorkerSpec::Local { id: 1 }));
    let dummy = plan_workers(WorkerBackend::Dummy, 3, false).unwrap();
    assert_eq!(dummy.len(), 3);
    assert!(matches!(dummy[2], WorkerSpec::Dummy { id: 2 }));
}

#[test]
fn virtual_machines_have_directories_of_their_own() {
    let plan = plan_workers(WorkerBackend::Firecracker, 11, false).unwrap();
    let mut names = Vec::new();
    for worker in plan {
        match worker {
            WorkerSpec::Firecracker { name } => names.push(name),
            other => panic!("{:?}", other),
        }
    }
    assert_eq!(names[0], "vm0-data");
    assert_eq!(names[10], "vm10-data");
    names.dedup();
    assert_eq!(names.len(), 11);
}

#[test]
fn local_workers_need_a_configuration() {
    let error = plan_workers(WorkerBackend::Local, 0, false).unwrap_err();
    assert_eq!(error.message(), "No local worker config");
}
