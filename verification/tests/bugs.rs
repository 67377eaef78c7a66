use bench_harness::agent::{ExitKind, RunCommand, Stdio};
use bench_harness::lava::check::{CheckAction, LavaCheck, MAX_ATTEMPTS};
use bench_harness::lava::report::bug_ids_fit;
use bench_harness::lava::run::{LavaAction, LavaEvent};
use bench_harness::lava::runner::{DirEntry, LavaVerifier};
use bench_harness::lava::task::{LavaVerifierTask, BUG_HEADER};
use bench_harness::paths::UnixPath;
use bench_harness::vars::Variables;

fn command(args: &[&str]) -> RunCommand {
    let mut command = RunCommand::new("target");
    for arg in args {
        command.args.push(arg.as_bytes().to_vec());
    }
    command
}

fn entry(path: &str, time: u64) -> DirEntry {
    DirEntry { path: UnixPath::new(path), time }
}

fn bugs(stdout: &[u8], stderr: &[u8]) -> Vec<u64> {
    LavaVerifier::new(command(&[])).found_bugs(stdout, stderr).into_iter().collect()
}

#[test]
fn whole_sentences_are_reports() {
    assert_eq!(bugs(b"Successfully triggered bug 357, crashing now!", b""), vec![357]);
    assert_eq!(
        bugs(b"\xffSuccessfully triggered bug 2Successfully triggered bug 10\n", b""),
        vec![2, 10]
    );
    assert_eq!(
        bugs(b"Successfully triggered bug 9", b"x Successfully triggered bug 007 y"),
        vec![7, 9]
    );
    assert_eq!(
        bugs(b"Successfully triggered bug 4 Successfully triggered bug 4", b"Successfully triggered bug 4"),
        vec![4]
    );
}

#[test]
fn fragments_are_no_reports() {
    assert_eq!(bugs(b"Successfully triggered bug ", b"triggered bug 12"), Vec::<u64>::new());
    assert_eq!(bugs(b"successfully triggered bug 1", b"Successfully triggered bug x1"), Vec::<u64>::new());
    assert_eq!(
        bugs(b"Successfully triggered bug Successfully triggered bug 3", b""),
        vec![3]
    );
}

#[test]
fn ids_are_held_to_the_limit() {
    assert!(bug_ids_fit(b"Successfully triggered bug 18446744073709551615"));
    assert!(!bug_ids_fit(b"Successfully triggered bug 18446744073709551616"));
    assert!(bug_ids_fit(b"nothing 99999999999999999999999"));
    assert_eq!(bugs(b"Successfully triggered bug 18446744073709551615", b""), vec![u64::MAX]);
}

#[test]
fn the_input_is_put_into_the_command() {
    let mut verifier = LavaVerifier::new(command(&["-f", "@@", "@@"]));
    assert_eq!(verifier.input_index, Some(1));
    let first = verifier.check_one(&entry("/out/a", 0));
    assert_eq!(first.args, vec![b"-f".to_vec(), b"/out/a".to_vec(), b"@@".to_vec()]);
    match first.stdin {
        Stdio::File(path) => assert_eq!(path.bytes, b"/out/a"),
        other => panic!("{:?}", other),
    }
    let second = verifier.check_one(&entry("/out/b", 0));
    assert_eq!(second.args[1], b"/out/b");
}

#[test]
fn a_command_without_a_place_reads_its_input() {
    let mut verifier = LavaVerifier::new(command(&["-q"]));
    assert_eq!(verifier.input_index, None);
    let run = verifier.check_one(&entry("/out/a", 0));
    assert_eq!(run.args, vec![b"-q".to_vec()]);
    assert!(matches!(run.stdin, Stdio::File(_)));
}

/// Runs a check to its end; `outcome` says what the run of an input writes.
fn run_all(crashes: Vec<DirEntry>, outcome: fn(&[u8], usize) -> (ExitKind, &'static [u8])) -> (LavaCheck, Vec<Vec<u8>>) {
    let mut check = LavaCheck::new(command(&["@@"]), crashes);
    let mut runs: Vec<Vec<u8>> = Vec::new();
    loop {
        match check.next(false) {
            CheckAction::Finished => return (check, runs),
            CheckAction::Stopped => panic!("nobody asked for a stop"),
            CheckAction::Run(run) => {
                let path = run.args[0].clone();
                let times = runs.iter().filter(|x| **x == path).count();
                let (exit, stdout) = outcome(&path, times);
                check.ran(exit, stdout, b"");
                runs.push(path);
            }
        }
    }
}

#[test]
fn the_earliest_input_counts() {
    let crashes = vec![entry("/c/late", 90), entry("/c/early", 20), entry("/c/middle", 50)];
    let (check, runs) =
        run_all(crashes, |_, _| (ExitKind::Crash, b"Successfully triggered bug 5"));
    assert_eq!(runs.len(), 3);
    let bugs = check.into_bugs();
    assert_eq!(bugs.len(), 1);
    assert_eq!(bugs[&5].time, 20);
    assert_eq!(bugs[&5].name, "early");
    assert_eq!(bugs[&5].exit, ExitKind::Crash);
}

#[test]
fn of_two_inputs_of_one_time_the_first_counts() {
    let crashes = vec![entry("/c/one", 5), entry("/c/two", 5)];
    let (check, _) = run_all(crashes, |_, _| (ExitKind::Other, b"Successfully triggered bug 1"));
    assert_eq!(check.into_bugs()[&1].name, "one");
}

#[test]
fn a_crash_without_a_report_is_tried_again() {
    let (check, runs) = run_all(vec![entry("/c/a", 3), entry("/c/b", 4)], |path, times| {
        if path == b"/c/a" && times == 2 {
            (ExitKind::Crash, b"Successfully triggered bug 8")
        } else if path == b"/c/a" {
            (ExitKind::Crash, b"")
        } else {
            (ExitKind::Other, b"")
        }
    });
    let order: Vec<&[u8]> = vec![b"/c/a", b"/c/b", b"/c/a", b"/c/a"];
    assert_eq!(runs, order);
    assert_eq!(check.into_bugs()[&8].time, 3);
}

#[test]
fn attempts_are_bounded() {
    let (check, runs) = run_all(vec![entry("/c/a", 3)], |_, _| (ExitKind::Crash, b""));
    assert_eq!(MAX_ATTEMPTS, 10);
    assert_eq!(runs.len(), 10);
    assert!(check.into_bugs().is_empty());
}

#[test]
fn an_input_that_cannot_be_run_is_passed_over() {
    let mut check = LavaCheck::new(command(&[]), vec![entry("/c/a", 1), entry("/c/b", 2)]);
    assert!(matches!(check.next(false), CheckAction::Run(_)));
    check.failed();
    assert!(matches!(check.next(false), CheckAction::Run(_)));
    check.ran(ExitKind::Other, b"", b"Successfully triggered bug 6");
    assert!(matches!(check.next(false), CheckAction::Finished));
    assert_eq!(check.into_bugs()[&6].name, "b");
}

#[test]
fn a_stop_ends_the_check() {
    let mut check = LavaCheck::new(command(&[]), vec![entry("/c/a", 1)]);
    assert!(matches!(check.next(true), CheckAction::Stopped));
    let mut empty = LavaCheck::new(command(&[]), vec![]);
    assert!(matches!(empty.next(true), CheckAction::Finished));
}

#[test]
fn names_that_cannot_be_shown_are_unknown() {
    let crashes = vec![
        DirEntry { path: UnixPath { bytes: vec![b'/', 0xff] }, time: 1 },
        entry("/c/..", 0),
    ];
    let (check, _) = run_all(crashes, |path, _| {
        if path == b"/c/.." {
            (ExitKind::Other, b"Successfully triggered bug 2")
        } else {
            (ExitKind::Other, b"Successfully triggered bug 1")
        }
    });
    let bugs = check.into_bugs();
    assert_eq!(bugs[&1].name, "unknown");
    assert_eq!(bugs[&2].name, "unknown");
}

fn task() -> LavaVerifierTask {
    LavaVerifierTask {
        command: "run @@ {TAG}".to_string(),
        crash_dir: "{WORKDIR}/crashes".to_string(),
        dst: "/results/{TAG}.csv".to_string(),
    }
}

fn task_vars() -> Variables {
    let mut vars = Variables::default();
    vars.insert("WORKDIR".to_string(), "/w".to_string());
    vars.insert("TAG".to_string(), "base64".to_string());
    vars
}

fn ran(stdout: &[u8]) -> LavaEvent {
    LavaEvent::Ran { exit: ExitKind::Crash, stdout: stdout.to_vec(), stderr: vec![] }
}

#[test]
fn a_task_ends_with_its_table() {
    let (mut run, first) = task().run(&task_vars());
    assert!(matches!(first, LavaAction::Stat(dir) if dir.bytes == b"/w/crashes"));
    assert!(matches!(
        run.step(LavaEvent::Succeeded, false),
        LavaAction::List(dir) if dir.bytes == b"/w/crashes"
    ));
    assert!(matches!(
        run.step(LavaEvent::Listed(vec![entry("/c/a", 30), entry("/c/b", 10)]), false),
        LavaAction::Prepare(template) if template == "run @@ {TAG}"
    ));
    match run.step(LavaEvent::Prepared(command(&["@@"])), false) {
        LavaAction::Run(command) => assert_eq!(command.args, vec![b"/c/a".to_vec()]),
        other => panic!("{:?}", other),
    }
    match run.step(ran(b"Successfully triggered bug 100"), false) {
        LavaAction::Run(command) => assert_eq!(command.args, vec![b"/c/b".to_vec()]),
        other => panic!("{:?}", other),
    }
    match run.step(ran(b"Successfully triggered bug 20"), false) {
        LavaAction::Append { dst, rows } => {
            assert_eq!(dst.bytes, b"/results/base64.csv");
            let shown: Vec<(&str, &str, u64)> =
                rows.iter().map(|r| (r.tag.as_str(), r.bug_id.as_str(), r.time)).collect();
            assert_eq!(
                shown,
                vec![("base64", "none", 0), ("base64", "20", 10), ("base64", "100", 30)]
            );
        }
        other => panic!("{:?}", other),
    }
    assert!(matches!(run.step(LavaEvent::Succeeded, false), LavaAction::Done));
    assert!(matches!(run.step(LavaEvent::Succeeded, true), LavaAction::Done));
    assert_eq!(BUG_HEADER, "tag,bug_id,time");
}

#[test]
fn a_task_that_fails_appends_nothing() {
    for steps in 0..3 {
        let (mut run, _) = task().run(&task_vars());
        for step in 0..steps {
            let event = match step {
                0 => LavaEvent::Succeeded,
                _ => LavaEvent::Listed(vec![]),
            };
            run.step(event, false);
        }
        assert!(matches!(run.step(LavaEvent::Failed, false), LavaAction::Failed));
        assert!(matches!(run.step(LavaEvent::Succeeded, false), LavaAction::Failed));
    }
    let (run, _) = task().run(&task_vars());
    assert_eq!(run.stat_context(), "Failed to stat: /w/crashes");
}

#[test]
fn a_table_that_cannot_be_written_fails_the_task() {
    let (mut run, _) = task().run(&task_vars());
    run.step(LavaEvent::Succeeded, false);
    run.step(LavaEvent::Listed(vec![]), false);
    match run.step(LavaEvent::Prepared(command(&[])), true) {
        LavaAction::Append { rows, .. } => assert_eq!(rows.len(), 1),
        other => panic!("{:?}", other),
    }
    assert!(matches!(run.step(LavaEvent::Failed, false), LavaAction::Failed));
}

#[test]
fn a_task_that_is_stopped_appends_nothing() {
    let (mut run, _) = task().run(&task_vars());
    run.step(LavaEvent::Succeeded, false);
    run.step(LavaEvent::Listed(vec![entry("/c/a", 1), entry("/c/b", 2)]), false);
    assert!(matches!(
        run.step(LavaEvent::Prepared(command(&[])), false),
        LavaAction::Run(_)
    ));
    assert!(matches!(run.step(ran(b"Successfully triggered bug 1"), true), LavaAction::Stopped));
    assert!(matches!(run.step(ran(b""), false), LavaAction::Stopped));
}

#[test]
fn a_crash_that_cannot_be_run_does_not_fail_the_task() {
    let (mut run, _) = task().run(&task_vars());
    run.step(LavaEvent::Succeeded, false);
    run.step(LavaEvent::Listed(vec![entry("/c/a", 1), entry("/c/b", 2)]), false);
    run.step(LavaEvent::Prepared(command(&[])), false);
    assert!(matches!(run.step(LavaEvent::Failed, false), LavaAction::Run(_)));
    match run.step(ran(b"Successfully triggered bug 4"), false) {
        LavaAction::Append { rows, .. } => assert_eq!(rows[1].time, 2),
        other => panic!("{:?}", other),
    }
}

#[test]
fn a_run_without_a_tag_is_marked_so() {
    let plan = task().plan(&Variables::default());
    assert_eq!(plan.tag, "?");
    assert_eq!(plan.crash_dir, "{WORKDIR}/crashes");
    assert_eq!(plan.stat_context(), "Failed to stat: {WORKDIR}/crashes");
    assert_eq!(plan.rows(&std::collections::BTreeMap::new()).len(), 1);
}
