use bench_harness::agent::Stdio;
use bench_harness::icicle::files::{
    copy_dir_context, copy_fuzzing_metadata, copy_icicle_stats, mkdir_p_command,
    output_dir_context, stats_context,
};
use bench_harness::icicle::fuzz::{
    IcicleAction, IcicleEvent, IcicleRun, IcicleTask, Signal, TaskError,
};
use bench_harness::icicle::monitor::{IcicleMonitorOnlyTask, MonitorAction};
use bench_harness::paths::UnixPath;
use bench_harness::vars::Variables;

fn vars() -> Variables {
    let mut vars = Variables::default();
    vars.insert("WORKDIR".to_string(), "/work".to_string());
    vars.insert("TRIAL".to_string(), "3".to_string());
    vars
}

fn task(metadata_dir: Option<&str>) -> IcicleTask {
    IcicleTask {
        fuzzer_command: "fuzz {TRIAL}".to_string(),
        monitor_command: "monitor".to_string(),
        stats_src: "{WORKDIR}/stats".to_string(),
        stats_header: "time,blocks".to_string(),
        stats_dst: "/results/{TRIAL}.csv".to_string(),
        metadata_dir: metadata_dir.map(|x| x.to_string()),
    }
}

fn start(metadata_dir: Option<&str>) -> (IcicleRun, IcicleAction) {
    task(metadata_dir).run(&vars()).unwrap()
}

fn file(stdio: &Stdio) -> String {
    match stdio {
        Stdio::File(path) => path.display(),
        other => panic!("{:?}", other),
    }
}

#[test]
fn a_run_goes_through_its_stages() {
    let (mut run, first) = start(Some("/meta/{TRIAL}"));
    match first {
        IcicleAction::RunTask(command) => {
            assert_eq!(command.program, b"mkdir");
            assert_eq!(command.args, vec![b"-p".to_vec(), b"/work".to_vec()]);
        }
        other => panic!("{:?}", other),
    }
    match run.step(IcicleEvent::Succeeded) {
        IcicleAction::Spawn(request) => {
            assert_eq!(request.command, "fuzz {TRIAL}");
            assert!(matches!(request.stdin, Stdio::Null));
            assert_eq!(file(&request.stdout), "/work/fuzzer.stdout");
            assert_eq!(file(&request.stderr), "/work/fuzzer.stderr");
        }
        other => panic!("{:?}", other),
    }
    match run.step(IcicleEvent::Started(11)) {
        IcicleAction::Spawn(request) => {
            assert_eq!(request.command, "monitor");
            assert_eq!(file(&request.stdout), "/work/monitor.stdout");
            assert_eq!(file(&request.stderr), "/work/monitor.stderr");
        }
        other => panic!("{:?}", other),
    }
    assert!(matches!(
        run.step(IcicleEvent::Started(12)),
        IcicleAction::Watch { fuzzer: 11, monitor: 12 }
    ));
    assert!(matches!(
        run.step(IcicleEvent::Succeeded),
        IcicleAction::SendSignal { pid: 12, signal: Signal::Interrupt }
    ));
    assert!(matches!(
        run.step(IcicleEvent::Succeeded),
        IcicleAction::SendSignal { pid: 11, signal: Signal::Interrupt }
    ));
    match run.step(IcicleEvent::Succeeded) {
        IcicleAction::CopyStats(stats) => {
            assert_eq!(stats.src.bytes, b"/work/stats");
            assert_eq!(stats.dst.bytes, b"/results/3.csv");
            assert_eq!(stats.header, "time,blocks");
        }
        other => panic!("{:?}", other),
    }
    match run.step(IcicleEvent::Succeeded) {
        IcicleAction::MakeMetadataDir(dir) => assert_eq!(dir.bytes, b"/meta/3"),
        other => panic!("{:?}", other),
    }
    assert_eq!(run.metadata_context().unwrap(), "failed to create /meta/3");
    // Files that cannot be copied are passed over.
    let mut event = IcicleEvent::Succeeded;
    for name in ["monitor.stdout", "monitor.stderr", "fuzzer.stdout", "fuzzer.stderr"] {
        match run.step(event) {
            IcicleAction::CopyMetadata(copy) => {
                assert_eq!(copy.src.display(), format!("/work/{name}"));
                assert_eq!(copy.dst.display(), format!("/meta/3/{name}"));
            }
            other => panic!("{:?}", other),
        }
        event = IcicleEvent::Failed;
    }
    assert!(matches!(run.step(IcicleEvent::Succeeded), IcicleAction::Done));
    assert!(matches!(run.step(IcicleEvent::Failed), IcicleAction::Done));
}

#[test]
fn a_metadata_directory_that_cannot_be_created_ends_the_run() {
    let (mut run, _) = start(Some("/meta"));
    run.step(IcicleEvent::Succeeded);
    run.step(IcicleEvent::Started(1));
    run.step(IcicleEvent::Started(2));
    for _ in 0..3 {
        run.step(IcicleEvent::Succeeded);
    }
    assert!(matches!(run.step(IcicleEvent::Succeeded), IcicleAction::MakeMetadataDir(_)));
    assert!(matches!(run.step(IcicleEvent::Failed), IcicleAction::Failed));
}

#[test]
fn a_process_that_cannot_be_interrupted_is_killed() {
    let (mut run, _) = start(None);
    run.step(IcicleEvent::Succeeded);
    run.step(IcicleEvent::Started(1));
    run.step(IcicleEvent::Started(2));
    run.step(IcicleEvent::Succeeded);
    assert!(matches!(
        run.step(IcicleEvent::Failed),
        IcicleAction::SendSignal { pid: 2, signal: Signal::Kill }
    ));
    assert!(matches!(
        run.step(IcicleEvent::Succeeded),
        IcicleAction::SendSignal { pid: 1, signal: Signal::Interrupt }
    ));
    assert!(matches!(
        run.step(IcicleEvent::Failed),
        IcicleAction::SendSignal { pid: 1, signal: Signal::Kill }
    ));
    assert!(matches!(run.step(IcicleEvent::Succeeded), IcicleAction::CopyStats(_)));
    assert!(matches!(run.step(IcicleEvent::Succeeded), IcicleAction::Done));
}

#[test]
fn a_process_that_cannot_be_killed_ends_the_run() {
    let (mut run, _) = start(None);
    run.step(IcicleEvent::Succeeded);
    run.step(IcicleEvent::Started(1));
    run.step(IcicleEvent::Started(2));
    run.step(IcicleEvent::Succeeded);
    run.step(IcicleEvent::Failed);
    assert!(matches!(run.step(IcicleEvent::Failed), IcicleAction::Failed));
}

#[test]
fn any_other_failure_ends_the_run() {
    for steps in 0..4 {
        let (mut run, _) = start(None);
        let events =
            [IcicleEvent::Succeeded, IcicleEvent::Started(1), IcicleEvent::Started(2)];
        for event in &events[..steps] {
            run.step(*event);
        }
        assert!(matches!(run.step(IcicleEvent::Failed), IcicleAction::Failed));
        assert!(matches!(run.step(IcicleEvent::Succeeded), IcicleAction::Failed));
    }
}

#[test]
fn a_run_needs_a_working_directory() {
    let none = Variables::default();
    assert!(matches!(task(None).run(&none), Err(TaskError::NoWorkdir)));
    assert!(matches!(monitor(None).run(&none), Err(TaskError::NoWorkdir)));
    assert_eq!(TaskError::NoWorkdir.message(), "`WORKDIR` not defined");
}

fn monitor(copy_stdio_dir: Option<&str>) -> IcicleMonitorOnlyTask {
    IcicleMonitorOnlyTask {
        monitor_command: "monitor {TRIAL}".to_string(),
        stats_src: "stats".to_string(),
        stats_header: "h".to_string(),
        stats_dst: "{TRIAL}".to_string(),
        copy_stdio_dir: copy_stdio_dir.map(|x| x.to_string()),
    }
}

#[test]
fn a_monitor_is_run_to_its_end() {
    let (mut run, first) = monitor(Some("/keep/{TRIAL}")).run(&vars()).unwrap();
    assert!(matches!(first, MonitorAction::RunTask(_)));
    match run.step(IcicleEvent::Succeeded) {
        MonitorAction::Spawn(request) => {
            assert_eq!(request.command, "monitor {TRIAL}");
            assert_eq!(file(&request.stderr), "/work/monitor.stderr");
        }
        other => panic!("{:?}", other),
    }
    assert!(matches!(run.step(IcicleEvent::Started(5)), MonitorAction::Wait(5)));
    match run.step(IcicleEvent::Succeeded) {
        MonitorAction::CopyStats(stats) => assert_eq!(stats.dst.bytes, b"3"),
        other => panic!("{:?}", other),
    }
    match run.step(IcicleEvent::Succeeded) {
        MonitorAction::MakeOutputDir(dir) => assert_eq!(dir.bytes, b"/keep/3"),
        other => panic!("{:?}", other),
    }
    assert_eq!(
        run.output_context().unwrap(),
        "failed to create /keep/3 to copy stdout/stderr"
    );
    for name in ["monitor.stdout", "monitor.stderr"] {
        match run.step(IcicleEvent::Succeeded) {
            MonitorAction::CopyOutput(copy) => {
                assert_eq!(copy.src.display(), format!("/work/{name}"));
                assert_eq!(copy.dst.display(), format!("/keep/3/{name}"));
            }
            other => panic!("{:?}", other),
        }
    }
    assert!(matches!(run.step(IcicleEvent::Succeeded), MonitorAction::Done));
}

#[test]
fn a_monitor_that_fails_ends_the_run() {
    let (mut run, _) = monitor(None).run(&vars()).unwrap();
    run.step(IcicleEvent::Succeeded);
    run.step(IcicleEvent::Started(5));
    assert!(matches!(run.step(IcicleEvent::Failed), MonitorAction::Failed));
    assert!(matches!(run.step(IcicleEvent::Succeeded), MonitorAction::Failed));
}

#[test]
fn output_that_cannot_be_copied_ends_the_run() {
    let (mut run, _) = monitor(Some("/keep")).run(&vars()).unwrap();
    run.step(IcicleEvent::Succeeded);
    run.step(IcicleEvent::Started(5));
    run.step(IcicleEvent::Succeeded);
    run.step(IcicleEvent::Succeeded);
    assert!(matches!(run.step(IcicleEvent::Succeeded), MonitorAction::CopyOutput(_)));
    assert!(matches!(run.step(IcicleEvent::Failed), MonitorAction::Failed));
    assert!(matches!(run.step(IcicleEvent::Succeeded), MonitorAction::Failed));
}

#[test]
fn without_a_directory_no_output_is_kept() {
    let (mut run, _) = monitor(None).run(&vars()).unwrap();
    run.step(IcicleEvent::Succeeded);
    run.step(IcicleEvent::Started(5));
    run.step(IcicleEvent::Succeeded);
    assert!(matches!(run.step(IcicleEvent::Succeeded), MonitorAction::Done));
}

#[test]
fn what_cannot_be_created_or_opened_is_named() {
    let path = UnixPath::new("/x/y");
    assert_eq!(copy_dir_context(&path), "failed to create /x/y");
    assert_eq!(output_dir_context(&path), "failed to create /x/y to copy stdout/stderr");
    assert_eq!(stats_context(&path), "failed to open stats file: /x/y");
}

#[test]
fn the_header_is_written_once() {
    let mut table: Vec<u8> = Vec::new();
    for trial in [b"1,2\n".to_vec(), b"3,4\n".to_vec(), b"5,6\n".to_vec()] {
        let bytes = copy_icicle_stats(table.len() as u64, "time,blocks", &trial);
        table.extend(bytes);
    }
    assert_eq!(table, b"time,blocks\n1,2\n3,4\n5,6\n");
    assert_eq!(copy_icicle_stats(9, "h", &b"x".to_vec()), b"x");
    assert_eq!(copy_icicle_stats(0, "h", &vec![]), b"h\n");
}

#[test]
fn metadata_is_copied() {
    let work = UnixPath::new("/w");
    let dir = UnixPath::new("/m/");
    let with = copy_fuzzing_metadata(&work, &Some(UnixPath::new("/mon")), &dir);
    let shown: Vec<(String, String)> =
        with.iter().map(|c| (c.src.display(), c.dst.display())).collect();
    let expected = [
        ("/w/monitor.stdout", "/m/monitor.stdout"),
        ("/w/monitor.stderr", "/m/monitor.stderr"),
        ("/w/fuzzer.stdout", "/m/fuzzer.stdout"),
        ("/w/fuzzer.stderr", "/m/fuzzer.stderr"),
        ("/mon/hit_blocks.json", "/m/hit_blocks.json"),
        ("/mon/input_graph.json", "/m/input_graph.json"),
    ];
    assert_eq!(shown.len(), expected.len());
    for (copy, (src, dst)) in shown.iter().zip(expected) {
        assert_eq!((copy.0.as_str(), copy.1.as_str()), (src, dst));
    }
    assert_eq!(copy_fuzzing_metadata(&work, &None, &dir).len(), 4);
}

#[test]
fn the_monitor_directory_is_taken_from_the_variables() {
    let mut vars = vars();
    vars.insert("MONITOR_DIR".to_string(), "/mon".to_string());
    let (mut run, _) = task(Some("m")).run(&vars).unwrap();
    assert_eq!(run.workdir_context(), "failed to create WORKDIR: /work");
    run.step(IcicleEvent::Succeeded);
    run.step(IcicleEvent::Started(1));
    run.step(IcicleEvent::Started(2));
    for _ in 0..3 {
        run.step(IcicleEvent::Succeeded);
    }
    run.step(IcicleEvent::Succeeded);
    let mut sources = Vec::new();
    while let IcicleAction::CopyMetadata(copy) = run.step(IcicleEvent::Succeeded) {
        sources.push(copy.src.display());
    }
    assert_eq!(sources.len(), 6);
    assert_eq!(sources[4], "/mon/hit_blocks.json");
    assert_eq!(sources[5], "/mon/input_graph.json");
}

#[test]
fn a_directory_is_created_with_those_above_it() {
    let command = mkdir_p_command(&UnixPath::new("/a b"));
    assert_eq!(command.program, b"mkdir");
    assert_eq!(command.args, vec![b"-p".to_vec(), b"/a b".to_vec()]);
    assert!(matches!(command.stdout, Stdio::Capture));
}
