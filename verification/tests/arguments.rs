use bench_harness::args::{Args, ArgsError, Command, WorkerBackend};
use bench_harness::text::IntError;
use pico_args::Arguments;

fn parse(words: &[&str]) -> Result<Args, ArgsError> {
    Args::parse(Arguments::from_vec(words.iter().map(|word| word.into()).collect()))
}

fn message(words: &[&str]) -> String {
    parse(words).unwrap_err().message()
}

#[test]
fn a_benchmark_is_parsed() {
    let args = parse(&["--workers=1", "bench", "--id=001", "--trials=1", "task-1,task-2"]).unwrap();
    assert_eq!(args.workers, 1);
    assert_eq!(args.config.bytes, b"config.toml");
    assert_eq!(args.backend, WorkerBackend::Firecracker);
    match args.command {
        Command::Bench { id, trials, tasks } => {
            assert_eq!(id, "001");
            assert_eq!(trials, 1);
            assert_eq!(tasks, "task-1,task-2");
        }
        other => panic!("{:?}", other),
    }
}

#[test]
fn a_list_of_words_is_parsed() {
    let words = ["debug", "--backend", "dummy", "vm-1"].map(|word| word.to_string()).to_vec();
    let args = Args::parse_words(words).unwrap();
    assert_eq!(args.backend, WorkerBackend::Dummy);
    assert!(matches!(args.command, Command::Debug(name) if name == "vm-1"));
    assert!(matches!(Args::parse_words(vec![]), Err(ArgsError::MissingCommand)));
}

#[test]
fn a_large_benchmark_is_parsed() {
    let args = parse(&["--workers=50", "bench", "--id=001", "--trials=20", "a\nb"]).unwrap();
    assert_eq!(args.workers, 50);
    assert!(matches!(args.command, Command::Bench { trials: 20, .. }));
}

#[test]
fn what_is_not_given_has_a_default() {
    let args = parse(&["bench", "all"]).unwrap();
    assert_eq!(args.workers, 1);
    match args.command {
        Command::Bench { id, trials, tasks } => {
            assert_eq!(id, "debug");
            assert_eq!(trials, 1);
            assert_eq!(tasks, "all");
        }
        other => panic!("{:?}", other),
    }
}

#[test]
fn options_may_stand_anywhere_and_be_spelled_either_way() {
    for words in [
        vec!["--workers", "3", "--config", "a.toml", "--backend", "local", "build"],
        vec!["build", "--workers=3", "--config=a.toml", "--backend=local"],
        vec!["--backend", "local", "build", "--config", "a.toml", "--workers", "3"],
        vec!["--config='a.toml'", "build", "--workers=\"3\"", "--backend", "local"],
    ] {
        let args = parse(&words).unwrap();
        assert_eq!(args.workers, 3);
        assert_eq!(args.config.bytes, b"a.toml");
        assert_eq!(args.backend, WorkerBackend::Local);
        assert!(matches!(args.command, Command::Build));
    }
}

#[test]
fn the_other_commands_are_parsed() {
    assert!(matches!(parse(&["build"]).unwrap().command, Command::Build));
    match parse(&["debug", "vm"]).unwrap().command {
        Command::Debug(name) => assert_eq!(name, "vm"),
        other => panic!("{:?}", other),
    }
    match parse(&["expand-task", "lava"]).unwrap().command {
        Command::ExpandTask(name) => assert_eq!(name, "lava"),
        other => panic!("{:?}", other),
    }
}

#[test]
fn backends_are_named() {
    assert!(matches!(WorkerBackend::from_str("local"), Ok(WorkerBackend::Local)));
    assert!(matches!(WorkerBackend::from_str("firecracker"), Ok(WorkerBackend::Firecracker)));
    assert!(matches!(WorkerBackend::from_str("dummy"), Ok(WorkerBackend::Dummy)));
    assert!(matches!(WorkerBackend::from_str("Local"), Err(ArgsError::Backend(_))));
    assert_eq!(
        message(&["--backend=qemu", "build"]),
        "failed to parse 'qemu': Invalid worker backend: qemu"
    );
}

#[test]
fn what_is_missing_is_named() {
    assert!(matches!(parse(&[]), Err(ArgsError::MissingCommand)));
    assert!(matches!(parse(&["debug"]), Err(ArgsError::MissingInstance)));
    assert!(matches!(parse(&["bench"]), Err(ArgsError::MissingTaskList)));
    assert!(matches!(parse(&["expand-task"]), Err(ArgsError::MissingTask)));
    assert_eq!(message(&[]), "missing COMMAND");
    assert_eq!(message(&["debug"]), "expected instance name");
    assert_eq!(message(&["bench", "--id=1"]), "expected task list");
    assert_eq!(message(&["expand-task"]), "expected task name");
}

#[test]
fn an_unknown_command_is_named() {
    assert!(matches!(parse(&["run"]), Err(ArgsError::UnknownCommand(_))));
    assert_eq!(message(&["run"]), "Unknown command: run");
}

#[test]
fn an_option_needs_a_value() {
    assert!(matches!(parse(&["build", "--config"]), Err(ArgsError::WithoutValue(_))));
    assert_eq!(
        message(&["build", "--config"]),
        "the '--config' option doesn't have an associated value"
    );
    assert!(matches!(parse(&["build", "--config="]), Err(ArgsError::WithoutValue(_))));
    assert!(matches!(parse(&["build", "--config='x"]), Err(ArgsError::WithoutValue(_))));
    assert!(matches!(parse(&["build", "--config=''"]), Err(ArgsError::WithoutValue(_))));
}

#[test]
fn a_number_must_be_one() {
    assert!(matches!(
        parse(&["--workers=many", "build"]),
        Err(ArgsError::Number { reason: IntError::InvalidDigit, .. })
    ));
    assert_eq!(
        message(&["--workers=many", "build"]),
        "failed to parse 'many': invalid digit found in string"
    );
    assert_eq!(
        message(&["bench", "--trials=99999999999999999999", "x"]),
        "failed to parse '99999999999999999999': number too large to fit in target type"
    );
    assert_eq!(
        message(&["--workers", "", "build"]),
        "failed to parse '': cannot parse integer from empty string"
    );
    assert_eq!(parse(&["--workers=+7", "build"]).unwrap().workers, 7);
}

#[test]
fn arguments_that_are_not_utf8_are_refused() {
    let mut header = tar::Header::new_old();
    header.as_old_mut().name[0] = 0xff;
    let bad = header.path().unwrap().into_owned().into_os_string();
    let taken = Args::parse(Arguments::from_vec(vec!["--config".into(), bad.clone()]));
    assert!(matches!(taken, Err(ArgsError::NonUtf8)));
    assert_eq!(taken.unwrap_err().message(), "argument is not a UTF-8 string");
    let command = Args::parse(Arguments::from_vec(vec![bad]));
    assert!(matches!(command, Err(ArgsError::MissingCommand)));
}

#[test]
fn the_usage_is_shown() {
    assert_eq!(
        Args::usage_str(),
        "bench-harness [--config=<path>] [--workers=<num>] [--backend=<backend>] COMMAND"
    );
}
