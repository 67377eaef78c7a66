use bench_harness::docker::copy::{
    check_copy, copy_file, CopyAction, CopyEvent, CopyState, COPY_FAILED, CREATE_FAILED,
    EXTRACT_NAME, REMOVE_FAILED, TEMP_FILE_FAILED, UNPACK_FAILED,
};
use bench_harness::docker::image::{
    build_image, creation_time_command, creation_time_of, get_creation_time, get_image_size,
    image_size_command, DockerSource, InspectError,
};
use bench_harness::paths::UnixPath;
use bench_harness::shell::{CmdOutput, CommandError, ShellCommand, ShellRun, XShellExt};
use bench_harness::text::IntError;

fn source(copy: &[&str], dirs: &[&str]) -> DockerSource {
    DockerSource {
        tag: "icicle/base".to_string(),
        build_path: UnixPath::new("docker/base"),
        copy: copy.iter().map(|p| UnixPath::new(p)).collect(),
        create_dirs: dirs.iter().map(|p| UnixPath::new(p)).collect(),
    }
}

fn line(command: &ShellCommand) -> String {
    let mut words = vec![command.program.clone()];
    for arg in &command.args {
        words.push(String::from_utf8(arg.clone()).unwrap());
    }
    words.join(" ")
}

fn output(success: bool, stdout: &[u8], stderr: &[u8]) -> CmdOutput {
    CmdOutput { success, stdout: stdout.to_vec(), stderr: stderr.to_vec() }
}

#[test]
fn an_image_is_built_with_or_without_the_cache() {
    let source = source(&[], &[]);
    assert_eq!(line(&build_image(&source, false)), "docker build -t icicle/base docker/base");
    assert_eq!(
        line(&build_image(&source, true)),
        "docker build -t icicle/base docker/base --no-cache"
    );
}

#[test]
fn an_image_is_inspected() {
    let source = source(&[], &[]);
    assert_eq!(
        line(&image_size_command(&source)),
        "docker image inspect icicle/base --format={{.Size}}"
    );
    assert_eq!(
        line(&creation_time_command(&source)),
        "docker image inspect icicle/base --format={{.Created}}"
    );
}

#[test]
fn the_size_of_an_image_is_read() {
    assert_eq!(get_image_size(output(true, b" 1234\n", b"")).unwrap(), 1234);
    assert_eq!(get_image_size(output(true, b"18446744073709551615", b"")).unwrap(), u64::MAX);
}

#[test]
fn a_size_that_cannot_be_read_is_an_error() {
    let failed = get_image_size(output(false, b"1234", b"No such image\xff")).unwrap_err();
    assert_eq!(
        failed.size_message(),
        "error inspecting size of docker image: No such image\u{fffd}"
    );
    let text = get_image_size(output(true, b"12x", b"")).unwrap_err();
    assert!(matches!(text, InspectError::Size(IntError::InvalidDigit)));
    assert_eq!(text.size_message(), "error parsing image size");
    let empty = get_image_size(output(true, b"\n", b"")).unwrap_err();
    assert!(matches!(empty, InspectError::Size(IntError::Empty)));
    let large = get_image_size(output(true, b"18446744073709551616", b"")).unwrap_err();
    assert!(matches!(large, InspectError::Size(IntError::PosOverflow)));
    let bytes = get_image_size(output(true, &[0xff], b"")).unwrap_err();
    assert!(matches!(bytes, InspectError::NonUtf8(_)));
    assert_eq!(bytes.size_message(), "error parsing image size");
}

#[test]
fn the_date_of_an_image_is_read() {
    let read = |text: &[u8]| get_creation_time(output(true, text, b""));
    assert_eq!(read(b"1970-01-01T00:00:01.000000002Z\n").unwrap(), 1_000_000_002);
    assert_eq!(read(b"2022-05-01T12:00:00+02:00").unwrap(), 1_651_399_200_000_000_000);
    assert_eq!(read(b"1969-12-31T23:59:59Z").unwrap(), -1_000_000_000);
}

#[test]
fn a_date_that_cannot_be_read_is_an_error() {
    let text = get_creation_time(output(true, b"yesterday", b"")).unwrap_err();
    assert!(matches!(text, InspectError::Date(_)));
    assert_eq!(text.date_message(), "error parsing image creation date");
    let failed = get_creation_time(output(false, b"", b"gone")).unwrap_err();
    assert_eq!(failed.date_message(), "error inspecting creation date of docker image: gone");
    let bytes = get_creation_time(output(true, &[0xff], b"")).unwrap_err();
    assert!(matches!(bytes, InspectError::NonUtf8(_)));
}

#[test]
fn what_the_date_parser_says_decides() {
    assert_eq!(creation_time_of(Ok(5)).unwrap(), 5);
    let format = &time::format_description::well_known::Rfc3339;
    let refused = time::OffsetDateTime::parse("x", format).unwrap_err();
    assert!(matches!(creation_time_of(Err(refused)), Err(InspectError::Date(_))));
}

#[test]
fn a_copy_creates_copies_and_removes() {
    let source = source(&["etc", "usr/bin"], &["proc"]);
    let root = UnixPath::new("/mnt");
    let (mut state, action) = CopyState::copy_image(&source, &root);
    let mut lines = Vec::new();
    let mut next = action;
    loop {
        next = match next {
            CopyAction::Create(command) => {
                lines.push(line(&command));
                state.step(CopyEvent::Created("c0ffee\n".to_string()))
            }
            CopyAction::Copy(command) | CopyAction::MakeDir(command) | CopyAction::Remove(command) => {
                lines.push(line(&command));
                state.step(CopyEvent::Succeeded)
            }
            CopyAction::Done => break,
            CopyAction::Failed => panic!("nothing failed"),
        };
    }
    assert_eq!(
        lines,
        vec![
            "docker create icicle/base",
            "docker cp c0ffee:/etc -",
            "docker cp c0ffee:/usr/bin -",
            "mkdir /mnt/proc",
            "docker rm c0ffee",
        ]
    );
    assert!(state.cleanup().is_none());
}

#[test]
fn a_container_is_removed_after_a_failure() {
    let source = source(&["etc"], &["proc"]);
    let root = UnixPath::new("/mnt");
    let (mut state, _) = CopyState::copy_image(&source, &root);
    assert!(matches!(state.step(CopyEvent::Created("c1".to_string())), CopyAction::Copy(_)));
    match state.step(CopyEvent::Failed) {
        CopyAction::Remove(command) => assert_eq!(line(&command), "docker rm c1"),
        other => panic!("{:?}", other),
    }
    assert!(matches!(state.step(CopyEvent::Succeeded), CopyAction::Failed));
    assert!(matches!(state.step(CopyEvent::Succeeded), CopyAction::Failed));
}

#[test]
fn a_container_that_cannot_be_created_is_not_removed() {
    let source = source(&["etc"], &[]);
    let root = UnixPath::new("/mnt");
    let (mut state, _) = CopyState::copy_image(&source, &root);
    assert!(matches!(state.step(CopyEvent::Failed), CopyAction::Failed));
    assert!(state.cleanup().is_none());
}

#[test]
fn a_container_that_cannot_be_removed_fails_the_copy() {
    let source = source(&[], &[]);
    let root = UnixPath::new("/mnt");
    let (mut state, _) = CopyState::copy_image(&source, &root);
    assert!(matches!(state.step(CopyEvent::Created("c2".to_string())), CopyAction::Remove(_)));
    assert!(matches!(state.step(CopyEvent::Failed), CopyAction::Failed));
}

#[test]
fn a_dropped_copy_removes_its_container_once() {
    let source = source(&["etc"], &[]);
    let root = UnixPath::new("/mnt");
    let (mut state, _) = CopyState::copy_image(&source, &root);
    state.step(CopyEvent::Created("c3".to_string()));
    assert_eq!(line(&state.cleanup().unwrap()), "docker rm c3");
    assert!(state.cleanup().is_none());
}

#[test]
fn files_are_named_as_they_are_shown() {
    let file = UnixPath { bytes: vec![b'a', 0xff] };
    assert_eq!(line(&copy_file("c", &file)), "docker cp c:/a\u{fffd} -");
    assert_eq!(EXTRACT_NAME, "bench-harness-docker-extract");
    assert_eq!(CREATE_FAILED, "failed to create container");
    assert_eq!(REMOVE_FAILED, "failed to remove container");
    assert_eq!(TEMP_FILE_FAILED, "failed to create temporary file for copying");
    assert_eq!(COPY_FAILED, "error running docker cp");
    assert_eq!(UNPACK_FAILED, "error unpacking archive");
}

#[test]
fn a_failed_copy_says_why() {
    assert!(check_copy(&output(true, b"", b"noise")).is_ok());
    assert_eq!(
        check_copy(&output(false, b"", b"no such file")).unwrap_err(),
        "error running docker cp: no such file"
    );
}

fn run(success: bool, stdout: &[u8], stderr: &[u8]) -> ShellRun {
    ShellRun {
        line: "docker create x".to_string(),
        quiet: true,
        output: Some(output(success, stdout, stderr)),
    }
}

#[test]
fn the_output_of_a_command_is_read() {
    assert_eq!(run(true, "schön\n".as_bytes(), b"noise").read_with_err().unwrap(), "schön\n");
    let failed = run(false, b"out", b"no\xffpe").read_with_err().unwrap_err();
    assert_eq!(failed.message().unwrap(), "`docker create x` failed with no\u{fffd}pe");
    let bytes = run(true, &[0xc3, 0x28], b"").read_with_err().unwrap_err();
    assert!(bytes.message().is_none());
    match bytes {
        CommandError::NonUtf8(error) => assert_eq!(error.utf8_error().valid_up_to(), 0),
        other => panic!("{:?}", other),
    }
}

#[test]
fn a_traced_command_is_shown() {
    let command = ShellRun::new("docker create x".to_string());
    assert!(command.shown().is_none());
    let traced = command.trace_cmd();
    assert!(!traced.quiet);
    assert_eq!(traced.shown().unwrap(), "$ docker create x");
    assert!(matches!(traced.read_with_err(), Err(CommandError::NotRun)));
    assert_eq!(run(true, b"x", b"").trace_cmd().read_with_err().unwrap(), "x");
}
