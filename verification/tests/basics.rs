use bench_harness::cancel::Cancellation;
use bench_harness::duration::{
    duration_error, parse_duration_str, parse_whole_duration, DurationUnit,
};
use bench_harness::guard::DeleteOnDrop;
use bench_harness::paths::UnixPath;
use bench_harness::text::{
    decimal_string, parse_unsigned, same_bytes, same_text, utf8_bytes, IntError,
};
use bench_harness::wait::{wait_for_process_timeout, WaitAction, WaitEvent, SLEEP_NANOS};

#[test]
fn durations_are_split_into_number_and_unit() {
    for suffix in ["hours", "hour", "hrs", "hr", "h"] {
        let text = format!("1.5{suffix}");
        assert_eq!(parse_duration_str(&text), Some(("1.5", DurationUnit::Hours)));
    }
    for suffix in ["minutes", "minute", "mins", "min", "m"] {
        let text = format!("20{suffix}");
        assert_eq!(parse_duration_str(&text), Some(("20", DurationUnit::Minutes)));
    }
    for suffix in ["seconds", "second", "secs", "sec", "s"] {
        let text = format!("1e3{suffix}");
        assert_eq!(parse_duration_str(&text), Some(("1e3", DurationUnit::Seconds)));
    }
}

#[test]
fn a_duration_needs_a_unit() {
    assert_eq!(parse_duration_str("10"), None);
    assert_eq!(parse_duration_str(""), None);
    assert_eq!(parse_duration_str("10 days "), None);
    assert_eq!(parse_duration_str("s"), Some(("", DurationUnit::Seconds)));
    assert_eq!(parse_duration_str("10 h"), Some(("10 ", DurationUnit::Hours)));
    assert_eq!(parse_duration_str("2ms"), Some(("2m", DurationUnit::Seconds)));
}

#[test]
fn whole_durations_are_counted_in_seconds() {
    for suffix in ["hours", "hour", "hrs", "hr", "h"] {
        assert_eq!(parse_whole_duration(&format!("24{suffix}")), Some(86400));
    }
    for suffix in ["minutes", "minute", "mins", "min", "m"] {
        assert_eq!(parse_whole_duration(&format!("90{suffix}")), Some(5400));
    }
    for suffix in ["seconds", "second", "secs", "sec", "s"] {
        assert_eq!(parse_whole_duration(&format!("0{suffix}")), Some(0));
    }
    assert_eq!(parse_whole_duration("4294967295h"), Some(4294967295 * 3600));
    assert_eq!(parse_whole_duration("4294967296h"), None);
    assert_eq!(parse_whole_duration("1.5h"), None);
    assert_eq!(parse_whole_duration("-1h"), None);
    assert_eq!(parse_whole_duration("24"), None);
    assert_eq!(duration_error("soon"), "invalid time format: soon");
}

#[test]
fn whole_durations_are_those_of_floating_point() {
    for number in ["0", "7", "007", "+12", "86400", "1048577", "4294967295"] {
        for (suffix, sixties) in [("h", 2), ("m", 1), ("s", 0)] {
            let mut seconds = number.parse::<f64>().unwrap();
            for _ in 0..sixties {
                seconds *= 60.0;
            }
            let whole = parse_whole_duration(&format!("{number}{suffix}")).unwrap();
            assert_eq!(
                std::time::Duration::from_secs(whole),
                std::time::Duration::from_secs_f64(seconds)
            );
        }
    }
}

#[test]
fn units_are_counted_in_seconds() {
    assert_eq!(DurationUnit::Hours.sixties(), 2);
    assert_eq!(DurationUnit::Minutes.sixties(), 1);
    assert_eq!(DurationUnit::Seconds.sixties(), 0);
    assert_eq!(DurationUnit::Hours.seconds(), 3600);
    assert_eq!(DurationUnit::Minutes.seconds(), 60);
    assert_eq!(DurationUnit::Seconds.seconds(), 1);
}

/// Waits for a process that shows `replies` in turn: how the wait ends, and after how many looks.
fn wait_for(
    timeout: u128,
    replies: &[Result<Option<i32>, &'static str>],
) -> (WaitAction<i32, &'static str>, usize) {
    let (mut wait, mut action) = wait_for_process_timeout(timeout);
    let mut looks = 0;
    loop {
        let event = match action {
            WaitAction::Poll => {
                looks += 1;
                match replies[looks - 1] {
                    Ok(Some(status)) => WaitEvent::Exited(status),
                    Ok(None) => WaitEvent::Running,
                    Err(error) => WaitEvent::Refused(error),
                }
            }
            WaitAction::Sleep => WaitEvent::Slept,
            end => return (end, looks),
        };
        action = wait.step(event);
    }
}

#[test]
fn a_wait_polls_until_its_time_is_over() {
    let (end, looks) = wait_for(2 * SLEEP_NANOS + 1, &[Ok(None); 10]);
    assert!(matches!(end, WaitAction::TimedOut));
    assert_eq!(looks, 3);
    let (end, looks) = wait_for(2 * SLEEP_NANOS - 1, &[Ok(None); 10]);
    assert!(matches!(end, WaitAction::TimedOut));
    assert_eq!(looks, 2);
}

#[test]
fn a_wait_without_time_still_looks_once() {
    let (end, looks) = wait_for(0, &[Ok(Some(7))]);
    assert!(matches!(end, WaitAction::Exit(7)));
    assert_eq!(looks, 1);
    let (end, looks) = wait_for(0, &[Ok(None), Ok(Some(7))]);
    assert!(matches!(end, WaitAction::TimedOut));
    assert_eq!(looks, 1);
}

#[test]
fn the_first_reply_ends_a_wait() {
    let (end, looks) = wait_for(5 * SLEEP_NANOS, &[Ok(None), Ok(None), Ok(Some(3)), Ok(Some(4))]);
    assert!(matches!(end, WaitAction::Exit(3)));
    assert_eq!(looks, 3);
    let (end, looks) = wait_for(5 * SLEEP_NANOS, &[Ok(None), Err("gone"), Ok(Some(4))]);
    assert!(matches!(end, WaitAction::Fail("gone")));
    assert_eq!(looks, 2);
    let (end, _) = wait_for(2 * SLEEP_NANOS, &[Ok(None), Ok(None), Ok(Some(5))]);
    assert!(matches!(end, WaitAction::Exit(5)));
}

#[test]
fn a_stop_holds_once_it_is_asked_for() {
    let mut state = Cancellation::init_cancellation();
    assert!(!state.should_stop());
    assert!(state.request_stop());
    assert!(state.should_stop());
    assert!(!state.request_stop());
    assert!(state.should_stop());
}

#[test]
fn a_guarded_file_is_removed_once() {
    let mut guard = DeleteOnDrop(Some(UnixPath::new("/tmp/x")));
    assert_eq!(guard.on_drop().unwrap().bytes, b"/tmp/x");
    assert!(guard.on_drop().is_none());
    let mut kept = DeleteOnDrop(Some(UnixPath::new("/tmp/x"))).finalize();
    assert!(kept.on_drop().is_none());
}

#[test]
fn paths_are_joined() {
    let join = |base: &str, path: &str| UnixPath::new(base).join(path).display();
    assert_eq!(join("/a", "b"), "/a/b");
    assert_eq!(join("/a/", "b"), "/a/b");
    assert_eq!(join("", "b"), "b");
    assert_eq!(join("/a", "/b"), "/b");
    assert_eq!(join("/a", ""), "/a/");
    assert_eq!(UnixPath::new("x").join_path(&UnixPath::new("y/z")).display(), "x/y/z");
}

#[test]
fn paths_behave_as_those_of_the_host() {
    for base in ["", "/", "a", "a/", "/a/b", "."] {
        for path in ["", "/", "b", "b/", "/c", "..", "./d"] {
            let own = UnixPath::new(base).join(path);
            let host = std::path::Path::new(base).join(path);
            assert_eq!(own.display(), host.display().to_string());
            let name = host.file_name().map(|name| name.to_str().unwrap().as_bytes().to_vec());
            assert_eq!(own.file_name(), name);
        }
    }
}

#[test]
fn a_path_is_in_its_directory() {
    let parent = |text: &str| UnixPath::new(text).parent().map(|dir| dir.display());
    assert_eq!(parent("data/config.toml"), Some("data".to_string()));
    assert_eq!(parent("config.toml"), Some("".to_string()));
    assert_eq!(parent("/config.toml"), Some("/".to_string()));
    assert_eq!(parent("a//b/."), Some("a".to_string()));
    assert_eq!(parent("a/.."), Some("a".to_string()));
    assert_eq!(parent("./a"), Some(".".to_string()));
    assert_eq!(parent("."), Some("".to_string()));
    assert_eq!(parent("/"), None);
    assert_eq!(parent(""), None);
}

#[test]
fn directories_are_those_of_the_host() {
    let mut texts = vec![String::new()];
    let mut start = 0;
    for _ in 0..7 {
        let end = texts.len();
        for i in start..end {
            for c in ['a', '.', '/'] {
                texts.push(format!("{}{c}", texts[i]));
            }
        }
        start = end;
    }
    for text in &texts {
        let own = UnixPath::new(text);
        let host = std::path::Path::new(text);
        assert_eq!(
            own.parent().map(|dir| dir.bytes),
            host.parent().map(|dir| dir.to_str().unwrap().as_bytes().to_vec())
        );
        assert_eq!(
            own.file_name(),
            host.file_name().map(|name| name.to_str().unwrap().as_bytes().to_vec())
        );
    }
}

#[test]
fn the_last_name_of_a_path_is_found() {
    let name = |text: &str| UnixPath::new(text).file_name();
    assert_eq!(name("/a/b"), Some(b"b".to_vec()));
    assert_eq!(name("a/b//"), Some(b"b".to_vec()));
    assert_eq!(name("a/b/./."), Some(b"b".to_vec()));
    assert_eq!(name("a/.."), None);
    assert_eq!(name("/"), None);
    assert_eq!(name(""), None);
    assert_eq!(name("a/..."), Some(b"...".to_vec()));
}

#[test]
fn numbers_are_written_and_read_back() {
    for n in [0, 7, 10, 99, 100, 12345, u64::MAX] {
        assert_eq!(decimal_string(n), n.to_string());
        assert_eq!(parse_unsigned(&decimal_string(n), u64::MAX), Ok(n));
    }
}

#[test]
fn numbers_are_read_as_the_standard_library_reads_them() {
    for text in ["", "+", "-", "-1", "+0", "007", "1_0", " 1", "١", "18446744073709551615",
        "18446744073709551616", "99999999999999999999x", "++1", "1+"]
    {
        let own = parse_unsigned(text, u64::MAX);
        match text.parse::<u64>() {
            Ok(n) => assert_eq!(own, Ok(n)),
            Err(error) => assert_eq!(own.unwrap_err().message(), error.to_string()),
        }
    }
    assert_eq!(parse_unsigned("256", 255), Err(IntError::PosOverflow));
    assert_eq!(parse_unsigned("255", 255), Ok(255));
    assert_eq!(parse_unsigned("1", 0), Err(IntError::PosOverflow));
}

#[test]
fn texts_and_bytes_are_compared() {
    assert!(same_text("abc", "abc"));
    assert!(!same_text("abc", "abd"));
    assert!(!same_text("abc", "ab"));
    assert!(same_bytes(&[], &[]));
    assert!(!same_bytes(&[1], &[2]));
    assert_eq!(utf8_bytes("ä"), vec![0xc3, 0xa4]);
}
