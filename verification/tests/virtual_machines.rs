use bench_harness::agent::Stdio;
use bench_harness::args::{Args, Command};
use bench_harness::config::{config_files, ConfigFile};
use bench_harness::debug::{spawn_debug_vm, DebugRequest, DEBUG_VM};
use bench_harness::images::{build_context, build_images, BuildStep};
use bench_harness::instances::{
    build_instance, get_instance_config, Drive, ImagePaths, Instance, InstanceError, InstanceSetup,
    Kernel, SetupAction, SetupError,
};
use bench_harness::paths::UnixPath;
use bench_harness::run::{cache_context, merge_context, run, RunAction, RunEvent};

fn path(text: &str) -> UnixPath {
    UnixPath::new(text)
}

fn drive(name: &str, image: &str, mount_as: bool) -> Drive<bool> {
    Drive { name: name.to_string(), image: image.to_string(), mount_as }
}

fn instance(root: &str, others: &[&str]) -> Instance<u32, u8, bool> {
    Instance {
        boot_delay_sec: 3,
        recreate_workdir: true,
        machine: 4,
        rootfs: drive("rootfs", root, false),
        drives: others.iter().map(|image| drive("data", image, true)).collect(),
    }
}

fn kernel() -> Kernel {
    Kernel { entropy: Some(vec![1, 2, 3]), boot_args: "console=ttyS0".to_string() }
}

fn images(names: &[&str]) -> ImagePaths {
    let mut images = ImagePaths::new();
    for name in names {
        images.insert(name.to_string(), path(&format!("/cache/{name}.ext4")));
    }
    images
}

#[test]
fn an_instance_is_built() {
    let vm = build_instance(
        &path("/bin/firecracker"),
        &instance("base", &["lava", "seeds"]),
        &kernel(),
        &path("/cache/vmlinux"),
        &images(&["base", "lava", "seeds"]),
    )
    .unwrap();
    assert_eq!(vm.bin.bytes, b"/bin/firecracker");
    assert_eq!(vm.boot_delay_sec, 3);
    assert!(vm.recreate_work_dir);
    assert_eq!(vm.kernel_entropy, Some(vec![1, 2, 3]));
    assert_eq!(vm.boot.kernel_image_path.bytes, b"/cache/vmlinux");
    assert_eq!(vm.boot.boot_args, "console=ttyS0");
    assert_eq!(vm.machine, 4);
    assert_eq!(vm.rootfs.name, "rootfs");
    assert_eq!(vm.rootfs.path.bytes, b"/cache/base.ext4");
    assert!(!vm.rootfs.mount);
    assert_eq!(vm.drives.len(), 2);
    assert_eq!(vm.drives[1].path.bytes, b"/cache/seeds.ext4");
    assert!(vm.drives[1].mount);
}

#[test]
fn images_that_are_not_named_do_not_matter() {
    let build = |names| {
        build_instance(&path("f"), &instance("base", &[]), &kernel(), &path("k"), &images(names))
    };
    let few = build(&["base"]).unwrap();
    let many = build(&["other", "base", "more"]).unwrap();
    assert_eq!(few.rootfs.path.bytes, many.rootfs.path.bytes);
}

#[test]
fn an_image_that_is_nowhere_is_named() {
    let build = |instance| {
        build_instance(&path("f"), &instance, &kernel(), &path("k"), &images(&["base", "lava"]))
            .unwrap_err()
    };
    let root = build(instance("gone", &["also-gone"]));
    assert!(matches!(root, InstanceError::Rootfs(_)));
    assert_eq!(root.message(), "failed to find rootfs image: gone");
    let other = build(instance("base", &["lava", "first", "second"]));
    assert!(matches!(other, InstanceError::Drive(_)));
    assert_eq!(other.message(), "failed to find drive: first");
}

#[test]
fn all_instances_are_built() {
    let list = vec![
        ("one".to_string(), instance("base", &[])),
        ("two".to_string(), instance("base", &["lava"])),
    ];
    let configs =
        get_instance_config(&path("f"), &list, &kernel(), &path("k"), &images(&["base", "lava"]))
            .unwrap();
    assert_eq!(configs.get("one").unwrap().drives.len(), 0);
    assert_eq!(configs.get("two").unwrap().drives.len(), 1);
    let error = configs.get("three").unwrap_err();
    assert!(matches!(error, SetupError::UnknownInstance(_)));
    assert_eq!(error.message(), "Unknown instance: three");
}

#[test]
fn the_first_broken_instance_is_named() {
    let list = vec![
        ("one".to_string(), instance("base", &[])),
        ("two".to_string(), instance("gone", &[])),
        ("three".to_string(), instance("missing", &[])),
    ];
    let result = get_instance_config(&path("f"), &list, &kernel(), &path("k"), &images(&["base"]));
    match result {
        Err(error) => {
            assert_eq!(error.message(), "failed to build: two");
            match error {
                SetupError::Build { cause, .. } => {
                    assert_eq!(cause.message(), "failed to find rootfs image: gone")
                }
                other => panic!("{:?}", other),
            }
        }
        Ok(_) => panic!("an image is missing"),
    }
}

#[test]
fn everything_is_found_in_turn() {
    let names = vec!["base".to_string(), "lava".to_string()];
    let mut setup = InstanceSetup::new(true, true, &names);
    assert!(matches!(setup.next(), SetupAction::FindFirecracker));
    setup.found(path("/bin/fc"));
    assert!(matches!(setup.next(), SetupAction::FindKernel));
    setup.found(path("/boot/k"));
    for name in &names {
        match setup.next() {
            SetupAction::FindImage(wanted) => assert_eq!(wanted, *name),
            other => panic!("{:?}", other),
        }
        setup.found(path(&format!("/img/{name}")));
    }
    assert!(matches!(setup.next(), SetupAction::Ready));
    let found = setup.into_found().unwrap();
    assert_eq!(found.firecracker.bytes, b"/bin/fc");
    assert_eq!(found.kernel.bytes, b"/boot/k");
    assert_eq!(found.image_paths.get("lava").unwrap().bytes, b"/img/lava");
    assert!(found.image_paths.get("other").is_none());
}

#[test]
fn missing_sections_are_named() {
    let names = vec![];
    match InstanceSetup::new(false, false, &names).next() {
        SetupAction::Fail(error) => assert_eq!(error.message(), "[firecracker] config missing"),
        other => panic!("{:?}", other),
    }
    let mut setup = InstanceSetup::new(true, false, &names);
    setup.found(path("/bin/fc"));
    match setup.next() {
        SetupAction::Fail(error) => assert_eq!(error.message(), "[kernel] config missing"),
        other => panic!("{:?}", other),
    }
    assert!(setup.into_found().is_none());
}

#[test]
fn images_are_built_in_turn() {
    let names = vec!["base".to_string(), "lava".to_string()];
    let (mut build, first) = build_images(&names);
    assert!(matches!(first, BuildStep::Build(name) if name == "base"));
    assert!(matches!(build.step(true), BuildStep::Build(name) if name == "lava"));
    assert!(matches!(build.step(true), BuildStep::Done));
    assert!(matches!(build.step(false), BuildStep::Done));
    assert!(matches!(build_images(&vec![]).1, BuildStep::Done));
}

#[test]
fn an_image_that_cannot_be_built_ends_the_build() {
    let names = vec!["base".to_string(), "lava".to_string(), "more".to_string()];
    let (mut build, _) = build_images(&names);
    build.step(true);
    match build.step(false) {
        BuildStep::Failed(name) => assert_eq!(build_context(&name), "failed to build: lava"),
        other => panic!("{:?}", other),
    }
    assert!(matches!(build.step(true), BuildStep::Failed(name) if name == "lava"));
}

#[test]
fn a_shell_is_started() {
    let requests = spawn_debug_vm(&Some(vec![9, 9]));
    assert_eq!(requests.len(), 2);
    assert!(matches!(&requests[0], DebugRequest::AddEntropy(bytes) if bytes == &vec![9, 9]));
    match &requests[1] {
        DebugRequest::Spawn(command) => {
            assert_eq!(command.program, b"/bin/bash");
            assert_eq!(command.args, vec![b"-i".to_vec()]);
            assert!(matches!(command.stdin, Stdio::Inherit));
            assert!(matches!(command.stdout, Stdio::Inherit));
            assert!(matches!(command.stderr, Stdio::Inherit));
        }
        other => panic!("{:?}", other),
    }
    assert_eq!(spawn_debug_vm(&None).len(), 1);
    assert_eq!(DEBUG_VM, "vm-debug-data");
}

fn call(config: &str) -> Args {
    let words = ["--config", config, "expand-task", "lava"].map(|word| word.to_string()).to_vec();
    Args::parse_words(words).unwrap()
}

fn loaded() -> RunEvent {
    RunEvent::Loaded { plain: vec![path("a.toml")], templates: vec![path("t.toml")] }
}

#[test]
fn a_call_goes_through_its_steps() {
    let args = call("data/config.toml");
    let (mut run, first) = run(&args);
    assert!(matches!(first, RunAction::Load(p) if p.bytes == b"data/config.toml"));
    assert!(matches!(
        run.step(loaded()),
        RunAction::Merge(ConfigFile::Plain(p)) if p.bytes == b"data/a.toml"
    ));
    assert!(matches!(
        run.step(RunEvent::Succeeded),
        RunAction::Merge(ConfigFile::Template(p)) if p.bytes == b"data/t.toml"
    ));
    assert!(matches!(run.step(RunEvent::Succeeded), RunAction::CreateCache));
    assert!(matches!(
        run.step(RunEvent::Succeeded),
        RunAction::Execute(Command::ExpandTask(name)) if name == "lava"
    ));
    assert!(matches!(run.step(RunEvent::Succeeded), RunAction::Done));
    assert!(matches!(run.step(RunEvent::Failed), RunAction::Done));
}

#[test]
fn whatever_fails_is_the_last() {
    let args = call("config.toml");
    for steps in 0..5 {
        let (mut call, _) = run(&args);
        for step in 0..steps {
            call.step(if step == 0 { loaded() } else { RunEvent::Succeeded });
        }
        assert!(matches!(call.step(RunEvent::Failed), RunAction::Failed));
        assert!(matches!(call.step(RunEvent::Succeeded), RunAction::Failed));
        assert!(matches!(call.step(loaded()), RunAction::Failed));
    }
    assert_eq!(merge_context(&path("x/y")), "error loading config from x/y");
    assert_eq!(cache_context(&path("c")), "error creating cache directory c");
}

#[test]
fn files_stand_beside_the_configuration() {
    for (config, expected) in
        [("config.toml", "a.toml"), ("/config.toml", "/a.toml"), ("/etc/x/c", "/etc/x/a.toml")]
    {
        let args = call(config);
        let (mut call, _) = run(&args);
        match call.step(loaded()) {
            RunAction::Merge(ConfigFile::Plain(path)) => assert_eq!(path.display(), expected),
            other => panic!("{:?}", other),
        }
    }
}

#[test]
fn configuration_files_are_taken_from_where_the_configuration_is() {
    let plain = vec![path("a.toml"), path("/etc/b.toml")];
    let templates = vec![path("t.toml")];
    let shown = |parent: Option<UnixPath>| -> Vec<(bool, String)> {
        config_files(&parent, &plain, &templates)
            .iter()
            .map(|file| match file {
                ConfigFile::Plain(path) => (false, path.display()),
                ConfigFile::Template(path) => (true, path.display()),
            })
            .collect()
    };
    assert_eq!(
        shown(Some(path("/data"))),
        vec![
            (false, "/data/a.toml".to_string()),
            (false, "/etc/b.toml".to_string()),
            (true, "/data/t.toml".to_string()),
        ]
    );
    assert_eq!(shown(Some(path("")))[0].1, "a.toml");
    assert_eq!(shown(None)[2].1, "t.toml");
}
