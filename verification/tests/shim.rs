use overstay::detached::{run_detached_gc, Cleanup, CleanupReply, CleanupRequest};
use overstay::dispatch::{dispatch, Route};
use overstay::passthrough::{passthrough, Passthrough, ShimReply, ShimRequest};
use overstay::shim::{shim_status, warn_if_inactive, ShimStatus};
use overstay::style::Style;

const PLAIN: Style = Style { enabled: false };

/// The executables of a machine: the binary, the shim symlink to it, and a
/// real cargo.
const EXECUTABLES: [(&str, &str); 3] = [
    ("/m/cargo-overstay", "/m/cargo-overstay"),
    ("/m/shimbin/cargo", "/m/cargo-overstay"),
    ("/m/realbin/cargo", "/m/realbin/cargo"),
];

fn canonical(p: &str) -> Option<Vec<u8>> {
    EXECUTABLES.iter().find(|(at, _)| *at == p).map(|(_, to)| to.as_bytes().to_vec())
}

fn which(path: &[&str]) -> Option<String> {
    path.iter().map(|dir| format!("{dir}/cargo")).find(|p| canonical(p).is_some())
}

fn status(path: &[&str], own: &str) -> ShimStatus {
    let found = which(path);
    let found_canonical = found.as_deref().and_then(canonical);
    let own_canonical = canonical(own);
    shim_status(
        found.map(|p| p.into_bytes()),
        found_canonical.as_ref(),
        own_canonical.as_ref(),
    )
}

#[test]
fn shim_symlink_first_on_path_reads_as_active() {
    assert_eq!(status(&["/m/shimbin", "/m/realbin"], "/m/cargo-overstay"), ShimStatus::Active);
}

#[test]
fn a_real_cargo_earlier_on_path_reads_as_shadowed() {
    // The shim is installed and on the path, just not first.
    assert_eq!(
        status(&["/m/realbin", "/m/shimbin"], "/m/cargo-overstay"),
        ShimStatus::Shadowed(b"/m/realbin/cargo".to_vec())
    );
}

#[test]
fn no_cargo_anywhere_on_path_is_its_own_status() {
    assert_eq!(status(&["/m/empty"], "/m/cargo-overstay"), ShimStatus::NoCargo);
}

#[test]
fn an_executable_that_cannot_be_found_is_shadowed() {
    assert_eq!(
        status(&["/m/shimbin"], "/m/moved"),
        ShimStatus::Shadowed(b"/m/shimbin/cargo".to_vec())
    );
    let own = b"/m/x".to_vec();
    assert_eq!(
        shim_status(Some(b"/gone".to_vec()), None, Some(&own)),
        ShimStatus::Shadowed(b"/gone".to_vec())
    );
}

#[test]
fn the_warning_says_where_builds_go_unseen() {
    assert_eq!(warn_if_inactive(&PLAIN, None), "");
    assert_eq!(warn_if_inactive(&PLAIN, Some(&ShimStatus::Active)), "");
    assert_eq!(
        warn_if_inactive(&PLAIN, Some(&ShimStatus::Shadowed(b"/r/cargo".to_vec()))),
        "cargo-overstay: the cargo shim is not active \u{2014} `cargo` resolves to /r/cargo\n  \
         Builds through it are never tracked. Put the shim's directory ahead of that one on PATH.\n"
    );
    assert_eq!(
        warn_if_inactive(&PLAIN, Some(&ShimStatus::NoCargo)),
        "cargo-overstay: no `cargo` found on PATH \u{2014} builds cannot be tracked\n"
    );
}

/// A system that a cleanup pass runs on.
struct Worker {
    lock_free: bool,
    good_limits: bool,
    last_gc: i64,
    collected: Option<(Option<Vec<u8>>, Option<Vec<u8>>)>,
}

impl Worker {
    fn new() -> Worker {
        Worker { lock_free: true, good_limits: true, last_gc: 0, collected: None }
    }

    fn run(&mut self, pass: Cleanup) -> i32 {
        let mut pass = pass;
        loop {
            let reply = match pass.request() {
                CleanupRequest::Lock => CleanupReply::Locked(self.lock_free),
                CleanupRequest::LoadPolicy => CleanupReply::Policy(self.good_limits),
                CleanupRequest::CurrentDir => CleanupReply::CurrentDir(Some(b"/cwd".to_vec())),
                CleanupRequest::Collect { current, probe } => {
                    self.collected = Some((current, probe));
                    self.last_gc = 2_000_000_000;
                    CleanupReply::Collected
                }
                CleanupRequest::Exit(code) => return code,
            };
            pass = pass.answer(reply);
        }
    }
}

#[test]
fn run_detached_gc_is_best_effort_and_returns_zero() {
    let mut worker = Worker::new();
    let code = worker.run(run_detached_gc(None));
    assert_eq!(code, 0);
    // The pass collected and advanced its clock.
    assert!(worker.last_gc > 0);
}

#[test]
fn a_pass_spares_the_target_that_was_built() {
    let mut worker = Worker::new();
    assert_eq!(worker.run(run_detached_gc(Some(b"/w/target"))), 0);
    let target = Some(b"/w/target".to_vec());
    assert_eq!(worker.collected, Some((target.clone(), target)));
}

#[test]
fn an_empty_target_stands_for_none() {
    let mut worker = Worker::new();
    assert_eq!(worker.run(run_detached_gc(Some(b""))), 0);
    assert_eq!(worker.collected, Some((None, Some(b"/cwd".to_vec()))));
}

#[test]
fn a_pass_without_the_lock_or_good_limits_does_nothing() {
    let mut worker = Worker::new();
    worker.lock_free = false;
    assert_eq!(worker.run(run_detached_gc(None)), 0);
    assert_eq!(worker.collected, None);
    let mut worker = Worker::new();
    worker.good_limits = false;
    assert_eq!(worker.run(run_detached_gc(None)), 0);
    assert_eq!(worker.collected, None);
}

/// A system that the shim runs on.
struct Machine {
    own: Option<Vec<u8>>,
    cargo: Option<Vec<u8>>,
    workspace: Option<Vec<u8>>,
    limits_error: Option<String>,
    cargo_code: Option<i32>,
    events: Vec<String>,
}

impl Machine {
    fn new() -> Machine {
        Machine {
            own: Some(b"/m/shimbin/cargo".to_vec()),
            cargo: Some(b"/m/realbin/cargo".to_vec()),
            workspace: Some(b"/w".to_vec()),
            limits_error: None,
            cargo_code: Some(101),
            events: Vec::new(),
        }
    }

    fn run(&mut self, work: Passthrough) -> i32 {
        let mut work = work;
        loop {
            let reply = match work.request() {
                ShimRequest::Reject { message, code } => {
                    self.events.push(message);
                    return code;
                }
                ShimRequest::OwnExecutable => ShimReply::Own(self.own.clone()),
                ShimRequest::FindCargo { own } => {
                    assert_eq!(Some(own), self.own);
                    ShimReply::Cargo(self.cargo.clone())
                }
                ShimRequest::Locate => ShimReply::Located {
                    cwd: Some(b"/w/sub".to_vec()),
                    workspace: self.workspace.clone(),
                },
                ShimRequest::TargetDir { args, cwd, workspace } => {
                    assert_eq!(cwd, b"/w/sub".to_vec());
                    self.events.push(format!("target of {args:?}"));
                    let mut target = workspace;
                    target.extend_from_slice(b"/target");
                    ShimReply::Target(target)
                }
                ShimRequest::Record { workspace, target } => {
                    self.events.push(format!("record {workspace} {target}"));
                    ShimReply::Recorded
                }
                ShimRequest::LoadPolicy => ShimReply::Policy(self.limits_error.clone()),
                ShimRequest::Complain(message) => {
                    self.events.push(message);
                    ShimReply::Complained
                }
                ShimRequest::RunCargo { cargo, args } => {
                    assert_eq!(Some(cargo), self.cargo);
                    self.events.push(format!("run {args:?}"));
                    ShimReply::Ran(self.cargo_code)
                }
                ShimRequest::Spawn { own, args } => {
                    assert_eq!(Some(own), self.own);
                    assert_eq!(args.len(), 2);
                    // The child is recognized under either name of the executable.
                    for name in ["/m/shimbin/cargo", "/m/cargo-overstay"] {
                        let route = dispatch(Some(name.as_bytes()), &args);
                        assert!(matches!(route, Route::DetachedGc(Some(t)) if *t == args[1]));
                    }
                    let verb = String::from_utf8(args[0].clone()).unwrap();
                    let target = String::from_utf8(args[1].clone()).unwrap();
                    self.events.push(format!("spawn {verb} {target:?}"));
                    ShimReply::Spawned
                }
                ShimRequest::Exit(code) => return code,
            };
            work = work.answer(reply);
        }
    }
}

fn build() -> Vec<Vec<u8>> {
    vec![b"build".to_vec()]
}

#[test]
fn invalid_config_disables_automatic_cleanup() {
    let mut machine = Machine::new();
    machine.workspace = None;
    machine.limits_error = Some("max_total_size is no size".to_string());

    let code = machine.run(passthrough(build(), PLAIN));

    assert_eq!(code, 101);
    assert_eq!(
        machine.events,
        vec![
            "cargo-overstay: max_total_size is no size; automatic cleanup disabled\n".to_string(),
            format!("run {:?}", build()),
        ]
    );
}

#[test]
fn a_build_is_recorded_run_and_cleaned_up_after() {
    let mut machine = Machine::new();
    let code = machine.run(passthrough(build(), PLAIN));
    assert_eq!(code, 101);
    assert_eq!(
        machine.events,
        vec![
            "target of [\"build\"]".to_string(),
            "record /w /w/target".to_string(),
            format!("run {:?}", build()),
            "spawn __gc-detached \"/w/target\"".to_string(),
        ]
    );
}

#[test]
fn outside_a_workspace_nothing_is_recorded() {
    let mut machine = Machine::new();
    machine.workspace = None;
    machine.cargo_code = None;
    let code = machine.run(passthrough(build(), PLAIN));
    // A cargo that left no code counts as failed.
    assert_eq!(code, 1);
    assert_eq!(
        machine.events,
        vec![format!("run {:?}", build()), "spawn __gc-detached \"\"".to_string()]
    );
}

#[test]
fn arguments_are_forwarded_byte_for_byte() {
    let args = vec![b"run".to_vec(), b"\xff\x00x".to_vec()];
    let mut machine = Machine::new();
    machine.run(passthrough(args.clone(), PLAIN));
    assert_eq!(machine.events[0], "target of [\"run\", \"\u{fffd}\\0x\"]");
    assert_eq!(machine.events[2], format!("run {args:?}"));
}

#[test]
fn without_its_own_path_the_shim_refuses() {
    for own in [None, Some(Vec::new())] {
        let mut machine = Machine::new();
        machine.own = own;
        assert_eq!(machine.run(passthrough(build(), PLAIN)), 127);
        assert_eq!(
            machine.events,
            vec!["cargo-overstay: cannot determine own executable path; refusing to search for \
                  the real `cargo`\n"
                .to_string()]
        );
    }
}

#[test]
fn without_a_real_cargo_the_shim_refuses() {
    let mut machine = Machine::new();
    machine.cargo = None;
    assert_eq!(machine.run(passthrough(build(), PLAIN)), 127);
    assert_eq!(
        machine.events,
        vec!["cargo-overstay: could not find the real `cargo` on PATH\n".to_string()]
    );
}
