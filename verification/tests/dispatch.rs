use overstay::dispatch::{dispatch, Route};

fn os(args: &[&str]) -> Vec<Vec<u8>> {
    args.iter().map(|a| a.as_bytes().to_vec()).collect()
}

#[test]
fn gc_verb_outranks_the_name_dispatch() {
    let args = os(&["__gc-detached", "/some/target"]);
    // Even under the `cargo` name the detached child must reach the cleanup.
    let route = dispatch(Some(b"/x/bin/cargo"), &args);
    assert!(matches!(route, Route::DetachedGc(Some(t)) if t == b"/some/target"));
}

#[test]
fn cargo_name_is_pure_passthrough_even_for_cli_verbs() {
    let args = os(&["purge"]);
    let route = dispatch(Some(b"/x/.cargo-overstay/bin/cargo"), &args);
    assert!(matches!(route, Route::Passthrough));
}

#[test]
fn cargo_convention_token_is_stripped() {
    let args = os(&["overstay", "ls"]);
    let route = dispatch(Some(b"/usr/bin/cargo-overstay"), &args);
    assert!(matches!(route, Route::Cli(rest) if rest == &args[1..]));
}

#[test]
fn direct_cli_invocation_is_not_stripped() {
    let args = os(&["purge", "/scan/root"]);
    let route = dispatch(Some(b"cargo-overstay"), &args);
    assert!(matches!(route, Route::Cli(rest) if rest == &args[..]));
}

#[test]
fn alias_binaries_strip_their_own_token() {
    // `ln -s cargo-overstay cargo-os` + `cargo os ls` must still work: the
    // stripped token derives from the program's name.
    let args = os(&["os", "ls"]);
    let route = dispatch(Some(b"/x/bin/cargo-os"), &args);
    assert!(matches!(route, Route::Cli(rest) if rest == &args[1..]));
}

#[test]
fn missing_argv0_still_reaches_the_cli() {
    let args = os(&["ls"]);
    let route = dispatch(None, &args);
    assert!(matches!(route, Route::Cli(rest) if rest == &args[..]));
}

#[test]
fn the_detached_verb_may_stand_alone() {
    let args = os(&["__gc-detached"]);
    assert!(matches!(dispatch(Some(b"cargo"), &args), Route::DetachedGc(None)));
}

#[test]
fn the_verb_counts_only_in_first_place() {
    let args = os(&["build", "__gc-detached"]);
    assert!(matches!(dispatch(Some(b"cargo"), &args), Route::Passthrough));
}

#[test]
fn no_arguments_are_no_convention_call() {
    let args = os(&[]);
    let route = dispatch(Some(b"/usr/bin/cargo-overstay"), &args);
    assert!(matches!(route, Route::Cli(rest) if rest.is_empty()));
}

#[test]
fn only_one_token_is_stripped() {
    let args = os(&["overstay", "overstay"]);
    let route = dispatch(Some(b"cargo-overstay"), &args);
    assert!(matches!(route, Route::Cli(rest) if rest == &args[1..]));
}

#[test]
fn a_name_that_is_no_text_strips_nothing() {
    let args = vec![vec![0xffu8]];
    let route = dispatch(Some(b"/x/cargo-\xff"), &args);
    assert!(matches!(route, Route::Cli(rest) if rest == &args[..]));
}

#[test]
fn a_directory_named_cargo_is_no_program() {
    let args = os(&["ls"]);
    assert!(matches!(dispatch(Some(b"cargo/"), &args), Route::Passthrough));
    assert!(matches!(dispatch(Some(b"/cargo/.."), &args), Route::Cli(_)));
    assert!(matches!(dispatch(Some(b"/"), &args), Route::Cli(_)));
}

#[test]
fn both_ways_of_calling_leave_the_same_arguments() {
    let direct = os(&["purge", "--include-untracked"]);
    let through_cargo = os(&["overstay", "purge", "--include-untracked"]);
    let one = dispatch(Some(b"cargo-overstay"), &direct);
    let other = dispatch(Some(b"cargo-overstay"), &through_cargo);
    match (one, other) {
        (Route::Cli(a), Route::Cli(b)) => assert_eq!(a, b),
        _ => panic!("both calls reach the command line"),
    }
}
