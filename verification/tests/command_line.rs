use overstay::cli::{print_usage, run_cli, Command};
use overstay::ls::{ls, LsRequest};
use overstay::ls_text::{format_age, write_closing};
use overstay::purge_command::{run, RunRequest};
use overstay::scan::{
    describe_roots, is_cargo_target, parse_args, same_filesystem, Evidence, Scan,
};
use overstay::style::Style;

const PLAIN: Style = Style { enabled: false };

fn os(args: &[&str]) -> Vec<Vec<u8>> {
    args.iter().map(|a| a.as_bytes().to_vec()).collect()
}

fn cli(args: &[&str]) -> Command {
    run_cli(&os(args), "cargo-overstay", "0.3.0", PLAIN, PLAIN)
}

/// The exit code of a call that needs nothing from the system.
fn exit_code(args: &[&str]) -> i32 {
    match cli(args) {
        Command::Version { code, .. } => code,
        Command::Usage { code, .. } => code,
        Command::Ls(work) => match work.request() {
            LsRequest::Reject { code, .. } => code,
            _ => panic!("the list goes on"),
        },
        Command::Purge(work) => match work.request() {
            RunRequest::Reject { code, .. } => code,
            _ => panic!("the purge goes on"),
        },
    }
}

#[test]
fn unknown_verbs_exit_2() {
    assert_eq!(exit_code(&["bogus"]), 2);
    assert_eq!(exit_code(&[]), 2);
}

#[test]
fn version_is_reported_under_every_spelling() {
    assert_eq!(exit_code(&["--version"]), 0);
    assert_eq!(exit_code(&["-V"]), 0);
    assert_eq!(exit_code(&["version"]), 0);
}

#[test]
fn ls_rejects_unknown_options_instead_of_swallowing_them() {
    assert_eq!(exit_code(&["ls", "--bogus"]), 2);
    assert_eq!(exit_code(&["ls", "/some/dir"]), 2);
}

#[test]
fn ages_format_coarsely() {
    assert_eq!(format_age(90), "1m ago");
    assert_eq!(format_age(7200), "2h ago");
    assert_eq!(format_age(3 * 86_400 + 5), "3d ago");
    assert_eq!(format_age(-5), "0m ago"); // clock skew
}

#[test]
fn ages_change_their_unit_at_the_hour_and_the_day() {
    assert_eq!(format_age(0), "0m ago");
    assert_eq!(format_age(59), "0m ago");
    assert_eq!(format_age(3_599), "59m ago");
    assert_eq!(format_age(3_600), "1h ago");
    assert_eq!(format_age(86_399), "23h ago");
    assert_eq!(format_age(86_400), "1d ago");
    assert_eq!(format_age(i64::MAX), "106751991167300d ago");
    assert_eq!(format_age(i64::MIN), "0m ago");
}

#[test]
fn the_version_names_the_package() {
    match cli(&["-V"]) {
        Command::Version { text, .. } => assert_eq!(text, "cargo-overstay 0.3.0\n"),
        _ => panic!("the version was asked for"),
    }
}

#[test]
fn the_usage_names_every_command() {
    let usage = "Usage\n  cargo overstay <command>\n\nCommands\n  \
        purge                                delete tracked build targets\n  \
        purge --include-untracked [dir]      also scan dir (default: home + temp)\n  \
        ls                                   list tracked projects with sizes\n  \
        ls --include-untracked [dir]         also scan dir (default: home + temp)\n  \
        --version                            print the version and exit\n";
    assert_eq!(print_usage(&PLAIN), usage);
    match cli(&["help"]) {
        Command::Usage { text, .. } => assert_eq!(text, usage),
        _ => panic!("the verb is unknown"),
    }
}

#[test]
fn a_colored_usage_pads_inside_the_color() {
    let usage = print_usage(&Style { enabled: true });
    assert!(usage.starts_with("\x1b[1;4mUsage\x1b[0m\n  \x1b[1;36mcargo overstay\x1b[0m \x1b[2m"));
    assert!(usage.contains("\x1b[1;36mls                                  \x1b[0m list"));
}

#[test]
fn the_verbs_begin_their_commands() {
    assert!(matches!(cli(&["purge"]), Command::Purge(_)));
    assert!(matches!(cli(&["ls", "--include-untracked"]), Command::Ls(_)));
    assert!(matches!(
        run_cli(&[vec![0xffu8]], "n", "v", PLAIN, PLAIN),
        Command::Usage { code: 2, .. }
    ));
    match cli(&["ls", "--include-untracked", "a", "b"]) {
        Command::Ls(work) => match work.request() {
            LsRequest::Reject { message, .. } => assert_eq!(
                message,
                "cargo-overstay: unexpected argument: b\nUsage: cargo overstay ls \
                 [--include-untracked [dir]]\n"
            ),
            _ => panic!("a second directory is refused"),
        },
        _ => panic!("the verb is ls"),
    }
}

#[test]
fn parse_args_defaults_to_tracked_only() {
    assert_eq!(parse_args(&[]).unwrap(), Scan::Off);
}

#[test]
fn bare_include_untracked_uses_the_default_roots() {
    let args = os(&["--include-untracked"]);
    assert_eq!(parse_args(&args).unwrap(), Scan::Defaults);
}

#[test]
fn parse_args_accepts_include_untracked_with_root() {
    let args = os(&["--include-untracked", "/work"]);
    assert_eq!(parse_args(&args).unwrap(), Scan::Explicit(b"/work".to_vec()));
}

#[test]
fn parse_args_rejects_scan_root_without_opt_in() {
    let error = parse_args(&os(&["/work"])).unwrap_err();
    assert_eq!(error, "a scan directory requires --include-untracked");
}

#[test]
fn parse_args_rejects_unknown_options() {
    let error = parse_args(&os(&["--bogus"])).unwrap_err();
    assert_eq!(error, "unknown option: --bogus");
}

#[test]
fn the_directory_may_come_first_and_the_option_twice() {
    let args = os(&["/work", "--include-untracked", "--include-untracked"]);
    assert_eq!(parse_args(&args).unwrap(), Scan::Explicit(b"/work".to_vec()));
}

#[test]
fn behind_the_terminator_everything_is_a_directory() {
    let args = os(&["--include-untracked", "--", "--include-untracked"]);
    assert_eq!(parse_args(&args).unwrap(), Scan::Explicit(b"--include-untracked".to_vec()));
    let args = os(&["--include-untracked", "--", "--"]);
    assert_eq!(parse_args(&args).unwrap(), Scan::Explicit(b"--".to_vec()));
    let error = parse_args(&os(&["--", "--include-untracked"])).unwrap_err();
    assert_eq!(error, "a scan directory requires --include-untracked");
    assert_eq!(parse_args(&os(&["--"])).unwrap(), Scan::Off);
}

#[test]
fn the_first_refused_argument_decides() {
    let error = parse_args(&os(&["a", "-x", "b"])).unwrap_err();
    assert_eq!(error, "unknown option: -x");
    let error = parse_args(&os(&["a", "b", "-x"])).unwrap_err();
    assert_eq!(error, "unexpected argument: b");
    assert_eq!(parse_args(&os(&["-"])).unwrap_err(), "unknown option: -");
    let args = os(&["--include-untracked", ""]);
    assert_eq!(parse_args(&args).unwrap(), Scan::Explicit(Vec::new()));
}

#[test]
fn an_argument_that_is_no_text_is_shown_with_replacements() {
    let args = vec![b"-\xff".to_vec()];
    assert_eq!(parse_args(&args).unwrap_err(), "unknown option: -\u{fffd}");
    let args = vec![b"--include-untracked".to_vec(), b"/w\xff".to_vec()];
    assert_eq!(parse_args(&args).unwrap(), Scan::Explicit(b"/w\xff".to_vec()));
}

#[test]
fn roots_are_named_with_commas() {
    assert_eq!(describe_roots(&[]), "nothing (no readable scan root)");
    assert_eq!(describe_roots(&os(&["/home/me"])), "/home/me");
    assert_eq!(describe_roots(&os(&["/home/me", "/tmp", "/t"])), "/home/me, /tmp, /t");
    assert_eq!(describe_roots(&[b"/h\xc3\xa4\xff".to_vec()]), "/h\u{e4}\u{fffd}");
}

#[test]
fn an_entry_on_another_filesystem_is_skipped() {
    // A network export of a virtual machine, mounted under home.
    assert!(!same_filesystem(Some(1), Some(2)));
    assert!(same_filesystem(Some(1), Some(1)));
    // An entry that cannot be examined is treated as foreign,
    assert!(!same_filesystem(Some(1), None));
    // but a root that cannot be examined leaves the walk unrestricted.
    assert!(same_filesystem(None, Some(2)));
}

fn tagged(tag: &[u8]) -> Evidence {
    Evidence { tag: Some(tag.to_vec()), rustc_info: false, profile: false }
}

#[test]
fn a_cache_tag_counts_where_it_is_text_about_cargo() {
    assert!(is_cargo_target(&tagged(b"# created by cargo.\n")));
    assert!(is_cargo_target(&tagged(b"cargo")));
    assert!(!is_cargo_target(&tagged(b"# created by bazel.\n")));
    assert!(!is_cargo_target(&tagged(b"carg")));
    assert!(!is_cargo_target(&tagged(b"Cargo")));
    assert!(!is_cargo_target(&tagged(b"cargo \xff")));
    assert!(!is_cargo_target(&tagged(b"")));
}

#[test]
fn each_marker_vouches_alone() {
    let nothing = Evidence { tag: None, rustc_info: false, profile: false };
    assert!(!is_cargo_target(&nothing));
    assert!(is_cargo_target(&Evidence { tag: None, rustc_info: true, profile: false }));
    assert!(is_cargo_target(&Evidence { tag: None, rustc_info: false, profile: true }));
}

#[test]
fn the_closing_lines_tell_the_sums_apart() {
    let style = Style { enabled: true };
    assert_eq!(
        write_closing(&style, true, "7 GiB", "5 GiB", None, 0),
        "\n\x1b[1;31m     7 GiB\x1b[0m  \x1b[1mtotal\x1b[0m \x1b[2m(budget 5 GiB)\x1b[0m\n"
    );
    assert_eq!(
        write_closing(&style, false, "1 GiB", "5 GiB", Some("2 GiB"), 1),
        "\n\x1b[1;32m     1 GiB\x1b[0m  \x1b[1mtracked\x1b[0m \x1b[2m(budget 5 GiB)\x1b[0m\n\
         \x1b[1;33m     2 GiB\x1b[0m  \x1b[1muntracked\x1b[0m \x1b[2m(not counted against the \
         budget)\x1b[0m\n\x1b[2m1 tracked target no longer on disk \u{2014} `cargo overstay purge` \
         prunes the row.\x1b[0m\n"
    );
}

#[test]
fn purge_and_ls_accept_the_same_arguments() {
    let lists: [&[&str]; 8] = [
        &[],
        &["--include-untracked"],
        &["--include-untracked", "/work"],
        &["--", "/work"],
        &["/work"],
        &["--bogus"],
        &["--include-untracked", "a", "b"],
        &["--include-untracked", "--", "-x"],
    ];
    for list in lists {
        let args = os(list);
        let purge = run(&args, PLAIN, PLAIN);
        let work = ls(&args, PLAIN, PLAIN);
        assert_eq!(
            matches!(purge.request(), RunRequest::Reject { .. }),
            matches!(work.request(), LsRequest::Reject { .. })
        );
    }
}
