use overstay::delete::{delete_target, DeleteReply, DeleteRequest};
use overstay::ls_text::{Size, SizedHit};
use overstay::path::{components_of, is_listed, is_same_path, join_path, name_of, starts_with};
use overstay::purge::{Deletion, Summary, UnsureHit};
use overstay::purge_text::{
    confirmation, unsure_total, write_deletion_line, write_scanning_line, write_summary_line,
};
use overstay::rank::rank;
use overstay::store::Project;
use overstay::style::Style;
use overstay::text::{align_left, align_right, decimal, plural_ending};
use overstay::walk::{judge, DirEntry, EntryKind, ScanHit, Verdict};

const PLAIN: Style = Style { enabled: false };

#[test]
fn columns_are_padded_by_characters() {
    assert_eq!(align_right("ab", 4), "  ab");
    assert_eq!(align_left("ab", 4), "ab  ");
    assert_eq!(align_right("\u{e4}", 3), "  \u{e4}");
    assert_eq!(align_right("too long", 4), "too long");
    assert_eq!(align_left("too long", 4), "too long");
}

#[test]
fn numbers_are_decimal() {
    assert_eq!(decimal(0), "0");
    assert_eq!(decimal(9), "9");
    assert_eq!(decimal(10), "10");
    assert_eq!(decimal(1_203_456_789), "1203456789");
    assert_eq!(decimal(u64::MAX), "18446744073709551615");
}

#[test]
fn one_is_the_only_singular() {
    assert_eq!(plural_ending(0), "s");
    assert_eq!(plural_ending(1), "");
    assert_eq!(plural_ending(2), "s");
}

#[test]
fn paths_are_compared_by_components() {
    assert!(is_same_path(b"/a//b/./c/", b"/a/b/c"));
    assert!(!is_same_path(b"/a/b", b"a/b"));
    assert!(!is_same_path(b"./a", b"a"));
    assert!(is_same_path(b"a/.", b"a"));
    assert!(!is_same_path(b"a/../b", b"b"));
    assert!(is_same_path(b"//", b"/"));
    assert!(!is_same_path(b"", b"."));
}

#[test]
fn containment_respects_components() {
    assert!(starts_with(b"/a/b/c", b"/a/b"));
    assert!(starts_with(b"/a/b", b"/a/b/"));
    assert!(!starts_with(b"/a/bc", b"/a/b"));
    assert!(!starts_with(b"/a", b"/a/b"));
    assert!(starts_with(b"/a", b"/"));
    assert!(starts_with(b"a", b""));
}

#[test]
fn a_joined_name_adds_one_component() {
    for dir in ["/", "/a", "/a/", "a", "", ".", "/a//b/"] {
        let joined = join_path(dir.as_bytes(), b"target");
        let mut expected = components_of(dir.as_bytes());
        expected.push(b"target".to_vec());
        assert_eq!(components_of(&joined), expected);
        assert_eq!(name_of(&joined), Some(b"target".to_vec()));
        assert!(starts_with(&joined, dir.as_bytes()));
    }
    assert_eq!(join_path(b"/a", b"b"), b"/a/b".to_vec());
    assert_eq!(join_path(b"/a/", b"b"), b"/a/b".to_vec());
    assert_eq!(join_path(b"", b"b"), b"b".to_vec());
    assert_eq!(join_path(b"/a", b"/b"), b"/b".to_vec());
    assert_eq!(join_path(b"/a", b""), b"/a/".to_vec());
}

#[test]
fn names_end_paths() {
    assert_eq!(name_of(b"/usr/bin/cargo"), Some(b"cargo".to_vec()));
    assert_eq!(name_of(b"cargo/./"), Some(b"cargo".to_vec()));
    assert_eq!(name_of(b"/"), None);
    assert_eq!(name_of(b""), None);
    assert_eq!(name_of(b"a/.."), None);
    assert_eq!(name_of(b"."), None);
}

#[test]
fn lists_of_paths_know_other_spellings() {
    let paths = vec![b"/a/b".to_vec(), b"c".to_vec()];
    assert!(is_listed(&paths, b"/a//b/"));
    assert!(!is_listed(&paths, b"/c"));
    assert!(!is_listed(&Vec::new(), b"c"));
}

fn sized(name: &str, bytes: u64) -> SizedHit {
    SizedHit {
        hit: ScanHit { target: name.as_bytes().to_vec(), verified: true },
        size: Size { bytes, text: String::new() },
    }
}

#[test]
fn ranking_keeps_ties_in_order() {
    let list = vec![sized("a", 1), sized("b", 3), sized("c", 2), sized("d", 3), sized("e", 1)];
    let names: Vec<Vec<u8>> = rank(list).into_iter().map(|s| s.hit.target).collect();
    assert_eq!(names, vec![b"b", b"d", b"c", b"a", b"e"]);
    let rows = vec![
        Project { path: "x".to_string(), target_dir: String::new(), last_used: -3 },
        Project { path: "y".to_string(), target_dir: String::new(), last_used: 4 },
    ];
    let rows: Vec<String> = rank(rows).into_iter().map(|p| p.path).collect();
    assert_eq!(rows, vec!["y", "x"]);
}

#[test]
fn entries_are_judged_by_kind_name_and_filesystem() {
    let entry = |name: &str, kind: EntryKind, dev: Option<u64>| DirEntry {
        name: name.as_bytes().to_vec(),
        kind,
        dev,
    };
    let here = Some(1u64);
    let verdict = |e: DirEntry| match judge(here, &e) {
        Verdict::Skip => "skip",
        Verdict::Descend => "descend",
        Verdict::Candidate => "candidate",
    };
    assert_eq!(verdict(entry("src", EntryKind::Directory, here)), "descend");
    assert_eq!(verdict(entry("target", EntryKind::Directory, here)), "candidate");
    assert_eq!(verdict(entry("target", EntryKind::Symlink, here)), "skip");
    assert_eq!(verdict(entry("target", EntryKind::Other, here)), "skip");
    assert_eq!(verdict(entry("target", EntryKind::Directory, Some(2))), "skip");
    assert_eq!(verdict(entry("target", EntryKind::Directory, None)), "skip");
    assert_eq!(verdict(entry(".git", EntryKind::Directory, here)), "skip");
    assert_eq!(verdict(entry("node_modules", EntryKind::Directory, here)), "skip");
    assert_eq!(verdict(entry("Library", EntryKind::Directory, here)), "skip");
    assert_eq!(verdict(entry("targets", EntryKind::Directory, here)), "descend");
}

#[test]
fn only_a_clear_yes_is_a_yes() {
    for line in ["y\n", "Y", " yes \r\n", "\u{3000}y"] {
        assert!(confirmation(Some(line)));
    }
    for line in ["", "\n", "n", "YES", "Yes", "yes please", "y y", "yy"] {
        assert!(!confirmation(Some(line)));
    }
    assert!(!confirmation(None));
}

#[test]
fn unsure_sizes_are_summed() {
    let hits = vec![
        UnsureHit { target: Vec::new(), size: 3 },
        UnsureHit { target: Vec::new(), size: 39 },
    ];
    assert_eq!(unsure_total(&hits), 42);
    assert_eq!(unsure_total(&[]), 0);
}

#[test]
fn the_summary_mentions_what_builds_kept() {
    let summary = Summary { freed: 5, deleted: 1, locked: 0 };
    assert_eq!(write_summary_line(&PLAIN, &summary, "5 B"), "freed 5 B from 1 target dir\n");
    let summary = Summary { freed: 0, deleted: 0, locked: 12 };
    assert_eq!(
        write_summary_line(&Style { enabled: true }, &summary, "0 B"),
        "\x1b[1;32mfreed 0 B\x1b[0m from \x1b[1m0\x1b[0m target dirs \x1b[1;33m(12 skipped: build \
         running)\x1b[0m\n"
    );
}

#[test]
fn a_scan_names_its_roots_muted() {
    let roots = vec![b"/a".to_vec(), b"/b".to_vec()];
    assert_eq!(
        write_scanning_line(&Style { enabled: true }, &roots),
        "\x1b[2mscanning\x1b[0m \x1b[2m/a, /b\x1b[0m\n"
    );
}

#[test]
fn a_deletion_line_shows_paths_that_are_no_text() {
    assert_eq!(
        write_deletion_line(&PLAIN, b"/a\xff", &Deletion::Removed { before: 2, after: 1 }, "1 B"),
        "       1 B  /a\u{fffd}\n"
    );
}

#[test]
fn counters_know_when_they_are_full() {
    let summary = Summary { freed: u64::MAX - 1, deleted: 0, locked: usize::MAX };
    assert!(summary.has_room(&Deletion::Removed { before: 2, after: 1 }));
    assert!(!summary.has_room(&Deletion::Removed { before: 3, after: 1 }));
    assert!(!summary.has_room(&Deletion::Locked));
}

#[test]
fn a_directory_that_grew_gave_back_nothing() {
    assert_eq!(Deletion::Removed { before: 10, after: 4 }.freed(), 6);
    assert_eq!(Deletion::Removed { before: 4, after: 10 }.freed(), 0);
    assert_eq!(Deletion::Locked.freed(), 0);
}

#[test]
fn a_locked_target_is_not_even_measured() {
    let work = delete_target(b"/t", PLAIN);
    // Nothing but an answer about the lock is taken first.
    let work = work.answer(DeleteReply::Removed);
    assert!(matches!(work.request(), DeleteRequest::Lock(p) if p == b"/t"));
    let work = work.answer(DeleteReply::Locked(false));
    match work.request() {
        DeleteRequest::Print(line) => {
            assert_eq!(line, "         -  /t  (skipped: build running)\n")
        }
        _ => panic!("the lock is taken"),
    }
    let work = work.answer(DeleteReply::Printed);
    assert!(matches!(work.request(), DeleteRequest::Done(Deletion::Locked)));
}
