//! The walk, the purge and the list, run against a disk that is held in
//! memory.

use std::collections::BTreeMap;
use std::collections::BTreeSet;

use overstay::confirm::{confirm_on_stdin, ConfirmReply, ConfirmRequest};
use overstay::delete::{delete_target, DeleteReply, DeleteRequest};
use overstay::ls::{ls, Ls, LsReply, LsRequest};
use overstay::ls_text::{Policy, Size};
use overstay::purge::{
    purge, Deletion, Inspection, Purge, PurgeReply, PurgeRequest, RowState, Summary, UnsureHit,
};
use overstay::purge_command::{run, RunReply, RunRequest};
use overstay::scan::{default_candidates, usable_roots, Candidate, Evidence, Scan};
use overstay::store::Project;
use overstay::style::Style;
use overstay::walk::{
    scan, DirEntry, EntryKind, Listing, ScanHit, Walk, WalkReply, WalkRequest,
};

const PLAIN: Style = Style { enabled: false };

enum Node {
    Dir,
    File(Vec<u8>),
    Link(String),
}

/// A disk: nodes by path, the paths where other filesystems are mounted, the
/// directories that cannot be read, and the targets that a build holds.
struct Disk {
    nodes: BTreeMap<String, Node>,
    mounts: BTreeMap<String, u64>,
    unreadable: BTreeSet<String>,
    busy: BTreeSet<String>,
    read: Vec<String>,
    removed: Vec<String>,
    printed: String,
}

fn text(p: &[u8]) -> String {
    String::from_utf8(p.to_vec()).unwrap()
}

fn bytes(p: &str) -> Vec<u8> {
    p.as_bytes().to_vec()
}

fn all_bytes(paths: &[&str]) -> Vec<Vec<u8>> {
    paths.iter().map(|p| bytes(p)).collect()
}

impl Disk {
    fn new() -> Disk {
        let mut nodes: BTreeMap<String, Node> = BTreeMap::new();
        nodes.insert("/".to_string(), Node::Dir);
        Disk {
            nodes,
            mounts: BTreeMap::new(),
            unreadable: BTreeSet::new(),
            busy: BTreeSet::new(),
            read: Vec::new(),
            removed: Vec::new(),
            printed: String::new(),
        }
    }

    fn dir(&mut self, p: &str) {
        let mut at = String::new();
        for piece in p.split('/').filter(|piece| !piece.is_empty()) {
            at = format!("{at}/{piece}");
            self.nodes.entry(at.clone()).or_insert(Node::Dir);
        }
    }

    fn file(&mut self, p: &str, contents: &[u8]) {
        let (parent, _) = p.rsplit_once('/').unwrap();
        self.dir(parent);
        self.nodes.insert(p.to_string(), Node::File(contents.to_vec()));
    }

    fn link(&mut self, p: &str, to: &str) {
        let (parent, _) = p.rsplit_once('/').unwrap();
        self.dir(parent);
        self.nodes.insert(p.to_string(), Node::Link(to.to_string()));
    }

    /// A project whose target carries cargo's markers.
    fn cargo_project(&mut self, project: &str) -> String {
        self.file(&format!("{project}/Cargo.toml"), b"[package]\n");
        let target = format!("{project}/target");
        self.file(&format!("{target}/.rustc_info.json"), b"{}");
        self.file(&format!("{target}/blob.bin"), &[0u8; 4096]);
        target
    }

    fn canonical(&self, p: &str) -> Option<String> {
        let mut at = String::new();
        for piece in p.split('/').filter(|piece| !piece.is_empty() && *piece != ".") {
            at = format!("{at}/{piece}");
            match self.nodes.get(&at) {
                None => return None,
                Some(Node::Link(to)) => at = self.canonical(to)?,
                Some(_) => {}
            }
        }
        if at.is_empty() {
            at = "/".to_string();
        }
        Some(at)
    }

    fn is_dir(&self, p: &str) -> bool {
        match self.canonical(p) {
            Some(at) => matches!(self.nodes.get(&at), Some(Node::Dir)),
            None => false,
        }
    }

    fn is_file(&self, p: &str) -> bool {
        match self.canonical(p) {
            Some(at) => matches!(self.nodes.get(&at), Some(Node::File(_))),
            None => false,
        }
    }

    fn is_there(&self, p: &str) -> bool {
        self.canonical(p).is_some()
    }

    fn size(&self, p: &str) -> u64 {
        let inside = format!("{p}/");
        let mut sum: u64 = 0;
        for (at, node) in &self.nodes {
            if let (true, Node::File(contents)) = (at.starts_with(&inside), node) {
                sum += contents.len() as u64;
            }
        }
        sum
    }

    fn remove(&mut self, p: &str) {
        let inside = format!("{p}/");
        self.nodes.retain(|at, _| at != p && !at.starts_with(&inside));
        self.removed.push(p.to_string());
    }

    fn dev(&self, p: &str) -> Option<u64> {
        let mut dev: u64 = 1;
        for (mount, other) in &self.mounts {
            if p == mount || p.starts_with(&format!("{mount}/")) {
                dev = *other;
            }
        }
        if self.is_there(p) {
            Some(dev)
        } else {
            None
        }
    }

    fn children(&self, p: &str) -> Vec<String> {
        let inside = format!("{p}/");
        let below = |at: &String| -> Option<String> {
            let name = at.strip_prefix(&inside)?;
            if name.contains('/') {
                None
            } else {
                Some(name.to_string())
            }
        };
        self.nodes.keys().filter_map(below).collect()
    }

    fn evidence(&self, target: &str) -> Evidence {
        let tag = match self.nodes.get(&format!("{target}/CACHEDIR.TAG")) {
            Some(Node::File(contents)) => Some(contents.clone()),
            _ => None,
        };
        let profile = self
            .children(target)
            .iter()
            .any(|name| self.is_dir(&format!("{target}/{name}/.fingerprint")));
        Evidence { tag, rustc_info: self.is_file(&format!("{target}/.rustc_info.json")), profile }
    }

    fn candidate(&self, p: &str) -> Candidate {
        let canonical = self.canonical(p);
        let readable = match &canonical {
            Some(at) => self.is_dir(at) && !self.unreadable.contains(at),
            None => false,
        };
        Candidate { canonical: canonical.map(|at| bytes(&at)), is_dir: self.is_dir(p), readable }
    }

    fn walked(&mut self, request: WalkRequest) -> WalkReply {
        match request {
            WalkRequest::Stat(root) => WalkReply::Device(self.dev(&text(&root))),
            WalkRequest::Read(dir) => {
                let dir = text(&dir);
                self.read.push(dir.clone());
                if self.unreadable.contains(&dir) || !self.is_dir(&dir) {
                    return WalkReply::Listed(None);
                }
                let mut entries: Vec<DirEntry> = Vec::new();
                for name in self.children(&dir) {
                    let at = format!("{dir}/{name}");
                    let kind = match self.nodes.get(&at) {
                        Some(Node::Dir) => EntryKind::Directory,
                        Some(Node::Link(_)) => EntryKind::Symlink,
                        _ => EntryKind::Other,
                    };
                    entries.push(DirEntry { name: bytes(&name), kind, dev: self.dev(&at) });
                }
                let has_manifest = self.is_file(&format!("{dir}/Cargo.toml"));
                WalkReply::Listed(Some(Listing { has_manifest, entries }))
            }
            WalkRequest::Probe(target) => {
                let target = text(&target);
                WalkReply::Probed {
                    found: self.evidence(&target),
                    canonical: self.canonical(&target).map(|at| bytes(&at)),
                }
            }
            WalkRequest::Finished => unreachable!(),
        }
    }

    fn walk(&mut self, walk: Walk) -> Vec<ScanHit> {
        let mut walk = walk;
        loop {
            match walk.request() {
                WalkRequest::Finished => return walk.into_hits(),
                request => walk = walk.answer(self.walked(request)),
            }
        }
    }

    fn scan_one(&mut self, root: &str) -> Vec<ScanHit> {
        self.walk(scan(all_bytes(&[root]), Vec::new()))
    }

    fn delete(&mut self, target: &[u8]) -> Deletion {
        let mut deletion = delete_target(target, PLAIN);
        loop {
            let reply = match deletion.request() {
                DeleteRequest::Lock(p) => DeleteReply::Locked(!self.busy.contains(&text(&p))),
                DeleteRequest::Measure(p) => DeleteReply::Measured(self.size(&text(&p))),
                DeleteRequest::Remove(p) => {
                    self.remove(&text(&p));
                    DeleteReply::Removed
                }
                DeleteRequest::FormatSize(size) => DeleteReply::Formatted(format!("{size} B")),
                DeleteRequest::Print(line) => {
                    self.printed.push_str(&line);
                    DeleteReply::Printed
                }
                DeleteRequest::Done(outcome) => return outcome,
            };
            deletion = deletion.answer(reply);
        }
    }

    fn purged(
        &mut self,
        store: &mut Vec<Project>,
        purge: &Purge,
        request: PurgeRequest,
        confirm: &mut dyn FnMut(&[UnsureHit]) -> bool,
    ) -> PurgeReply {
        match request {
            PurgeRequest::Inspect(target) => {
                let target = text(&target);
                PurgeReply::Inspected(if self.is_dir(&target) {
                    Some(Inspection {
                        canonical: self.canonical(&target).map(|at| bytes(&at)),
                        found: self.evidence(&target),
                    })
                } else {
                    None
                })
            }
            PurgeRequest::Delete(target) => {
                let outcome = self.delete(&target);
                assert!(purge.summary().has_room(&outcome));
                PurgeReply::Deleted(outcome)
            }
            PurgeRequest::Measure(target) => PurgeReply::Measured(self.size(&text(&target))),
            PurgeRequest::Walk(request) => PurgeReply::Walked(self.walked(request)),
            PurgeRequest::Confirm => PurgeReply::Confirmed(confirm(purge.unsure())),
            PurgeRequest::Recheck => PurgeReply::Rows(
                store
                    .iter()
                    .map(|row| RowState {
                        target_dir: row.target_dir.clone(),
                        is_dir: self.is_dir(&row.target_dir),
                    })
                    .collect(),
            ),
            PurgeRequest::Prune(gone) => {
                store.retain(|row| !gone.contains(&row.target_dir));
                PurgeReply::Pruned
            }
            PurgeRequest::Finished => unreachable!(),
        }
    }

    fn purge(
        &mut self,
        store: &mut Vec<Project>,
        roots: &[&str],
        confirm: &mut dyn FnMut(&[UnsureHit]) -> bool,
    ) -> Summary {
        let mut work = purge(store, all_bytes(roots));
        loop {
            match work.request() {
                PurgeRequest::Finished => return work.summary(),
                request => {
                    let reply = self.purged(store, &work, request, confirm);
                    work = work.answer(reply);
                }
            }
        }
    }

    fn sized(&self, target: &[u8]) -> Size {
        let bytes = self.size(&text(target));
        Size { bytes, text: format!("{bytes} B") }
    }

    /// Runs the list to its end. Hands back what was printed and the exit
    /// code.
    fn list(&mut self, store: &[Project], policy: Policy, args: &[&str]) -> (String, i32) {
        let mut work: Ls = ls(&all_bytes(args), PLAIN, PLAIN);
        let mut out = String::new();
        loop {
            let reply = match work.request() {
                LsRequest::Reject { message, code } => return (message, code),
                LsRequest::LoadPolicy => LsReply::Policy(Ok(policy)),
                LsRequest::CheckDir(root) => LsReply::DirChecked(self.is_dir(&text(&root))),
                LsRequest::WarnIfInactive => LsReply::Warned,
                LsRequest::ReadRows => LsReply::Rows { projects: copied(store), now: 10_000 },
                LsRequest::MeasureRows(targets) => LsReply::RowSizes(
                    targets
                        .iter()
                        .map(|target| {
                            if self.is_dir(&text(target)) {
                                Some(self.sized(target))
                            } else {
                                None
                            }
                        })
                        .collect(),
                ),
                LsRequest::Print(line) => {
                    out.push_str(&line);
                    LsReply::Printed
                }
                LsRequest::Canonicalize(targets) => LsReply::Canonical(
                    targets
                        .iter()
                        .map(|target| self.canonical(&text(target)).map(|at| bytes(&at)))
                        .collect(),
                ),
                LsRequest::ResolveUsual => LsReply::Resolved(vec![
                    self.candidate("/home/me"),
                    self.candidate("/tmp"),
                    self.candidate("/tmp"),
                ]),
                LsRequest::Walk(request) => LsReply::Walked(self.walked(request)),
                LsRequest::MeasureHits(targets) => {
                    LsReply::HitSizes(targets.iter().map(|target| self.sized(target)).collect())
                }
                LsRequest::FormatSize(size) => LsReply::Formatted(format!("{size} B")),
                LsRequest::Exit(code) => return (out, code),
            };
            work = work.answer(reply);
        }
    }

    /// Runs the purge command to its end.
    fn purge_command(
        &mut self,
        store: &mut Vec<Project>,
        args: &[&str],
        confirm: &mut dyn FnMut(&[UnsureHit]) -> bool,
    ) -> (String, i32) {
        let mut work = run(&all_bytes(args), PLAIN, PLAIN);
        let mut warned: usize = 0;
        self.printed = String::new();
        loop {
            let reply = match work.request() {
                RunRequest::Reject { message, code } => {
                    assert_eq!(warned, 0);
                    return (message, code);
                }
                RunRequest::CheckDir(root) => RunReply::DirChecked(self.is_dir(&text(&root))),
                RunRequest::WarnIfInactive => {
                    warned += 1;
                    RunReply::Warned
                }
                RunRequest::ResolveUsual => {
                    RunReply::Resolved(vec![self.candidate("/home/me"), self.candidate("/tmp")])
                }
                RunRequest::Print(line) => {
                    self.printed.push_str(&line);
                    RunReply::Printed
                }
                RunRequest::ReadRows => RunReply::Rows(copied(store)),
                RunRequest::Purge(request) => {
                    let purge = work.purge().unwrap();
                    RunReply::Purged(self.purged(store, purge, request, confirm))
                }
                RunRequest::FormatSize(size) => RunReply::Formatted(format!("{size} B")),
                RunRequest::Exit(code) => {
                    assert_eq!(warned, 1);
                    return (self.printed.clone(), code);
                }
            };
            work = work.answer(reply);
        }
    }
}

fn copied(store: &[Project]) -> Vec<Project> {
    store.iter().map(|row| project(&row.path, &row.target_dir, row.last_used)).collect()
}

fn project(path: &str, target_dir: &str, last_used: i64) -> Project {
    Project { path: path.to_string(), target_dir: target_dir.to_string(), last_used }
}

fn no_confirm(_: &[UnsureHit]) -> bool {
    panic!("confirmation must not be requested");
}

// The purge.

#[test]
fn include_untracked_purges_tracked_and_scanned_targets() {
    let mut disk = Disk::new();
    // The known project lives outside the scan root, the scanned one inside.
    let known = disk.cargo_project("/known_sure/known");
    let found = disk.cargo_project("/known_sure/scanroot/proj");
    let mut store = vec![project("/known_sure/known", &known, 1_000)];

    let summary = disk.purge(&mut store, &["/known_sure/scanroot"], &mut no_confirm);
    assert!(!disk.is_there(&known));
    assert!(!disk.is_there(&found));
    assert_eq!(summary.deleted, 2);
    assert!(summary.freed >= 8192);
    assert!(store.is_empty());
}

#[test]
fn tracked_only_purge_leaves_untracked_target_untouched() {
    let mut disk = Disk::new();
    let recorded = disk.cargo_project("/tracked_only/tracked");
    let untracked = disk.cargo_project("/tracked_only/untracked");
    let mut store = vec![project("/tracked_only/tracked", &recorded, 1_000)];

    let summary = disk.purge(&mut store, &[], &mut no_confirm);

    assert_eq!(
        (disk.is_there(&recorded), disk.is_there(&untracked), summary.deleted),
        (false, true, 1)
    );
}

#[test]
fn unsure_targets_are_gated_on_confirmation() {
    let mut disk = Disk::new();
    disk.file("/unsure/proj/Cargo.toml", b"[package]\n");
    disk.file("/unsure/proj/target/stuff.bin", &[0u8; 1024]);
    let mut store: Vec<Project> = Vec::new();

    // Declined: it survives.
    let mut asked: usize = 0;
    let summary = disk.purge(&mut store, &["/unsure"], &mut |hits| {
        asked += 1;
        assert_eq!(hits.len(), 1);
        assert!(hits[0].size >= 1024);
        false
    });
    assert_eq!(asked, 1);
    assert_eq!(summary.deleted, 0);
    assert!(disk.is_there("/unsure/proj/target/stuff.bin"));

    // Accepted: it is deleted.
    let summary = disk.purge(&mut store, &["/unsure"], &mut |_| true);
    assert_eq!(summary.deleted, 1);
    assert!(!disk.is_there("/unsure/proj/target"));
}

#[test]
fn manifestless_target_dirs_are_invisible() {
    let mut disk = Disk::new();
    disk.file("/nomanifest/frontend/target/bundle.js", &[0u8; 1024]);
    let mut store: Vec<Project> = Vec::new();

    let summary = disk.purge(&mut store, &["/nomanifest"], &mut no_confirm);
    assert_eq!(summary.deleted, 0);
    assert!(disk.is_there("/nomanifest/frontend/target/bundle.js"));
}

#[test]
fn hidden_dirs_and_symlinks_are_not_entered() {
    let mut disk = Disk::new();
    let hidden = disk.cargo_project("/hidden/.stash/proj");
    let outside = disk.cargo_project("/hidden/outside-root");
    disk.dir("/hidden/root");
    disk.link("/hidden/root/link", "/hidden/outside-root");
    let mut store: Vec<Project> = Vec::new();

    let summary = disk.purge(&mut store, &["/hidden/.stash"], &mut no_confirm);
    // Scanning an explicit root works even where the root itself is hidden,
    assert_eq!(summary.deleted, 1);
    assert!(!disk.is_there(&hidden));
    // but a scan never crosses symlinks.
    let summary = disk.purge(&mut store, &["/hidden/root"], &mut no_confirm);
    assert_eq!(summary.deleted, 0);
    assert!(disk.is_there(&outside));
}

#[test]
fn locked_targets_survive_and_keep_their_row() {
    let mut disk = Disk::new();
    let target = disk.cargo_project("/locked/busy");
    disk.dir("/locked/busy/target/debug/.fingerprint");
    disk.file("/locked/busy/target/debug/.cargo-lock", b"");
    let mut store = vec![project("/locked/busy", &target, 1_000)];

    disk.busy.insert(target.clone());
    let summary = disk.purge(&mut store, &[], &mut no_confirm);
    assert_eq!(summary.locked, 1);
    assert_eq!(summary.deleted, 0);
    assert!(disk.is_there(&target));
    assert_eq!(store.len(), 1);
}

#[test]
fn store_rows_without_markers_are_gated_on_confirmation() {
    let mut disk = Disk::new();
    // A recorded path that no longer looks cargo-built: no markers inside.
    let target = "/stale_row/proj/target";
    disk.file("/stale_row/proj/target/data.bin", &[0u8; 2048]);
    let mut store = vec![project("/stale_row/proj", target, 1_000)];
    // Declined: it survives, and its row is kept.
    let mut asked: usize = 0;
    let summary = disk.purge(&mut store, &[], &mut |hits| {
        asked += 1;
        assert_eq!(hits.len(), 1);
        assert!(hits[0].size >= 2048);
        false
    });
    assert_eq!(asked, 1);
    assert_eq!(summary.deleted, 0);
    assert!(disk.is_there("/stale_row/proj/target/data.bin"));
    assert_eq!(store.len(), 1);

    // Accepted: it is deleted, and its row is pruned.
    let summary = disk.purge(&mut store, &[], &mut |_| true);
    assert_eq!(summary.deleted, 1);
    assert!(!disk.is_there(target));
    assert!(store.is_empty());
}

#[test]
fn scan_does_not_recount_known_targets() {
    let mut disk = Disk::new();
    let target = disk.cargo_project("/recount/root/proj");
    let mut store = vec![project("/recount/root/proj", &target, 1_000)];

    // The known target sits inside the scan root: it is deleted as a recorded
    // one, and the scan must not report it again.
    let summary = disk.purge(&mut store, &["/recount/root"], &mut no_confirm);
    assert_eq!(summary.deleted, 1);
}

#[test]
fn manifestless_target_with_cargo_markers_is_gated_not_ignored() {
    // A git worktree: cargo plainly built here, but no `Cargo.toml` sits
    // beside the target.
    let mut disk = Disk::new();
    let target = "/markers_no_manifest/worktree/target";
    disk.file("/markers_no_manifest/worktree/target/.rustc_info.json", b"{}");
    disk.file("/markers_no_manifest/worktree/target/blob.bin", &[0u8; 4096]);
    let mut store: Vec<Project> = Vec::new();

    // Declined: it survives, never deleted on markers alone.
    let summary = disk.purge(&mut store, &["/markers_no_manifest"], &mut |hits| {
        assert_eq!(hits.len(), 1);
        assert_eq!(hits[0].target, bytes(target));
        false
    });
    assert_eq!(summary.deleted, 0);
    assert!(disk.is_there(target));

    // Accepted: it is deleted.
    let summary = disk.purge(&mut store, &["/markers_no_manifest"], &mut |_| true);
    assert_eq!(summary.deleted, 1);
    assert!(!disk.is_there(target));
}

#[test]
fn a_locked_known_target_is_not_taken_up_again_by_the_scan() {
    let mut disk = Disk::new();
    let target = disk.cargo_project("/root/proj");
    disk.busy.insert(target.clone());
    let mut store = vec![project("/root/proj", &target, 1_000)];
    let summary = disk.purge(&mut store, &["/root"], &mut no_confirm);
    assert_eq!((summary.locked, summary.deleted, summary.freed), (1, 0, 0));
    assert!(disk.removed.is_empty());
}

#[test]
fn a_known_target_is_told_by_its_canonical_path() {
    let mut disk = Disk::new();
    let target = disk.cargo_project("/root/proj");
    disk.busy.insert("/alias/target".to_string());
    disk.busy.insert(target);
    disk.link("/alias", "/root/proj");
    let mut store = vec![project("/alias", "/alias/target", 1_000)];
    let summary = disk.purge(&mut store, &["/root"], &mut no_confirm);
    assert_eq!(summary.locked, 1);
}

#[test]
fn the_user_is_asked_once_about_all_unsure_targets() {
    let mut disk = Disk::new();
    disk.file("/rec/target/data.bin", &[0u8; 10]);
    disk.file("/root/a/target/.rustc_info.json", b"{}");
    disk.file("/root/b/Cargo.toml", b"");
    disk.file("/root/b/target/x", &[0u8; 30]);
    let sure = disk.cargo_project("/root/c");
    let mut store = vec![project("/rec", "/rec/target", 1), project("/gone", "/gone/target", 2)];
    let mut asked: Vec<(String, u64)> = Vec::new();
    let summary = disk.purge(&mut store, &["/root"], &mut |hits| {
        assert!(asked.is_empty());
        asked = hits.iter().map(|hit| (text(&hit.target), hit.size)).collect();
        true
    });
    assert_eq!(
        asked,
        vec![
            ("/rec/target".to_string(), 10),
            ("/root/b/target".to_string(), 30),
            ("/root/a/target".to_string(), 2),
        ]
    );
    assert_eq!((summary.deleted, summary.freed), (4, 4098 + 42));
    // What is sure goes ahead of the question, the unsure in its order after.
    assert_eq!(
        disk.removed,
        vec![
            sure,
            "/rec/target".to_string(),
            "/root/b/target".to_string(),
            "/root/a/target".to_string(),
        ]
    );
    assert!(store.is_empty());
}

#[test]
fn after_a_no_nothing_more_is_deleted() {
    let mut disk = Disk::new();
    disk.file("/rec/target/data.bin", &[0u8; 10]);
    let sure = disk.cargo_project("/rec2");
    let mut store = vec![project("/rec", "/rec/target", 1), project("/rec2", &sure, 2)];
    let summary = disk.purge(&mut store, &[], &mut |_| false);
    assert_eq!(summary.deleted, 1);
    assert_eq!(disk.removed, vec![sure]);
    assert_eq!(store.len(), 1);
    assert_eq!(store[0].target_dir, "/rec/target");
}

#[test]
fn a_row_that_the_list_calls_missing_is_pruned() {
    let mut disk = Disk::new();
    // A regular file sits at one recorded place, nothing at another.
    disk.file("/work/a/target", b"not a directory");
    let kept = disk.cargo_project("/work/c");
    disk.busy.insert(kept.clone());
    let mut store = vec![
        project("/work/a", "/work/a/target", 3),
        project("/work/b", "/work/b/target", 2),
        project("/work/c", &kept, 1),
    ];
    let (out, _) = disk.list(&store, LIMITS, &[]);
    assert_eq!(out.matches("missing").count(), 2);
    assert!(out.contains("2 tracked targets no longer on disk"));

    disk.purge(&mut store, &[], &mut no_confirm);
    assert_eq!(store.len(), 1);
    assert_eq!(store[0].target_dir, kept);
    // The file itself is left alone.
    assert!(disk.is_file("/work/a/target"));
}

#[test]
fn a_yes_works_on_what_a_no_leaves() {
    let run = |yes: bool| {
        let mut disk = Disk::new();
        disk.file("/rec/target/data.bin", &[0u8; 10]);
        disk.file("/root/a/target/.rustc_info.json", b"{}");
        disk.file("/root/b/Cargo.toml", b"");
        disk.file("/root/b/target/x", &[0u8; 30]);
        disk.busy.insert("/root/b/target".to_string());
        let sure = disk.cargo_project("/root/c");
        let mut store = vec![project("/rec", "/rec/target", 1)];
        let mut asked: Vec<String> = Vec::new();
        let summary = disk.purge(&mut store, &["/root"], &mut |hits| {
            asked = hits.iter().map(|hit| text(&hit.target)).collect();
            yes
        });
        assert!(!disk.is_there(&sure));
        let left: Vec<bool> = asked.iter().map(|target| disk.is_there(target)).collect();
        (summary.deleted, summary.locked, asked, left, store.len())
    };
    let (no_deleted, no_locked, no_asked, no_left, no_rows) = run(false);
    let (yes_deleted, yes_locked, yes_asked, yes_left, yes_rows) = run(true);
    assert_eq!(no_asked, yes_asked);
    assert_eq!(yes_deleted + yes_locked, no_deleted + no_locked + no_asked.len());
    assert_eq!((no_left, no_rows), (vec![true, true, true], 1));
    // The one that a build holds stays after a yes too.
    assert_eq!((yes_left, yes_rows), (vec![false, true, false], 0));
}

#[test]
fn each_deletion_says_what_it_gave_back() {
    let mut disk = Disk::new();
    let target = disk.cargo_project("/a");
    let busy = disk.cargo_project("/b");
    disk.busy.insert(busy.clone());
    let mut store = vec![project("/a", &target, 1), project("/b", &busy, 2)];
    disk.purge(&mut store, &[], &mut no_confirm);
    assert_eq!(
        disk.printed,
        "    4098 B  /a/target\n         -  /b/target  (skipped: build running)\n"
    );
}

#[test]
fn a_reply_that_does_not_fit_changes_nothing() {
    let store = vec![project("/a", "/a/target", 1)];
    let work = purge(&store, Vec::new());
    let work = work.answer(PurgeReply::Confirmed(true));
    let work = work.answer(PurgeReply::Measured(7));
    assert!(matches!(work.request(), PurgeRequest::Inspect(p) if p == b"/a/target"));
    let work = work.answer(PurgeReply::Inspected(None));
    assert!(matches!(work.request(), PurgeRequest::Recheck));
}

// The scan.

#[test]
fn default_roots_cover_home_and_a_temp_dir() {
    // Agent worktrees land in temp, not under home, so a home-only default
    // silently misses whole builds.
    let mut disk = Disk::new();
    disk.dir("/home/me");
    disk.dir("/tmp");
    let candidates = default_candidates(Some("/home/me"), b"/tmp");
    let looked_at: Vec<Candidate> = candidates.iter().map(|p| disk.candidate(&text(p))).collect();
    let roots = Scan::Defaults.roots(&looked_at);
    let home = bytes("/home/me");
    assert!(roots.contains(&home));
    assert!(roots.iter().any(|root| root != &home));
}

#[test]
fn without_a_home_only_the_temp_dirs_are_usual() {
    assert_eq!(default_candidates(None, b"/var/t"), all_bytes(&["/tmp", "/var/t"]));
    assert_eq!(default_candidates(Some(""), b"/var/t"), all_bytes(&["/tmp", "/var/t"]));
    assert_eq!(default_candidates(Some("/h"), b"/t"), all_bytes(&["/h", "/tmp", "/t"]));
}

#[test]
fn usable_roots_drops_missing_and_nested_candidates() {
    let mut disk = Disk::new();
    disk.dir("/roots/inner");
    let candidates =
        vec![disk.candidate("/roots"), disk.candidate("/roots/inner"), disk.candidate("/roots/gone")];

    let roots = usable_roots(&candidates);

    assert_eq!(roots, all_bytes(&["/roots"]));
}

#[test]
fn a_root_is_dropped_for_an_earlier_one_only() {
    let mut disk = Disk::new();
    disk.dir("/roots/inner");
    disk.dir("/roots2");
    disk.file("/file", b"");
    let candidates = vec![
        disk.candidate("/roots/inner"),
        disk.candidate("/file"),
        disk.candidate("/roots"),
        disk.candidate("/roots2"),
        disk.candidate("/roots/./inner/"),
    ];
    assert_eq!(usable_roots(&candidates), all_bytes(&["/roots/inner", "/roots", "/roots2"]));
}

#[test]
fn an_unreadable_directory_is_no_root() {
    let mut disk = Disk::new();
    disk.dir("/shut/inner");
    disk.unreadable.insert("/shut".to_string());
    let candidates = vec![disk.candidate("/shut")];
    assert!(usable_roots(&candidates).is_empty());
    // It keeps no other root out either.
    let candidates = vec![disk.candidate("/shut"), disk.candidate("/shut/inner")];
    assert_eq!(usable_roots(&candidates), all_bytes(&["/shut/inner"]));
}

#[test]
fn the_roots_follow_the_option() {
    let mut disk = Disk::new();
    disk.dir("/home/me");
    let usual = vec![disk.candidate("/home/me")];
    assert!(Scan::Off.roots(&usual).is_empty());
    assert_eq!(Scan::Explicit(bytes("rel")).roots(&usual), all_bytes(&["rel"]));
    assert_eq!(Scan::Defaults.roots(&usual), all_bytes(&["/home/me"]));
    assert!(!Scan::Off.is_on());
    assert!(Scan::Explicit(bytes("rel")).is_on());
    assert!(Scan::Defaults.is_on());
}

#[test]
fn manifest_and_markers_together_are_verified() {
    let mut disk = Disk::new();
    disk.file("/verified/proj/Cargo.toml", b"[package]\n");
    disk.file("/verified/proj/target/.rustc_info.json", b"{}");

    let hits = disk.scan_one("/verified");

    assert_eq!(hits.len(), 1);
    assert!(hits[0].verified);
}

#[test]
fn markers_without_a_sibling_manifest_are_reported_unverified() {
    // Cargo plainly wrote it, but no `Cargo.toml` sits beside it.
    let mut disk = Disk::new();
    let target = "/no_manifest/worktree/target";
    disk.file("/no_manifest/worktree/target/.rustc_info.json", b"{}");

    let hits = disk.scan_one("/no_manifest");

    assert_eq!(hits.len(), 1);
    assert_eq!(hits[0].target, bytes(target));
    assert!(!hits[0].verified);
}

#[test]
fn manifest_without_markers_is_reported_unverified() {
    let mut disk = Disk::new();
    disk.file("/no_markers/proj/Cargo.toml", b"[package]\n");
    disk.dir("/no_markers/proj/target");

    let hits = disk.scan_one("/no_markers");

    assert_eq!(hits.len(), 1);
    assert!(!hits[0].verified);
}

#[test]
fn target_dirs_with_neither_signal_stay_invisible() {
    let mut disk = Disk::new();
    disk.file("/neither/frontend/target/bundle.js", &[0u8; 1024]);

    assert!(disk.scan_one("/neither").is_empty());
}

#[test]
fn seen_targets_are_not_reported_again() {
    let mut disk = Disk::new();
    disk.file("/seen/proj/Cargo.toml", b"[package]\n");
    disk.file("/seen/proj/target/.rustc_info.json", b"{}");
    let canon = disk.canonical("/seen/proj/target").unwrap();

    let hits = disk.walk(scan(all_bytes(&["/seen"]), all_bytes(&[&canon])));

    assert!(hits.is_empty());
}

#[test]
fn overlapping_roots_report_a_target_once() {
    let mut disk = Disk::new();
    disk.file("/overlap/proj/Cargo.toml", b"[package]\n");
    disk.file("/overlap/proj/target/.rustc_info.json", b"{}");

    let hits = disk.walk(scan(all_bytes(&["/overlap", "/overlap/proj"]), Vec::new()));

    assert_eq!(hits.len(), 1);
}

#[test]
fn a_seen_target_is_told_under_any_spelling() {
    let mut disk = Disk::new();
    disk.cargo_project("/root/proj");
    let hits = disk.walk(scan(all_bytes(&["/root"]), all_bytes(&["//root/./proj/target/"])));
    assert!(hits.is_empty());
}

#[test]
fn a_target_is_never_descended_into() {
    let mut disk = Disk::new();
    disk.cargo_project("/root/target/inner");
    disk.cargo_project("/root/proj/target/inner");
    let hits = disk.scan_one("/root");
    assert_eq!(hits.len(), 0);
    assert_eq!(disk.read, vec!["/root".to_string(), "/root/proj".to_string()]);
}

#[test]
fn heaps_and_hidden_directories_are_not_entered() {
    let mut disk = Disk::new();
    for heap in ["node_modules", "Library", ".cache"] {
        disk.cargo_project(&format!("/root/{heap}/proj"));
    }
    disk.cargo_project("/root/library/proj");
    let hits = disk.scan_one("/root");
    assert_eq!(hits.len(), 1);
    assert_eq!(hits[0].target, bytes("/root/library/proj/target"));
}

#[test]
fn a_mount_below_the_root_is_left_alone() {
    let mut disk = Disk::new();
    disk.cargo_project("/root/vm/proj");
    disk.mounts.insert("/root/vm".to_string(), 2);
    assert!(disk.scan_one("/root").is_empty());
    // Pointing the scan at the mount on purpose works.
    assert_eq!(disk.scan_one("/root/vm").len(), 1);
}

#[test]
fn an_unreadable_directory_is_passed_over() {
    let mut disk = Disk::new();
    disk.cargo_project("/root/a");
    disk.cargo_project("/root/b");
    disk.unreadable.insert("/root/a".to_string());
    let hits = disk.scan_one("/root");
    assert_eq!(hits.len(), 1);
    assert_eq!(hits[0].target, bytes("/root/b/target"));
    assert!(disk.scan_one("/missing").is_empty());
}

#[test]
fn nothing_outside_the_roots_is_read() {
    let mut disk = Disk::new();
    disk.cargo_project("/root/a/b");
    disk.cargo_project("/rootling/c");
    disk.scan_one("/root");
    assert!(disk.read.iter().all(|dir| dir == "/root" || dir.starts_with("/root/")));
}

#[test]
fn a_walk_takes_no_reply_that_does_not_fit() {
    let walk = scan(all_bytes(&["/root"]), Vec::new());
    let walk = walk.answer(WalkReply::Listed(None));
    assert!(matches!(walk.request(), WalkRequest::Stat(p) if p == b"/root"));
    let walk = walk.answer(WalkReply::Device(None));
    let walk = walk.answer(WalkReply::Device(Some(3)));
    assert!(matches!(walk.request(), WalkRequest::Read(p) if p == b"/root"));
    assert!(walk.hits().is_empty());
}

// The list.

const LIMITS: Policy = Policy { max_project_size: 5_000, max_total_cache: 6_000 };

#[test]
fn the_list_shows_recorded_projects_latest_first() {
    let mut disk = Disk::new();
    let a = disk.cargo_project("/work/a");
    let b = disk.cargo_project("/work/b");
    let store = vec![
        project("/work/a", &a, 1_000),
        project("/work/gone", "/work/gone/target", 2_800),
        project("/work/b", &b, 9_940),
        project("/work/c", "/elsewhere", 2_800),
    ];
    let (out, code) = disk.list(&store, LIMITS, &[]);
    assert_eq!(code, 0);
    assert_eq!(
        out,
        "\n    4098 B    1m ago  /work/b\n   missing    2h ago  /work/gone\n   missing    2h ago  \
         /work/c  (target: /elsewhere)\n    4098 B    2h ago  /work/a\n\n    8196 B  total (budget \
         6000 B)\n2 tracked targets no longer on disk \u{2014} `cargo overstay purge` prunes the \
         rows.\n"
    );
}

#[test]
fn an_empty_list_says_how_to_begin() {
    let mut disk = Disk::new();
    let (out, code) = disk.list(&[], LIMITS, &[]);
    assert_eq!(code, 0);
    assert_eq!(
        out,
        "No tracked projects yet \u{2014} build something through cargo first.\n\n       0 B  total \
         (budget 6000 B)\n"
    );
    assert!(disk.read.is_empty());
}

#[test]
fn the_list_shows_what_a_scan_finds_largest_first() {
    let mut disk = Disk::new();
    let known = disk.cargo_project("/work/known");
    disk.cargo_project("/work/sure");
    disk.file("/work/tree/target/.rustc_info.json", &[0u8; 9_000]);
    disk.file("/work/js/target/bundle.js", &[0u8; 9_999]);
    let store = vec![project("/work/known", &known, 10_000)];
    let (out, code) = disk.list(&store, LIMITS, &["--include-untracked", "/work"]);
    assert_eq!(code, 0);
    assert_eq!(
        out,
        "\n    4098 B    0m ago  /work/known\n\nUntracked targets (scanned /work)\n    9000 B  \
         /work/tree/target  (unverified)\n    4098 B  /work/sure/target\n\n    4098 B  tracked \
         (budget 6000 B)\n   13098 B  untracked (not counted against the budget)\n"
    );
}

#[test]
fn a_scan_that_finds_nothing_says_where_it_looked() {
    let mut disk = Disk::new();
    disk.dir("/home/me");
    disk.dir("/tmp");
    let (out, _) = disk.list(&[], LIMITS, &["--include-untracked"]);
    assert!(out.contains("Untracked targets (scanned /home/me, /tmp)\n  none found\n"));
    let (out, _) = Disk::new().list(&[], LIMITS, &["--include-untracked"]);
    assert!(out.contains("(scanned nothing (no readable scan root))\n"));
}

#[test]
fn the_list_refuses_a_root_that_is_no_directory() {
    let mut disk = Disk::new();
    disk.file("/file", b"");
    let (message, code) = disk.list(&[], LIMITS, &["--include-untracked", "/file"]);
    assert_eq!(message, "cargo-overstay: /file is not a directory\n");
    assert_eq!(code, 2);
    assert!(disk.read.is_empty());
}

#[test]
fn the_list_refuses_bad_limits() {
    let work = ls(&[], PLAIN, PLAIN);
    let work = work.answer(LsReply::Policy(Err("no such unit".to_string())));
    match work.request() {
        LsRequest::Reject { message, code } => {
            assert_eq!(message, "cargo-overstay: no such unit\n");
            assert_eq!(code, 2);
        }
        _ => panic!("bad limits are refused"),
    }
}

#[test]
fn the_list_takes_no_sizes_that_do_not_match() {
    let work = ls(&[], PLAIN, PLAIN);
    let work = work.answer(LsReply::Policy(Ok(LIMITS)));
    let work = work.answer(LsReply::Warned);
    let work =
        work.answer(LsReply::Rows { projects: vec![project("/a", "/a/target", 1)], now: 2 });
    assert_eq!(work.projects().len(), 1);
    let work = work.answer(LsReply::RowSizes(Vec::new()));
    assert!(matches!(work.request(), LsRequest::MeasureRows(t) if t == all_bytes(&["/a/target"])));
}

#[test]
fn the_list_reports_what_a_purge_acts_on() {
    let mut disk = Disk::new();
    let known = disk.cargo_project("/work/known");
    disk.cargo_project("/work/sure");
    disk.file("/work/tree/target/.rustc_info.json", b"{}");
    disk.file("/work/js/target/bundle.js", b"");
    let mut store = vec![project("/work/known", &known, 1)];
    let (out, _) = disk.list(&store, LIMITS, &["--include-untracked", "/work"]);
    let listed: Vec<&str> = out
        .lines()
        .skip_while(|line| !line.starts_with("Untracked"))
        .skip(1)
        .take_while(|line| !line.is_empty())
        .map(|line| line.split_whitespace().nth(2).unwrap())
        .collect();
    assert_eq!(listed, vec!["/work/sure/target", "/work/tree/target"]);

    let mut asked: Vec<String> = Vec::new();
    disk.purge(&mut store, &["/work"], &mut |hits| {
        asked = hits.iter().map(|hit| text(&hit.target)).collect();
        false
    });
    assert_eq!(disk.removed, vec![known, "/work/sure/target".to_string()]);
    assert_eq!(asked, vec!["/work/tree/target".to_string()]);
}

// The purge command.

#[test]
fn the_purge_command_sums_up() {
    let mut disk = Disk::new();
    let a = disk.cargo_project("/work/a");
    let b = disk.cargo_project("/work/b");
    disk.busy.insert(b.clone());
    let mut store = vec![project("/work/a", &a, 1), project("/work/b", &b, 2)];
    let (out, code) = disk.purge_command(&mut store, &[], &mut no_confirm);
    assert_eq!(code, 0);
    assert_eq!(
        out,
        "    4098 B  /work/a/target\n         -  /work/b/target  (skipped: build running)\nfreed \
         4098 B from 1 target dir (1 skipped: build running)\n"
    );
    assert_eq!(store.len(), 1);
}

#[test]
fn the_purge_command_names_the_roots_it_scans() {
    let mut disk = Disk::new();
    disk.dir("/home/me");
    disk.dir("/tmp");
    let mut store: Vec<Project> = Vec::new();
    let (out, code) = disk.purge_command(&mut store, &["--include-untracked"], &mut no_confirm);
    assert_eq!(code, 0);
    assert_eq!(out, "scanning /home/me, /tmp\nfreed 0 B from 0 target dirs\n");

    let found = disk.cargo_project("/home/me/proj");
    let (out, _) =
        disk.purge_command(&mut store, &["--include-untracked", "/home/me"], &mut no_confirm);
    assert!(out.starts_with("scanning /home/me\n"));
    assert!(!disk.is_there(&found));
}

#[test]
fn without_the_option_the_purge_command_scans_nothing() {
    let mut disk = Disk::new();
    let found = disk.cargo_project("/home/me/proj");
    let mut store: Vec<Project> = Vec::new();
    let (out, _) = disk.purge_command(&mut store, &[], &mut no_confirm);
    assert_eq!(out, "freed 0 B from 0 target dirs\n");
    assert!(disk.is_there(&found));
    assert!(disk.read.is_empty());
}

#[test]
fn the_purge_command_refuses_a_root_that_is_no_directory() {
    let mut disk = Disk::new();
    let a = disk.cargo_project("/work/a");
    let mut store = vec![project("/work/a", &a, 1)];
    let (message, code) =
        disk.purge_command(&mut store, &["--include-untracked", "/nowhere"], &mut no_confirm);
    assert_eq!(message, "cargo-overstay: /nowhere is not a directory\n");
    assert_eq!(code, 2);
    assert!(disk.is_there(&a));
}

#[test]
fn the_purge_command_refuses_odd_arguments() {
    let mut disk = Disk::new();
    let mut store: Vec<Project> = Vec::new();
    let (message, code) = disk.purge_command(&mut store, &["--bogus"], &mut no_confirm);
    assert_eq!(
        message,
        "cargo-overstay: unknown option: --bogus\nUsage: cargo overstay purge \
         [--include-untracked [dir]]\n"
    );
    assert_eq!(code, 2);
}

// The question.

fn unsure(targets: &[(&str, u64)]) -> Vec<UnsureHit> {
    targets.iter().map(|(p, size)| UnsureHit { target: bytes(p), size: *size }).collect()
}

#[test]
fn the_question_lists_the_targets_and_their_sum() {
    let work = confirm_on_stdin(unsure(&[("/a/target", 10), ("/b/target", 20)]), PLAIN);
    let sizes = match work.request() {
        ConfirmRequest::FormatSizes(sizes) => sizes,
        _ => panic!("the sizes come first"),
    };
    assert_eq!(sizes, vec![10u64, 20, 30]);
    // A reply of the wrong length is not taken.
    let work = work.answer(ConfirmReply::Formatted(vec!["10 B".to_string()]));
    assert!(matches!(work.request(), ConfirmRequest::FormatSizes(_)));
    let texts = sizes.iter().map(|size| format!("{size} B")).collect();
    let work = work.answer(ConfirmReply::Formatted(texts));
    match work.request() {
        ConfirmRequest::Ask(question) => assert_eq!(
            question,
            "\nUnverified targets\n2 target dirs without cargo build markers:\n        10 B  \
             /a/target\n        20 B  /b/target\nDelete these too? (30 B total) [y/N] "
        ),
        _ => panic!("the question is next"),
    }
    let work = work.answer(ConfirmReply::Line(Some(" yes\n".to_string())));
    assert!(matches!(work.request(), ConfirmRequest::Done(true)));
}

#[test]
fn without_a_line_nobody_agreed() {
    let work = confirm_on_stdin(unsure(&[("/a/target", 1)]), PLAIN);
    let work =
        work.answer(ConfirmReply::Formatted(vec!["1 B".to_string(), "1 B".to_string()]));
    match work.request() {
        ConfirmRequest::Ask(question) => {
            assert!(question.contains("\n1 target dir without cargo build markers:\n"))
        }
        _ => panic!("the question is next"),
    }
    let work = work.answer(ConfirmReply::Line(None));
    assert!(matches!(work.request(), ConfirmRequest::Done(false)));
}
