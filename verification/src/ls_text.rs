//! What `cargo overstay ls` shows.

use vstd::prelude::*;
use vstd::string::*;
use vstd::utf8::*;

use crate::path;
use crate::path::{is_same_path, join_path};
use crate::rank::Ranked;
use crate::scan;
use crate::scan::describe_roots;
use crate::store::Project;
use crate::style::Style;
use crate::text;
use crate::text::{align_right, decimal, plural_ending, show};
use crate::walk::ScanHit;

verus! {

/// The size limits.
#[derive(Clone, Copy)]
pub struct Policy {
    pub max_project_size: u64,
    pub max_total_cache: u64,
}

/// A size, and the text it is shown as.
pub struct Size {
    pub bytes: u64,
    pub text: String,
}

/// A target that the scan found, with its size.
pub struct SizedHit {
    pub hit: ScanHit,
    pub size: Size,
}

/// How long ago something was, coarsely. What lies in the future is now.
pub open spec fn age(secs: int) -> Seq<char> {
    let s = if secs > 0 {
        secs
    } else {
        0
    };
    if s < 3600 {
        text::numeral((s / 60) as nat) + "m ago"@
    } else if s < 86400 {
        text::numeral((s / 3600) as nat) + "h ago"@
    } else {
        text::numeral((s / 86400) as nat) + "d ago"@
    }
}

/// Writes how long ago something was.
pub fn format_age(secs: i64) -> (r: String)
    ensures
        r@ == age(secs as int),
{
    let s: u64 = if secs > 0 {
        secs as u64
    } else {
        0
    };
    if s < 3600 {
        let mut r = decimal(s / 60);
        r.append("m ago");
        r
    } else if s < 86400 {
        let mut r = decimal(s / 3600);
        r.append("h ago");
        r
    } else {
        let mut r = decimal(s / 86400);
        r.append("d ago");
        r
    }
}

/// The cell of a size. One over the limit for a project stands out.
pub open spec fn size_cell(style: Style, policy: Policy, size: Size) -> Seq<char> {
    let cell = text::right_aligned(size.text@, 10);
    if size.bytes > policy.max_project_size {
        style.as_warning(cell)
    } else {
        style.as_accent(cell)
    }
}

fn write_size_cell(style: &Style, policy: &Policy, size: &Size) -> (r: String)
    ensures
        r@ == size_cell(*style, *policy, *size),
{
    let cell = align_right(size.text.as_str(), 10);
    if size.bytes > policy.max_project_size {
        style.warning(cell.as_str())
    } else {
        style.accent(cell.as_str())
    }
}

/// The target of a project is where cargo puts it by itself.
pub open spec fn has_usual_target(project: Project) -> bool {
    path::same_path(
        encode_utf8(project.target_dir@),
        path::join(encode_utf8(project.path@), encode_utf8("target"@)),
    )
}

/// The line of a recorded project. A target that is gone is called missing
/// instead of measuring nothing; a target in an unusual place is named.
pub open spec fn row_line(
    style: Style,
    policy: Policy,
    now: int,
    project: Project,
    size: Option<Size>,
) -> Seq<char> {
    (match size {
        Some(size) => size_cell(style, policy, size),
        None => style.as_muted(text::right_aligned("missing"@, 10)),
    }) + "  "@ + style.as_muted(text::right_aligned(age(now - project.last_used), 8)) + "  "@
        + style.as_path(project.path@) + (if has_usual_target(project) {
        ""@
    } else {
        "  "@ + style.as_muted("(target:"@) + " "@ + style.as_path(project.target_dir@)
            + style.as_muted(")"@)
    }) + "\n"@
}

fn write_row_line(
    style: &Style,
    policy: &Policy,
    now: i64,
    project: &Project,
    size: &Option<Size>,
) -> (r: String)
    requires
        i64::MIN <= now - project.last_used <= i64::MAX,
    ensures
        r@ == row_line(*style, *policy, now as int, *project, *size),
{
    let mut r = match size {
        Some(size) => write_size_cell(style, policy, size),
        None => style.muted(align_right("missing", 10).as_str()),
    };
    r.append("  ");
    let age = format_age(now - project.last_used);
    r.append(style.muted(align_right(age.as_str(), 8).as_str()).as_str());
    r.append("  ");
    r.append(style.path(project.path.as_str()).as_str());
    let usual = join_path(project.path.as_str().as_bytes(), "target".as_bytes());
    let mut note = "".to_owned();
    if !is_same_path(project.target_dir.as_str().as_bytes(), usual.as_slice()) {
        note = "  ".to_owned();
        note.append(style.muted("(target:").as_str());
        note.append(" ");
        note.append(style.path(project.target_dir.as_str()).as_str());
        note.append(style.muted(")").as_str());
    }
    r.append(note.as_str());
    r.append("\n");
    r
}

/// The lines of the first `n` projects.
pub open spec fn row_lines(
    style: Style,
    policy: Policy,
    now: int,
    projects: Seq<Project>,
    sizes: Seq<Option<Size>>,
    n: int,
) -> Seq<char>
    decreases n,
{
    if n <= 0 {
        ""@
    } else {
        row_lines(style, policy, now, projects, sizes, n - 1) + row_line(
            style,
            policy,
            now,
            projects[n - 1],
            sizes[n - 1],
        )
    }
}

/// The section of the recorded projects.
pub open spec fn recorded_section(
    style: Style,
    policy: Policy,
    now: int,
    projects: Seq<Project>,
    sizes: Seq<Option<Size>>,
) -> Seq<char> {
    (if projects.len() == 0 {
        style.as_muted(
            "No tracked projects yet \u{2014} build something through cargo first."@,
        ) + "\n"@
    } else {
        "\n"@
    }) + row_lines(style, policy, now, projects, sizes, projects.len() as int)
}

/// The sizes of the first `n` targets together. A target that is gone counts
/// for nothing.
pub open spec fn recorded_bytes(sizes: Seq<Option<Size>>, n: int) -> int
    decreases n,
{
    if n <= 0 {
        0
    } else {
        recorded_bytes(sizes, n - 1) + match sizes[n - 1] {
            Some(size) => size.bytes as int,
            None => 0,
        }
    }
}

/// How many of the first `n` targets are gone.
pub open spec fn missing_targets(sizes: Seq<Option<Size>>, n: int) -> int
    decreases n,
{
    if n <= 0 {
        0
    } else {
        missing_targets(sizes, n - 1) + if sizes[n - 1] is None {
            1int
        } else {
            0int
        }
    }
}

/// The ages of all projects can be told.
pub open spec fn ages_fit(projects: Seq<Project>, now: i64) -> bool {
    forall|i: int|
        0 <= i < projects.len() ==> i64::MIN <= now - (#[trigger] projects[i]).last_used
            <= i64::MAX
}

proof fn lemma_recorded_bytes_grow(sizes: Seq<Option<Size>>, n: int, m: int)
    requires
        0 <= n <= m,
    ensures
        recorded_bytes(sizes, n) <= recorded_bytes(sizes, m),
    decreases m,
{
    if n < m {
        lemma_recorded_bytes_grow(sizes, n, m - 1);
    }
}

/// Writes the section of the recorded projects. `sizes` holds the size of each
/// target that is a directory. Hands back the text, the sum of the sizes and
/// the number of targets that are gone.
pub fn write_recorded_section(
    style: &Style,
    policy: &Policy,
    now: i64,
    projects: &Vec<Project>,
    sizes: &Vec<Option<Size>>,
) -> (r: (String, u64, usize))
    requires
        sizes@.len() == projects@.len(),
        ages_fit(projects@, now),
        recorded_bytes(sizes@, sizes@.len() as int) <= u64::MAX,
    ensures
        r.0@ == recorded_section(*style, *policy, now as int, projects@, sizes@),
        r.1 == recorded_bytes(sizes@, sizes@.len() as int),
        r.2 == missing_targets(sizes@, sizes@.len() as int),
{
    let n = projects.len();
    let mut head = "\n".to_owned();
    if n == 0 {
        head = style.muted(
            "No tracked projects yet \u{2014} build something through cargo first.",
        );
        head.append("\n");
    }
    let mut lines = "".to_owned();
    let mut bytes: u64 = 0;
    let mut missing: usize = 0;
    let mut i: usize = 0;
    while i < n
        invariant
            i <= n == projects@.len() == sizes@.len(),
            ages_fit(projects@, now),
            recorded_bytes(sizes@, n as int) <= u64::MAX,
            lines@ == row_lines(*style, *policy, now as int, projects@, sizes@, i as int),
            bytes == recorded_bytes(sizes@, i as int),
            missing == missing_targets(sizes@, i as int),
            missing <= i,
        decreases n - i,
    {
        proof {
            lemma_recorded_bytes_grow(sizes@, i + 1, n as int);
        }
        match &sizes[i] {
            Some(size) => {
                bytes = bytes + size.bytes;
            },
            None => {
                missing = missing + 1;
            },
        }
        lines.append(write_row_line(style, policy, now, &projects[i], &sizes[i]).as_str());
        i = i + 1;
    }
    head.append(lines.as_str());
    (head, bytes, missing)
}

impl Ranked for Project {
    /// Projects are listed by when they were used, the latest first.
    open spec fn rank(&self) -> int {
        self.last_used as int
    }

    fn ranks_at_least(&self, other: &Self) -> (r: bool) {
        self.last_used >= other.last_used
    }
}

impl Ranked for SizedHit {
    /// Targets are listed by size, the largest first.
    open spec fn rank(&self) -> int {
        self.size.bytes as int
    }

    fn ranks_at_least(&self, other: &Self) -> (r: bool) {
        self.size.bytes >= other.size.bytes
    }
}

/// The line of a target that the scan found. One that a purge would ask about
/// is marked.
pub open spec fn hit_line(style: Style, policy: Policy, found: SizedHit) -> Seq<char> {
    size_cell(style, policy, found.size) + "  "@ + style.as_path(
        text::shown(found.hit.target@),
    ) + (if found.hit.verified {
        ""@
    } else {
        "  "@ + style.as_muted("(unverified)"@)
    }) + "\n"@
}

/// The lines of the first `n` targets that the scan found.
pub open spec fn hit_lines(style: Style, policy: Policy, found: Seq<SizedHit>, n: int) -> Seq<char>
    decreases n,
{
    if n <= 0 {
        ""@
    } else {
        hit_lines(style, policy, found, n - 1) + hit_line(style, policy, found[n - 1])
    }
}

/// The section of the targets that the scan found.
pub open spec fn untracked_section(
    style: Style,
    policy: Policy,
    roots: Seq<Seq<u8>>,
    found: Seq<SizedHit>,
) -> Seq<char> {
    "\n"@ + style.as_heading("Untracked targets"@) + " "@ + style.as_muted(
        "(scanned "@ + scan::roots_shown(roots) + ")"@,
    ) + "\n"@ + (if found.len() == 0 {
        style.as_muted("  none found"@) + "\n"@
    } else {
        ""@
    }) + hit_lines(style, policy, found, found.len() as int)
}

/// The sizes of the first `n` targets that the scan found together.
pub open spec fn found_bytes(found: Seq<SizedHit>, n: int) -> int
    decreases n,
{
    if n <= 0 {
        0
    } else {
        found_bytes(found, n - 1) + found[n - 1].size.bytes
    }
}

proof fn lemma_found_bytes_grow(found: Seq<SizedHit>, n: int, m: int)
    requires
        0 <= n <= m,
    ensures
        found_bytes(found, n) <= found_bytes(found, m),
    decreases m,
{
    if n < m {
        lemma_found_bytes_grow(found, n, m - 1);
    }
}

/// Writes the section of the targets that the scan found, and sums up their
/// sizes.
pub fn write_untracked_section(
    style: &Style,
    policy: &Policy,
    roots: &Vec<Vec<u8>>,
    found: &Vec<SizedHit>,
) -> (r: (String, u64))
    requires
        found_bytes(found@, found@.len() as int) <= u64::MAX,
    ensures
        r.0@ == untracked_section(*style, *policy, text::contents(roots@), found@),
        r.1 == found_bytes(found@, found@.len() as int),
{
    let mut scanned = "(scanned ".to_owned();
    scanned.append(describe_roots(roots.as_slice()).as_str());
    scanned.append(")");
    let mut r = "\n".to_owned();
    r.append(style.heading("Untracked targets").as_str());
    r.append(" ");
    r.append(style.muted(scanned.as_str()).as_str());
    r.append("\n");
    let mut none = "".to_owned();
    if found.len() == 0 {
        none = style.muted("  none found");
        none.append("\n");
    }
    r.append(none.as_str());
    let mut lines = "".to_owned();
    let mut bytes: u64 = 0;
    let mut i: usize = 0;
    while i < found.len()
        invariant
            i <= found@.len(),
            found_bytes(found@, found@.len() as int) <= u64::MAX,
            lines@ == hit_lines(*style, *policy, found@, i as int),
            bytes == found_bytes(found@, i as int),
        decreases found@.len() - i,
    {
        proof {
            lemma_found_bytes_grow(found@, i + 1, found@.len() as int);
        }
        let one = &found[i];
        bytes = bytes + one.size.bytes;
        let mut note = "".to_owned();
        if !one.hit.verified {
            note = "  ".to_owned();
            note.append(style.muted("(unverified)").as_str());
        }
        let mut line = write_size_cell(style, policy, &one.size);
        line.append("  ");
        line.append(style.path(show(one.hit.target.as_slice()).as_str()).as_str());
        line.append(note.as_str());
        line.append("\n");
        lines.append(line.as_str());
        i = i + 1;
    }
    r.append(lines.as_str());
    (r, bytes)
}

/// The closing lines: the sum for the recorded targets against the budget, the
/// sum for the others where there was a scan, and how many records are stale.
pub open spec fn closing(
    style: Style,
    over_budget: bool,
    total: Seq<char>,
    budget: Seq<char>,
    untracked: Option<Seq<char>>,
    missing: int,
) -> Seq<char> {
    let cell = text::right_aligned(total, 10);
    "\n"@ + (if over_budget {
        style.as_error(cell)
    } else {
        style.as_success(cell)
    }) + "  "@ + style.as_strong(
        if untracked is Some {
            "tracked"@
        } else {
            "total"@
        },
    ) + " "@ + style.as_muted("(budget "@ + budget + ")"@) + "\n"@ + (match untracked {
        Some(sum) => style.as_warning(text::right_aligned(sum, 10)) + "  "@ + style.as_strong(
            "untracked"@,
        ) + " "@ + style.as_muted("(not counted against the budget)"@) + "\n"@,
        None => ""@,
    }) + (if missing > 0 {
        style.as_muted(
            text::numeral(missing as nat) + " tracked target"@ + text::plural(missing)
                + " no longer on disk \u{2014} `cargo overstay purge` prunes the row"@
                + text::plural(missing) + "."@,
        ) + "\n"@
    } else {
        ""@
    })
}

/// Writes the closing lines. The sums and the budget are given as texts.
pub fn write_closing(
    style: &Style,
    over_budget: bool,
    total: &str,
    budget: &str,
    untracked: Option<&str>,
    missing: usize,
) -> (r: String)
    ensures
        r@ == closing(
            *style,
            over_budget,
            total@,
            budget@,
            match untracked {
                Some(sum) => Some(sum@),
                None => None,
            },
            missing as int,
        ),
{
    let cell = align_right(total, 10);
    let mut r = "\n".to_owned();
    let painted = if over_budget {
        style.error(cell.as_str())
    } else {
        style.success(cell.as_str())
    };
    r.append(painted.as_str());
    r.append("  ");
    let name = match untracked {
        Some(_) => "tracked",
        None => "total",
    };
    r.append(style.strong(name).as_str());
    r.append(" ");
    let mut limit = "(budget ".to_owned();
    limit.append(budget);
    limit.append(")");
    r.append(style.muted(limit.as_str()).as_str());
    r.append("\n");
    let mut others = "".to_owned();
    if let Some(sum) = untracked {
        others = style.warning(align_right(sum, 10).as_str());
        others.append("  ");
        others.append(style.strong("untracked").as_str());
        others.append(" ");
        others.append(style.muted("(not counted against the budget)").as_str());
        others.append("\n");
    }
    r.append(others.as_str());
    let mut stale = "".to_owned();
    if missing > 0 {
        let mut note = decimal(missing as u64);
        note.append(" tracked target");
        note.append(plural_ending(missing));
        note.append(" no longer on disk \u{2014} `cargo overstay purge` prunes the row");
        note.append(plural_ending(missing));
        note.append(".");
        stale = style.muted(note.as_str());
        stale.append("\n");
    }
    r.append(stale.as_str());
    r
}

} // verus!
