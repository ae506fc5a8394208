//! What is written, told for output without colors. With colors each part of a
//! text is the same between the sequences of its role.

use vstd::prelude::*;
use vstd::string::*;
use vstd::utf8::*;

use crate::cli;
use crate::ls::LsState;
use crate::ls_text;
use crate::ls_text::{Policy, Size, SizedHit};
use crate::messages;
use crate::path;
use crate::purge::{Deletion, Summary, UnsureHit};
use crate::purge_text;
use crate::scan;
use crate::shim;
use crate::shim::ShimStatus;
use crate::spelling;
use crate::store::Project;
use crate::style::Style;
use crate::style_laws;
use crate::text;

verus! {

/// A complaint names the program and ends its line.
pub proof fn complaints_name_the_program(style: Style, error: Seq<char>)
    requires
        !style.enabled,
    ensures
        messages::complaint(style, error) == "cargo-overstay:"@ + " "@ + error + "\n"@,
{
}

/// A call that makes no sense is answered with what is wrong and the usage.
pub proof fn senseless_calls_are_told_the_usage(
    style: Style,
    error: Seq<char>,
    usage: Seq<char>,
)
    requires
        !style.enabled,
    ensures
        messages::usage_error(style, error, usage) == "cargo-overstay:"@ + " "@ + error + "\n"@
            + "Usage:"@ + " "@ + usage + "\n"@,
{
}

/// A scan root that is no directory is named.
pub proof fn what_is_no_directory_is_named(style: Style, root: Seq<u8>)
    requires
        !style.enabled,
    ensures
        messages::not_a_directory(style, root) == "cargo-overstay:"@ + " "@ + text::shown(root)
            + " is not a directory\n"@,
{
}

/// With colors a message begins with the name of the program in bold red.
pub proof fn messages_begin_in_red(
    style: Style,
    error: Seq<char>,
    usage: Seq<char>,
    root: Seq<u8>,
)
    requires
        style.enabled,
    ensures
        style_laws::escaped(seq!['1', ';', '3', '1'], "cargo-overstay:"@).is_prefix_of(
            messages::complaint(style, error),
        ),
        style_laws::escaped(seq!['1', ';', '3', '1'], "cargo-overstay:"@).is_prefix_of(
            messages::usage_error(style, error, usage),
        ),
        style_laws::escaped(seq!['1', ';', '3', '1'], "cargo-overstay:"@).is_prefix_of(
            messages::not_a_directory(style, root),
        ),
{
    style_laws::colors_wrap_the_text(style, "cargo-overstay:"@, Seq::empty());
    let head = style.as_error("cargo-overstay:"@);
    let n = head.len() as int;
    assert(messages::complaint(style, error).subrange(0, n) =~= head);
    assert(messages::usage_error(style, error, usage).subrange(0, n) =~= head);
    assert(messages::not_a_directory(style, root).subrange(0, n) =~= head);
}

/// The warning about an inactive shim says nothing where it is active, names the
/// `cargo` that is in front of it, and says so where there is none.
pub proof fn only_an_inactive_shim_is_warned_about(style: Style, found: Vec<u8>)
    requires
        !style.enabled,
    ensures
        shim::inactive_warning(style, ShimStatus::Active).len() == 0,
        shim::inactive_warning(style, ShimStatus::Shadowed(found)) == "cargo-overstay:"@
            + " the cargo shim is not active \u{2014} `cargo` resolves to "@ + text::shown(found@)
            + "\n"@
            + "  Builds through it are never tracked. Put the shim's directory ahead of that one on PATH."@
            + "\n"@,
        shim::inactive_warning(style, ShimStatus::NoCargo) == "cargo-overstay:"@
            + " no `cargo` found on PATH \u{2014} builds cannot be tracked\n"@,
{
    reveal_strlit("");
}

/// A removed directory is told with what it gave back at the right edge of ten
/// columns and its path. One that a build kept has a dash there, and the reason
/// behind its path.
pub proof fn deletions_are_told_one_per_line(
    style: Style,
    target: Seq<u8>,
    before: u64,
    after: u64,
    freed: Seq<char>,
)
    requires
        !style.enabled,
    ensures
        purge_text::deletion_line(style, target, Deletion::Removed { before, after }, freed)
            == text::right_aligned(freed, 10) + "  "@ + text::shown(target) + "\n"@,
        purge_text::deletion_line(style, target, Deletion::Locked, freed) == text::right_aligned(
            "-"@,
            10,
        ) + "  "@ + text::shown(target) + "  "@ + "(skipped: build running)"@ + "\n"@,
{
}

/// The summary tells what was freed and from how many directories. How many a
/// build kept is told where it was not none.
pub proof fn a_summary_tells_the_counters(style: Style, summary: Summary, freed: Seq<char>)
    requires
        !style.enabled,
    ensures
        summary.locked == 0 ==> purge_text::summary_line(style, summary, freed) == "freed "@ + freed
            + " from "@ + text::numeral(summary.deleted as nat) + " target dir"@ + text::plural(
            summary.deleted as int,
        ) + "\n"@,
        summary.locked > 0 ==> purge_text::summary_line(style, summary, freed) == "freed "@ + freed
            + " from "@ + text::numeral(summary.deleted as nat) + " target dir"@ + text::plural(
            summary.deleted as int,
        ) + " "@ + "("@ + text::numeral(summary.locked as nat) + " skipped: build running)"@
            + "\n"@,
{
    reveal_strlit("");
}

/// The directories being scanned are named on a line.
pub proof fn a_scan_is_announced(style: Style, roots: Seq<Seq<u8>>)
    requires
        !style.enabled,
    ensures
        purge_text::scanning_line(style, roots) == "scanning"@ + " "@ + scan::roots_shown(roots)
            + "\n"@,
{
}

proof fn lemma_unsure_ahead(
    style: Style,
    hits: Seq<UnsureHit>,
    sizes: Seq<String>,
    hit: UnsureHit,
    size: String,
    n: int,
)
    requires
        n <= hits.len(),
        hits.len() == sizes.len(),
    ensures
        purge_text::unsure_lines(style, hits.push(hit), sizes.push(size), n)
            == purge_text::unsure_lines(style, hits, sizes, n),
    decreases n,
{
    if n > 0 {
        lemma_unsure_ahead(style, hits, sizes, hit, size, n - 1);
    }
}

/// Each directory that the user is asked about has a line of its own with its
/// size and its path, in their order.
pub proof fn one_more_directory_is_one_more_line(
    style: Style,
    hits: Seq<UnsureHit>,
    sizes: Seq<String>,
    hit: UnsureHit,
    size: String,
)
    requires
        !style.enabled,
        hits.len() == sizes.len(),
    ensures
        purge_text::unsure_lines(style, Seq::empty(), Seq::empty(), 0).len() == 0,
        purge_text::unsure_lines(
            style,
            hits.push(hit),
            sizes.push(size),
            (hits.len() + 1) as int,
        ) == purge_text::unsure_lines(style, hits, sizes, hits.len() as int) + "  "@
            + text::right_aligned(size@, 10) + "  "@ + text::shown(hit.target@) + "\n"@,
{
    reveal_strlit("");
    lemma_unsure_ahead(style, hits, sizes, hit, size, hits.len() as int);
    assert(purge_text::unsure_lines(
        style,
        hits.push(hit),
        sizes.push(size),
        (hits.len() + 1) as int,
    ) =~= purge_text::unsure_lines(style, hits, sizes, hits.len() as int) + "  "@
        + text::right_aligned(size@, 10) + "  "@ + text::shown(hit.target@) + "\n"@);
}

/// The question counts the directories, lists them and ends with their size
/// together.
pub proof fn the_question_counts_and_lists(
    style: Style,
    hits: Seq<UnsureHit>,
    sizes: Seq<String>,
    total: Seq<char>,
)
    requires
        !style.enabled,
    ensures
        purge_text::question(style, hits, sizes, total) == "\n"@ + "Unverified targets"@ + "\n"@
            + text::numeral(hits.len()) + " target dir"@ + text::plural(hits.len() as int)
            + " without cargo build markers:\n"@ + purge_text::unsure_lines(
            style,
            hits,
            sizes,
            hits.len() as int,
        ) + "Delete these too?"@ + " "@ + "("@ + total + " total) [y/N]"@ + " "@,
{
    assert(purge_text::question(style, hits, sizes, total) =~= "\n"@ + "Unverified targets"@
        + "\n"@ + text::numeral(hits.len()) + " target dir"@ + text::plural(hits.len() as int)
        + " without cargo build markers:\n"@ + purge_text::unsure_lines(
        style,
        hits,
        sizes,
        hits.len() as int,
    ) + "Delete these too?"@ + " "@ + "("@ + total + " total) [y/N]"@ + " "@);
}

/// The cell of a size holds its text at the right edge of ten columns. With
/// colors one over the limit is bold yellow and any other is cyan.
pub proof fn a_size_over_the_limit_stands_out(style: Style, policy: Policy, size: Size)
    ensures
        !style.enabled ==> ls_text::size_cell(style, policy, size) == text::right_aligned(
            size.text@,
            10,
        ),
        style.enabled && size.bytes > policy.max_project_size ==> ls_text::size_cell(
            style,
            policy,
            size,
        ) == style_laws::escaped(seq!['1', ';', '3', '3'], text::right_aligned(size.text@, 10)),
        style.enabled && size.bytes <= policy.max_project_size ==> ls_text::size_cell(
            style,
            policy,
            size,
        ) == style_laws::escaped(seq!['3', '6'], text::right_aligned(size.text@, 10)),
{
    if style.enabled {
        style_laws::colors_wrap_the_text(style, text::right_aligned(size.text@, 10), Seq::empty());
    }
}

/// A project is listed with the size of its target or the word `missing`, with
/// its age and with its path. Its target is named where it is not the `target`
/// below that path.
pub proof fn a_project_is_listed_with_size_age_and_path(
    style: Style,
    policy: Policy,
    now: int,
    project: Project,
    size: Option<Size>,
)
    requires
        !style.enabled,
    ensures
        ({
            let cell = match size {
                Some(size) => text::right_aligned(size.text@, 10),
                None => text::right_aligned("missing"@, 10),
            };
            let front = cell + "  "@ + text::right_aligned(
                ls_text::age(now - project.last_used),
                8,
            ) + "  "@ + project.path@;
            let line = ls_text::row_line(style, policy, now, project, size);
            &&& ls_text::has_usual_target(project) ==> line == front + "\n"@
            &&& !ls_text::has_usual_target(project) ==> line == front + "  "@ + "(target:"@ + " "@
                + project.target_dir@ + ")"@ + "\n"@
        }),
{
    reveal_strlit("");
    let cell = match size {
        Some(size) => text::right_aligned(size.text@, 10),
        None => text::right_aligned("missing"@, 10),
    };
    let front = cell + "  "@ + text::right_aligned(ls_text::age(now - project.last_used), 8)
        + "  "@ + project.path@;
    let line = ls_text::row_line(style, policy, now, project, size);
    if ls_text::has_usual_target(project) {
        assert(line =~= front + "\n"@);
    } else {
        assert(line =~= front + "  "@ + "(target:"@ + " "@ + project.target_dir@ + ")"@ + "\n"@);
    }
}

/// The usual target of a project has one component more than the project: the
/// name `target`.
pub proof fn the_usual_target_is_below_the_project(project: Project)
    ensures
        ls_text::has_usual_target(project) == (path::components(encode_utf8(project.target_dir@))
            == path::components(encode_utf8(project.path@)).push(
            seq!['t' as u8, 'a' as u8, 'r' as u8, 'g' as u8, 'e' as u8, 't' as u8],
        )),
{
    spelling::target();
    let name = seq!['t' as u8, 'a' as u8, 'r' as u8, 'g' as u8, 'e' as u8, 't' as u8];
    assert(encode_utf8("target"@) =~= name);
    path::a_name_has_no_slash(name);
    path::a_joined_name_is_one_more_component(encode_utf8(project.path@), name);
}

proof fn lemma_rows_ahead(
    style: Style,
    policy: Policy,
    now: int,
    projects: Seq<Project>,
    sizes: Seq<Option<Size>>,
    project: Project,
    size: Option<Size>,
    n: int,
)
    requires
        n <= projects.len(),
        projects.len() == sizes.len(),
    ensures
        ls_text::row_lines(style, policy, now, projects.push(project), sizes.push(size), n)
            == ls_text::row_lines(style, policy, now, projects, sizes, n),
    decreases n,
{
    if n > 0 {
        lemma_rows_ahead(style, policy, now, projects, sizes, project, size, n - 1);
    }
}

/// One more recorded project is one more line behind the others. Without one
/// that is said.
pub proof fn one_more_project_is_one_more_line(
    style: Style,
    policy: Policy,
    now: int,
    projects: Seq<Project>,
    sizes: Seq<Option<Size>>,
    project: Project,
    size: Option<Size>,
)
    requires
        !style.enabled,
        projects.len() == sizes.len(),
    ensures
        ls_text::recorded_section(style, policy, now, Seq::empty(), Seq::empty())
            == "No tracked projects yet \u{2014} build something through cargo first."@ + "\n"@,
        ls_text::recorded_section(style, policy, now, seq![project], seq![size]) == "\n"@
            + ls_text::row_line(style, policy, now, project, size),
        projects.len() > 0 ==> ls_text::recorded_section(
            style,
            policy,
            now,
            projects.push(project),
            sizes.push(size),
        ) == ls_text::recorded_section(style, policy, now, projects, sizes) + ls_text::row_line(
            style,
            policy,
            now,
            project,
            size,
        ),
{
    reveal_strlit("");
    lemma_rows_ahead(style, policy, now, projects, sizes, project, size, projects.len() as int);
    assert(ls_text::row_lines(style, policy, now, Seq::empty(), Seq::empty(), 0) =~= Seq::empty());
    assert(ls_text::row_lines(style, policy, now, seq![project], seq![size], 0) =~= Seq::empty());
    assert(ls_text::row_lines(style, policy, now, seq![project], seq![size], 1)
        =~= ls_text::row_line(style, policy, now, project, size));
    assert(ls_text::recorded_section(
        style,
        policy,
        now,
        projects.push(project),
        sizes.push(size),
    ) =~= "\n"@ + (ls_text::row_lines(
        style,
        policy,
        now,
        projects,
        sizes,
        projects.len() as int,
    ) + ls_text::row_line(style, policy, now, project, size)));
}

/// A found target is listed with its size and its path, and marked where it is
/// not verified.
pub proof fn an_unverified_target_is_marked(style: Style, policy: Policy, found: SizedHit)
    requires
        !style.enabled,
    ensures
        found.hit.verified ==> ls_text::hit_line(style, policy, found) == text::right_aligned(
            found.size.text@,
            10,
        ) + "  "@ + text::shown(found.hit.target@) + "\n"@,
        !found.hit.verified ==> ls_text::hit_line(style, policy, found) == text::right_aligned(
            found.size.text@,
            10,
        ) + "  "@ + text::shown(found.hit.target@) + "  "@ + "(unverified)"@ + "\n"@,
{
    reveal_strlit("");
    assert(!found.hit.verified ==> ls_text::hit_line(style, policy, found)
        =~= text::right_aligned(found.size.text@, 10) + "  "@ + text::shown(found.hit.target@)
        + "  "@ + "(unverified)"@ + "\n"@);
}

proof fn lemma_hits_ahead(
    style: Style,
    policy: Policy,
    found: Seq<SizedHit>,
    one: SizedHit,
    n: int,
)
    requires
        n <= found.len(),
    ensures
        ls_text::hit_lines(style, policy, found.push(one), n) == ls_text::hit_lines(
            style,
            policy,
            found,
            n,
        ),
    decreases n,
{
    if n > 0 {
        lemma_hits_ahead(style, policy, found, one, n - 1);
    }
}

/// What a scan found is listed under the directories that it scanned. One more
/// target is one more line behind the others. Without one that is said.
pub proof fn one_more_finding_is_one_more_line(
    style: Style,
    policy: Policy,
    roots: Seq<Seq<u8>>,
    found: Seq<SizedHit>,
    one: SizedHit,
)
    requires
        !style.enabled,
    ensures
        ls_text::untracked_section(style, policy, roots, Seq::empty()) == "\n"@
            + "Untracked targets"@ + " "@ + "(scanned "@ + scan::roots_shown(roots) + ")"@ + "\n"@
            + "  none found"@ + "\n"@,
        ls_text::untracked_section(style, policy, roots, seq![one]) == "\n"@ + "Untracked targets"@
            + " "@ + "(scanned "@ + scan::roots_shown(roots) + ")"@ + "\n"@ + ls_text::hit_line(
            style,
            policy,
            one,
        ),
        found.len() > 0 ==> ls_text::untracked_section(style, policy, roots, found.push(one))
            == ls_text::untracked_section(style, policy, roots, found) + ls_text::hit_line(
            style,
            policy,
            one,
        ),
{
    reveal_strlit("");
    lemma_hits_ahead(style, policy, found, one, found.len() as int);
    let none: Seq<SizedHit> = Seq::empty();
    assert(ls_text::hit_lines(style, policy, none, 0) =~= Seq::empty());
    assert(ls_text::untracked_section(style, policy, roots, none) =~= "\n"@ + "Untracked targets"@
        + " "@ + "(scanned "@ + scan::roots_shown(roots) + ")"@ + "\n"@ + "  none found"@ + "\n"@);
    assert(ls_text::hit_lines(style, policy, seq![one], 0) =~= Seq::empty());
    assert(ls_text::hit_lines(style, policy, seq![one], 1) =~= ls_text::hit_line(
        style,
        policy,
        one,
    ));
    assert(ls_text::untracked_section(style, policy, roots, seq![one]) =~= "\n"@
        + "Untracked targets"@ + " "@ + "(scanned "@ + scan::roots_shown(roots) + ")"@ + "\n"@
        + ls_text::hit_line(style, policy, one));
    if found.len() > 0 {
        assert(ls_text::untracked_section(style, policy, roots, found.push(one))
            =~= ls_text::untracked_section(style, policy, roots, found) + ls_text::hit_line(
            style,
            policy,
            one,
        ));
    }
}

/// The closing lines give the sum over the recorded targets with the budget,
/// then the sum over the found ones where there was a scan, then how many
/// recorded targets are gone, where any are.
pub proof fn the_list_closes_with_the_sums(
    style: Style,
    over: bool,
    total: Seq<char>,
    budget: Seq<char>,
    sum: Seq<char>,
    missing: nat,
)
    requires
        !style.enabled,
        missing > 0,
    ensures
        ({
            let alone = "\n"@ + text::right_aligned(total, 10) + "  "@ + "total"@ + " "@
                + "(budget "@ + budget + ")"@ + "\n"@;
            let both = "\n"@ + text::right_aligned(total, 10) + "  "@ + "tracked"@ + " "@
                + "(budget "@ + budget + ")"@ + "\n"@ + text::right_aligned(sum, 10) + "  "@
                + "untracked"@ + " "@ + "(not counted against the budget)"@ + "\n"@;
            let note = text::numeral(missing) + " tracked target"@ + text::plural(missing as int)
                + " no longer on disk \u{2014} `cargo overstay purge` prunes the row"@
                + text::plural(missing as int) + "."@ + "\n"@;
            &&& ls_text::closing(style, over, total, budget, None, 0) == alone
            &&& ls_text::closing(style, over, total, budget, None, missing as int) == alone + note
            &&& ls_text::closing(style, over, total, budget, Some(sum), 0) == both
            &&& ls_text::closing(style, over, total, budget, Some(sum), missing as int) == both
                + note
        }),
{
    reveal_strlit("");
    let alone = "\n"@ + text::right_aligned(total, 10) + "  "@ + "total"@ + " "@ + "(budget "@
        + budget + ")"@ + "\n"@;
    let both = "\n"@ + text::right_aligned(total, 10) + "  "@ + "tracked"@ + " "@ + "(budget "@
        + budget + ")"@ + "\n"@ + text::right_aligned(sum, 10) + "  "@ + "untracked"@ + " "@
        + "(not counted against the budget)"@ + "\n"@;
    let note = text::numeral(missing) + " tracked target"@ + text::plural(missing as int)
        + " no longer on disk \u{2014} `cargo overstay purge` prunes the row"@ + text::plural(
        missing as int,
    ) + "."@ + "\n"@;
    assert(ls_text::closing(style, over, total, budget, None, 0) =~= alone);
    assert(ls_text::closing(style, over, total, budget, None, missing as int) =~= alone + note);
    assert(ls_text::closing(style, over, total, budget, Some(sum), 0) =~= both);
    assert(ls_text::closing(style, over, total, budget, Some(sum), missing as int) =~= both
        + note);
}

/// With colors the sum over the recorded targets is bold red where it is over
/// the budget, and bold green where it is not.
pub proof fn a_sum_over_the_budget_stands_out(
    s: LsState,
    total: Seq<char>,
    budget: Seq<char>,
    untracked: Option<Seq<char>>,
)
    requires
        s.style.enabled,
    ensures
        s.recorded_bytes > s.policy.max_total_cache ==> (seq!['\n'] + style_laws::escaped(
            seq!['1', ';', '3', '1'],
            text::right_aligned(total, 10),
        )).is_prefix_of(s.closing(total, budget, untracked)),
        s.recorded_bytes <= s.policy.max_total_cache ==> (seq!['\n'] + style_laws::escaped(
            seq!['1', ';', '3', '2'],
            text::right_aligned(total, 10),
        )).is_prefix_of(s.closing(total, budget, untracked)),
{
    let cell = text::right_aligned(total, 10);
    reveal_strlit("\n");
    assert("\n"@ =~= seq!['\n']);
    style_laws::colors_wrap_the_text(s.style, cell, Seq::empty());
    let (red, green) = ("\n"@ + s.style.as_error(cell), "\n"@ + s.style.as_success(cell));
    let all = s.closing(total, budget, untracked);
    if s.recorded_bytes > s.policy.max_total_cache {
        assert(all.subrange(0, red.len() as int) =~= red);
    } else {
        assert(all.subrange(0, green.len() as int) =~= green);
    }
}

/// The closing lines of a list are those of its own sums.
pub proof fn a_list_closes_with_its_own_sums(
    s: LsState,
    total: Seq<char>,
    budget: Seq<char>,
    untracked: Option<Seq<char>>,
)
    requires
        !s.style.enabled,
    ensures
        s.closing(total, budget, untracked) == ls_text::closing(
            s.style,
            true,
            total,
            budget,
            untracked,
            s.missing as int,
        ),
{
}

/// The usage names every command with what it does, one per line.
pub proof fn the_usage_names_every_command(style: Style, call: Seq<char>, about: Seq<char>)
    requires
        !style.enabled,
    ensures
        cli::command_line(style, call, about) == "  "@ + text::left_aligned(call, 36) + " "@ + about
            + "\n"@,
        cli::usage(style) == "Usage"@ + "\n"@ + "  "@ + "cargo overstay"@ + " "@ + "<command>"@
            + "\n"@ + "\n"@ + "Commands"@ + "\n"@ + cli::command_line(
            style,
            "purge"@,
            "delete tracked build targets"@,
        ) + cli::command_line(
            style,
            "purge --include-untracked [dir]"@,
            "also scan dir (default: home + temp)"@,
        ) + cli::command_line(style, "ls"@, "list tracked projects with sizes"@)
            + cli::command_line(
            style,
            "ls --include-untracked [dir]"@,
            "also scan dir (default: home + temp)"@,
        ) + cli::command_line(style, "--version"@, "print the version and exit"@),
{
    assert(cli::usage(style) =~= "Usage"@ + "\n"@ + "  "@ + "cargo overstay"@ + " "@
        + "<command>"@ + "\n"@ + "\n"@ + "Commands"@ + "\n"@ + cli::command_line(
        style,
        "purge"@,
        "delete tracked build targets"@,
    ) + cli::command_line(
        style,
        "purge --include-untracked [dir]"@,
        "also scan dir (default: home + temp)"@,
    ) + cli::command_line(style, "ls"@, "list tracked projects with sizes"@) + cli::command_line(
        style,
        "ls --include-untracked [dir]"@,
        "also scan dir (default: home + temp)"@,
    ) + cli::command_line(style, "--version"@, "print the version and exit"@));
}

} // verus!
