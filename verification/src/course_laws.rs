//! The course of the commands, from one reply to the next.

use vstd::prelude::*;
use vstd::string::*;
use vstd::utf8::*;

use crate::confirm::{ConfirmReply, ConfirmState, ConfirmTask};
use crate::entry_laws;
use crate::ls;
use crate::ls::{LsReply, LsRequest, LsState, LsTask};
use crate::ls_text;
use crate::ls_text::{Policy, Size};
use crate::messages;
use crate::path;
use crate::purge;
use crate::purge::{
    Deletion, Phase, PurgeReply, PurgeRequest, PurgeState, Summary, Task, UnsureHit,
};
use crate::purge_command;
use crate::purge_command::{RunReply, RunRequest, RunState, RunTask};
use crate::purge_text;
use crate::rank;
use crate::scan;
use crate::scan::{Candidate, Scan};
use crate::store::Project;
use crate::style::Style;
use crate::text;
use crate::walk;
use crate::walk::{Entry, Question, Verdict, WalkState};

verus! {

/// A purge that was not asked to scan goes from the warning to the records, and
/// scans nothing.
pub proof fn a_plain_purge_goes_to_the_records(style: Style, error_style: Style)
    ensures
        RunState::admitted(style, error_style, Scan::Off).task is Warn,
        RunState::admitted(style, error_style, Scan::Off).next(RunReply::Warned@).task
            == RunTask::ReadRows(Seq::empty()),
{
    assert(RunState::admitted(style, error_style, Scan::Off).next(RunReply::Warned@).task
        =~= RunTask::ReadRows(Seq::empty()));
}

/// A purge with a named directory checks it, warns, names it and goes to the
/// records. A name that is no directory is refused.
pub proof fn a_purge_with_a_directory_checks_it(style: Style, error_style: Style, root: Vec<u8>)
    ensures
        ({
            let s = RunState::admitted(style, error_style, Scan::Explicit(root));
            let good = s.next(RunReply::DirChecked(true)@);
            let named = good.next(RunReply::Warned@);
            &&& s.task == RunTask::CheckDir(root@)
            &&& good.task is Warn
            &&& named.task == RunTask::Announce(seq![root@])
            &&& named.next(RunReply::Printed@).task == RunTask::ReadRows(seq![root@])
            &&& s.next(RunReply::DirChecked(false)@).task == RunTask::Reject(
                messages::not_a_directory(error_style, root@),
            )
        }),
{
}

/// A purge of the usual places looks at them after the warning and names the
/// roots that are left of them.
pub proof fn a_purge_of_the_usual_places_looks_at_them(
    style: Style,
    error_style: Style,
    usual: Vec<Candidate>,
)
    ensures
        ({
            let s = RunState::admitted(style, error_style, Scan::Defaults);
            let looked = s.next(RunReply::Warned@).next(RunReply::Resolved(usual)@);
            let roots = scan::kept(usual@, usual@.len() as int);
            &&& s.task is Warn
            &&& s.next(RunReply::Warned@).task is Resolve
            &&& looked.task == RunTask::Announce(roots)
            &&& looked.next(RunReply::Printed@).task == RunTask::ReadRows(roots)
        }),
{
}

/// The records are purged in their order, from the first target on. Where there
/// is no record and nothing to scan, the records are looked at again at once.
pub proof fn the_records_are_purged_in_order(
    s: RunState,
    roots: Seq<Seq<u8>>,
    projects: Vec<Project>,
    k: int,
)
    requires
        s.task == RunTask::ReadRows(roots),
    ensures
        purge::targets_of(projects@).len() == projects@.len(),
        0 <= k < projects@.len() ==> purge::targets_of(projects@)[k] == encode_utf8(
            projects@[k].target_dir@,
        ),
        projects@.len() > 0 ==> (s.next(RunReply::Rows(projects)@).task matches RunTask::Purging(p)
            && p.task == Task::Inspect(encode_utf8(projects@[0].target_dir@)) && p.recorded
            == purge::targets_of(projects@).drop_first() && p.roots == roots),
        projects@.len() == 0 && roots.len() == 0 ==> (s.next(
            RunReply::Rows(projects)@,
        ).task matches RunTask::Purging(p) && p.task is Recheck),
{
}

/// A purge that is over has the size that it freed written out, is summed up and
/// exits with 0. A refusal exits with 2.
pub proof fn a_purge_ends_with_its_summary(
    s: RunState,
    summary: Summary,
    size: u64,
    shown: String,
    message: String,
    code: i32,
)
    ensures
        s.task == RunTask::Format(summary) && purge_command::run_asks_for(
            RunRequest::FormatSize(size),
            s,
        ) ==> size == summary.freed,
        s.task == RunTask::Format(summary) ==> s.next(RunReply::Formatted(shown)@).task
            == RunTask::Report(purge_text::summary_line(s.style, summary, shown@)),
        s.task is Report ==> s.next(RunReply::Printed@).task is Exit,
        purge_command::run_asks_for(RunRequest::Exit(code), s) ==> s.task is Exit && code == 0,
        purge_command::run_asks_for((RunRequest::Reject { message, code }), s) ==> s.task
            == RunTask::Reject(message@) && code == 2,
{
}

/// The purge under a command takes the replies of the command as they are, and
/// hands its counters over when it is over.
pub proof fn the_command_follows_its_purge(s: RunState, p: PurgeState, reply: PurgeReply)
    requires
        s.task == RunTask::Purging(p),
    ensures
        p.next(reply@).task is Finished ==> s.next(RunReply::Purged(reply)@).task
            == RunTask::Format(p.next(reply@).summary),
        !(p.next(reply@).task is Finished) ==> s.next(RunReply::Purged(reply)@).task
            == RunTask::Purging(p.next(reply@)),
{
}

/// The usage of a command is that command with its option.
pub proof fn the_usages_name_their_commands()
    ensures
        purge_command::purge_usage() == "cargo overstay purge [--include-untracked [dir]]"@,
        ls::ls_usage() == "cargo overstay ls [--include-untracked [dir]]"@,
{
}

/// With records left a purge goes on with the next one. The scan comes behind
/// them, then what it found, then the question, if there is anything to ask
/// about, then another look at the records.
pub proof fn a_purge_takes_one_list_after_the_other(s: PurgeState)
    ensures
        s.recorded.len() > 0 ==> s.proceed(Phase::Recorded).task == Task::Inspect(s.recorded[0])
            && s.proceed(Phase::Recorded).recorded == s.recorded.drop_first(),
        s.recorded.len() == 0 && s.roots.len() > 0 ==> s.proceed(Phase::Recorded).task
            == Task::Walk(WalkState::start(s.roots, s.seen)),
        s.hits.len() > 0 && s.hits[0].verified ==> s.proceed(Phase::Scanned).task == Task::Delete(
            s.hits[0].target,
            Phase::Scanned,
        ),
        s.hits.len() > 0 && !s.hits[0].verified ==> s.proceed(Phase::Scanned).task
            == Task::Measure(s.hits[0].target, Phase::Scanned),
        s.hits.len() > 0 ==> s.proceed(Phase::Scanned).hits == s.hits.drop_first(),
        s.hits.len() == 0 && s.unsure.len() > 0 ==> s.proceed(Phase::Scanned).task is Confirm,
        s.hits.len() == 0 && s.unsure.len() == 0 ==> s.proceed(Phase::Scanned).task is Recheck,
{
}

/// A yes leads to the deletion of all that was asked about, one by one from the
/// first on. A no leads to the records.
pub proof fn the_answer_decides(s: PurgeState, k: usize)
    requires
        s.task is Confirm,
        s.unsure.len() > 0,
    ensures
        s.next(PurgeReply::Confirmed(true)@).task == Task::Delete(
            s.unsure[0].target,
            Phase::Gated(1),
        ),
        s.next(PurgeReply::Confirmed(false)@).task is Recheck,
        0 < k < s.unsure.len() && k < usize::MAX ==> s.proceed(Phase::Gated(k)).task
            == Task::Delete(s.unsure[k as int].target, Phase::Gated((k + 1) as usize)),
        k >= s.unsure.len() ==> s.proceed(Phase::Gated(k)).task is Recheck,
{
}

/// An inquiry begins with the sizes, then asks, and its question is about all
/// the directories that it was begun with.
pub proof fn an_inquiry_asks_about_all(
    style: Style,
    hits: Seq<UnsureHit>,
    texts: Vec<String>,
)
    requires
        texts@.len() == hits.len() + 1,
    ensures
        ConfirmState::start(style, hits).task is Format,
        ConfirmState::start(style, hits).next(ConfirmReply::Formatted(texts)).task
            == ConfirmTask::Ask(
            purge_text::question(
                style,
                hits,
                texts@.subrange(0, hits.len() as int),
                texts@[hits.len() as int]@,
            ),
        ),
{
    assert(texts@.drop_last() =~= texts@.subrange(0, hits.len() as int));
}

/// The list loads the limits, checks a named directory, warns, reads the records
/// and has their targets measured. Limits that are not in order end it.
pub proof fn the_way_to_the_list(
    style: Style,
    error_style: Style,
    scan: Scan,
    policy: Policy,
    error: String,
    next: LsState,
)
    ensures
        ({
            let s = LsState::admitted(style, error_style, scan);
            &&& s.task is LoadPolicy
            &&& s.goes_to(LsReply::Policy(Err(error))@, next) ==> next.task == LsTask::Reject(
                messages::complaint(error_style, error@),
            )
            &&& s.goes_to(LsReply::Policy(Ok(policy))@, next) ==> next.policy == policy
                && next.scan == scan && (match scan {
                Scan::Explicit(root) => next.task == LsTask::CheckDir(root@),
                _ => next.task is Warn,
            })
        }),
{
}

/// What follows each reply of a list, and with which codes it ends.
pub proof fn the_steps_of_a_list(
    s: LsState,
    next: LsState,
    root: Seq<u8>,
    projects: Vec<Project>,
    now: i64,
    message: String,
    code: i32,
)
    ensures
        s.task == LsTask::CheckDir(root) && s.goes_to(LsReply::DirChecked(true)@, next)
            ==> next.task is Warn,
        s.task == LsTask::CheckDir(root) && s.goes_to(LsReply::DirChecked(false)@, next)
            ==> next.task == LsTask::Reject(messages::not_a_directory(s.error_style, root)),
        s.task is Warn && s.goes_to(LsReply::Warned@, next) ==> next.task is ReadRows,
        s.task is ReadRows && s.goes_to((LsReply::Rows { projects, now })@, next) ==> next.task
            is MeasureRows && next.projects == rank::ranked(projects@) && next.now == now,
        s.task is ShowRows && s.scan is Off && s.goes_to(LsReply::Printed@, next) ==> next.task
            is FormatTotal,
        s.task is ShowRows && !(s.scan is Off) && s.goes_to(LsReply::Printed@, next) ==> next.task
            is Canonicalize,
        s.task is ShowHits && s.goes_to(LsReply::Printed@, next) ==> next.task is FormatTotal,
        s.task is Close && s.goes_to(LsReply::Printed@, next) ==> next.task is Exit,
        ls::ls_asks_for(LsRequest::Exit(code), s) ==> s.task is Exit && code == 0,
        ls::ls_asks_for((LsRequest::Reject { message, code }), s) ==> s.task == LsTask::Reject(
            message@,
        ) && code == 2,
{
}

/// The texts of the two or three sizes end up in the closing lines, the third
/// only where there was a scan.
pub proof fn the_sums_close_the_list(
    s: LsState,
    next: LsState,
    total: Seq<char>,
    budget: Seq<char>,
    shown: String,
)
    ensures
        s.task is FormatTotal && s.goes_to(LsReply::Formatted(shown)@, next) ==> next.task
            == LsTask::FormatBudget(shown@),
        s.task == LsTask::FormatBudget(total) && s.scan is Off && s.goes_to(
            LsReply::Formatted(shown)@,
            next,
        ) ==> next.task == LsTask::Close(s.closing(total, shown@, None)),
        s.task == LsTask::FormatBudget(total) && !(s.scan is Off) && s.goes_to(
            LsReply::Formatted(shown)@,
            next,
        ) ==> next.task == LsTask::FormatUntracked(total, shown@),
        s.task == LsTask::FormatUntracked(total, budget) && s.goes_to(
            LsReply::Formatted(shown)@,
            next,
        ) ==> next.task == LsTask::Close(s.closing(total, budget, Some(shown@))),
{
}

/// What is measured are the targets of the listed projects, one by one.
pub proof fn the_listed_targets_are_measured(s: LsState, targets: Vec<Vec<u8>>, k: int)
    requires
        ls::ls_asks_for(LsRequest::MeasureRows(targets), s) || ls::ls_asks_for(
            LsRequest::Canonicalize(targets),
            s,
        ),
        0 <= k < s.projects.len(),
    ensures
        targets@.len() == s.projects.len(),
        targets@[k]@ == encode_utf8(s.projects[k].target_dir@),
{
    assert(text::contents(targets@).len() == targets@.len());
    assert(purge::targets_of(s.projects).len() == s.projects.len());
    assert(text::contents(targets@)[k] == targets@[k]@);
}

/// The canonical paths that a list leaves out of its scan are those that were
/// found, in their order.
pub proof fn found_places_are_kept_in_order(places: Seq<Option<Vec<u8>>>, p: Vec<u8>)
    ensures
        ls::found_places(Seq::empty(), 0).len() == 0,
        ls::found_places(places.push(Some(p)), (places.len() + 1) as int) == ls::found_places(
            places,
            places.len() as int,
        ).push(p@),
        ls::found_places(places.push(None), (places.len() + 1) as int) == ls::found_places(
            places,
            places.len() as int,
        ),
{
    lemma_places_ahead(places, Some(p), places.len() as int);
    lemma_places_ahead(places, None, places.len() as int);
}

proof fn lemma_places_ahead(places: Seq<Option<Vec<u8>>>, last: Option<Vec<u8>>, n: int)
    requires
        n <= places.len(),
    ensures
        ls::found_places(places.push(last), n) == ls::found_places(places, n),
    decreases n,
{
    if n > 0 {
        lemma_places_ahead(places, last, n - 1);
    }
}

/// A walk probes the targets of a directory before it goes on, reads the
/// directory that it learned of last, and starts on a root once nothing is left
/// of the one before.
pub proof fn a_walk_goes_deep_first(s: WalkState)
    ensures
        s.candidates.len() > 0 ==> s.question() == Question::Probe(s.candidates[0]),
        s.candidates.len() == 0 && s.stack.len() > 0 ==> s.question() == Question::Read(
            s.stack[s.stack.len() - 1],
        ),
        s.candidates.len() == 0 && s.stack.len() == 0 && s.ahead.len() > 0 ==> s.question()
            == Question::Stat(s.ahead[0]),
        s.candidates.len() == 0 && s.stack.len() == 0 && s.ahead.len() == 0 ==> s.question()
            is Finished,
{
}

proof fn lemma_picked_ahead(
    dir: Seq<u8>,
    dev: Option<u64>,
    entries: Seq<Entry>,
    entry: Entry,
    n: int,
    wanted: Verdict,
)
    requires
        n <= entries.len(),
    ensures
        walk::picked(dir, dev, entries.push(entry), n, wanted) == walk::picked(
            dir,
            dev,
            entries,
            n,
            wanted,
        ),
    decreases n,
{
    if n > 0 {
        lemma_picked_ahead(dir, dev, entries, entry, n - 1, wanted);
    }
}

/// The entries of a directory are taken in their order: one more that is open
/// adds its path to the directories, or to the targets where it is named
/// `target`. Any other adds nothing.
pub proof fn entries_are_taken_in_order(
    dir: Seq<u8>,
    dev: Option<u64>,
    entries: Seq<Entry>,
    entry: Entry,
)
    ensures
        ({
            let n = entries.len() as int;
            let more = entries.push(entry);
            let down = walk::picked(dir, dev, entries, n, Verdict::Descend);
            let targets = walk::picked(dir, dev, entries, n, Verdict::Candidate);
            let all_down = walk::picked(dir, dev, more, n + 1, Verdict::Descend);
            let all_targets = walk::picked(dir, dev, more, n + 1, Verdict::Candidate);
            let is_target = entry.name == seq![116u8, 97u8, 114u8, 103u8, 101u8, 116u8];
            let open = entry_laws::is_open(dev, entry);
            &&& open && !is_target ==> all_down == down.push(all_down[all_down.len() - 1])
                && entry_laws::is_path_of(all_down[all_down.len() - 1], dir, entry.name)
            &&& !open || is_target ==> all_down == down
            &&& open && is_target ==> all_targets == targets.push(
                all_targets[all_targets.len() - 1],
            ) && entry_laws::is_path_of(all_targets[all_targets.len() - 1], dir, entry.name)
            &&& !open || !is_target ==> all_targets == targets
        }),
{
    let n = entries.len() as int;
    lemma_picked_ahead(dir, dev, entries, entry, n, Verdict::Descend);
    lemma_picked_ahead(dir, dev, entries, entry, n, Verdict::Candidate);
    entry_laws::an_entry_is_judged_by_its_name(dev, entry);
    entry_laws::a_path_is_a_name_behind_a_slash(
        path::join(dir, entry.name),
        dir,
        entry.name,
    );
    assert(entries.push(entry)[n] == entry);
}

/// A request of a purge names what the purge waits for, as it is.
pub proof fn a_purge_asks_for_what_it_waits_for(
    s: PurgeState,
    p: Vec<u8>,
    rows: Vec<String>,
    k: int,
)
    ensures
        purge::asks_for(PurgeRequest::Inspect(p), s.task) == (s.task == Task::Inspect(p@)),
        purge::asks_for(PurgeRequest::Delete(p), s.task) ==> (s.task matches Task::Delete(q, _)
            && q == p@),
        purge::asks_for(PurgeRequest::Measure(p), s.task) ==> (s.task matches Task::Measure(q, _)
            && q == p@),
        purge::asks_for(PurgeRequest::Confirm, s.task) == (s.task is Confirm),
        purge::asks_for(PurgeRequest::Recheck, s.task) == (s.task is Recheck),
        purge::asks_for(PurgeRequest::Finished, s.task) == (s.task is Finished),
        purge::asks_for(PurgeRequest::Prune(rows), s.task) ==> (s.task matches Task::Prune(gone)
            && gone.len() == rows@.len() && (0 <= k < rows@.len() ==> gone[k] == rows@[k]@)),
{
}

/// A request of the purge command names what the command waits for, as it is.
pub proof fn the_purge_command_asks_for_what_it_waits_for(
    s: RunState,
    root: Vec<u8>,
    line: String,
    request: PurgeRequest,
)
    ensures
        purge_command::run_asks_for(RunRequest::CheckDir(root), s) == (s.task == RunTask::CheckDir(
            root@,
        )),
        purge_command::run_asks_for(RunRequest::WarnIfInactive, s) == (s.task is Warn),
        purge_command::run_asks_for(RunRequest::ResolveUsual, s) == (s.task is Resolve),
        purge_command::run_asks_for(RunRequest::ReadRows, s) == (s.task is ReadRows),
        purge_command::run_asks_for(RunRequest::Print(line), s) ==> (s.task == RunTask::Report(
            line@,
        )) || (s.task matches RunTask::Announce(roots) && line@ == purge_text::scanning_line(
            s.style,
            roots,
        )),
        purge_command::run_asks_for(RunRequest::Purge(request), s) ==> (
        s.task matches RunTask::Purging(p) && purge::asks_for(request, p.task)),
{
}

/// A request of the list names what the list waits for, as it is.
pub proof fn the_list_asks_for_what_it_waits_for(
    s: LsState,
    root: Vec<u8>,
    line: String,
    targets: Vec<Vec<u8>>,
    k: int,
)
    ensures
        ls::ls_asks_for(LsRequest::CheckDir(root), s) == (s.task == LsTask::CheckDir(root@)),
        ls::ls_asks_for(LsRequest::LoadPolicy, s) == (s.task is LoadPolicy),
        ls::ls_asks_for(LsRequest::WarnIfInactive, s) == (s.task is Warn),
        ls::ls_asks_for(LsRequest::ReadRows, s) == (s.task is ReadRows),
        ls::ls_asks_for(LsRequest::ResolveUsual, s) == (s.task is Resolve),
        ls::ls_asks_for(LsRequest::Print(line), s) ==> s.task == LsTask::ShowRows(line@) || s.task
            == LsTask::ShowHits(line@) || s.task == LsTask::Close(line@),
        ls::ls_asks_for(LsRequest::MeasureHits(targets), s) ==> (
        s.task matches LsTask::MeasureHits(hits) && hits.len() == targets@.len() && (0 <= k
            < hits.len() ==> targets@[k]@ == hits[k].target@)),
{
    if let LsTask::MeasureHits(hits) = s.task {
        if ls::ls_asks_for(LsRequest::MeasureHits(targets), s) {
            assert(text::contents(targets@).len() == targets@.len());
            assert(ls::targets_found(hits).len() == hits.len());
            if 0 <= k < hits.len() {
                assert(text::contents(targets@)[k] == targets@[k]@);
                assert(ls::targets_found(hits)[k] == hits[k].target@);
            }
        }
    }
}

/// The recorded part of a list is about the projects in their order, with the
/// sizes that were measured, at the time that was read.
pub proof fn the_list_shows_what_was_measured(s: LsState, sizes: Vec<Option<Size>>, next: LsState)
    requires
        s.task is MeasureRows,
        sizes@.len() == s.projects.len(),
        s.goes_to(LsReply::RowSizes(sizes)@, next),
    ensures
        next.task == LsTask::ShowRows(
            ls_text::recorded_section(
                s.style,
                s.policy,
                s.now as int,
                s.projects,
                sizes@,
            ),
        ),
{
}

/// A hit and its size are listed together, and the found part of a list is
/// about all of them, the largest first.
pub proof fn the_list_shows_what_was_found(
    s: LsState,
    hits: Seq<walk::ScanHit>,
    sizes: Vec<Size>,
    next: LsState,
    k: int,
)
    requires
        s.task == LsTask::MeasureHits(hits),
        sizes@.len() == hits.len(),
        s.goes_to(LsReply::HitSizes(sizes)@, next),
    ensures
        ls::sized(hits, sizes@).len() == hits.len(),
        0 <= k < hits.len() ==> ls::sized(hits, sizes@)[k].hit == hits[k] && ls::sized(
            hits,
            sizes@,
        )[k].size == sizes@[k],
        next.task == LsTask::ShowHits(
            ls_text::untracked_section(
                s.style,
                s.policy,
                s.roots,
                rank::ranked(ls::sized(hits, sizes@)),
            ),
        ),
{
}

/// The counters take a deletion as long as none of them would overflow.
pub proof fn the_counters_take_what_fits(summary: Summary, before: u64, after: u64)
    ensures
        summary.fits(Deletion::Locked) == (summary.locked < usize::MAX),
        before >= after ==> summary.fits(Deletion::Removed { before, after }) == (summary.deleted
            < usize::MAX && summary.freed + (before - after) <= u64::MAX),
        before < after ==> summary.fits(Deletion::Removed { before, after }) == (summary.deleted
            < usize::MAX),
{
}

} // verus!
