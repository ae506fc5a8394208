//! A reply that does not answer what is waited for changes nothing.

use vstd::prelude::*;

use crate::confirm::{ConfirmReply, ConfirmState};
use crate::delete::{DeleteReply, DeleteState};
use crate::detached::{CleanupReply, CleanupState};
use crate::ls::{LsReply, LsState, LsTask};
use crate::passthrough::{ShimReply, ShimState};
use crate::purge::{PurgeReply, PurgeState};
use crate::purge_command::{RunReply, RunState};
use crate::walk::{WalkReply, WalkState};

verus! {

/// A walk takes devices for roots, listings for directories and findings for
/// targets.
pub proof fn a_walk_ignores_other_replies(s: WalkState, reply: WalkReply)
    requires
        !(s.question() is Stat && reply is Device),
        !(s.question() is Read && reply is Listed),
        !(s.question() is Probe && reply is Probed),
    ensures
        s.next(reply@) == s,
{
}

/// A purge takes what it asked for, whichever of its lists it works on.
pub proof fn a_purge_ignores_other_replies(s: PurgeState, reply: PurgeReply)
    requires
        !(s.task is Inspect && reply is Inspected),
        !(s.task is Delete && reply is Deleted),
        !(s.task is Measure && reply is Measured),
        !(s.task is Walk && reply is Walked),
        !(s.task is Confirm && reply is Confirmed),
        !(s.task is Recheck && reply is Rows),
        !(s.task is Prune && reply is Pruned),
    ensures
        s.next(reply@) == s,
{
}

/// The command takes the replies of its own requests, and those of its purge
/// while that is under way.
pub proof fn the_purge_command_ignores_other_replies(s: RunState, reply: RunReply)
    requires
        !(s.task is CheckDir && reply is DirChecked),
        !(s.task is Warn && reply is Warned),
        !(s.task is Resolve && reply is Resolved),
        !((s.task is Announce || s.task is Report) && reply is Printed),
        !(s.task is ReadRows && reply is Rows),
        !(s.task is Purging && reply is Purged),
        !(s.task is Format && reply is Formatted),
    ensures
        s.next(reply@) == s,
{
}

/// The list takes the replies of its own requests. Sizes count only where there
/// is one for each target.
pub proof fn the_list_ignores_other_replies(s: LsState, reply: LsReply, next: LsState)
    requires
        s.goes_to(reply@, next),
        !(s.task is LoadPolicy && reply is Policy),
        !(s.task is CheckDir && reply is DirChecked),
        !(s.task is Warn && reply is Warned),
        !(s.task is ReadRows && reply is Rows),
        s.task is MeasureRows ==> !(reply matches LsReply::RowSizes(sizes) && sizes@.len()
            == s.projects.len()),
        !((s.task is ShowRows || s.task is ShowHits || s.task is Close) && reply is Printed),
        !(s.task is Canonicalize && reply is Canonical),
        !(s.task is Resolve && reply is Resolved),
        !(s.task is Walking && reply is Walked),
        s.task matches LsTask::MeasureHits(hits) ==> !(reply matches LsReply::HitSizes(sizes)
            && sizes@.len() == hits.len()),
        !((s.task is FormatTotal || s.task is FormatBudget || s.task is FormatUntracked)
            && reply is Formatted),
    ensures
        next == s,
{
}

/// The shim takes the replies of its own requests; once it is to exit or to give
/// up, it takes none.
pub proof fn the_shim_ignores_other_replies(s: ShimState, reply: ShimReply)
    requires
        !(s.task is OwnExecutable && reply is Own),
        !(s.task is FindCargo && reply is Cargo),
        !(s.task is Locate && reply is Located),
        !(s.task is TargetDir && reply is Target),
        !(s.task is Record && reply is Recorded),
        !(s.task is LoadPolicy && reply is Policy),
        !(s.task is Complain && reply is Complained),
        !(s.task is RunCargo && reply is Ran),
        !(s.task is Spawn && reply is Spawned),
    ensures
        s.next(reply@) == s,
{
}

/// A deletion takes its steps in their order only.
pub proof fn a_deletion_ignores_other_replies(s: DeleteState, reply: DeleteReply)
    requires
        !(s.task is Lock && reply is Locked),
        !((s.task is MeasureBefore || s.task is MeasureAfter) && reply is Measured),
        !(s.task is Remove && reply is Removed),
        !(s.task is Format && reply is Formatted),
        !(s.task is Print && reply is Printed),
    ensures
        s.next(reply@) == s,
{
}

/// A cleanup takes its steps in their order only.
pub proof fn a_cleanup_ignores_other_replies(s: CleanupState, reply: CleanupReply)
    requires
        !(s.task is Lock && reply is Locked),
        !(s.task is LoadPolicy && reply is Policy),
        !(s.task is CurrentDir && reply is CurrentDir),
        !(s.task is Collect && reply is Collected),
    ensures
        s.next(reply@) == s,
{
}

/// An inquiry takes the texts of its sizes, one for each and one for the sum,
/// then a line.
pub proof fn an_inquiry_ignores_other_replies(s: ConfirmState, reply: ConfirmReply)
    requires
        s.task is Format ==> !(reply matches ConfirmReply::Formatted(texts) && texts@.len()
            == s.hits.len() + 1),
        !(s.task is Ask && reply is Line),
    ensures
        s.next(reply) == s,
{
}

} // verus!
