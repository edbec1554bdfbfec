//! Giving a cell up on purpose: the last proof, the handoff snapshot and the
//! local files.

use vstd::prelude::*;
use crate::ltx::client::FileInfo;
use crate::repl::activate;
use crate::repl::sync::SyncWait;
use crate::text;

verus! {

/// The first pause between two tries to publish a snapshot.
pub const RELEASE_RETRY_BASE_MS: u64 = 50;

/// What a successor restores an evicted cell from.
#[derive(Clone, Copy, Debug, PartialEq, Eq, Structural)]
pub enum EvictionRestoreArtifact {
    /// A full snapshot.
    Snapshot,
    /// The chain of small files.
    L0Chain,
}

/// A cell is given up only after its last pass has proven everything.
pub fn final_durability_barrier(wait: SyncWait, cell: &str, epoch: u64) -> (passed: Result<
    (),
    String,
>)
    ensures
        passed is Ok <==> wait is Durable,
        passed matches Err(message) ==> message@ == (if wait is Failed {
            "final durability failed for "@
        } else {
            "final durability is unsupported for "@
        }) + activate::cell_at_epoch(cell@, epoch),
{
    let mut message = match wait {
        SyncWait::Durable => return Ok(()),
        SyncWait::Unsupported => "final durability is unsupported for ".to_owned(),
        SyncWait::Failed => "final durability failed for ".to_owned(),
    };
    activate::push_cell_at_epoch(&mut message, cell, epoch);
    Err(message)
}

/// What an eviction does about a snapshot.
#[derive(Clone, Copy, Debug, PartialEq, Eq, Structural)]
pub enum SnapshotPlan {
    /// Publish none: a successor restores the chain.
    Skip,
    /// Publish one that reaches this position.
    Publish(u64),
}

/// What an eviction does about a snapshot. A branched cell shares its parent's,
/// and one without a transaction needs none.
pub fn snapshot_plan(branched: bool, durable_txid: u64) -> (plan: SnapshotPlan)
    ensures
        plan == if branched || durable_txid == 0 {
            SnapshotPlan::Skip
        } else {
            SnapshotPlan::Publish(durable_txid)
        },
{
    if branched || durable_txid == 0 {
        SnapshotPlan::Skip
    } else {
        SnapshotPlan::Publish(durable_txid)
    }
}

/// A snapshot must be of the position that was proven.
pub fn check_snapshot(position: u64, durable_txid: u64) -> (checked: Result<(), String>)
    ensures
        checked is Ok <==> position == durable_txid,
        checked matches Err(message) ==> message@ == "handoff snapshot position "@ + text::dec(
            position as nat,
        ) + " does not match durable position "@ + text::dec(durable_txid as nat),
{
    if position == durable_txid {
        return Ok(());
    }
    let mut message = "handoff snapshot position ".to_owned();
    text::push_dec(&mut message, position);
    message.append(" does not match durable position ");
    text::push_dec(&mut message, durable_txid);
    Err(message)
}

/// A snapshot is not published over a branch's shared history.
pub fn check_unbranched(branched: bool, cell: &str, epoch: u64) -> (checked: Result<(), String>)
    ensures
        checked is Ok <==> !branched,
        checked matches Err(message) ==> message@
            == "refusing MinTXID=1 handoff snapshot on branched cell "@ + cell@ + " e"@ + text::dec(
            epoch as nat,
        ),
{
    if !branched {
        return Ok(());
    }
    let mut message = "refusing MinTXID=1 handoff snapshot on branched cell ".to_owned();
    message.append(cell);
    message.append(" e");
    text::push_dec(&mut message, epoch);
    Err(message)
}

/// The bucket must have recorded the snapshot that was written.
pub fn check_published(info: FileInfo, max_txid: u64) -> (checked: Result<(), String>)
    ensures
        checked is Ok <==> info.level == 9 && info.min_txid.0 == 1 && info.max_txid.0 == max_txid,
        checked matches Err(message) ==> message@
            == "handoff snapshot metadata does not match the closed database"@,
{
    if info.level == 9 && info.min_txid.0 == 1 && info.max_txid.0 == max_txid {
        return Ok(());
    }
    Err("handoff snapshot metadata does not match the closed database".to_owned())
}

/// The tries to publish one snapshot before a deadline.
#[derive(Clone, Copy, Debug, PartialEq, Eq, Structural)]
pub struct PublishRetry {
    pub deadline_ms: u64,
    pub attempts: u64,
}

/// What follows a try.
#[derive(Clone, Copy, Debug, PartialEq, Eq, Structural)]
pub enum RetryStep {
    /// The eviction goes on with this.
    Finish(EvictionRestoreArtifact),
    /// Wait this many milliseconds, then ask again.
    Sleep(u64),
    /// Try now.
    Attempt,
}

/// The product of two numbers, the largest that fits where they are too large.
pub open spec fn capped_product(left: u64, right: u64) -> int {
    if left * right > u64::MAX {
        u64::MAX as int
    } else {
        left * right
    }
}

impl PublishRetry {
    /// Start with a window of `window_ms`.
    pub fn start(now_ms: u64, window_ms: u64) -> (retry: Self)
        ensures
            retry.attempts == 0,
            retry.deadline_ms == if now_ms + window_ms > u64::MAX {
                u64::MAX as int
            } else {
                now_ms + window_ms
            },
    {
        PublishRetry { deadline_ms: now_ms.saturating_add(window_ms), attempts: 0 }
    }

    /// A try has ended. The pauses grow by the same step each time and end at
    /// the deadline.
    pub fn attempted(&mut self, published: bool, now_ms: u64) -> (step: RetryStep)
        ensures
            final(self).deadline_ms == old(self).deadline_ms,
            final(self).attempts == if old(self).attempts == u64::MAX {
                u64::MAX as int
            } else {
                old(self).attempts + 1
            },
            ({
                let left = old(self).deadline_ms - now_ms;
                let pause = capped_product(50, final(self).attempts);
                step == if published {
                    RetryStep::Finish(EvictionRestoreArtifact::Snapshot)
                } else if left <= 0 {
                    RetryStep::Finish(EvictionRestoreArtifact::L0Chain)
                } else if pause < left {
                    RetryStep::Sleep(pause as u64)
                } else {
                    RetryStep::Sleep(left as u64)
                }
            }),
            step matches RetryStep::Sleep(pause) ==> 0 < pause && now_ms + pause
                <= old(self).deadline_ms,
    {
        self.attempts = self.attempts.saturating_add(1);
        if published {
            return RetryStep::Finish(EvictionRestoreArtifact::Snapshot);
        }
        if now_ms >= self.deadline_ms {
            return RetryStep::Finish(EvictionRestoreArtifact::L0Chain);
        }
        let left: u64 = self.deadline_ms - now_ms;
        let pause: u64 = match RELEASE_RETRY_BASE_MS.checked_mul(self.attempts) {
            Some(pause) => pause,
            None => u64::MAX,
        };
        if pause < left {
            RetryStep::Sleep(pause)
        } else {
            RetryStep::Sleep(left)
        }
    }

    /// The pause is over.
    pub fn woke(&self, now_ms: u64) -> (step: RetryStep)
        ensures
            step == if now_ms >= self.deadline_ms {
                RetryStep::Finish(EvictionRestoreArtifact::L0Chain)
            } else {
                RetryStep::Attempt
            },
    {
        if now_ms >= self.deadline_ms {
            RetryStep::Finish(EvictionRestoreArtifact::L0Chain)
        } else {
            RetryStep::Attempt
        }
    }
}

/// What happens to the live files of a cell that has left.
#[derive(Debug)]
pub struct RemovePlan {
    /// Keep the database under this name.
    pub keep_as: Option<String>,
    /// Remove these files, those that are there.
    pub remove: Vec<String>,
}

/// What happens to the live files of a cell that has left. A database whose
/// close failed cannot be trusted as a baseline, so it is not kept. `stem` is
/// the path of the database without its extension, `db` with it.
pub fn remove_plan(db: &str, stem: &str, preserve_local: bool, close_ok: bool) -> (plan: RemovePlan)
    ensures
        ({
            let kept = preserve_local && close_ok;
            &&& plan.keep_as is Some <==> kept
            &&& plan.keep_as matches Some(name) ==> name@ == stem@ + ".evicted"@
            &&& text::views(plan.remove@) == if kept {
                seq![db@ + "-wal"@, db@ + "-shm"@]
            } else {
                seq![db@ + "-wal"@, db@ + "-shm"@, db@]
            }
        }),
{
    let mut remove: Vec<String> = Vec::new();
    let mut wal = db.to_owned();
    wal.append("-wal");
    let mut shm = db.to_owned();
    shm.append("-shm");
    remove.push(wal);
    remove.push(shm);
    if preserve_local && close_ok {
        let mut name = stem.to_owned();
        name.append(".evicted");
        assert(text::views(remove@) =~= seq![db@ + "-wal"@, db@ + "-shm"@]);
        return RemovePlan { keep_as: Some(name), remove };
    }
    remove.push(db.to_owned());
    assert(text::views(remove@) =~= seq![db@ + "-wal"@, db@ + "-shm"@, db@]);
    RemovePlan { keep_as: None, remove }
}

/// A cell is given up only after a proof.
pub proof fn law_cell_is_given_up_only_when_durable(
    wait: SyncWait,
    cell: &str,
    epoch: u64,
    passed: Result<(), String>,
)
    requires
        call_ensures(final_durability_barrier, (wait, cell, epoch), passed),
    ensures
        passed is Ok ==> wait is Durable,
        wait is Durable ==> passed is Ok,
{
}

/// An eviction publishes a snapshot of exactly what is durable, unless the cell is
/// branched or has no transaction.
pub proof fn law_snapshot_reaches_what_is_durable(
    branched: bool,
    durable_txid: u64,
    plan: SnapshotPlan,
    position: u64,
    checked: Result<(), String>,
)
    requires
        call_ensures(snapshot_plan, (branched, durable_txid), plan),
        call_ensures(check_snapshot, (position, durable_txid), checked),
    ensures
        plan is Publish <==> !branched && durable_txid > 0,
        plan matches SnapshotPlan::Publish(reached) ==> reached == durable_txid,
        checked is Ok <==> position == durable_txid,
{
}

/// No snapshot is published over a branch's history, and one that was published
/// counts only where the bucket has it from the first transaction to the last as a
/// snapshot.
pub proof fn law_published_snapshot_is_whole(
    branched: bool,
    cell: &str,
    epoch: u64,
    unbranched: Result<(), String>,
    info: FileInfo,
    max_txid: u64,
    published: Result<(), String>,
)
    requires
        call_ensures(check_unbranched, (branched, cell, epoch), unbranched),
        call_ensures(check_published, (info, max_txid), published),
    ensures
        unbranched is Err <==> branched,
        published is Ok <==> info.max_txid.0 == max_txid && info.min_txid.0 == 1 && info.level
            == 9,
{
}

/// Publishing goes on until it succeeds or its window is over: a success hands over
/// the snapshot, a failure waits 50 milliseconds longer than the one before it did,
/// but never past the deadline, and the deadline leaves the chain.
pub proof fn law_publishing_ends_at_its_deadline(
    now_ms: u64,
    window_ms: u64,
    start: PublishRetry,
    retry: &mut PublishRetry,
    published: bool,
    then_ms: u64,
    step: RetryStep,
    waking: PublishRetry,
    woken_ms: u64,
    woke: RetryStep,
)
    requires
        call_ensures(PublishRetry::start, (now_ms, window_ms), start),
        call_ensures(PublishRetry::attempted, (retry, published, then_ms), step),
        call_ensures(PublishRetry::woke, (&waking, woken_ms), woke),
    ensures
        start.attempts == 0,
        now_ms + window_ms <= u64::MAX ==> start.deadline_ms == now_ms + window_ms,
        now_ms + window_ms > u64::MAX ==> start.deadline_ms == u64::MAX,
        final(retry).deadline_ms == old(retry).deadline_ms,
        old(retry).attempts < u64::MAX ==> final(retry).attempts == old(retry).attempts + 1,
        published <==> step == RetryStep::Finish(EvictionRestoreArtifact::Snapshot),
        step == RetryStep::Finish(EvictionRestoreArtifact::L0Chain) <==> !published && then_ms
            >= old(retry).deadline_ms,
        !published && then_ms < old(retry).deadline_ms ==> (step matches RetryStep::Sleep(pause)
            && pause > 0 && then_ms + pause <= old(retry).deadline_ms && (then_ms + pause == old(retry).deadline_ms || old(retry).attempts < u64::MAX && pause == 50 * (old(retry).attempts
            + 1))),
        woke is Attempt <==> woken_ms < waking.deadline_ms,
        woke is Finish ==> woke == RetryStep::Finish(EvictionRestoreArtifact::L0Chain),
        !(woke is Sleep),
{
}

/// A database is kept only where that was asked for and its close succeeded; then
/// it has another name and only what stands beside it is removed. Otherwise it is
/// removed itself.
pub proof fn law_database_is_kept_only_after_a_clean_close(
    db: &str,
    stem: &str,
    preserve_local: bool,
    close_ok: bool,
    plan: RemovePlan,
)
    requires
        call_ensures(remove_plan, (db, stem, preserve_local, close_ok), plan),
    ensures
        plan.keep_as is Some <==> preserve_local && close_ok,
        plan.keep_as matches Some(name) ==> name@ == stem@ + ".evicted"@,
        plan.remove@.len() >= 2,
        plan.remove@[0]@ == db@ + "-wal"@,
        plan.remove@[1]@ == db@ + "-shm"@,
        plan.keep_as is Some ==> plan.remove@.len() == 2,
        plan.keep_as is None ==> plan.remove@.len() == 3 && plan.remove@[2]@ == db@,
{
    let views = text::views(plan.remove@);
    assert(views.len() == plan.remove@.len());
    assert(views[0] == plan.remove@[0]@ && views[1] == plan.remove@[1]@);
    if plan.keep_as is None {
        assert(views[2] == plan.remove@[2]@);
    }
}

/// A cell that is not given up is told with its cell and epoch, and a snapshot that
/// is not accepted with the positions that do not agree.
pub proof fn law_refused_eviction_names_its_reason(
    wait: SyncWait,
    cell: &str,
    epoch: u64,
    passed: Result<(), String>,
    position: u64,
    durable_txid: u64,
    checked: Result<(), String>,
    branched: bool,
    unbranched: Result<(), String>,
    info: FileInfo,
    max_txid: u64,
    published: Result<(), String>,
)
    requires
        call_ensures(final_durability_barrier, (wait, cell, epoch), passed),
        call_ensures(check_snapshot, (position, durable_txid), checked),
        call_ensures(check_unbranched, (branched, cell, epoch), unbranched),
        call_ensures(check_published, (info, max_txid), published),
    ensures
        wait is Failed ==> passed->Err_0@ == "final durability failed for "@ + (cell@ + " epoch "@
            + text::dec(epoch as nat)),
        wait is Unsupported ==> passed->Err_0@ == "final durability is unsupported for "@ + (cell@
            + " epoch "@ + text::dec(epoch as nat)),
        checked matches Err(message) ==> message@ == "handoff snapshot position "@ + text::dec(
            position as nat,
        ) + " does not match durable position "@ + text::dec(durable_txid as nat),
        unbranched matches Err(message) ==> message@
            == "refusing MinTXID=1 handoff snapshot on branched cell "@ + cell@ + " e"@ + text::dec(
            epoch as nat,
        ),
        published matches Err(message) ==> message@
            == "handoff snapshot metadata does not match the closed database"@,
{
}

} // verus!
