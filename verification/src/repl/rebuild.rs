//! Replacing a resident cell's database: by a parent's at a fork, or by an
//! imported one.

use vstd::prelude::*;
use crate::branch::cell_branch::{BranchResult, ValidatedParentBucket};
use crate::ltx::base;
use crate::ltx::base::{BasePointer, TXID};
use crate::ltx::client::FileInfo;
use crate::repl::activate;
use crate::repl::cell::CellState;
use crate::repl::registry::LtxRepl;
use crate::text;

verus! {

/// The level at which full snapshots are kept.
pub const SNAPSHOT_LEVEL: i32 = 9;

/// Does a log start at the first transaction?
pub open spec fn anchored(files: Seq<FileInfo>) -> bool {
    exists|i: int| 0 <= i < files.len() && (#[trigger] files[i]).min_txid.0 == 1
}

/// Does one level of a log start at the first transaction? The snapshot level
/// is looked at first, then level 0.
pub fn has_anchor(files: &Vec<FileInfo>) -> (found: bool)
    ensures
        found == anchored(files@),
{
    let mut at: usize = 0;
    while at < files.len()
        invariant
            at <= files@.len(),
            forall|i: int| 0 <= i < at ==> (#[trigger] files@[i]).min_txid.0 != 1,
        decreases files@.len() - at,
    {
        if files[at].min_txid.0 == 1 {
            return true;
        }
        at = at + 1;
    }
    false
}

/// The epochs of a parent to look at, in order: the one that was asked for and
/// no other, or else all that were listed, from the newest down, and last the
/// first epoch, which a listing may have missed.
pub open spec fn parent_candidates(hint: u64, epochs: Seq<u64>) -> Seq<u64> {
    if hint > 0 {
        seq![hint]
    } else if epochs.contains(1) {
        epochs.reverse()
    } else {
        epochs.reverse().push(1)
    }
}

/// A search for the parent's epoch to branch from.
#[derive(Debug)]
pub struct EpochSearch {
    pub hint: u64,
    pub candidates: Vec<u64>,
    /// Candidates that were looked at and have no anchor.
    pub passed: usize,
}

impl EpochSearch {
    pub open spec fn wf(self) -> bool {
        self.passed <= self.candidates@.len()
    }

    /// Start over the epochs that were listed, ascending.
    pub fn start(hint: u64, epochs: &Vec<u64>) -> (search: Self)
        ensures
            search.wf(),
            search.hint == hint,
            search.passed == 0,
            search.candidates@ == parent_candidates(hint, epochs@),
    {
        let mut candidates: Vec<u64> = Vec::new();
        if hint > 0 {
            candidates.push(hint);
            assert(candidates@ =~= seq![hint]);
            return EpochSearch { hint, candidates, passed: 0 };
        }
        let mut first_listed = false;
        let mut at: usize = epochs.len();
        while at > 0
            invariant
                at <= epochs@.len(),
                candidates@ == epochs@.skip(at as int).reverse(),
                first_listed == epochs@.skip(at as int).contains(1),
            decreases at,
        {
            at = at - 1;
            let epoch = epochs[at];
            candidates.push(epoch);
            proof {
                let now = epochs@.skip(at as int);
                let before = epochs@.skip(at + 1);
                assert(now =~= seq![epoch] + before);
                assert(candidates@ =~= now.reverse());
                assert(now[0] == epoch);
                if before.contains(1) {
                    let i = choose|i: int| 0 <= i < before.len() && before[i] == 1;
                    assert(now[i + 1] == 1);
                }
                if now.contains(1) && epoch != 1 {
                    let i = choose|i: int| 0 <= i < now.len() && now[i] == 1;
                    assert(before[i - 1] == 1);
                }
            }
            if epoch == 1 {
                first_listed = true;
            }
        }
        assert(epochs@.skip(0) =~= epochs@);
        if !first_listed {
            candidates.push(1);
        }
        EpochSearch { hint, candidates, passed: 0 }
    }

    /// The epoch to look at next; none where every candidate has been passed.
    pub fn wanted(&self) -> (epoch: Option<u64>)
        requires
            self.wf(),
        ensures
            epoch == if self.passed < self.candidates@.len() {
                Some(self.candidates@[self.passed as int])
            } else {
                None
            },
    {
        if self.passed < self.candidates.len() {
            Some(self.candidates[self.passed])
        } else {
            None
        }
    }

    /// The wanted epoch has no anchor.
    pub fn pass(&mut self)
        requires
            old(self).wf(),
            old(self).passed < old(self).candidates@.len(),
        ensures
            final(self).wf(),
            final(self).hint == old(self).hint,
            final(self).candidates == old(self).candidates,
            final(self).passed == old(self).passed + 1,
    {
        if self.passed < self.candidates.len() {
            self.passed = self.passed + 1;
        }
    }

    /// The message of a search that found nothing.
    pub fn failure(&self, cell: &str) -> (message: String)
        ensures
            message@ == if self.hint > 0 {
                "parent epoch "@ + text::dec(self.hint as nat) + " for "@ + cell@
                    + " has no MinTXID==1 LTX (L0 or L9)"@
            } else {
                "parent prefix has no restorable LTX for "@ + cell@
            },
    {
        let mut message = String::new();
        if self.hint > 0 {
            message.append("parent epoch ");
            text::push_dec(&mut message, self.hint);
            message.append(" for ");
            message.append(cell);
            message.append(" has no MinTXID==1 LTX (L0 or L9)");
            assert(message@ =~= "parent epoch "@ + text::dec(self.hint as nat) + " for "@ + cell@
                + " has no MinTXID==1 LTX (L0 or L9)"@);
        } else {
            message.append("parent prefix has no restorable LTX for ");
            message.append(cell);
            assert(message@ =~= "parent prefix has no restorable LTX for "@ + cell@);
        }
        message
    }
}

/// An epoch that was asked for is taken or refused; no other takes its place.
pub proof fn law_hint_is_the_only_candidate(hint: u64, epochs: Seq<u64>)
    requires
        hint > 0,
    ensures
        parent_candidates(hint, epochs) == seq![hint],
{
}

/// Without a hint every listed epoch is a candidate, a later one before an
/// earlier one, and so is the first epoch.
pub proof fn law_newest_epoch_comes_first(epochs: Seq<u64>, at: int)
    requires
        0 <= at < epochs.len(),
    ensures
        parent_candidates(0, epochs)[epochs.len() - 1 - at] == epochs[at],
        parent_candidates(0, epochs).contains(1),
{
    let candidates = parent_candidates(0, epochs);
    if epochs.contains(1) {
        let i = choose|i: int| 0 <= i < epochs.len() && epochs[i] == 1;
        assert(candidates[epochs.len() - 1 - i] == 1);
    } else {
        assert(candidates[epochs.len() as int] == 1);
    }
}

/// Where a branch leaves its parent.
#[derive(Clone, Copy, Debug, PartialEq, Eq, Structural)]
pub struct ForkPoint {
    /// The last file of the parent's log.
    pub terminal: FileInfo,
    /// The transaction that the branch starts from.
    pub fork_txid: TXID,
    /// The size of what the branch shares with its parent.
    pub bytes_parent: u64,
}

/// Is this a full snapshot from the first transaction on?
pub open spec fn full_snapshot(info: FileInfo) -> bool {
    info.level == 9 && info.min_txid.0 == 1
}

/// A size that was listed, where a negative one counts as none.
pub open spec fn listed_size(info: FileInfo) -> u64 {
    if info.size < 0 {
        0
    } else {
        info.size as u64
    }
}

/// The first full snapshot of a plan at or after `from`.
pub open spec fn first_snapshot(plan: Seq<FileInfo>, from: int) -> Option<FileInfo>
    decreases plan.len() - from,
{
    if from < 0 || from >= plan.len() {
        None
    } else if full_snapshot(plan[from]) {
        Some(plan[from])
    } else {
        first_snapshot(plan, from + 1)
    }
}

/// Where a branch leaves a parent whose log is restored by `plan`; nowhere
/// where the plan is empty.
pub fn fork_point(plan: &Vec<FileInfo>) -> (fork: Option<ForkPoint>)
    ensures
        fork == if plan@.len() == 0 {
            None
        } else {
            Some(
                ForkPoint {
                    terminal: plan@.last(),
                    fork_txid: plan@.last().max_txid,
                    bytes_parent: match first_snapshot(plan@, 0) {
                        Some(info) => listed_size(info),
                        None => listed_size(plan@.last()),
                    },
                },
            )
        },
{
    if plan.len() == 0 {
        return None;
    }
    let terminal = plan[plan.len() - 1];
    let mut sized = terminal;
    let mut at: usize = 0;
    while at < plan.len()
        invariant_except_break
            at <= plan@.len(),
            plan@.len() > 0,
            terminal == plan@.last(),
            sized == terminal,
            first_snapshot(plan@, 0) == first_snapshot(plan@, at as int),
        ensures
            sized == match first_snapshot(plan@, 0) {
                Some(info) => info,
                None => plan@.last(),
            },
        decreases plan@.len() - at,
    {
        if plan[at].level == SNAPSHOT_LEVEL && plan[at].min_txid.0 == 1 {
            sized = plan[at];
            break;
        }
        at = at + 1;
    }
    let bytes_parent: u64 = if sized.size < 0 {
        0
    } else {
        sized.size as u64
    };
    Some(ForkPoint { terminal, fork_txid: terminal.max_txid, bytes_parent })
}

/// Why a database was not replaced.
#[derive(Debug)]
pub enum RebuildError {
    /// The cell is not resident.
    NotResident,
    /// A sync pass runs.
    SyncInProgress,
    /// The cell is a branch already.
    ChildIsBranch,
    /// The parent is a branch itself.
    ParentIsBranch,
    /// The parent's plan is empty.
    EmptyPlan,
    /// The parent's last file is cut short.
    Corrupted,
    /// The restored database is not at the fork.
    BaselineMismatch { expected: u64, found: u64 },
    /// The imported database has no transaction.
    NoSnapshot,
    /// The bucket recorded another file than the one that was written.
    UploadMismatch,
    /// A sentence and what the outside said.
    Outside(String),
}

/// The message of a database that was not replaced.
pub open spec fn rebuild_told(error: RebuildError, cell: Seq<char>, epoch: u64) -> Seq<char> {
    match error {
        RebuildError::NotResident => "no managed replica for "@ + activate::cell_at_epoch(
            cell,
            epoch,
        ),
        RebuildError::SyncInProgress => "cell "@ + activate::cell_at_epoch(cell, epoch)
            + " sync already in progress"@,
        RebuildError::ChildIsBranch => "child prefix already has base.json"@,
        RebuildError::ParentIsBranch => "parent is already a branch; compact first"@,
        RebuildError::EmptyPlan => "parent prefix has no restorable LTX"@,
        RebuildError::Corrupted => "parent terminal LTX is corrupted"@,
        RebuildError::BaselineMismatch { expected, found } =>
            "branch baseline txid mismatch: expected "@ + text::dec(expected as nat) + ", got "@
            + text::dec(found as nat),
        RebuildError::NoSnapshot => "import produced no durable snapshot"@,
        RebuildError::UploadMismatch =>
            "import snapshot metadata does not match the captured LTX"@,
        RebuildError::Outside(message) => message@,
    }
}

/// The message of a database that was not replaced.
pub fn rebuild_message(error: RebuildError, cell: &str, epoch: u64) -> (message: String)
    ensures
        message@ == rebuild_told(error, cell@, epoch),
{
    let mut message = String::new();
    match error {
        RebuildError::NotResident => {
            message.append("no managed replica for ");
            activate::push_cell_at_epoch(&mut message, cell, epoch);
        },
        RebuildError::SyncInProgress => {
            message.append("cell ");
            activate::push_cell_at_epoch(&mut message, cell, epoch);
            message.append(" sync already in progress");
        },
        RebuildError::ChildIsBranch => {
            message.append("child prefix already has base.json");
        },
        RebuildError::ParentIsBranch => {
            message.append("parent is already a branch; compact first");
        },
        RebuildError::EmptyPlan => {
            message.append("parent prefix has no restorable LTX");
        },
        RebuildError::Corrupted => {
            message.append("parent terminal LTX is corrupted");
        },
        RebuildError::BaselineMismatch { expected, found } => {
            message.append("branch baseline txid mismatch: expected ");
            text::push_dec(&mut message, expected);
            message.append(", got ");
            text::push_dec(&mut message, found);
        },
        RebuildError::NoSnapshot => {
            message.append("import produced no durable snapshot");
        },
        RebuildError::UploadMismatch => {
            message.append("import snapshot metadata does not match the captured LTX");
        },
        RebuildError::Outside(error) => {
            message.append(error.as_str());
        },
    }
    assert(message@ =~= rebuild_told(error, cell@, epoch));
    message
}

/// A cell's counters while its database is replaced: no sync pass may start,
/// and no compaction round either.
pub open spec fn claimed(cell: CellState) -> CellState {
    CellState {
        syncing: true,
        compaction: match cell.compaction {
            Some(compaction) => Some(
                crate::repl::cell::Compaction { cancelled: true, ..compaction },
            ),
            None => None,
        },
        ..cell
    }
}

impl LtxRepl {
    /// Claim a resident cell to replace its database.
    pub fn claim_rebuild(&mut self, cell: &str, epoch: u64) -> (place: Result<usize, RebuildError>)
        requires
            old(self).wf(),
        ensures
            final(self).wf(),
            final(self).cells == old(self).cells,
            final(self).stopped_cells == old(self).stopped_cells,
            final(self).failed_closes == old(self).failed_closes,
            final(self).dirty_tails == old(self).dirty_tails,
            final(self).stopped == old(self).stopped,
            final(self).close_stopped == old(self).close_stopped,
            match place {
                Err(error) => {
                    &&& final(self).states@ == old(self).states@
                    &&& error is NotResident <==> !old(self).cells@.contains_key((cell@, epoch))
                    &&& error is SyncInProgress <==> old(self).cells@.contains_key((cell@, epoch))
                },
                Ok(_) => true,
            },
            place is Ok <==> old(self).cells@.contains_key((cell@, epoch)) && !old(
                self).states@[old(self).cells@[(cell@, epoch)] as int].syncing,
            place matches Ok(place) ==> {
                &&& place == old(self).cells@[(cell@, epoch)]
                &&& place < old(self).states@.len()
                &&& final(self).states@ == old(self).states@.update(
                    place as int,
                    claimed(old(self).states@[place as int]),
                )
            },
    {
        let place = match self.resident(cell, epoch) {
            Some(place) => place,
            None => return Err(RebuildError::NotResident),
        };
        let mut state = self.states[place];
        if !state.claim_sync() {
            return Err(RebuildError::SyncInProgress);
        }
        state.cancel_compaction();
        self.states.set(place, state);
        Ok(place)
    }

    /// Give a claimed cell up. Its compaction stays off.
    pub fn release_rebuild(&mut self, place: usize)
        requires
            old(self).wf(),
            place < old(self).states@.len(),
        ensures
            final(self).wf(),
            final(self).cells == old(self).cells,
            final(self).stopped_cells == old(self).stopped_cells,
            final(self).failed_closes == old(self).failed_closes,
            final(self).dirty_tails == old(self).dirty_tails,
            final(self).stopped == old(self).stopped,
            final(self).close_stopped == old(self).close_stopped,
            final(self).states@ == old(self).states@.update(
                place as int,
                CellState { syncing: false, ..old(self).states@[place as int] },
            ),
    {
        let mut state = self.states[place];
        let _ = state.release_sync();
        self.states.set(place, state);
    }
}

/// What a branch does next.
#[derive(Clone, Copy, Debug, PartialEq, Eq, Structural)]
pub enum BranchStage {
    /// Read the child's base pointer.
    ReadChildBase,
    /// Find the parent's epoch.
    FindEpoch,
    /// Read the parent's base pointer at that epoch.
    ReadParentBase { parent_epoch: u64 },
    /// Plan a restore of the parent.
    Plan { parent_epoch: u64 },
    /// Plan a restore of the parent to the fork, and read its last file.
    ReadTerminal { parent_epoch: u64, fork: ForkPoint },
    /// Clear the child's prefix, put its base pointer, close its database and
    /// restore through the parent.
    Rebuild { parent_epoch: u64, fork: ForkPoint, checksum: u64 },
    /// Open the restored database.
    Open { parent_epoch: u64, fork: ForkPoint, checksum: u64 },
}

/// A branch on its way.
#[derive(Debug)]
pub struct Branching {
    pub cell: String,
    pub parent: ValidatedParentBucket,
    pub stage: BranchStage,
}

impl Branching {
    /// Begin on a cell that was claimed.
    pub fn begin(cell: &str, parent: ValidatedParentBucket) -> (branching: Self)
        ensures
            branching.cell@ == cell@,
            branching.parent == parent,
            branching.stage == BranchStage::ReadChildBase,
    {
        Branching { cell: cell.to_owned(), parent, stage: BranchStage::ReadChildBase }
    }

    /// The child's base pointer was looked for; a branch is not branched again.
    pub fn child_base_read(&mut self, found: bool) -> (next: Result<(), RebuildError>)
        requires
            old(self).stage is ReadChildBase,
        ensures
            final(self).cell == old(self).cell,
            final(self).parent == old(self).parent,
            next is Ok <==> !found,
            next is Err ==> final(self).stage == old(self).stage,
            next is Ok ==> final(self).stage == BranchStage::FindEpoch,
            next matches Err(error) ==> error is ChildIsBranch,
    {
        if found {
            return Err(RebuildError::ChildIsBranch);
        }
        self.stage = BranchStage::FindEpoch;
        Ok(())
    }

    /// The parent's epoch was found.
    pub fn epoch_found(&mut self, parent_epoch: u64)
        requires
            old(self).stage is FindEpoch,
        ensures
            final(self).cell == old(self).cell,
            final(self).parent == old(self).parent,
            final(self).stage == (BranchStage::ReadParentBase { parent_epoch }),
    {
        self.stage = BranchStage::ReadParentBase { parent_epoch };
    }

    /// The parent's base pointer was looked for; only a whole parent is
    /// branched from.
    pub fn parent_base_read(&mut self, found: bool) -> (next: Result<(), RebuildError>)
        requires
            old(self).stage is ReadParentBase,
        ensures
            final(self).cell == old(self).cell,
            final(self).parent == old(self).parent,
            next is Ok <==> !found,
            next is Err ==> final(self).stage == old(self).stage,
            next is Ok ==> final(self).stage == (BranchStage::Plan {
                parent_epoch: old(self).stage->ReadParentBase_parent_epoch,
            }),
            next matches Err(error) ==> error is ParentIsBranch,
    {
        if found {
            return Err(RebuildError::ParentIsBranch);
        }
        if let BranchStage::ReadParentBase { parent_epoch } = self.stage {
            self.stage = BranchStage::Plan { parent_epoch };
        }
        Ok(())
    }

    /// The parent's restore was planned.
    pub fn planned(&mut self, plan: &Vec<FileInfo>) -> (next: Result<(), RebuildError>)
        requires
            old(self).stage is Plan,
        ensures
            final(self).cell == old(self).cell,
            final(self).parent == old(self).parent,
            next is Ok <==> plan@.len() > 0,
            next is Err ==> final(self).stage == old(self).stage,
            next is Ok ==> final(self).stage == (BranchStage::ReadTerminal {
                parent_epoch: old(self).stage->Plan_parent_epoch,
                fork: ForkPoint {
                    terminal: plan@.last(),
                    fork_txid: plan@.last().max_txid,
                    bytes_parent: match first_snapshot(plan@, 0) {
                        Some(info) => listed_size(info),
                        None => listed_size(plan@.last()),
                    },
                },
            }),
            next matches Err(error) ==> error is EmptyPlan,
    {
        match fork_point(plan) {
            None => Err(RebuildError::EmptyPlan),
            Some(fork) => {
                if let BranchStage::Plan { parent_epoch } = self.stage {
                    self.stage = BranchStage::ReadTerminal { parent_epoch, fork };
                }
                Ok(())
            },
        }
    }

    /// The parent's last file was read. The result is the base pointer to put.
    pub fn terminal_read(&mut self, bytes: &Vec<u8>) -> (pointer: Result<BasePointer, RebuildError>)
        requires
            old(self).stage is ReadTerminal,
        ensures
            final(self).cell == old(self).cell,
            final(self).parent == old(self).parent,
            pointer is Ok <==> bytes@.len() >= 16,
            pointer is Err ==> final(self).stage == old(self).stage,
            pointer matches Err(error) ==> error is Corrupted,
            pointer matches Ok(pointer) ==> {
                let parent_epoch = old(self).stage->ReadTerminal_parent_epoch;
                let fork = old(self).stage->ReadTerminal_fork;
                let checksum = base::big_endian(
                    bytes@.subrange(bytes@.len() - 16, bytes@.len() - 8),
                );
                &&& pointer.parent_bucket@ == old(self).parent.uri@
                &&& pointer.parent_cell@ == old(self).cell@
                &&& pointer.parent_epoch == parent_epoch
                &&& pointer.fork_txid == fork.fork_txid.0
                &&& pointer.fork_checksum@ == text::hex(checksum, 16)
                &&& final(self).stage matches BranchStage::Rebuild {
                    parent_epoch: p,
                    fork: f,
                    checksum: c,
                } && p == parent_epoch && f == fork && c as nat == checksum
            },
    {
        let checksum = match base::post_apply_checksum_from_ltx(bytes.as_slice()) {
            Ok(checksum) => checksum,
            Err(_) => return Err(RebuildError::Corrupted),
        };
        match self.stage {
            BranchStage::ReadTerminal { parent_epoch, fork } => {
                self.stage = BranchStage::Rebuild { parent_epoch, fork, checksum };
                Ok(
                    BasePointer {
                        parent_bucket: self.parent.uri.as_str().to_owned(),
                        parent_cell: self.cell.as_str().to_owned(),
                        parent_epoch,
                        fork_txid: fork.fork_txid.0,
                        fork_checksum: base::checksum_hex(checksum),
                    },
                )
            },
            _ => Err(RebuildError::Corrupted),
        }
    }

    /// The database was restored through the parent.
    pub fn rebuilt(&mut self)
        requires
            old(self).stage is Rebuild,
        ensures
            final(self).cell == old(self).cell,
            final(self).parent == old(self).parent,
            final(self).stage == (BranchStage::Open {
                parent_epoch: old(self).stage->Rebuild_parent_epoch,
                fork: old(self).stage->Rebuild_fork,
                checksum: old(self).stage->Rebuild_checksum,
            }),
    {
        if let BranchStage::Rebuild { parent_epoch, fork, checksum } = self.stage {
            self.stage = BranchStage::Open { parent_epoch, fork, checksum };
        }
    }

    /// The restored database was opened at `position`, which must be the fork.
    /// The cell's counters start over from there.
    pub fn opened(&self, cell: &mut CellState, position: u64) -> (done: Result<
        BranchResult,
        RebuildError,
    >)
        requires
            self.stage is Open,
        ensures
            ({
                let fork = self.stage->Open_fork;
                if position == fork.fork_txid.0 {
                    &&& done == Ok::<BranchResult, RebuildError>(
                        BranchResult { fork_txid: position, bytes_parent: fork.bytes_parent },
                    )
                    &&& *final(cell) == (CellState {
                        req_seq: 0,
                        synced_seq: 0,
                        submitted_seq: 0,
                        shipped_seq: 0,
                        submitted_txid: position,
                        shipped_txid: position,
                        durable_txid: position,
                        percell_txid: 0,
                        last_sync_ms: 0,
                        ..*old(cell)
                    })
                } else {
                    &&& done matches Err(error) && error == (RebuildError::BaselineMismatch {
                        expected: fork.fork_txid.0,
                        found: position,
                    })
                    &&& *final(cell) == *old(cell)
                }
            }),
    {
        match self.stage {
            BranchStage::Open { parent_epoch: _, fork, checksum: _ } => {
                if position != fork.fork_txid.0 {
                    return Err(
                        RebuildError::BaselineMismatch {
                            expected: fork.fork_txid.0,
                            found: position,
                        },
                    );
                }
                cell.reset_to_branch(position);
                Ok(BranchResult { fork_txid: position, bytes_parent: fork.bytes_parent })
            },
            _ => Err(RebuildError::EmptyPlan),
        }
    }
}

/// The pointer that a branch puts is accepted by every later activation that
/// finds the parent's last file as the branch found it.
pub proof fn law_branch_pointer_is_accepted(terminal: Seq<u8>)
    requires
        terminal.len() >= 16,
    ensures
        ({
            let checksum = base::big_endian(
                terminal.subrange(terminal.len() - 16, terminal.len() - 8),
            );
            activate::fork_check(terminal, text::hex(checksum, 16)) == activate::ForkCheck::Same(
                checksum,
            )
        }),
{
    let field = terminal.subrange(terminal.len() - 16, terminal.len() - 8);
    base::lemma_eight_bytes(field);
    base::law_checksum_reads_back(base::big_endian(field) as u64);
}

/// A cell that was just branched owes its own prefix everything up to the
/// fork.
pub proof fn law_branched_cell_has_an_undrained_tail(cell: CellState)
    requires
        cell.percell_txid == 0,
        cell.shipped_txid == cell.durable_txid,
        cell.compaction matches Some(compaction) ==> compaction.compacted_txid == 0,
    ensures
        cell.undrained() <==> cell.durable_txid > 0,
{
}

/// What an import did.
#[derive(Clone, Copy, Debug, PartialEq, Eq, Structural)]
pub struct SqliteImportResult {
    pub bytes: u64,
    pub snapshot_txid: u64,
}

/// Check the position that an imported database was captured at. Its snapshot
/// runs from the first transaction to there.
pub fn import_captured(position: u64) -> (captured: Result<u64, RebuildError>)
    ensures
        captured is Ok <==> position >= 1,
        captured matches Ok(snapshot_txid) ==> snapshot_txid == position,
        captured matches Err(error) ==> error is NoSnapshot,
{
    if position < 1 {
        return Err(RebuildError::NoSnapshot);
    }
    Ok(position)
}

/// The snapshot of an imported database was uploaded as `uploaded`. The cell's
/// counters start over from it.
pub fn import_uploaded(
    cell: &mut CellState,
    bytes: u64,
    snapshot_txid: u64,
    uploaded: FileInfo,
    now_ms: u64,
) -> (done: Result<SqliteImportResult, RebuildError>)
    ensures
        done is Ok <==> uploaded.level == 0 && uploaded.min_txid.0 == 1 && uploaded.max_txid.0
            == snapshot_txid,
        done matches Ok(result) ==> {
            &&& result == (SqliteImportResult { bytes, snapshot_txid })
            &&& *final(cell) == (CellState {
                req_seq: 0,
                synced_seq: 0,
                submitted_seq: 0,
                shipped_seq: 0,
                submitted_txid: snapshot_txid,
                shipped_txid: snapshot_txid,
                durable_txid: snapshot_txid,
                percell_txid: snapshot_txid,
                last_sync_ms: now_ms,
                ..*old(cell)
            })
            &&& !final(cell).undrained()
        },
        done matches Err(error) ==> error is UploadMismatch && *final(cell) == *old(cell),
{
    if uploaded.level != 0 || uploaded.min_txid.0 != 1 || uploaded.max_txid.0 != snapshot_txid {
        return Err(RebuildError::UploadMismatch);
    }
    cell.reset_to_import(snapshot_txid, now_ms);
    Ok(SqliteImportResult { bytes, snapshot_txid })
}

/// A log has an anchor exactly where one of its files starts at the first
/// transaction.
pub proof fn law_anchor_starts_at_the_first_transaction(files: Vec<FileInfo>, found: bool, at: int)
    requires
        call_ensures(has_anchor, (&files,), found),
    ensures
        0 <= at < files@.len() && files@[at].min_txid.0 == 1 ==> found,
        found ==> exists|i: int| 0 <= i < files@.len() && (#[trigger] files@[i]).min_txid.0 == 1,
{
}

/// An epoch that was asked for is looked at and no other. Otherwise every listed
/// epoch is, the last one first, and last the first epoch where it was not listed;
/// each once it was passed makes room for the next.
pub proof fn law_search_looks_at_every_epoch(
    hint: u64,
    epochs: Vec<u64>,
    search: EpochSearch,
    at: int,
    walking: &mut EpochSearch,
    wanted: Option<u64>,
)
    requires
        call_ensures(EpochSearch::start, (hint, &epochs), search),
        old(walking).passed < old(walking).candidates@.len(),
        call_ensures(EpochSearch::pass, (walking,), ()),
        call_ensures(EpochSearch::wanted, (old(walking),), wanted),
    ensures
        search.passed == 0 && search.hint == hint,
        hint > 0 ==> search.candidates@.len() == 1 && search.candidates@[0] == hint,
        hint == 0 && 0 <= at < epochs@.len() ==> search.candidates@[epochs@.len() - 1 - at]
            == epochs@[at],
        hint == 0 && epochs@.contains(1) ==> search.candidates@.len() == epochs@.len(),
        hint == 0 && !epochs@.contains(1) ==> search.candidates@.len() == epochs@.len() + 1
            && search.candidates@.last() == 1,
        wanted == Some(old(walking).candidates@[old(walking).passed as int]),
        final(walking).passed == old(walking).passed + 1,
        final(walking).candidates == old(walking).candidates,
        final(walking).hint == old(walking).hint,
{
    let candidates = parent_candidates(0, epochs@);
    if 0 <= at < epochs@.len() {
        assert(candidates[epochs@.len() - 1 - at] == epochs@[at]);
    }
}

/// A search without candidates left wants none.
pub proof fn law_search_ends_behind_its_candidates(search: EpochSearch, wanted: Option<u64>)
    requires
        search.wf(),
        call_ensures(EpochSearch::wanted, (&search,), wanted),
    ensures
        wanted is None <==> search.passed == search.candidates@.len(),
{
}

proof fn lemma_first_snapshot(plan: Seq<FileInfo>, from: int, at: int)
    requires
        0 <= from <= at < plan.len(),
        plan[at].level == 9 && plan[at].min_txid.0 == 1,
        forall|i: int|
            from <= i < at ==> !((#[trigger] plan[i]).level == 9 && plan[i].min_txid.0 == 1),
    ensures
        first_snapshot(plan, from) == Some(plan[at]),
    decreases at - from,
{
    if from < at {
        assert(!(plan[from].level == 9 && plan[from].min_txid.0 == 1));
        lemma_first_snapshot(plan, from + 1, at);
    }
}

proof fn lemma_no_snapshot(plan: Seq<FileInfo>, from: int)
    requires
        0 <= from <= plan.len(),
        forall|i: int|
            from <= i < plan.len() ==> !((#[trigger] plan[i]).level == 9 && plan[i].min_txid.0
                == 1),
    ensures
        first_snapshot(plan, from) is None,
    decreases plan.len() - from,
{
    if from < plan.len() {
        assert(!(plan[from].level == 9 && plan[from].min_txid.0 == 1));
        lemma_no_snapshot(plan, from + 1);
    }
}

/// A branch leaves its parent at the end of the last file of the parent's plan, and
/// shares what the plan's first full snapshot holds, or its last file where there is
/// none; a size below zero counts as none. An empty plan has no fork.
pub proof fn law_fork_is_the_end_of_the_plan(plan: Vec<FileInfo>, fork: Option<ForkPoint>, at: int)
    requires
        call_ensures(fork_point, (&plan,), fork),
    ensures
        fork is None <==> plan@.len() == 0,
        fork matches Some(fork) ==> fork.terminal == plan@.last() && fork.fork_txid
            == plan@.last().max_txid,
        fork matches Some(fork) ==> (0 <= at < plan@.len() && plan@[at].level == 9
            && plan@[at].min_txid.0 == 1 && (forall|i: int|
            0 <= i < at ==> !((#[trigger] plan@[i]).level == 9 && plan@[i].min_txid.0 == 1))
            ==> fork.bytes_parent == if plan@[at].size < 0 {
            0
        } else {
            plan@[at].size as int
        }),
        fork matches Some(fork) ==> ((forall|i: int|
            0 <= i < plan@.len() ==> !((#[trigger] plan@[i]).level == 9 && plan@[i].min_txid.0
                == 1)) ==> fork.bytes_parent == if plan@.last().size < 0 {
            0
        } else {
            plan@.last().size as int
        }),
{
    if 0 <= at < plan@.len() && plan@[at].level == 9 && plan@[at].min_txid.0 == 1 && (forall|i: int|
        0 <= i < at ==> !((#[trigger] plan@[i]).level == 9 && plan@[i].min_txid.0 == 1)) {
        lemma_first_snapshot(plan@, 0, at);
    }
    if forall|i: int|
        0 <= i < plan@.len() ==> !((#[trigger] plan@[i]).level == 9 && plan@[i].min_txid.0 == 1) {
        lemma_no_snapshot(plan@, 0);
    }
}

/// A cell can be claimed exactly where it is resident and no sync pass runs. Claimed,
/// it lets no sync pass start and no compaction round either, until it is given up;
/// no counter of it moves, and no other cell is touched.
pub proof fn law_claimed_cell_stands_still(
    claiming: &mut LtxRepl,
    cell: &str,
    epoch: u64,
    claim: Result<usize, RebuildError>,
    releasing: &mut LtxRepl,
    place: usize,
    other: int,
)
    requires
        old(claiming).wf(),
        call_ensures(LtxRepl::claim_rebuild, (claiming, cell, epoch), claim),
        old(releasing).wf(),
        place < old(releasing).states@.len(),
        call_ensures(LtxRepl::release_rebuild, (releasing, place), ()),
        0 <= other < old(claiming).states@.len(),
    ensures
        ({
            let resident = old(claiming).cells@.contains_key((cell@, epoch));
            let at = old(claiming).cells@[(cell@, epoch)];
            &&& claim is Ok <==> resident && !old(claiming).states@[at as int].syncing
            &&& claim matches Err(error) ==> (error is NotResident <==> !resident) && (
            error is SyncInProgress <==> resident)
            &&& claim matches Ok(found) ==> {
                let (before, after) = (
                    old(claiming).states@[at as int],
                    final(claiming).states@[at as int],
                );
                &&& found == at
                &&& after.syncing
                &&& after.compaction is Some <==> before.compaction is Some
                &&& after.compaction matches Some(compaction) ==> compaction.cancelled
                    && compaction.compacted_txid == before.compaction->0.compacted_txid
                    && compaction.queued == before.compaction->0.queued
                &&& after.req_seq == before.req_seq && after.synced_seq == before.synced_seq
                    && after.submitted_seq == before.submitted_seq && after.shipped_seq
                    == before.shipped_seq
                &&& after.submitted_txid == before.submitted_txid && after.shipped_txid
                    == before.shipped_txid && after.durable_txid == before.durable_txid
                    && after.percell_txid == before.percell_txid
            }
            &&& claim is Err || other != at ==> final(claiming).states@[other] == old(claiming).states@[other]
        }),
        final(claiming).states@.len() == old(claiming).states@.len(),
        final(claiming).cells@ == old(claiming).cells@,
        !final(releasing).states@[place as int].syncing,
        final(releasing).states@[place as int] == (CellState {
            syncing: false,
            ..old(releasing).states@[place as int]
        }),
        final(releasing).states@.len() == old(releasing).states@.len(),
        forall|i: int|
            0 <= i < old(releasing).states@.len() && i != place ==> #[trigger] final(releasing).states@[i] == old(releasing).states@[i],
{
    let at = old(claiming).cells@[(cell@, epoch)];
    if old(claiming).cells@.contains_key((cell@, epoch)) {
        assert(at < old(claiming).states@.len());
    }
}

/// Neither a branch nor a cell whose parent is one is branched: a branch goes on from
/// the child's pointer to the parent's epoch, from there to the parent's pointer, and
/// from a whole parent to its plan.
pub proof fn law_only_whole_cells_are_branched(
    cell: &str,
    parent: ValidatedParentBucket,
    begun: Branching,
    child: &mut Branching,
    found: bool,
    next: Result<(), RebuildError>,
    epoch: &mut Branching,
    parent_epoch: u64,
    whole: &mut Branching,
    branched: bool,
    then: Result<(), RebuildError>,
)
    requires
        call_ensures(Branching::begin, (cell, parent), begun),
        call_ensures(Branching::child_base_read, (child, found), next),
        call_ensures(Branching::epoch_found, (epoch, parent_epoch), ()),
        old(whole).stage == (BranchStage::ReadParentBase { parent_epoch }),
        call_ensures(Branching::parent_base_read, (whole, branched), then),
    ensures
        begun.cell@ == cell@ && begun.parent == parent && begun.stage is ReadChildBase,
        next is Err <==> found,
        next matches Err(error) ==> error is ChildIsBranch,
        next is Ok ==> final(child).stage is FindEpoch,
        final(child).cell == old(child).cell && final(child).parent == old(child).parent,
        final(epoch).stage == (BranchStage::ReadParentBase { parent_epoch }),
        final(epoch).cell == old(epoch).cell && final(epoch).parent == old(epoch).parent,
        then is Err <==> branched,
        then matches Err(error) ==> error is ParentIsBranch,
        then is Ok ==> final(whole).stage == (BranchStage::Plan { parent_epoch }),
        final(whole).cell == old(whole).cell && final(whole).parent == old(whole).parent,
{
}

/// A branch is planned to the fork of its parent's plan, and its pointer names the
/// parent, the cell, the parent's epoch, the fork and the checksum that the parent's
/// last file ends with; a file too short for one leaves everything as it was.
pub proof fn law_pointer_names_the_fork(
    planning: &mut Branching,
    parent_epoch: u64,
    plan: Vec<FileInfo>,
    found: Option<ForkPoint>,
    planned: Result<(), RebuildError>,
    reading: &mut Branching,
    fork: ForkPoint,
    bytes: Vec<u8>,
    slice: &[u8],
    checksum: Result<u64, base::Error>,
    pointer: Result<BasePointer, RebuildError>,
    recorded: Result<u64, base::Error>,
    rebuilding: &mut Branching,
    sum: u64,
)
    requires
        old(planning).stage == (BranchStage::Plan { parent_epoch }),
        call_ensures(fork_point, (&plan,), found),
        call_ensures(Branching::planned, (planning, &plan), planned),
        old(reading).stage == (BranchStage::ReadTerminal { parent_epoch, fork }),
        call_ensures(Branching::terminal_read, (reading, &bytes), pointer),
        slice@ == bytes@,
        call_ensures(base::post_apply_checksum_from_ltx, (slice,), checksum),
        pointer matches Ok(pointer) ==> call_ensures(
            BasePointer::fork_checksum_value,
            (&pointer,),
            recorded,
        ),
        old(rebuilding).stage == (BranchStage::Rebuild { parent_epoch, fork, checksum: sum }),
        call_ensures(Branching::rebuilt, (rebuilding,), ()),
    ensures
        planned is Ok <==> found is Some,
        found matches Some(fork) ==> final(planning).stage == (BranchStage::ReadTerminal {
            parent_epoch,
            fork,
        }),
        found is None ==> (planned matches Err(error) && error is EmptyPlan),
        pointer is Ok <==> bytes@.len() >= 16,
        pointer matches Ok(pointer) ==> {
            &&& pointer.parent_bucket@ == old(reading).parent.uri@
            &&& pointer.parent_cell@ == old(reading).cell@
            &&& pointer.parent_epoch == parent_epoch
            &&& pointer.fork_txid == fork.fork_txid.0
            &&& checksum is Ok && recorded == checksum
            &&& final(reading).stage == (BranchStage::Rebuild {
                parent_epoch,
                fork,
                checksum: checksum->Ok_0,
            })
        },
        pointer is Err ==> final(reading).stage == old(reading).stage,
        final(rebuilding).stage == (BranchStage::Open { parent_epoch, fork, checksum: sum }),
{
    if let Ok(pointer) = pointer {
        base::law_checksum_reads_back(checksum->Ok_0);
    }
}

/// A branched database must be opened at the fork. Its counters then start over with
/// everything up to the fork in the bucket and nothing of it in the cell's own
/// prefix; opened elsewhere it is refused and nothing changes.
pub proof fn law_branched_database_opens_at_its_fork(
    branching: Branching,
    parent_epoch: u64,
    fork: ForkPoint,
    checksum: u64,
    cell: &mut CellState,
    position: u64,
    done: Result<BranchResult, RebuildError>,
)
    requires
        branching.stage == (BranchStage::Open { parent_epoch, fork, checksum }),
        call_ensures(Branching::opened, (&branching, cell, position), done),
    ensures
        done is Ok <==> position == fork.fork_txid.0,
        done matches Ok(result) ==> {
            &&& result.fork_txid == fork.fork_txid.0
            &&& result.bytes_parent == fork.bytes_parent
            &&& final(cell).durable_txid == position && final(cell).shipped_txid == position
                && final(cell).submitted_txid == position
            &&& final(cell).percell_txid == 0
            &&& final(cell).req_seq == 0 && final(cell).synced_seq == 0 && final(cell).submitted_seq
                == 0 && final(cell).shipped_seq == 0
            &&& final(cell).compaction == old(cell).compaction && final(cell).syncing == old(cell).syncing
        },
        done matches Err(error) ==> error == (RebuildError::BaselineMismatch {
            expected: fork.fork_txid.0,
            found: position,
        }) && *final(cell) == *old(cell),
{
}

/// An imported database counts from its snapshot: one that was captured without a
/// transaction is refused, and so is one that the bucket recorded otherwise than
/// from the first transaction to the last at level 0. Otherwise its counters start
/// over with all of it in the bucket and in the cell's own prefix.
pub proof fn law_import_counts_from_its_snapshot(
    position: u64,
    captured: Result<u64, RebuildError>,
    cell: &mut CellState,
    bytes: u64,
    snapshot_txid: u64,
    uploaded: FileInfo,
    now_ms: u64,
    done: Result<SqliteImportResult, RebuildError>,
)
    requires
        call_ensures(import_captured, (position,), captured),
        call_ensures(import_uploaded, (cell, bytes, snapshot_txid, uploaded, now_ms), done),
    ensures
        captured is Ok <==> position > 0,
        captured matches Ok(snapshot) ==> snapshot == position,
        done is Ok <==> uploaded.level == 0 && uploaded.min_txid.0 == 1 && uploaded.max_txid.0
            == snapshot_txid,
        done matches Ok(result) ==> {
            &&& result.bytes == bytes && result.snapshot_txid == snapshot_txid
            &&& final(cell).durable_txid == snapshot_txid && final(cell).percell_txid
                == snapshot_txid && final(cell).shipped_txid == snapshot_txid && final(cell).submitted_txid == snapshot_txid
            &&& final(cell).req_seq == 0 && final(cell).synced_seq == 0 && final(cell).submitted_seq
                == 0 && final(cell).shipped_seq == 0
            &&& final(cell).last_sync_ms == now_ms
            &&& final(cell).compaction == old(cell).compaction && final(cell).syncing == old(cell).syncing
        },
        done is Err ==> *final(cell) == *old(cell),
{
}

/// A database that was not replaced is told with its cell and epoch or with the
/// positions that did not agree, and a search without a result with what it looked
/// for.
pub proof fn law_refused_rebuild_names_its_reason(
    error: RebuildError,
    cell: &str,
    epoch: u64,
    message: String,
    search: EpochSearch,
    failed: String,
)
    requires
        call_ensures(rebuild_message, (error, cell, epoch), message),
        call_ensures(EpochSearch::failure, (&search, cell), failed),
    ensures
        error is NotResident ==> message@ == "no managed replica for "@ + (cell@ + " epoch "@
            + text::dec(epoch as nat)),
        error is SyncInProgress ==> message@ == "cell "@ + (cell@ + " epoch "@ + text::dec(
            epoch as nat,
        )) + " sync already in progress"@,
        error is ChildIsBranch ==> message@ == "child prefix already has base.json"@,
        error is ParentIsBranch ==> message@ == "parent is already a branch; compact first"@,
        error is EmptyPlan ==> message@ == "parent prefix has no restorable LTX"@,
        error is Corrupted ==> message@ == "parent terminal LTX is corrupted"@,
        error matches RebuildError::BaselineMismatch { expected, found } ==> message@
            == "branch baseline txid mismatch: expected "@ + text::dec(expected as nat) + ", got "@
            + text::dec(found as nat),
        error is NoSnapshot ==> message@ == "import produced no durable snapshot"@,
        error is UploadMismatch ==> message@
            == "import snapshot metadata does not match the captured LTX"@,
        error matches RebuildError::Outside(why) ==> message@ == why@,
        search.hint == 0 ==> failed@ == "parent prefix has no restorable LTX for "@ + cell@,
        search.hint > 0 ==> failed@ == "parent epoch "@ + text::dec(search.hint as nat) + " for "@
            + cell@ + " has no MinTXID==1 LTX (L0 or L9)"@,
{
}

/// A claim and its end leave the registry as it was, but for the cell's counters.
pub proof fn law_claim_leaves_the_registry_alone(
    claiming: &mut LtxRepl,
    cell: &str,
    epoch: u64,
    claim: Result<usize, RebuildError>,
    releasing: &mut LtxRepl,
    place: usize,
)
    requires
        call_ensures(LtxRepl::claim_rebuild, (claiming, cell, epoch), claim),
        call_ensures(LtxRepl::release_rebuild, (releasing, place), ()),
    ensures
        final(claiming).stopped_cells@ == old(claiming).stopped_cells@,
        final(claiming).failed_closes@ == old(claiming).failed_closes@,
        final(claiming).dirty_tails@ == old(claiming).dirty_tails@,
        final(claiming).stopped == old(claiming).stopped,
        final(claiming).close_stopped == old(claiming).close_stopped,
        final(releasing).cells@ == old(releasing).cells@,
        final(releasing).stopped_cells@ == old(releasing).stopped_cells@,
        final(releasing).failed_closes@ == old(releasing).failed_closes@,
        final(releasing).dirty_tails@ == old(releasing).dirty_tails@,
        final(releasing).stopped == old(releasing).stopped,
        final(releasing).close_stopped == old(releasing).close_stopped,
{
}

/// Neither the planning of a branch nor its reading nor its rebuilding changes which
/// cell is branched from which parent.
pub proof fn law_branch_keeps_its_cell_and_parent(
    planning: &mut Branching,
    plan: Vec<FileInfo>,
    planned: Result<(), RebuildError>,
    reading: &mut Branching,
    bytes: Vec<u8>,
    pointer: Result<BasePointer, RebuildError>,
    rebuilding: &mut Branching,
)
    requires
        call_ensures(Branching::planned, (planning, &plan), planned),
        call_ensures(Branching::terminal_read, (reading, &bytes), pointer),
        call_ensures(Branching::rebuilt, (rebuilding,), ()),
    ensures
        final(planning).cell == old(planning).cell && final(planning).parent == old(planning).parent,
        planned is Err ==> final(planning).stage == old(planning).stage,
        final(reading).cell == old(reading).cell && final(reading).parent == old(reading).parent,
        pointer matches Err(error) ==> error is Corrupted,
        final(rebuilding).cell == old(rebuilding).cell && final(rebuilding).parent == old(rebuilding).parent,
{
}

} // verus!
