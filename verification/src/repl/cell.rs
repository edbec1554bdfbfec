//! One resident cell's replication counters.
//!
//! A write takes a ticket and is proven once a completed pass has covered the
//! ticket. `synced_seq` counts the tickets that the bucket covers,
//! `shipped_seq` those that every member of the ensemble has on disk;
//! `submitted_seq` runs ahead of it while a round is in flight. The `_txid`
//! fields are the log positions that go with them.

use vstd::prelude::*;

verus! {

/// What stands behind a durability proof.
#[derive(Clone, Copy, Debug, PartialEq, Eq, Structural)]
pub enum ProofSource {
    /// Every ensemble member confirmed the write.
    Fleet,
    /// The bucket holds the write.
    Bucket,
}

/// The compaction side of a cell.
#[derive(Clone, Copy, Debug)]
pub struct Compaction {
    /// Positions that must have gathered before a round is worth its cost.
    pub min_txids: u64,
    /// Highest position that a round has folded.
    pub compacted_txid: u64,
    /// A round for this cell is queued or runs.
    pub queued: bool,
    /// No further round may be queued.
    pub cancelled: bool,
}

/// The replication counters of one resident cell.
#[derive(Clone, Copy, Debug)]
pub struct CellState {
    /// Tickets handed out.
    pub req_seq: u64,
    /// Highest ticket that the bucket covers.
    pub synced_seq: u64,
    /// Highest ticket that every ensemble member has on disk.
    pub shipped_seq: u64,
    /// Highest ticket in a submitted round.
    pub submitted_seq: u64,
    /// Highest position that the fleet or the bucket was credited with.
    pub shipped_txid: u64,
    /// Highest position in a submitted round.
    pub submitted_txid: u64,
    /// Highest position that the bucket covers, in bundles or in the cell's
    /// own prefix.
    pub durable_txid: u64,
    /// Highest position that the cell's own prefix covers.
    pub percell_txid: u64,
    /// A sync pass for this cell is in flight.
    pub syncing: bool,
    /// When the last sync pass ended.
    pub last_sync_ms: u64,
    pub compaction: Option<Compaction>,
}

/// The larger of two numbers.
pub open spec fn larger(left: u64, right: u64) -> u64 {
    if left < right {
        right
    } else {
        left
    }
}

/// The larger of two numbers.
pub fn max_of(left: u64, right: u64) -> (value: u64)
    ensures
        value == larger(left, right),
{
    if left < right {
        right
    } else {
        left
    }
}

/// A wall clock in milliseconds, where a time before the epoch counts as it.
pub fn clock_ms(wall: i64) -> (now: u64)
    ensures
        now == if wall < 0 {
            0
        } else {
            wall as int
        },
{
    if wall < 0 {
        0
    } else {
        wall as u64
    }
}

impl Compaction {
    /// The state of a cell that was just activated.
    pub fn idle(min_txids: u64) -> (compaction: Self)
        ensures
            compaction == (Compaction {
                min_txids,
                compacted_txid: 0,
                queued: false,
                cancelled: false,
            }),
    {
        Compaction { min_txids, compacted_txid: 0, queued: false, cancelled: false }
    }

    /// Is a round due once the bucket covers `durable_txid`?
    pub open spec fn due(self, durable_txid: u64) -> bool {
        &&& !self.cancelled
        &&& !self.queued
        &&& (if durable_txid < self.compacted_txid {
            0
        } else {
            durable_txid - self.compacted_txid
        }) >= self.min_txids
    }
}

impl CellState {
    /// No counter runs ahead of the one that it can only follow.
    pub open spec fn ordered(self) -> bool {
        &&& self.synced_seq <= self.req_seq
        &&& self.shipped_seq <= self.submitted_seq <= self.req_seq
        &&& self.shipped_txid <= self.submitted_txid
        &&& self.percell_txid <= self.durable_txid
    }

    /// What proves `ticket`, if anything does. The fleet's proof comes first.
    pub open spec fn proven_by(self, ticket: u64) -> Option<ProofSource> {
        if self.shipped_seq >= ticket {
            Some(ProofSource::Fleet)
        } else if self.synced_seq >= ticket {
            Some(ProofSource::Bucket)
        } else {
            None
        }
    }

    /// Highest position that anyone was told is durable.
    pub open spec fn acked(self) -> u64 {
        larger(self.shipped_txid, self.durable_txid)
    }

    /// Highest position that a restore from the cell's own prefix sees.
    pub open spec fn covered(self) -> u64 {
        larger(
            self.percell_txid,
            match self.compaction {
                Some(compaction) => compaction.compacted_txid,
                None => 0,
            },
        )
    }

    /// Are there tickets that the bucket does not cover?
    pub open spec fn dirty(self) -> bool {
        self.req_seq > self.synced_seq
    }

    /// Are there tickets that neither the bucket covers nor a round carries?
    pub open spec fn unshipped(self) -> bool {
        self.req_seq > self.submitted_seq && self.req_seq > self.synced_seq
    }

    /// After a sync pass that covered every ticket up to `captured`, and the
    /// cell's own prefix up to `last` where it uploaded anything.
    pub open spec fn synced(self, captured: u64, last: Option<u64>, now_ms: u64) -> Self {
        CellState {
                synced_seq: larger(self.synced_seq, captured),
                durable_txid: match last {
                    Some(last) => larger(self.durable_txid, last),
                    None => self.durable_txid,
                },
                percell_txid: match last {
                    Some(last) => larger(self.percell_txid, last),
                    None => self.percell_txid,
                },
                last_sync_ms: now_ms,
                ..self
            }
    }

    /// After a bundle that holds this cell up to `position`.
    pub open spec fn bundled(self, tickets: u64, position: u64, now_ms: u64) -> Self {
        CellState {
                synced_seq: larger(self.synced_seq, tickets),
                durable_txid: larger(self.durable_txid, position),
                last_sync_ms: now_ms,
                ..self
            }
    }

    /// After the submission of a round that carries this cell up to `position`.
    pub open spec fn submitted(self, tickets: u64, position: u64) -> Self {
        CellState {
                submitted_txid: larger(self.submitted_txid, position),
                submitted_seq: larger(self.submitted_seq, tickets),
                ..self
            }
    }

    /// After every member confirmed such a round.
    pub open spec fn shipped(self, tickets: u64, position: u64) -> Self {
        CellState {
                shipped_txid: larger(self.shipped_txid, position),
                shipped_seq: larger(self.shipped_seq, tickets),
                ..self
            }
    }

    /// After the rounds in flight were discarded.
    pub open spec fn rolled_back(self) -> Self {
        CellState {
                submitted_txid: self.shipped_txid,
                submitted_seq: self.shipped_seq,
                ..self
            }
    }

    /// A cell that was just opened at position `seed`. Everything up to there
    /// came from the bucket or from a proven snapshot.
    pub fn activated(seed: Option<u64>, now_ms: u64, min_txids: Option<u64>) -> (cell: Self)
        ensures
            cell.ordered(),
            ({
                let start = match seed {
                    Some(txid) => txid,
                    None => 0,
                };
                cell == (CellState {
                    req_seq: 0,
                    synced_seq: 0,
                    shipped_seq: 0,
                    submitted_seq: 0,
                    shipped_txid: start,
                    submitted_txid: start,
                    durable_txid: start,
                    percell_txid: start,
                    syncing: false,
                    last_sync_ms: now_ms,
                    compaction: match min_txids {
                        Some(min_txids) => Some(
                            Compaction {
                                min_txids,
                                compacted_txid: 0,
                                queued: false,
                                cancelled: false,
                            },
                        ),
                        None => None,
                    },
                })
            }),
    {
        let start: u64 = match seed {
            Some(txid) => txid,
            None => 0,
        };
        CellState {
            req_seq: 0,
            synced_seq: 0,
            shipped_seq: 0,
            submitted_seq: 0,
            shipped_txid: start,
            submitted_txid: start,
            durable_txid: start,
            percell_txid: start,
            syncing: false,
            last_sync_ms: now_ms,
            compaction: match min_txids {
                Some(min_txids) => Some(Compaction::idle(min_txids)),
                None => None,
            },
        }
    }

    /// Take a ticket for a write that has committed. It is proven by any pass
    /// that starts after this.
    pub fn take_ticket(&mut self) -> (ticket: u64)
        requires
            old(self).req_seq < u64::MAX,
        ensures
            ticket == old(self).req_seq + 1,
            *final(self) == (CellState { req_seq: ticket, ..*old(self) }),
            old(self).ordered() ==> final(self).ordered() && final(self).proven_by(ticket) is None,
    {
        self.req_seq = self.req_seq + 1;
        self.req_seq
    }

    /// What proves `ticket`, if anything does.
    pub fn proof_for(&self, ticket: u64) -> (source: Option<ProofSource>)
        ensures
            source == self.proven_by(ticket),
    {
        if self.shipped_seq >= ticket {
            Some(ProofSource::Fleet)
        } else if self.synced_seq >= ticket {
            Some(ProofSource::Bucket)
        } else {
            None
        }
    }

    /// A sync pass ended well: it covered every ticket up to `captured`, and
    /// the cell's own prefix up to `last` where it uploaded anything.
    pub fn credit_sync(&mut self, captured: u64, last: Option<u64>, now_ms: u64)
        ensures
            *final(self) == old(self).synced(captured, last, now_ms),
            old(self).ordered() && captured <= old(self).req_seq ==> final(self).ordered(),
    {
        if let Some(last) = last {
            self.durable_txid = max_of(self.durable_txid, last);
            self.percell_txid = max_of(self.percell_txid, last);
        }
        self.synced_seq = max_of(self.synced_seq, captured);
        self.last_sync_ms = now_ms;
    }

    /// A bundle that holds this cell up to `position` is in the bucket. The
    /// cell's own prefix does not move.
    pub fn credit_bundle(&mut self, tickets: u64, position: u64, now_ms: u64)
        ensures
            *final(self) == old(self).bundled(tickets, position, now_ms),
            old(self).ordered() && tickets <= old(self).req_seq ==> final(self).ordered(),
    {
        self.durable_txid = max_of(self.durable_txid, position);
        self.synced_seq = max_of(self.synced_seq, tickets);
        self.last_sync_ms = now_ms;
    }

    /// A round that carries this cell up to `position` was submitted.
    pub fn note_submitted(&mut self, tickets: u64, position: u64)
        ensures
            *final(self) == old(self).submitted(tickets, position),
            old(self).ordered() && tickets <= old(self).req_seq ==> final(self).ordered(),
    {
        self.submitted_txid = max_of(self.submitted_txid, position);
        self.submitted_seq = max_of(self.submitted_seq, tickets);
    }

    /// Every member confirmed a round that carried this cell up to `position`.
    pub fn credit_shipped(&mut self, tickets: u64, position: u64)
        ensures
            *final(self) == old(self).shipped(tickets, position),
            old(self).ordered() && tickets <= old(self).submitted_seq && position <= old(
                self,
            ).submitted_txid ==> final(self).ordered(),
    {
        self.shipped_txid = max_of(self.shipped_txid, position);
        self.shipped_seq = max_of(self.shipped_seq, tickets);
    }

    /// The rounds in flight were discarded: what was not credited is to be
    /// captured again.
    pub fn roll_back_submitted(&mut self)
        ensures
            *final(self) == old(self).rolled_back(),
            old(self).ordered() ==> final(self).ordered(),
    {
        self.submitted_txid = self.shipped_txid;
        self.submitted_seq = self.shipped_seq;
    }

    /// The cell was rebuilt from a parent at `fork_txid`. Its own prefix holds
    /// nothing yet.
    pub fn reset_to_branch(&mut self, fork_txid: u64)
        ensures
            *final(self) == (CellState {
                req_seq: 0,
                synced_seq: 0,
                submitted_seq: 0,
                shipped_seq: 0,
                submitted_txid: fork_txid,
                shipped_txid: fork_txid,
                durable_txid: fork_txid,
                percell_txid: 0,
                last_sync_ms: 0,
                ..*old(self)
            }),
            final(self).ordered(),
    {
        self.req_seq = 0;
        self.synced_seq = 0;
        self.submitted_seq = 0;
        self.shipped_seq = 0;
        self.submitted_txid = fork_txid;
        self.shipped_txid = fork_txid;
        self.durable_txid = fork_txid;
        self.percell_txid = 0;
        self.last_sync_ms = 0;
    }

    /// The cell was replaced by an imported database whose snapshot ends at
    /// `snapshot_txid` and is in the cell's own prefix.
    pub fn reset_to_import(&mut self, snapshot_txid: u64, now_ms: u64)
        ensures
            *final(self) == (CellState {
                req_seq: 0,
                synced_seq: 0,
                submitted_seq: 0,
                shipped_seq: 0,
                submitted_txid: snapshot_txid,
                shipped_txid: snapshot_txid,
                durable_txid: snapshot_txid,
                percell_txid: snapshot_txid,
                last_sync_ms: now_ms,
                ..*old(self)
            }),
            final(self).ordered(),
            !final(self).undrained(),
    {
        self.req_seq = 0;
        self.synced_seq = 0;
        self.submitted_seq = 0;
        self.shipped_seq = 0;
        self.submitted_txid = snapshot_txid;
        self.shipped_txid = snapshot_txid;
        self.durable_txid = snapshot_txid;
        self.percell_txid = snapshot_txid;
        self.last_sync_ms = now_ms;
    }

    /// Would an end here leave acknowledged positions where no restore of the
    /// cell's own prefix looks?
    pub open spec fn undrained(self) -> bool {
        self.acked() > self.covered()
    }

    /// Would an end here leave acknowledged positions where no restore of the
    /// cell's own prefix looks?
    pub fn has_undrained_tail(&self) -> (undrained: bool)
        ensures
            undrained == self.undrained(),
    {
        let acked = max_of(self.shipped_txid, self.durable_txid);
        let compacted: u64 = match &self.compaction {
            Some(compaction) => compaction.compacted_txid,
            None => 0,
        };
        acked > max_of(self.percell_txid, compacted)
    }

    /// Has every position that a member was given reached the bucket?
    pub fn shipped_is_tiered(&self) -> (tiered: bool)
        ensures
            tiered == (self.durable_txid >= self.shipped_txid),
    {
        self.durable_txid >= self.shipped_txid
    }

    /// Is a compaction round due once the bucket covers `durable_txid`?
    pub open spec fn compaction_due(self, durable_txid: u64) -> bool {
        self.compaction matches Some(compaction) && compaction.due(durable_txid)
    }

    /// After the next compaction round was claimed, where one is due.
    pub open spec fn compaction_claimed(self, durable_txid: u64) -> Self {
        if self.compaction_due(durable_txid) {
            CellState {
                compaction: Some(Compaction { queued: true, ..self.compaction->0 }),
                ..self
            }
        } else {
            self
        }
    }

    /// Claim the next compaction round where one is due.
    pub fn claim_compaction(&mut self, durable_txid: u64) -> (claimed: bool)
        ensures
            claimed == old(self).compaction_due(durable_txid),
            *final(self) == old(self).compaction_claimed(durable_txid),
    {
        match self.compaction {
            Some(compaction) => {
                if compaction.cancelled || durable_txid.saturating_sub(compaction.compacted_txid)
                    < compaction.min_txids || compaction.queued {
                    return false;
                }
                self.compaction = Some(Compaction { queued: true, ..compaction });
                true
            },
            None => false,
        }
    }

    /// The queue did not take the claimed round.
    pub fn release_compaction(&mut self)
        ensures
            *final(self) == (CellState {
                compaction: match old(self).compaction {
                    Some(compaction) => Some(Compaction { queued: false, ..compaction }),
                    None => None,
                },
                ..*old(self)
            }),
    {
        if let Some(compaction) = self.compaction {
            self.compaction = Some(Compaction { queued: false, ..compaction });
        }
    }

    /// Allow no further compaction round.
    pub fn cancel_compaction(&mut self)
        ensures
            *final(self) == (CellState {
                compaction: match old(self).compaction {
                    Some(compaction) => Some(Compaction { cancelled: true, ..compaction }),
                    None => None,
                },
                ..*old(self)
            }),
            final(self).compaction is Some ==> forall|durable_txid: u64|
                !#[trigger] final(self).compaction->0.due(durable_txid),
    {
        if let Some(compaction) = self.compaction {
            self.compaction = Some(Compaction { cancelled: true, ..compaction });
        }
    }

    /// Claim the cell for one sync pass.
    pub fn claim_sync(&mut self) -> (claimed: bool)
        ensures
            claimed == !old(self).syncing,
            *final(self) == (CellState { syncing: true, ..*old(self) }),
    {
        let claimed = !self.syncing;
        self.syncing = true;
        claimed
    }

    /// The sync pass is over. Is the cell still dirty?
    pub fn release_sync(&mut self) -> (dirty: bool)
        ensures
            *final(self) == (CellState { syncing: false, ..*old(self) }),
            dirty == old(self).dirty(),
    {
        self.syncing = false;
        self.req_seq > self.synced_seq
    }
}

/// How a durability wait goes on.
#[derive(Clone, Copy, Debug, PartialEq, Eq, Structural)]
pub enum WaitStep {
    /// The ticket is proven.
    Proven(ProofSource),
    /// Wait for the next wake-up or for the deadline.
    Wait,
    /// The deadline passed first.
    TimedOut,
}

/// One turn of a durability wait: the proof is looked for on entry and at
/// every wake-up, and the deadline ends the wait without another look.
pub fn wait_step(cell: &CellState, ticket: u64, timed_out: bool) -> (step: WaitStep)
    ensures
        step == if timed_out {
            WaitStep::TimedOut
        } else {
            match cell.proven_by(ticket) {
                Some(source) => WaitStep::Proven(source),
                None => WaitStep::Wait,
            }
        },
{
    if timed_out {
        return WaitStep::TimedOut;
    }
    match cell.proof_for(ticket) {
        Some(source) => WaitStep::Proven(source),
        None => WaitStep::Wait,
    }
}

/// A proof, once given, stays: no credit, submission or roll-back takes it
/// back, and neither does another ticket.
pub proof fn law_proof_is_kept(
    cell: CellState,
    ticket: u64,
    tickets: u64,
    position: u64,
    last: Option<u64>,
    now_ms: u64,
)
    requires
        cell.proven_by(ticket) is Some,
    ensures
        cell.synced(tickets, last, now_ms).proven_by(ticket) is Some,
        cell.bundled(tickets, position, now_ms).proven_by(ticket) is Some,
        cell.submitted(tickets, position).proven_by(ticket) is Some,
        cell.shipped(tickets, position).proven_by(ticket) is Some,
        cell.rolled_back().proven_by(ticket) is Some,
        (CellState { req_seq: tickets, ..cell }).proven_by(ticket) is Some,
{
}

/// A ticket that was taken after a pass had read the counter is not proven by
/// that pass, in any tier.
pub proof fn law_late_ticket_is_not_proven(
    cell: CellState,
    captured: u64,
    late: u64,
    position: u64,
    last: Option<u64>,
    now_ms: u64,
)
    requires
        captured < late,
        cell.proven_by(late) is None,
    ensures
        cell.synced(captured, last, now_ms).proven_by(late) is None,
        cell.bundled(captured, position, now_ms).proven_by(late) is None,
        cell.shipped(captured, position).proven_by(late) is None,
{
}

/// A pass proves every ticket that it covers.
pub proof fn law_covered_ticket_is_proven(
    cell: CellState,
    captured: u64,
    ticket: u64,
    position: u64,
    last: Option<u64>,
    now_ms: u64,
)
    requires
        ticket <= captured,
    ensures
        cell.synced(captured, last, now_ms).proven_by(ticket) is Some,
        cell.bundled(captured, position, now_ms).proven_by(ticket) is Some,
        cell.shipped(captured, position).proven_by(ticket) == Some(ProofSource::Fleet),
{
}

/// A submission alone proves nothing.
pub proof fn law_submission_proves_nothing(
    cell: CellState,
    tickets: u64,
    position: u64,
    ticket: u64,
)
    ensures
        cell.submitted(tickets, position).proven_by(ticket) == cell.proven_by(ticket),
        cell.submitted(tickets, position).rolled_back().proven_by(ticket) == cell.proven_by(
            ticket,
        ),
{
}

/// A cell whose own prefix covers all that the bucket and the fleet were
/// credited with leaves no tail behind; one that only bundles cover does.
pub proof fn law_tail_is_what_the_prefix_lacks(cell: CellState)
    ensures
        cell.percell_txid >= cell.shipped_txid && cell.percell_txid >= cell.durable_txid
            ==> !cell.undrained(),
        cell.durable_txid > cell.covered() ==> cell.undrained(),
        cell.shipped_txid > cell.covered() ==> cell.undrained(),
{
}

/// A ticket is proven exactly when one of the two tiers has reached it, and the
/// fleet's proof is named wherever there is one.
pub proof fn law_ticket_is_proven_by_either_tier(
    cell: CellState,
    ticket: u64,
    source: Option<ProofSource>,
)
    requires
        call_ensures(CellState::proof_for, (&cell, ticket), source),
    ensures
        source is None <==> ticket > cell.shipped_seq && ticket > cell.synced_seq,
        source == Some(ProofSource::Fleet) <==> ticket <= cell.shipped_seq,
        source == Some(ProofSource::Bucket) <==> cell.shipped_seq < ticket <= cell.synced_seq,
{
}

/// Whoever proves a ticket has proven the ones before it.
pub proof fn law_earlier_tickets_are_proven_too(
    cell: CellState,
    early: u64,
    late: u64,
    early_source: Option<ProofSource>,
    late_source: Option<ProofSource>,
)
    requires
        early <= late,
        call_ensures(CellState::proof_for, (&cell, early), early_source),
        call_ensures(CellState::proof_for, (&cell, late), late_source),
    ensures
        late_source is Some ==> early_source is Some,
        late_source == Some(ProofSource::Fleet) ==> early_source == Some(ProofSource::Fleet),
{
}

/// Each ticket is new: it is above every ticket that was handed out before, and
/// it makes the cell dirty without touching what is proven.
pub proof fn law_ticket_is_new(cell: &mut CellState, ticket: u64)
    requires
        call_ensures(CellState::take_ticket, (cell,), ticket),
    ensures
        ticket > old(cell).req_seq,
        ticket - old(cell).req_seq == 1,
        final(cell).req_seq == ticket,
        final(cell).synced_seq == old(cell).synced_seq,
        final(cell).shipped_seq == old(cell).shipped_seq,
        final(cell).submitted_seq == old(cell).submitted_seq,
        old(cell).synced_seq <= old(cell).req_seq ==> final(cell).req_seq > final(cell).synced_seq,
        final(cell).durable_txid == old(cell).durable_txid,
        final(cell).percell_txid == old(cell).percell_txid,
        final(cell).compaction == old(cell).compaction,
        final(cell).syncing == old(cell).syncing,
        final(cell).last_sync_ms == old(cell).last_sync_ms,
{
}

/// A pass that captured a ticket proves it by the bucket, and takes the bucket's
/// coverage up to what it uploaded and never back.
pub proof fn law_sync_reaches_what_it_uploaded(
    cell: &mut CellState,
    captured: u64,
    last: Option<u64>,
    now_ms: u64,
)
    requires
        call_ensures(CellState::credit_sync, (cell, captured, last, now_ms), ()),
    ensures
        final(cell).synced_seq >= captured,
        final(cell).synced_seq >= old(cell).synced_seq,
        final(cell).synced_seq == captured || final(cell).synced_seq == old(cell).synced_seq,
        final(cell).durable_txid >= old(cell).durable_txid,
        final(cell).percell_txid >= old(cell).percell_txid,
        last matches Some(last) ==> {
            &&& final(cell).durable_txid >= last && final(cell).percell_txid >= last
            &&& final(cell).durable_txid == last || final(cell).durable_txid == old(cell).durable_txid
            &&& final(cell).percell_txid == last || final(cell).percell_txid == old(cell).percell_txid
        },
        last is None ==> final(cell).durable_txid == old(cell).durable_txid && final(cell).percell_txid == old(cell).percell_txid,
        final(cell).last_sync_ms == now_ms,
        final(cell).req_seq == old(cell).req_seq,
        final(cell).shipped_seq == old(cell).shipped_seq,
        final(cell).shipped_txid == old(cell).shipped_txid,
        final(cell).submitted_seq == old(cell).submitted_seq,
        final(cell).submitted_txid == old(cell).submitted_txid,
        final(cell).syncing == old(cell).syncing,
        final(cell).compaction == old(cell).compaction,
{
}

/// A bundle takes the bucket's coverage up to where it carries the cell, and the
/// cell's own prefix nowhere.
pub proof fn law_bundle_reaches_its_position(
    cell: &mut CellState,
    tickets: u64,
    position: u64,
    now_ms: u64,
)
    requires
        call_ensures(CellState::credit_bundle, (cell, tickets, position, now_ms), ()),
    ensures
        final(cell).synced_seq >= tickets,
        final(cell).synced_seq >= old(cell).synced_seq,
        final(cell).synced_seq == tickets || final(cell).synced_seq == old(cell).synced_seq,
        final(cell).durable_txid >= position,
        final(cell).durable_txid >= old(cell).durable_txid,
        final(cell).durable_txid == position || final(cell).durable_txid == old(cell).durable_txid,
        final(cell).percell_txid == old(cell).percell_txid,
        final(cell).last_sync_ms == now_ms,
        final(cell).req_seq == old(cell).req_seq,
        final(cell).shipped_seq == old(cell).shipped_seq,
        final(cell).shipped_txid == old(cell).shipped_txid,
        final(cell).submitted_seq == old(cell).submitted_seq,
        final(cell).submitted_txid == old(cell).submitted_txid,
        final(cell).syncing == old(cell).syncing,
        final(cell).compaction == old(cell).compaction,
{
}

/// A submission only moves what is in flight, up to what the round carries.
pub proof fn law_submission_moves_what_is_in_flight(
    cell: &mut CellState,
    tickets: u64,
    position: u64,
)
    requires
        call_ensures(CellState::note_submitted, (cell, tickets, position), ()),
    ensures
        final(cell).submitted_seq >= tickets,
        final(cell).submitted_seq >= old(cell).submitted_seq,
        final(cell).submitted_seq == tickets || final(cell).submitted_seq == old(cell).submitted_seq,
        final(cell).submitted_txid >= position,
        final(cell).submitted_txid >= old(cell).submitted_txid,
        final(cell).submitted_txid == position || final(cell).submitted_txid == old(cell).submitted_txid,
        final(cell).shipped_seq == old(cell).shipped_seq,
        final(cell).shipped_txid == old(cell).shipped_txid,
        final(cell).synced_seq == old(cell).synced_seq,
        final(cell).durable_txid == old(cell).durable_txid,
        final(cell).percell_txid == old(cell).percell_txid,
        final(cell).req_seq == old(cell).req_seq,
        final(cell).syncing == old(cell).syncing,
        final(cell).last_sync_ms == old(cell).last_sync_ms,
        final(cell).compaction == old(cell).compaction,
{
}

/// A confirmed round proves by the fleet what it carried, and nothing that it
/// did not.
pub proof fn law_confirmation_reaches_what_the_round_carried(
    cell: &mut CellState,
    tickets: u64,
    position: u64,
)
    requires
        call_ensures(CellState::credit_shipped, (cell, tickets, position), ()),
    ensures
        final(cell).shipped_seq >= tickets,
        final(cell).shipped_seq >= old(cell).shipped_seq,
        final(cell).shipped_seq == tickets || final(cell).shipped_seq == old(cell).shipped_seq,
        final(cell).shipped_txid >= position,
        final(cell).shipped_txid >= old(cell).shipped_txid,
        final(cell).shipped_txid == position || final(cell).shipped_txid == old(cell).shipped_txid,
        final(cell).submitted_seq == old(cell).submitted_seq,
        final(cell).submitted_txid == old(cell).submitted_txid,
        final(cell).synced_seq == old(cell).synced_seq,
        final(cell).durable_txid == old(cell).durable_txid,
        final(cell).percell_txid == old(cell).percell_txid,
        final(cell).req_seq == old(cell).req_seq,
        final(cell).syncing == old(cell).syncing,
        final(cell).last_sync_ms == old(cell).last_sync_ms,
        final(cell).compaction == old(cell).compaction,
{
}

/// A roll-back leaves nothing in flight, and neither a proof nor a ticket is
/// lost by it.
pub proof fn law_roll_back_leaves_nothing_in_flight(cell: &mut CellState)
    requires
        call_ensures(CellState::roll_back_submitted, (cell,), ()),
    ensures
        final(cell).submitted_seq == final(cell).shipped_seq,
        final(cell).submitted_txid == final(cell).shipped_txid,
        final(cell).shipped_seq == old(cell).shipped_seq,
        final(cell).shipped_txid == old(cell).shipped_txid,
        final(cell).synced_seq == old(cell).synced_seq,
        final(cell).durable_txid == old(cell).durable_txid,
        final(cell).percell_txid == old(cell).percell_txid,
        final(cell).req_seq == old(cell).req_seq,
        final(cell).syncing == old(cell).syncing,
        final(cell).last_sync_ms == old(cell).last_sync_ms,
        final(cell).compaction == old(cell).compaction,
{
}

/// A cell starts clean at the position that it was opened at: no ticket is out,
/// nothing is in flight, no tail is left behind, and its compaction starts from
/// nothing.
pub proof fn law_activated_cell_starts_clean(
    seed: Option<u64>,
    now_ms: u64,
    min_txids: Option<u64>,
    cell: CellState,
    tail: bool,
)
    requires
        call_ensures(CellState::activated, (seed, now_ms, min_txids), cell),
        call_ensures(CellState::has_undrained_tail, (&cell,), tail),
    ensures
        cell.req_seq == 0 && cell.synced_seq == 0 && cell.shipped_seq == 0 && cell.submitted_seq
            == 0,
        !tail,
        !cell.syncing,
        cell.last_sync_ms == now_ms,
        seed matches Some(txid) ==> cell.durable_txid == txid && cell.percell_txid == txid
            && cell.shipped_txid == txid && cell.submitted_txid == txid,
        seed is None ==> cell.durable_txid == 0 && cell.percell_txid == 0 && cell.shipped_txid == 0
            && cell.submitted_txid == 0,
        cell.compaction is Some <==> min_txids is Some,
        cell.compaction matches Some(compaction) ==> min_txids == Some(compaction.min_txids)
            && compaction.compacted_txid == 0 && !compaction.queued && !compaction.cancelled,
{
}

/// A branched cell stands at its fork with an empty prefix: no ticket is out,
/// and what its parent holds is a tail until its own prefix does.
pub proof fn law_branch_starts_at_its_fork(cell: &mut CellState, fork_txid: u64)
    requires
        call_ensures(CellState::reset_to_branch, (cell, fork_txid), ()),
    ensures
        final(cell).req_seq == 0 && final(cell).synced_seq == 0 && final(cell).shipped_seq == 0
            && final(cell).submitted_seq == 0,
        final(cell).durable_txid == fork_txid && final(cell).shipped_txid == fork_txid && final(cell).submitted_txid == fork_txid,
        final(cell).percell_txid == 0,
        final(cell).last_sync_ms == 0,
        final(cell).syncing == old(cell).syncing,
        final(cell).compaction == old(cell).compaction,
{
}

/// An imported cell stands at its snapshot, which its own prefix holds: no
/// ticket is out and no tail is left behind.
pub proof fn law_import_starts_at_its_snapshot(cell: &mut CellState, snapshot_txid: u64, now_ms: u64)
    requires
        call_ensures(CellState::reset_to_import, (cell, snapshot_txid, now_ms), ()),
    ensures
        final(cell).req_seq == 0 && final(cell).synced_seq == 0 && final(cell).shipped_seq == 0
            && final(cell).submitted_seq == 0,
        final(cell).durable_txid == snapshot_txid && final(cell).percell_txid == snapshot_txid
            && final(cell).shipped_txid == snapshot_txid && final(cell).submitted_txid
            == snapshot_txid,
        final(cell).last_sync_ms == now_ms,
        final(cell).syncing == old(cell).syncing,
        final(cell).compaction == old(cell).compaction,
{
}

/// There is a tail exactly where the fleet or the bucket was credited with a
/// position that lies above both the cell's own prefix and its last fold.
pub proof fn law_tail_lies_above_the_prefix_and_the_fold(cell: CellState, tail: bool)
    requires
        call_ensures(CellState::has_undrained_tail, (&cell,), tail),
    ensures
        tail <==> {
            let fold: int = if cell.compaction is Some {
                cell.compaction->0.compacted_txid as int
            } else {
                0
            };
            ||| cell.shipped_txid > cell.percell_txid && cell.shipped_txid > fold
            ||| cell.durable_txid > cell.percell_txid && cell.durable_txid > fold
        },
{
}

/// What the fleet was given is in the bucket exactly when the bucket reaches as
/// far as the fleet.
pub proof fn law_tiered_cell_reaches_the_bucket(cell: CellState, tiered: bool)
    requires
        call_ensures(CellState::shipped_is_tiered, (&cell,), tiered),
    ensures
        tiered <==> !(cell.shipped_txid > cell.durable_txid),
{
}

/// A round is claimed exactly when enough positions have gathered behind the
/// last fold, none is claimed already and none is forbidden. Nothing else about
/// the cell changes.
pub proof fn law_round_is_claimed_once_enough_has_gathered(
    cell: &mut CellState,
    durable_txid: u64,
    claimed: bool,
)
    requires
        call_ensures(CellState::claim_compaction, (cell, durable_txid), claimed),
    ensures
        claimed <==> (old(cell).compaction matches Some(compaction) && !compaction.queued
            && !compaction.cancelled && (compaction.min_txids == 0 || durable_txid
            >= compaction.compacted_txid + compaction.min_txids)),
        claimed ==> (final(cell).compaction matches Some(compaction) && compaction.queued
            && compaction.compacted_txid == old(cell).compaction->0.compacted_txid
            && compaction.min_txids == old(cell).compaction->0.min_txids && !compaction.cancelled),
        !claimed ==> final(cell).compaction == old(cell).compaction,
        final(cell).req_seq == old(cell).req_seq,
        final(cell).synced_seq == old(cell).synced_seq,
        final(cell).shipped_seq == old(cell).shipped_seq,
        final(cell).submitted_seq == old(cell).submitted_seq,
        final(cell).shipped_txid == old(cell).shipped_txid,
        final(cell).submitted_txid == old(cell).submitted_txid,
        final(cell).durable_txid == old(cell).durable_txid,
        final(cell).percell_txid == old(cell).percell_txid,
        final(cell).syncing == old(cell).syncing,
        final(cell).last_sync_ms == old(cell).last_sync_ms,
{
}

/// A round that was given back can be claimed again, and one that was forbidden
/// never is.
pub proof fn law_released_round_can_be_claimed_again(
    claiming: &mut CellState,
    releasing: &mut CellState,
    again: &mut CellState,
    durable_txid: u64,
    second: bool,
)
    requires
        call_ensures(CellState::claim_compaction, (claiming, durable_txid), true),
        *old(releasing) == *final(claiming),
        call_ensures(CellState::release_compaction, (releasing,), ()),
        *old(again) == *final(releasing),
        call_ensures(CellState::claim_compaction, (again, durable_txid), second),
    ensures
        *final(releasing) == *old(claiming),
        second,
{
}

/// After a cancellation no round is claimed, however far the bucket reaches.
pub proof fn law_cancelled_cell_is_never_claimed(
    cancelling: &mut CellState,
    claiming: &mut CellState,
    durable_txid: u64,
    claimed: bool,
)
    requires
        call_ensures(CellState::cancel_compaction, (cancelling,), ()),
        *old(claiming) == *final(cancelling),
        call_ensures(CellState::claim_compaction, (claiming, durable_txid), claimed),
    ensures
        !claimed,
        final(cancelling).compaction is Some <==> old(cancelling).compaction is Some,
        final(cancelling).compaction matches Some(compaction) ==> compaction.compacted_txid == old(cancelling).compaction->0.compacted_txid && compaction.queued == old(cancelling).compaction->0.queued,
        final(cancelling).durable_txid == old(cancelling).durable_txid,
        final(cancelling).synced_seq == old(cancelling).synced_seq,
{
}

/// Two claims of a cell without a release between them: the second fails. After
/// a release the cell can be claimed again, and what the release says of it is
/// whether the bucket lacks a ticket.
pub proof fn law_sync_is_claimed_by_one_pass(
    first: &mut CellState,
    second: &mut CellState,
    release: &mut CellState,
    third: &mut CellState,
    one: bool,
    two: bool,
    dirty: bool,
    three: bool,
)
    requires
        call_ensures(CellState::claim_sync, (first,), one),
        *old(second) == *final(first),
        call_ensures(CellState::claim_sync, (second,), two),
        *old(release) == *final(second),
        call_ensures(CellState::release_sync, (release,), dirty),
        *old(third) == *final(release),
        call_ensures(CellState::claim_sync, (third,), three),
    ensures
        one <==> !old(first).syncing,
        !two,
        three,
        dirty <==> old(first).req_seq > old(first).synced_seq,
        !old(first).syncing ==> *final(release) == *old(first),
{
}

/// A wait ends with a proof as soon as a tier has reached the ticket, unless its
/// time is up, and goes on otherwise.
pub proof fn law_wait_ends_with_the_proof(
    cell: CellState,
    ticket: u64,
    timed_out: bool,
    step: WaitStep,
)
    requires
        call_ensures(wait_step, (&cell, ticket, timed_out), step),
    ensures
        step is TimedOut <==> timed_out,
        step is Proven <==> !timed_out && (ticket <= cell.shipped_seq || ticket
            <= cell.synced_seq),
        step is Wait <==> !timed_out && ticket > cell.shipped_seq && ticket > cell.synced_seq,
        step matches WaitStep::Proven(source) ==> (source is Fleet <==> ticket
            <= cell.shipped_seq),
{
}

/// The clock never runs before the epoch and tells every later time as it is.
pub proof fn law_clock_tells_the_time(wall: i64, now: u64)
    requires
        call_ensures(clock_ms, (wall,), now),
    ensures
        wall >= 0 ==> now == wall,
        wall < 0 ==> now == 0,
{
}

/// The larger of two numbers is one of them and no smaller than either.
pub proof fn law_larger_is_one_of_the_two(left: u64, right: u64, value: u64)
    requires
        call_ensures(max_of, (left, right), value),
    ensures
        value == left || value == right,
        value >= left && value >= right,
        value == larger(left, right),
{
}

} // verus!
