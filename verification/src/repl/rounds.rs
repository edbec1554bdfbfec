//! The group-commit loop: what it waits for, what it captures, and how the
//! rounds in flight are credited.

use vstd::prelude::*;
use crate::repl::cell;
use crate::repl::cell::CellState;
use crate::repl::ship;
use crate::repl::ship::{Batch, Credit, Crediting, ShipEntry, ShipLedger};

verus! {

/// A submitted round that is not confirmed yet.
pub struct PendingRound {
    pub credits: Vec<Credit>,
    /// The truncation mark that the round carried.
    pub covered_seq: u64,
}

impl PendingRound {
    /// Every credit of the round names one of `count` cells.
    pub open spec fn fits(self, count: int) -> bool {
        ship::credits_fit(self.credits@, count)
    }

    /// Each cell of the round knows that it was submitted.
    pub open spec fn carried(self, cells: Seq<CellState>) -> bool {
        forall|i: int|
            0 <= i < self.credits@.len() ==> {
                let credit = #[trigger] self.credits@[i];
                &&& credit.cell < cells.len()
                &&& credit.tickets <= cells[credit.cell as int].submitted_seq
                &&& credit.position <= cells[credit.cell as int].submitted_txid
            }
    }
}

/// What the loop waits for before its next turn.
#[derive(Clone, Copy, Debug, PartialEq, Eq, Structural)]
pub enum ShipWait {
    /// A ticket or the fallback tick.
    Work,
    /// The oldest round in flight: the shipper takes no more.
    Round,
    /// The oldest round in flight, a ticket or the fallback tick, in this order.
    RoundOrWork,
}

/// The state of the group-commit loop.
pub struct ShipLoop {
    pub ledger: ShipLedger,
    /// Rounds in flight, oldest first.
    pub inflight: Vec<PendingRound>,
    /// The log epoch that the rounds belong to.
    pub epoch: Option<u64>,
    /// The stop was seen: nothing more is shipped.
    pub stopped: bool,
}

/// What a capture led to.
pub enum CaptureOutcome {
    /// No cell was captured completely.
    Nothing,
    /// The bucket has every frame already; these cells are to be woken.
    Settled(Vec<usize>),
    /// Ship the batch under this epoch with this truncation mark.
    Submit { epoch: u64, batch: Vec<ShipEntry>, covered_seq: u64 },
}

/// One step of the group-commit loop.
pub enum LoopStep {
    /// The stop was seen.
    Stop,
    /// The installed shipper was looked at.
    Observe { active_epoch: Option<u64> },
    /// A capture was finished.
    Capture { credits: Vec<Credit>, batch: Vec<ShipEntry>, outcome: CaptureOutcome },
    /// The oldest round in flight was over.
    Complete { last_seq: Option<u64> },
}

/// The cells that a list of credits names, in order.
pub open spec fn named(credits: Seq<Credit>) -> Seq<usize> {
    credits.map_values(|credit: Credit| credit.cell)
}

/// The cells of a round and the position that each reached.
pub open spec fn tops_of(credits: Seq<Credit>) -> Seq<(usize, u64)> {
    credits.map_values(|credit: Credit| (credit.cell, credit.position))
}

fn cells_of(credits: &Vec<Credit>) -> (places: Vec<usize>)
    ensures
        places@ == named(credits@),
{
    let mut places: Vec<usize> = Vec::new();
    let mut at: usize = 0;
    while at < credits.len()
        invariant
            at <= credits@.len(),
            places@ == named(credits@).take(at as int),
        decreases credits@.len() - at,
    {
        places.push(credits[at].cell);
        assert(places@ =~= named(credits@).take(at + 1));
        at = at + 1;
    }
    assert(places@ =~= named(credits@));
    places
}

fn tops(credits: &Vec<Credit>) -> (list: Vec<(usize, u64)>)
    ensures
        list@ == tops_of(credits@),
{
    let mut list: Vec<(usize, u64)> = Vec::new();
    let mut at: usize = 0;
    while at < credits.len()
        invariant
            at <= credits@.len(),
            list@ == tops_of(credits@).take(at as int),
        decreases credits@.len() - at,
    {
        list.push((credits[at].cell, credits[at].position));
        assert(list@ =~= tops_of(credits@).take(at + 1));
        at = at + 1;
    }
    assert(list@ =~= tops_of(credits@));
    list
}

/// A submission moves no mark back, and each credit finds its own marks there.
proof fn lemma_submitted_marks(cells: Seq<CellState>, credits: Seq<Credit>)
    requires
        ship::credits_fit(credits, cells.len() as int),
    ensures
        ({
            let after = ship::credited(cells, credits, ship::submit_change());
            &&& after.len() == cells.len()
            &&& forall|i: int|
                0 <= i < cells.len() ==> (#[trigger] after[i]).submitted_seq >= cells[i].submitted_seq
                    && after[i].submitted_txid >= cells[i].submitted_txid
            &&& forall|k: int|
                0 <= k < credits.len() ==> {
                    let credit = #[trigger] credits[k];
                    &&& credit.tickets <= after[credit.cell as int].submitted_seq
                    &&& credit.position <= after[credit.cell as int].submitted_txid
                }
        }),
    decreases credits.len(),
{
    if credits.len() > 0 {
        let rest = credits.drop_last();
        assert forall|i: int| 0 <= i < rest.len() implies (#[trigger] rest[i]).cell
            < cells.len() by {
            assert(rest[i] == credits[i]);
        }
        lemma_submitted_marks(cells, rest);
        let before = ship::credited(cells, rest, ship::submit_change());
        let after = ship::credited(cells, credits, ship::submit_change());
        assert(credits.last() == credits[credits.len() - 1]);
        assert forall|k: int| 0 <= k < credits.len() implies {
            let credit = #[trigger] credits[k];
            &&& credit.tickets <= after[credit.cell as int].submitted_seq
            &&& credit.position <= after[credit.cell as int].submitted_txid
        } by {
            if k < rest.len() {
                assert(rest[k] == credits[k]);
            }
        }
    }
}

/// Crediting a round moves no submission mark.
proof fn lemma_shipping_keeps_marks(cells: Seq<CellState>, credits: Seq<Credit>)
    requires
        ship::credits_fit(credits, cells.len() as int),
    ensures
        ({
            let after = ship::credited(cells, credits, ship::ship_change());
            &&& after.len() == cells.len()
            &&& forall|i: int|
                0 <= i < cells.len() ==> (#[trigger] after[i]).submitted_seq == cells[i].submitted_seq
                    && after[i].submitted_txid == cells[i].submitted_txid
        }),
    decreases credits.len(),
{
    if credits.len() > 0 {
        let rest = credits.drop_last();
        assert forall|i: int| 0 <= i < rest.len() implies (#[trigger] rest[i]).cell
            < cells.len() by {
            assert(rest[i] == credits[i]);
        }
        lemma_shipping_keeps_marks(cells, rest);
        assert(credits.last() == credits[credits.len() - 1]);
    }
}

impl ShipLoop {
    /// Every round in flight and every batch in the ledger speaks of cells,
    /// and without an epoch nothing is in flight.
    pub open spec fn wf(self, cells: Seq<CellState>) -> bool {
        &&& forall|i: int|
            0 <= i < self.inflight@.len() ==> (#[trigger] self.inflight@[i]).fits(
                cells.len() as int,
            )
        &&& self.ledger.fits(cells.len() as int)
        &&& self.epoch is None ==> self.inflight@.len() == 0
    }

    /// Is every round in flight known to its cells? It is, unless a cell's
    /// counters started over under it.
    pub open spec fn all_carried(self, cells: Seq<CellState>) -> bool {
        forall|i: int|
            0 <= i < self.inflight@.len() ==> (#[trigger] self.inflight@[i]).carried(cells)
    }

    pub fn new() -> (ship_loop: Self)
        ensures
            ship_loop.ledger.epoch is None,
            ship_loop.ledger.covered == 0,
            ship_loop.ledger.outstanding@ == Seq::<Batch>::empty(),
            ship_loop.inflight@ == Seq::<PendingRound>::empty(),
            ship_loop.epoch is None,
            !ship_loop.stopped,
            forall|cells: Seq<CellState>| #[trigger] ship_loop.wf(cells),
            forall|cells: Seq<CellState>| #[trigger] ship_loop.all_carried(cells),
    {
        ShipLoop { ledger: ShipLedger::new(), inflight: Vec::new(), epoch: None, stopped: false }
    }

    /// May this step lead here from `before`?
    pub open spec fn stepped(self, before: Self, step: LoopStep) -> bool {
        match step {
            LoopStep::Stop => {
                &&& self.stopped
                &&& self.epoch == before.epoch
                &&& self.inflight@ == before.inflight@
            },
            LoopStep::Observe { active_epoch } => {
                &&& self.stopped == before.stopped
                &&& self.epoch == active_epoch
                &&& self.inflight@ == if active_epoch == before.epoch {
                    before.inflight@
                } else {
                    Seq::empty()
                }
            },
            LoopStep::Capture { credits, batch, outcome } => {
                &&& !before.stopped
                &&& !self.stopped
                &&& before.epoch is Some
                &&& self.epoch == before.epoch
                &&& if credits@.len() == 0 {
                    outcome is Nothing && self.inflight@ == before.inflight@
                } else if batch@.len() == 0 {
                    outcome is Settled && self.inflight@ == before.inflight@
                } else {
                    &&& outcome == (CaptureOutcome::Submit {
                        epoch: before.epoch->0,
                        batch,
                        covered_seq: self.ledger.covered,
                    })
                    &&& self.inflight@ == before.inflight@.push(
                        PendingRound { credits, covered_seq: self.ledger.covered },
                    )
                }
            },
            LoopStep::Complete { last_seq } => {
                &&& before.inflight@.len() > 0
                &&& self.stopped == before.stopped
                &&& self.epoch == before.epoch
                &&& self.inflight@ == if last_seq is Some {
                    before.inflight@.drop_first()
                } else {
                    Seq::empty()
                }
            },
        }
    }

    /// The stop was seen.
    pub fn observe_stop(&mut self)
        ensures
            final(self).stepped(*old(self), LoopStep::Stop),
            final(self).ledger == old(self).ledger,
            forall|cells: Seq<CellState>|
                old(self).wf(cells) ==> #[trigger] final(self).wf(cells),
    {
        self.stopped = true;
    }

    /// What to wait for. `depth` and `admitted` are what the shipper of the
    /// rounds in flight says of itself; without one a single round may fly.
    pub fn next_wait(&self, shipper: Option<(usize, bool)>) -> (wait: ShipWait)
        ensures
            wait == if self.inflight@.len() == 0 {
                ShipWait::Work
            } else {
                match shipper {
                    Some((depth, admitted)) => if self.inflight@.len() >= depth || !admitted {
                        ShipWait::Round
                    } else {
                        ShipWait::RoundOrWork
                    },
                    None => ShipWait::Round,
                }
            },
    {
        if self.inflight.len() == 0 {
            return ShipWait::Work;
        }
        let (depth, admitted) = match shipper {
            Some((depth, admitted)) => (if depth < 1 {
                1
            } else {
                depth
            }, admitted),
            None => (1usize, true),
        };
        if self.inflight.len() >= depth || !admitted {
            ShipWait::Round
        } else {
            ShipWait::RoundOrWork
        }
    }

    /// Drop every round in flight without a credit.
    fn discard(&mut self, cells: &mut Vec<CellState>, resident: &Vec<usize>)
        requires
            old(self).wf(old(cells)@),
            ship::places_fit(resident@, old(cells)@.len() as int),
        ensures
            final(self).ledger == old(self).ledger,
            final(self).inflight@ == Seq::<PendingRound>::empty(),
            final(self).epoch == old(self).epoch,
            final(self).stopped == old(self).stopped,
            final(cells)@ == ship::all_rolled_back(old(cells)@, resident@),
            final(self).wf(final(cells)@),
            final(self).all_carried(final(cells)@),
    {
        self.inflight = Vec::new();
        ship::reset_submitted(cells, resident);
    }

    /// The oldest round in flight is over. `last_seq` is the sequence that
    /// every member confirmed; without one the round failed, and so does every
    /// later one, because a credit for it would release tickets past an
    /// unresolved round. The result names the cells to wake.
    pub fn complete_round(
        &mut self,
        cells: &mut Vec<CellState>,
        resident: &Vec<usize>,
        last_seq: Option<u64>,
    ) -> (woken: Vec<usize>)
        requires
            old(self).inflight@.len() > 0,
            old(self).wf(old(cells)@),
            ship::places_fit(resident@, old(cells)@.len() as int),
        ensures
            final(self).stepped(*old(self), LoopStep::Complete { last_seq }),
            final(self).ledger.epoch == old(self).ledger.epoch,
            final(self).ledger.covered == old(self).ledger.covered,
            last_seq is None ==> {
                &&& final(self).inflight@ == Seq::<PendingRound>::empty()
                &&& final(self).ledger == old(self).ledger
                &&& final(cells)@ == ship::all_rolled_back(old(cells)@, resident@)
                &&& woken@ == Seq::<usize>::empty()
            },
            last_seq matches Some(seq) ==> {
                let round = old(self).inflight@[0];
                &&& final(self).inflight@ == old(self).inflight@.drop_first()
                &&& final(cells)@ == ship::credited(
                    old(cells)@,
                    round.credits@,
                    ship::ship_change(),
                )
                &&& woken@ == named(round.credits@)
                &&& if seq > round.covered_seq {
                    let entered = final(self).ledger.outstanding@;
                    &&& entered.len() == old(self).ledger.outstanding@.len() + 1
                    &&& entered.drop_last() == old(self).ledger.outstanding@
                    &&& entered.last().last_seq == seq
                    &&& entered.last().tops@ == tops_of(round.credits@)
                } else {
                    final(self).ledger == old(self).ledger
                }
            },
            final(self).wf(final(cells)@),
            old(self).all_carried(old(cells)@) ==> final(self).all_carried(final(cells)@),
    {
        match last_seq {
            None => {
                self.discard(cells, resident);
                Vec::new()
            },
            Some(seq) => {
                let ghost before = *self;
                let ghost cells_before = cells@;
                let round = self.inflight.remove(0);
                proof {
                    assert(self.inflight@ =~= before.inflight@.drop_first());
                    assert(before.inflight@[0].fits(cells_before.len() as int));
                    lemma_shipping_keeps_marks(cells_before, round.credits@);
                    assert(before.inflight@[0] == round);
                    ship::lemma_credited(cells_before, round.credits@, ship::ship_change());
                }
                if seq > round.covered_seq {
                    let list = tops(&round.credits);
                    proof {
                        let batch = Batch { last_seq: seq, tops: list };
                        assert forall|i: int| 0 <= i < batch.tops@.len() implies (
                        #[trigger] batch.tops@[i]).0 < cells_before.len() by {
                            assert(round.credits@[i].cell < cells_before.len());
                        }
                    }
                    self.ledger.shipped(seq, list);
                    assert(self.ledger.outstanding@.drop_last()
                        =~= before.ledger.outstanding@);
                }
                let woken = cells_of(&round.credits);
                ship::apply_credits(cells, &round.credits, Crediting::Shipped);
                proof {
                    assert forall|i: int| 0 <= i < self.inflight@.len() implies (
                    #[trigger] self.inflight@[i]).fits(cells@.len() as int) by {
                        assert(self.inflight@[i] == before.inflight@[i + 1]);
                    }
                    if before.all_carried(cells_before) {
                        assert forall|i: int| 0 <= i < self.inflight@.len() implies (
                        #[trigger] self.inflight@[i]).carried(cells@) by {
                            assert(self.inflight@[i] == before.inflight@[i + 1]);
                            assert(before.inflight@[i + 1].carried(cells_before));
                        }
                    }
                }
                woken
            },
        }
    }

    /// Look at the installed shipper before a capture: `active_epoch` is its
    /// log epoch, or nothing where there is none or it is degraded. Rounds of
    /// another epoch can no longer be credited. May a capture follow? None does
    /// after the stop.
    pub fn observe_shipper(
        &mut self,
        cells: &mut Vec<CellState>,
        resident: &Vec<usize>,
        active_epoch: Option<u64>,
    ) -> (capture: bool)
        requires
            old(self).wf(old(cells)@),
            ship::places_fit(resident@, old(cells)@.len() as int),
        ensures
            capture == (active_epoch is Some && !old(self).stopped),
            final(self).stepped(*old(self), LoopStep::Observe { active_epoch }),
            active_epoch == old(self).epoch || old(self).inflight@.len() == 0 ==> {
                &&& final(self).inflight@ == old(self).inflight@
                &&& final(cells)@ == old(cells)@
            },
            active_epoch != old(self).epoch && old(self).inflight@.len() > 0 ==> {
                &&& final(self).inflight@ == Seq::<PendingRound>::empty()
                &&& final(cells)@ == ship::all_rolled_back(old(cells)@, resident@)
            },
            match active_epoch {
                Some(epoch) => {
                    &&& final(self).ledger.epoch == Some(epoch)
                    &&& old(self).ledger.epoch == Some(epoch) ==> final(self).ledger == old(self).ledger
                    &&& old(self).ledger.epoch != Some(epoch) ==> final(self).ledger.covered == 0
                        && final(self).ledger.outstanding@ == Seq::<Batch>::empty()
                },
                None => final(self).ledger == old(self).ledger,
            },
            old(self).ledger.ascending() ==> final(self).ledger.ascending(),
            final(self).wf(final(cells)@),
            old(self).all_carried(old(cells)@) ==> final(self).all_carried(final(cells)@),
    {
        match active_epoch {
            None => {
                if self.inflight.len() > 0 {
                    self.discard(cells, resident);
                }
                assert(self.inflight@ =~= Seq::<PendingRound>::empty());
                self.epoch = None;
                false
            },
            Some(epoch) => {
                let same = match self.epoch {
                    Some(current) => current == epoch,
                    None => false,
                };
                if !same {
                    if self.inflight.len() > 0 {
                        self.discard(cells, resident);
                    }
                    assert(self.inflight@ =~= Seq::<PendingRound>::empty());
                    self.epoch = Some(epoch);
                }
                self.ledger.observe_epoch(epoch);
                !self.stopped
            },
        }
    }

    /// What to do with a capture: `credits` are the cells that were captured
    /// completely, `batch` the frames that were read.
    pub fn finish_capture(
        &mut self,
        cells: &mut Vec<CellState>,
        credits: Vec<Credit>,
        batch: Vec<ShipEntry>,
    ) -> (outcome: CaptureOutcome)
        requires
            old(self).wf(old(cells)@),
            old(self).epoch is Some,
            !old(self).stopped,
            ship::credits_fit(credits@, old(cells)@.len() as int),
        ensures
            final(self).stepped(*old(self), LoopStep::Capture { credits, batch, outcome }),
            final(self).ledger.epoch == old(self).ledger.epoch,
            credits@.len() == 0 ==> outcome is Nothing && *final(self) == *old(self) && final(cells)@ == old(cells)@,
            credits@.len() > 0 ==> {
                let count = ship::covered_count(old(self).ledger.outstanding@, old(cells)@);
                &&& final(self).ledger.outstanding@ == old(self).ledger.outstanding@.skip(
                    count as int,
                )
                &&& final(self).ledger.covered == ship::watermark(
                    old(self).ledger.outstanding@,
                    count,
                    old(self).ledger.covered,
                )
            },
            credits@.len() > 0 && batch@.len() == 0 ==> {
                &&& outcome matches CaptureOutcome::Settled(woken) && woken@ == named(credits@)
                &&& final(self).inflight@ == old(self).inflight@
                &&& final(cells)@ == ship::credited(
                    old(cells)@,
                    credits@,
                    ship::settle_change(),
                )
            },
            credits@.len() > 0 && batch@.len() > 0 ==> {
                &&& outcome == (CaptureOutcome::Submit {
                    epoch: old(self).epoch->0,
                    batch,
                    covered_seq: final(self).ledger.covered,
                })
                &&& final(self).inflight@ == old(self).inflight@.push(
                    PendingRound { credits, covered_seq: final(self).ledger.covered },
                )
                &&& final(cells)@ == ship::credited(
                    old(cells)@,
                    credits@,
                    ship::submit_change(),
                )
            },
            old(self).ledger.ascending() ==> final(self).ledger.ascending(),
            final(self).wf(final(cells)@),
            old(self).all_carried(old(cells)@) ==> final(self).all_carried(final(cells)@),
    {
        if credits.len() == 0 {
            return CaptureOutcome::Nothing;
        }
        let ghost before = *self;
        let ghost cells_before = cells@;
        self.ledger.advance(cells);
        let covered_seq = self.ledger.covered_seq();
        if batch.len() == 0 {
            let woken = cells_of(&credits);
            ship::apply_credits(cells, &credits, Crediting::Settled);
            proof {
                lemma_settled_marks(cells_before, credits@);
                if before.all_carried(cells_before) {
                    assert forall|i: int| 0 <= i < self.inflight@.len() implies (
                    #[trigger] self.inflight@[i]).carried(cells@) by {
                        assert(before.inflight@[i].carried(cells_before));
                    }
                }
            }
            return CaptureOutcome::Settled(woken);
        }
        let epoch: u64 = match self.epoch {
            Some(epoch) => epoch,
            None => 0,
        };
        ship::apply_credits(cells, &credits, Crediting::Submitted);
        proof {
            lemma_submitted_marks(cells_before, credits@);
        }
        self.inflight.push(PendingRound { credits, covered_seq });
        proof {
            assert forall|i: int| 0 <= i < self.inflight@.len() implies (
            #[trigger] self.inflight@[i]).fits(cells@.len() as int) by {
                if i < before.inflight@.len() {
                    assert(self.inflight@[i] == before.inflight@[i]);
                }
            }
            if before.all_carried(cells_before) {
                assert forall|i: int| 0 <= i < self.inflight@.len() implies (
                #[trigger] self.inflight@[i]).carried(cells@) by {
                    if i < before.inflight@.len() {
                        assert(self.inflight@[i] == before.inflight@[i]);
                        assert(before.inflight@[i].carried(cells_before));
                    }
                }
            }
        }
        CaptureOutcome::Submit { epoch, batch, covered_seq }
    }
}

/// Settling moves no submission mark back.
proof fn lemma_settled_marks(cells: Seq<CellState>, credits: Seq<Credit>)
    requires
        ship::credits_fit(credits, cells.len() as int),
    ensures
        ({
            let after = ship::credited(cells, credits, ship::settle_change());
            &&& after.len() == cells.len()
            &&& forall|i: int|
                0 <= i < cells.len() ==> (#[trigger] after[i]).submitted_seq >= cells[i].submitted_seq
                    && after[i].submitted_txid >= cells[i].submitted_txid
        }),
    decreases credits.len(),
{
    if credits.len() > 0 {
        let rest = credits.drop_last();
        assert forall|i: int| 0 <= i < rest.len() implies (#[trigger] rest[i]).cell
            < cells.len() by {
            assert(rest[i] == credits[i]);
        }
        lemma_settled_marks(cells, rest);
        assert(credits.last() == credits[credits.len() - 1]);
    }
}

/// A confirmed round proves every ticket that its credits cover, by the fleet.
pub proof fn law_confirmed_round_proves_its_tickets(
    cells: Seq<CellState>,
    credits: Seq<Credit>,
    at: int,
    ticket: u64,
)
    requires
        ship::credits_fit(credits, cells.len() as int),
        0 <= at < credits.len(),
        ticket <= credits[at].tickets,
    ensures
        ship::credited(cells, credits, ship::ship_change())[credits[at].cell as int].proven_by(
            ticket,
        ) == Some(cell::ProofSource::Fleet),
    decreases credits.len(),
{
    let rest = credits.drop_last();
    assert forall|i: int| 0 <= i < rest.len() implies (#[trigger] rest[i]).cell < cells.len() by {
        assert(rest[i] == credits[i]);
    }
    ship::lemma_credited(cells, rest, ship::ship_change());
    assert(credits.last() == credits[credits.len() - 1]);
    if at < rest.len() {
        assert(rest[at] == credits[at]);
        law_confirmed_round_proves_its_tickets(cells, rest, at, ticket);
    }
}

/// A confirmed round proves nothing for a cell that it does not carry.
pub proof fn law_confirmed_round_proves_no_other_cell(
    cells: Seq<CellState>,
    credits: Seq<Credit>,
    place: int,
)
    requires
        ship::credits_fit(credits, cells.len() as int),
        0 <= place < cells.len(),
        forall|k: int| 0 <= k < credits.len() ==> (#[trigger] credits[k]).cell != place,
    ensures
        ship::credited(cells, credits, ship::ship_change())[place] == cells[place],
{
    ship::lemma_credited(cells, credits, ship::ship_change());
}

/// A failed round, and with it every later one, proves nothing and takes no
/// proof back.
pub proof fn law_discard_keeps_proofs(
    cells: Seq<CellState>,
    resident: Seq<usize>,
    place: int,
    ticket: u64,
)
    requires
        0 <= place < cells.len(),
    ensures
        ship::all_rolled_back(cells, resident)[place].proven_by(ticket) == cells[place].proven_by(
            ticket,
        ),
{
}

/// What a discarded round carried for a resident cell is captured again, from
/// the first frame that was not credited.
pub proof fn law_discarded_tickets_are_captured_again(
    cells: Seq<CellState>,
    resident: Seq<usize>,
    place: usize,
)
    requires
        place < cells.len(),
        resident.contains(place),
        cells[place as int].req_seq > cells[place as int].shipped_seq,
        cells[place as int].req_seq > cells[place as int].synced_seq,
    ensures
        ship::all_rolled_back(cells, resident)[place as int].unshipped(),
        ship::all_rolled_back(cells, resident)[place as int].submitted_txid
            == cells[place as int].shipped_txid,
{
}

/// What followers may truncate behind is in the bucket: every batch that the
/// ledger drops is covered.
pub proof fn law_truncated_batches_are_covered(
    outstanding: Seq<Batch>,
    cells: Seq<CellState>,
    at: int,
)
    requires
        0 <= at < ship::covered_count(outstanding, cells),
    ensures
        at < outstanding.len(),
        outstanding[at].covered(cells),
    decreases outstanding.len(),
{
    if at > 0 {
        law_truncated_batches_are_covered(outstanding.drop_first(), cells, at - 1);
    }
}

/// Crediting a round that its cells know of keeps every cell's counters in
/// order.
pub proof fn law_crediting_keeps_counters_in_order(
    cells: Seq<CellState>,
    round: PendingRound,
    place: int,
)
    requires
        round.carried(cells),
        0 <= place < cells.len(),
        cells[place].ordered(),
    ensures
        ship::credited(cells, round.credits@, ship::ship_change())[place].ordered(),
{
    lemma_credits_keep_order(cells, round.credits@, place);
}

proof fn lemma_credits_keep_order(cells: Seq<CellState>, credits: Seq<Credit>, place: int)
    requires
        forall|i: int|
            0 <= i < credits.len() ==> {
                let credit = #[trigger] credits[i];
                &&& credit.cell < cells.len()
                &&& credit.tickets <= cells[credit.cell as int].submitted_seq
                &&& credit.position <= cells[credit.cell as int].submitted_txid
            },
        0 <= place < cells.len(),
        cells[place].ordered(),
    ensures
        ship::credited(cells, credits, ship::ship_change())[place].ordered(),
    decreases credits.len(),
{
    if credits.len() > 0 {
        let rest = credits.drop_last();
        assert forall|i: int| 0 <= i < rest.len() implies {
            let credit = #[trigger] rest[i];
            &&& credit.cell < cells.len()
            &&& credit.tickets <= cells[credit.cell as int].submitted_seq
            &&& credit.position <= cells[credit.cell as int].submitted_txid
        } by {
            assert(rest[i] == credits[i]);
        }
        lemma_credits_keep_order(cells, rest, place);
        lemma_shipping_keeps_marks(cells, rest);
        assert(credits.last() == credits[credits.len() - 1]);
    }
}

/// A run of the group-commit loop: its states, and the steps between them.
pub open spec fn is_run(states: Seq<ShipLoop>, steps: Seq<LoopStep>) -> bool {
    &&& states.len() == steps.len() + 1
    &&& states[0].epoch is None
    &&& states[0].inflight@.len() == 0
    &&& forall|i: int|
        0 <= i < steps.len() ==> (#[trigger] states[i + 1]).stepped(states[i], steps[i])
}

/// Does the step ship a batch?
pub open spec fn ships(step: LoopStep) -> bool {
    step matches LoopStep::Capture { outcome, .. } && outcome is Submit
}

/// Does the step credit the oldest round in flight?
pub open spec fn credits_oldest(step: LoopStep) -> bool {
    step matches LoopStep::Complete { last_seq } && last_seq is Some
}

/// How many rounds were submitted in the first `count` steps.
pub open spec fn submissions(steps: Seq<LoopStep>, count: int) -> nat
    decreases count,
{
    if count <= 0 {
        0
    } else {
        submissions(steps, count - 1) + if ships(steps[count - 1]) {
            1nat
        } else {
            0
        }
    }
}

/// The number, in the order of submission, of the oldest round in flight after
/// `count` steps. Where none is in flight, it is the number of the next one.
pub open spec fn oldest(states: Seq<ShipLoop>, steps: Seq<LoopStep>, count: int) -> int {
    submissions(steps, count) - states[count].inflight@.len()
}

/// The rounds that were submitted in the first `count` steps, in order.
pub open spec fn submitted_rounds(
    states: Seq<ShipLoop>,
    steps: Seq<LoopStep>,
    count: int,
) -> Seq<PendingRound>
    decreases count,
{
    if count <= 0 {
        Seq::empty()
    } else {
        let earlier = submitted_rounds(states, steps, count - 1);
        if ships(steps[count - 1]) {
            earlier.push(states[count].inflight@.last())
        } else {
            earlier
        }
    }
}

/// What is in flight are the rounds that were submitted last, in order.
proof fn lemma_inflight(states: Seq<ShipLoop>, steps: Seq<LoopStep>, count: int)
    requires
        is_run(states, steps),
        0 <= count <= steps.len(),
    ensures
        submitted_rounds(states, steps, count).len() == submissions(steps, count),
        oldest(states, steps, count) >= 0,
        states[count].inflight@ == submitted_rounds(states, steps, count).skip(
            oldest(states, steps, count),
        ),
        states[count].epoch is None ==> states[count].inflight@.len() == 0,
    decreases count,
{
    if count > 0 {
        lemma_inflight(states, steps, count - 1);
        let before = states[count - 1];
        let after = states[count];
        assert(states[(count - 1) + 1].stepped(before, steps[count - 1]));
        let earlier = submitted_rounds(states, steps, count - 1);
        let all = submitted_rounds(states, steps, count);
        if ships(steps[count - 1]) {
            assert(after.inflight@ =~= all.skip(oldest(states, steps, count)));
        } else {
            assert(all == earlier);
            assert(after.inflight@ =~= all.skip(oldest(states, steps, count)));
        }
    } else {
        assert(states[0].inflight@ =~= Seq::<PendingRound>::empty());
    }
}

/// The oldest round in flight is never older than it was.
proof fn lemma_oldest_ascends(states: Seq<ShipLoop>, steps: Seq<LoopStep>, early: int, late: int)
    requires
        is_run(states, steps),
        0 <= early <= late <= steps.len(),
    ensures
        oldest(states, steps, early) <= oldest(states, steps, late),
        oldest(states, steps, late) <= submissions(steps, late),
        submissions(steps, early) <= submissions(steps, late),
    decreases late - early,
{
    if early < late {
        lemma_oldest_ascends(states, steps, early, late - 1);
        assert(states[(late - 1) + 1].stepped(states[late - 1], steps[late - 1]));
    }
}

/// Every batch that is shipped has a frame, and is shipped under the epoch that
/// was read of the shipper before its capture: no other was read since.
pub proof fn law_batch_ships_under_the_epoch_read_before_it(
    states: Seq<ShipLoop>,
    steps: Seq<LoopStep>,
    at: int,
)
    requires
        is_run(states, steps),
        0 <= at < steps.len(),
        ships(steps[at]),
    ensures
        steps[at] matches LoopStep::Capture { batch, outcome, .. } && outcome
            matches CaptureOutcome::Submit { epoch, batch: shipped, .. } && {
            &&& shipped == batch
            &&& shipped@.len() > 0
            &&& exists|read: int|
                0 <= read < at && #[trigger] steps[read] == (LoopStep::Observe {
                    active_epoch: Some(epoch),
                }) && forall|i: int| read < i < at ==> !(#[trigger] steps[i] is Observe)
        },
{
    assert(states[at + 1].stepped(states[at], steps[at]));
    lemma_epoch_was_read(states, steps, at);
}

/// An epoch that the loop knows is the one that was read last.
proof fn lemma_epoch_was_read(states: Seq<ShipLoop>, steps: Seq<LoopStep>, count: int)
    requires
        is_run(states, steps),
        0 <= count <= steps.len(),
        states[count].epoch is Some,
    ensures
        exists|read: int|
            0 <= read < count && #[trigger] steps[read] == (LoopStep::Observe {
                active_epoch: states[count].epoch,
            }) && forall|i: int| read < i < count ==> !(#[trigger] steps[i] is Observe),
    decreases count,
{
    assert(states[(count - 1) + 1].stepped(states[count - 1], steps[count - 1]));
    if steps[count - 1] is Observe {
        assert(steps[count - 1] == (LoopStep::Observe { active_epoch: states[count].epoch }));
    } else {
        lemma_epoch_was_read(states, steps, count - 1);
        let read = choose|read: int|
            0 <= read < count - 1 && #[trigger] steps[read] == (LoopStep::Observe {
                active_epoch: states[count - 1].epoch,
            }) && forall|i: int| read < i < count - 1 ==> !(#[trigger] steps[i] is Observe);
        assert(steps[read] == (LoopStep::Observe { active_epoch: states[count].epoch }));
    }
}

/// Rounds are credited in the order in which they were submitted, and none
/// twice.
pub proof fn law_rounds_are_credited_in_order(
    states: Seq<ShipLoop>,
    steps: Seq<LoopStep>,
    early: int,
    late: int,
)
    requires
        is_run(states, steps),
        0 <= early < late < steps.len(),
        credits_oldest(steps[early]),
        credits_oldest(steps[late]),
    ensures
        oldest(states, steps, early) < oldest(states, steps, late) < submissions(steps, late),
        states[early].inflight@[0] == submitted_rounds(states, steps, early)[oldest(
            states,
            steps,
            early,
        )],
        states[late].inflight@[0] == submitted_rounds(states, steps, late)[oldest(
            states,
            steps,
            late,
        )],
{
    assert(states[early + 1].stepped(states[early], steps[early]));
    assert(states[late + 1].stepped(states[late], steps[late]));
    lemma_inflight(states, steps, early);
    lemma_inflight(states, steps, late);
    lemma_oldest_ascends(states, steps, early + 1, late);
    assert(submissions(steps, early + 1) == submissions(steps, early));
}

/// After a round that failed, only rounds are credited that were submitted
/// after it failed.
pub proof fn law_failed_round_takes_the_later_ones_with_it(
    states: Seq<ShipLoop>,
    steps: Seq<LoopStep>,
    failed: int,
    late: int,
)
    requires
        is_run(states, steps),
        0 <= failed < late < steps.len(),
        steps[failed] == (LoopStep::Complete { last_seq: None }),
        credits_oldest(steps[late]),
    ensures
        oldest(states, steps, late) >= submissions(steps, failed),
{
    assert(states[failed + 1].stepped(states[failed], steps[failed]));
    assert(submissions(steps, failed + 1) == submissions(steps, failed));
    lemma_oldest_ascends(states, steps, failed + 1, late);
}

/// Nothing is shipped after the stop was seen.
pub proof fn law_nothing_ships_after_the_stop(
    states: Seq<ShipLoop>,
    steps: Seq<LoopStep>,
    stop: int,
    at: int,
)
    requires
        is_run(states, steps),
        0 <= stop < at < steps.len(),
        steps[stop] is Stop,
    ensures
        !ships(steps[at]),
{
    lemma_stop_lasts(states, steps, stop, at);
    assert(states[at + 1].stepped(states[at], steps[at]));
}

proof fn lemma_stop_lasts(states: Seq<ShipLoop>, steps: Seq<LoopStep>, stop: int, count: int)
    requires
        is_run(states, steps),
        0 <= stop < count <= steps.len(),
        steps[stop] is Stop,
    ensures
        states[count].stopped,
    decreases count,
{
    assert(states[(count - 1) + 1].stepped(states[count - 1], steps[count - 1]));
    if stop < count - 1 {
        lemma_stop_lasts(states, steps, stop, count - 1);
    }
}

/// A loop waits for work while nothing is in flight. Otherwise it waits for the
/// oldest round, and for work besides only where its shipper takes another round
/// and wants more in flight than there are.
pub proof fn law_loop_waits_for_what_can_come(
    ships: ShipLoop,
    shipper: Option<(usize, bool)>,
    wait: ShipWait,
)
    requires
        call_ensures(ShipLoop::next_wait, (&ships, shipper), wait),
    ensures
        wait is Work <==> ships.inflight@.len() == 0,
        wait is RoundOrWork <==> ships.inflight@.len() > 0 && (shipper matches Some((depth, admits))
            && admits && ships.inflight@.len() < depth),
        wait is Round <==> ships.inflight@.len() > 0 && !(shipper matches Some((depth, admits))
            && admits && ships.inflight@.len() < depth),
{
}

/// A confirmed round is the oldest one. Its cells, and no others, are credited by
/// the fleet with what it carried, are woken in order, and enter the ledger under
/// its sequence, unless members truncate behind that already.
pub proof fn law_confirmed_round_is_the_oldest(
    ships: &mut ShipLoop,
    cells: &mut Vec<CellState>,
    resident: Vec<usize>,
    seq: u64,
    woken: Vec<usize>,
    i: int,
)
    requires
        old(ships).inflight@.len() > 0,
        old(ships).wf(old(cells)@),
        0 <= i < old(cells)@.len(),
        call_ensures(ShipLoop::complete_round, (ships, cells, &resident, Some(seq)), woken),
    ensures
        ({
            let credits = old(ships).inflight@[0].credits@;
            let after = final(cells)@;
            let entered = final(ships).ledger.outstanding@;
            &&& final(ships).inflight@.len() == old(ships).inflight@.len() - 1
            &&& forall|k: int|
                0 <= k < final(ships).inflight@.len() ==> #[trigger] final(ships).inflight@[k]
                    == old(ships).inflight@[k + 1]
            &&& after.len() == old(cells)@.len()
            &&& forall|k: int|
                0 <= k < credits.len() ==> {
                    let credit = #[trigger] credits[k];
                    &&& after[credit.cell as int].shipped_seq >= credit.tickets
                    &&& after[credit.cell as int].shipped_txid >= credit.position
                }
            &&& after[i].shipped_seq == old(cells)@[i].shipped_seq || exists|k: int|
                0 <= k < credits.len() && (#[trigger] credits[k]).cell == i && credits[k].tickets
                    == after[i].shipped_seq
            &&& after[i].shipped_txid == old(cells)@[i].shipped_txid || exists|k: int|
                0 <= k < credits.len() && (#[trigger] credits[k]).cell == i && credits[k].position
                    == after[i].shipped_txid
            &&& after[i].shipped_seq >= old(cells)@[i].shipped_seq
            &&& after[i].shipped_txid >= old(cells)@[i].shipped_txid
            &&& after[i].submitted_seq == old(cells)@[i].submitted_seq
            &&& after[i].submitted_txid == old(cells)@[i].submitted_txid
            &&& after[i].synced_seq == old(cells)@[i].synced_seq
            &&& after[i].durable_txid == old(cells)@[i].durable_txid
            &&& after[i].req_seq == old(cells)@[i].req_seq
            &&& woken@.len() == credits.len()
            &&& forall|k: int|
                0 <= k < credits.len() ==> #[trigger] woken@[k] == credits[k].cell
            &&& seq > old(ships).inflight@[0].covered_seq ==> {
                &&& entered.len() == old(ships).ledger.outstanding@.len() + 1
                &&& entered.last().last_seq == seq
                &&& entered.last().tops@.len() == credits.len()
                &&& forall|k: int|
                    0 <= k < credits.len() ==> #[trigger] entered.last().tops@[k] == (
                        credits[k].cell,
                        credits[k].position,
                    )
            }
            &&& seq <= old(ships).inflight@[0].covered_seq ==> entered == old(ships).ledger.outstanding@
            &&& final(ships).epoch == old(ships).epoch
            &&& final(ships).stopped == old(ships).stopped
        }),
{
    let credits = old(ships).inflight@[0].credits@;
    assert(old(ships).inflight@[0].fits(old(cells)@.len() as int));
    ship::law_confirmed_credits_reach_their_cells(old(cells)@, credits, final(cells)@);
    assert(final(cells)@[i].req_seq == old(cells)@[i].req_seq);
}

/// A failed round takes every later one with it and credits nobody: nothing is in
/// flight any more, no one is woken, no proof is given or taken, and of each
/// registered cell all that was in flight is to be captured again.
pub proof fn law_failed_round_credits_nobody(
    ships: &mut ShipLoop,
    cells: &mut Vec<CellState>,
    resident: Vec<usize>,
    woken: Vec<usize>,
    i: int,
)
    requires
        call_ensures(ShipLoop::complete_round, (ships, cells, &resident, None), woken),
        0 <= i < old(cells)@.len(),
    ensures
        final(ships).inflight@.len() == 0,
        woken@.len() == 0,
        final(ships).ledger == old(ships).ledger,
        final(cells)@.len() == old(cells)@.len(),
        final(cells)@[i].shipped_seq == old(cells)@[i].shipped_seq,
        final(cells)@[i].shipped_txid == old(cells)@[i].shipped_txid,
        final(cells)@[i].synced_seq == old(cells)@[i].synced_seq,
        final(cells)@[i].durable_txid == old(cells)@[i].durable_txid,
        final(cells)@[i].req_seq == old(cells)@[i].req_seq,
        resident@.contains(i as usize) && i <= usize::MAX ==> final(cells)@[i].submitted_seq == old(cells)@[i].shipped_seq && final(cells)@[i].submitted_txid == old(cells)@[i].shipped_txid,
        !resident@.contains(i as usize) ==> final(cells)@[i] == old(cells)@[i],
{
}

/// A capture follows exactly where there is an active shipper and no stop was seen.
/// The loop takes up its epoch; rounds of another epoch are dropped without a
/// credit, and those of the same stay.
pub proof fn law_loop_follows_its_shipper(
    ships: &mut ShipLoop,
    cells: &mut Vec<CellState>,
    resident: Vec<usize>,
    active_epoch: Option<u64>,
    capture: bool,
    i: int,
)
    requires
        old(ships).wf(old(cells)@),
        call_ensures(ShipLoop::observe_shipper, (ships, cells, &resident, active_epoch), capture),
        0 <= i < old(cells)@.len(),
    ensures
        capture <==> active_epoch is Some && !old(ships).stopped,
        final(ships).epoch == active_epoch,
        final(ships).stopped == old(ships).stopped,
        active_epoch == old(ships).epoch ==> final(ships).inflight@ == old(ships).inflight@
            && final(cells)@ == old(cells)@,
        active_epoch != old(ships).epoch ==> final(ships).inflight@.len() == 0,
        active_epoch != old(ships).epoch && old(ships).inflight@.len() > 0 && resident@.contains(
            i as usize,
        ) && i <= usize::MAX ==> final(cells)@[i].submitted_seq == old(cells)@[i].shipped_seq
            && final(cells)@[i].submitted_txid == old(cells)@[i].shipped_txid,
        final(cells)@.len() == old(cells)@.len(),
        final(cells)@[i].shipped_seq == old(cells)@[i].shipped_seq,
        final(cells)@[i].shipped_txid == old(cells)@[i].shipped_txid,
        final(cells)@[i].synced_seq == old(cells)@[i].synced_seq,
        final(cells)@[i].req_seq == old(cells)@[i].req_seq,
        active_epoch is Some && active_epoch == old(ships).ledger.epoch ==> final(ships).ledger.outstanding@ == old(ships).ledger.outstanding@ && final(ships).ledger.covered
            == old(ships).ledger.covered,
        active_epoch is Some && active_epoch != old(ships).ledger.epoch ==> final(ships).ledger.outstanding@.len() == 0 && final(ships).ledger.covered == 0,
{
}

/// What becomes of a capture. Without a cell that was captured whole nothing
/// happens. With frames it is shipped as one batch under the epoch that the loop
/// took up, as the newest round in flight, and its cells know what was submitted;
/// without any, the bucket has everything and its cells are credited at once.
pub proof fn law_capture_is_shipped_or_settled(
    ships: &mut ShipLoop,
    cells: &mut Vec<CellState>,
    credits: Vec<Credit>,
    batch: Vec<ShipEntry>,
    outcome: CaptureOutcome,
    i: int,
)
    requires
        old(ships).wf(old(cells)@),
        ship::credits_fit(credits@, old(cells)@.len() as int),
        call_ensures(ShipLoop::finish_capture, (ships, cells, credits, batch), outcome),
        old(ships).epoch is Some,
        0 <= i < old(cells)@.len(),
    ensures
        outcome is Nothing <==> credits@.len() == 0,
        outcome is Submit <==> credits@.len() > 0 && batch@.len() > 0,
        outcome is Settled <==> credits@.len() > 0 && batch@.len() == 0,
        outcome matches CaptureOutcome::Submit { epoch, batch: shipped, covered_seq } ==> {
            &&& Some(epoch) == old(ships).epoch
            &&& shipped@ == batch@
            &&& covered_seq == final(ships).ledger.covered
            &&& covered_seq >= old(ships).ledger.covered
            &&& final(ships).inflight@.len() == old(ships).inflight@.len() + 1
            &&& final(ships).inflight@.last().credits@ == credits@
            &&& final(ships).inflight@.last().covered_seq == covered_seq
            &&& forall|k: int|
                0 <= k < old(ships).inflight@.len() ==> #[trigger] final(ships).inflight@[k] == old(ships).inflight@[k]
            &&& forall|k: int|
                0 <= k < credits@.len() ==> {
                    let credit = #[trigger] credits@[k];
                    &&& final(cells)@[credit.cell as int].submitted_seq >= credit.tickets
                    &&& final(cells)@[credit.cell as int].submitted_txid >= credit.position
                }
            &&& final(cells)@[i].submitted_seq >= old(cells)@[i].submitted_seq
            &&& final(cells)@[i].submitted_txid >= old(cells)@[i].submitted_txid
            &&& (forall|k: int| 0 <= k < credits@.len() ==> (#[trigger] credits@[k]).cell != i)
                ==> final(cells)@[i] == old(cells)@[i]
            &&& final(cells)@[i].shipped_seq == old(cells)@[i].shipped_seq
            &&& final(cells)@[i].shipped_txid == old(cells)@[i].shipped_txid
        },
        outcome matches CaptureOutcome::Settled(woken) ==> {
            &&& woken@.len() == credits@.len()
            &&& forall|k: int| 0 <= k < credits@.len() ==> #[trigger] woken@[k] == credits@[k].cell
            &&& final(ships).inflight@ == old(ships).inflight@
            &&& forall|k: int|
                0 <= k < credits@.len() ==> {
                    let credit = #[trigger] credits@[k];
                    &&& final(cells)@[credit.cell as int].shipped_seq >= credit.tickets
                    &&& final(cells)@[credit.cell as int].shipped_txid >= credit.position
                    &&& final(cells)@[credit.cell as int].submitted_seq >= credit.tickets
                    &&& final(cells)@[credit.cell as int].submitted_txid >= credit.position
                }
            &&& (forall|k: int| 0 <= k < credits@.len() ==> (#[trigger] credits@[k]).cell != i)
                ==> final(cells)@[i] == old(cells)@[i]
        },
        outcome is Nothing ==> final(cells)@ == old(cells)@ && final(ships).inflight@ == old(ships).inflight@,
        final(cells)@[i].synced_seq == old(cells)@[i].synced_seq,
        final(cells)@[i].durable_txid == old(cells)@[i].durable_txid,
        final(cells)@[i].req_seq == old(cells)@[i].req_seq,
        final(ships).epoch == old(ships).epoch,
{
    let before = old(cells)@;
    if credits@.len() > 0 {
        ship::lemma_count_is_a_prefix(old(ships).ledger.outstanding@, before);
        ship::lemma_watermark_bounds(
            old(ships).ledger.outstanding@,
            ship::covered_count(old(ships).ledger.outstanding@, before),
            old(ships).ledger.covered,
        );
        if batch@.len() == 0 {
            ship::law_settled_credits_reach_their_cells(before, credits@, final(cells)@);
            ship::lemma_credited(before, credits@, ship::settle_change());
        } else {
            ship::law_submitted_credits_reach_their_cells(before, credits@, final(cells)@);
            ship::lemma_credited(before, credits@, ship::submit_change());
        }
        assert(final(cells)@[i].req_seq == before[i].req_seq);
    }
}

/// A stop that was seen is kept in mind and leaves the rounds in flight alone.
pub proof fn law_stop_is_kept_in_mind(ships: &mut ShipLoop, fresh: ShipLoop)
    requires
        call_ensures(ShipLoop::observe_stop, (ships,), ()),
        call_ensures(ShipLoop::new, (), fresh),
    ensures
        final(ships).stopped,
        final(ships).inflight@ == old(ships).inflight@,
        final(ships).epoch == old(ships).epoch,
        final(ships).ledger == old(ships).ledger,
        !fresh.stopped && fresh.epoch is None && fresh.inflight@.len() == 0
            && fresh.ledger.outstanding@.len() == 0 && fresh.ledger.covered == 0,
{
}

} // verus!
