//! The group commit of the log tier: rounds in flight, the truncation ledger,
//! and what a capture hands to the ensemble.
//!
//! Cells are named by their place in one vector of [`CellState`]s. `resident`
//! lists the places of the cells that are registered right now; a cell that
//! has left keeps its place as long as a round or a batch speaks of it.

use vstd::prelude::*;
use crate::repl::cell;
use crate::repl::cell::CellState;

verus! {

/// One captured segment that is not uploaded yet.
#[derive(Debug)]
pub struct ShipEntry {
    pub cell: String,
    pub epoch: u64,
    pub txid: u64,
    pub bytes: Vec<u8>,
}

/// What one cell is owed once the round that carries it is confirmed.
#[derive(Clone, Copy, Debug)]
pub struct Credit {
    /// The place of the cell.
    pub cell: usize,
    /// Tickets that the capture covered.
    pub tickets: u64,
    /// Position that the capture reached.
    pub position: u64,
}

/// Every credit names one of `count` cells.
pub open spec fn credits_fit(credits: Seq<Credit>, count: int) -> bool {
    forall|i: int| 0 <= i < credits.len() ==> (#[trigger] credits[i]).cell < count
}

/// Every place is one of `count` cells.
pub open spec fn places_fit(places: Seq<usize>, count: int) -> bool {
    forall|i: int| 0 <= i < places.len() ==> #[trigger] places[i] < count
}

/// What a filter leaves was there before.
pub(crate) proof fn lemma_filter_is_among<T>(list: Seq<T>, wanted: spec_fn(T) -> bool, at: int)
    requires
        0 <= at < list.filter(wanted).len(),
    ensures
        list.contains(list.filter(wanted)[at]),
    decreases list.len(),
{
    reveal(Seq::filter);
    let rest = list.drop_last();
    if at < rest.filter(wanted).len() {
        lemma_filter_is_among(rest, wanted, at);
        let k = choose|k: int| 0 <= k < rest.len() && rest[k] == rest.filter(wanted)[at];
        assert(list[k] == list.filter(wanted)[at]);
    } else {
        assert(list[list.len() - 1] == list.filter(wanted)[at]);
    }
}

/// `cells` after each credit, in order, has changed its cell by `change`.
pub open spec fn credited(
    cells: Seq<CellState>,
    credits: Seq<Credit>,
    change: spec_fn(CellState, Credit) -> CellState,
) -> Seq<CellState>
    decreases credits.len(),
{
    if credits.len() == 0 {
        cells
    } else {
        let before = credited(cells, credits.drop_last(), change);
        let credit = credits.last();
        before.update(credit.cell as int, change(before[credit.cell as int], credit))
    }
}

/// Crediting keeps the number of cells and leaves alone whom no credit names.
pub proof fn lemma_credited(
    cells: Seq<CellState>,
    credits: Seq<Credit>,
    change: spec_fn(CellState, Credit) -> CellState,
)
    requires
        credits_fit(credits, cells.len() as int),
    ensures
        credited(cells, credits, change).len() == cells.len(),
        forall|i: int|
            0 <= i < cells.len() && (forall|k: int|
                0 <= k < credits.len() ==> (#[trigger] credits[k]).cell != i)
                ==> #[trigger] credited(cells, credits, change)[i] == cells[i],
    decreases credits.len(),
{
    if credits.len() > 0 {
        let rest = credits.drop_last();
        assert forall|i: int| 0 <= i < rest.len() implies (#[trigger] rest[i]).cell
            < cells.len() by {
            assert(rest[i] == credits[i]);
        }
        lemma_credited(cells, rest, change);
        assert(credits.last() == credits[credits.len() - 1]);
        assert forall|i: int|
            0 <= i < cells.len() && (forall|k: int|
                0 <= k < credits.len() ==> (#[trigger] credits[k]).cell
                    != i) implies #[trigger] credited(cells, credits, change)[i] == cells[i] by {
            assert forall|k: int| 0 <= k < rest.len() implies (#[trigger] rest[k]).cell != i by {
                assert(rest[k] == credits[k]);
            }
        }
    }
}

/// The change that a confirmed round makes to a cell.
pub open spec fn ship_change() -> spec_fn(CellState, Credit) -> CellState {
    |cell: CellState, credit: Credit| cell.shipped(credit.tickets, credit.position)
}

/// The change that a submission makes to a cell.
pub open spec fn submit_change() -> spec_fn(CellState, Credit) -> CellState {
    |cell: CellState, credit: Credit| cell.submitted(credit.tickets, credit.position)
}

/// The change to a cell that has nothing left to ship.
pub open spec fn settle_change() -> spec_fn(CellState, Credit) -> CellState {
    |cell: CellState, credit: Credit|
        cell.shipped(credit.tickets, credit.position).submitted(credit.tickets, credit.position)
}

/// `cells` after the registered ones forgot what was in flight.
pub open spec fn all_rolled_back(cells: Seq<CellState>, resident: Seq<usize>) -> Seq<CellState> {
    Seq::new(
        cells.len(),
        |i: int|
            if resident.contains(i as usize) {
                cells[i].rolled_back()
            } else {
                cells[i]
            },
    )
}

/// What credits do to their cells.
#[derive(Clone, Copy)]
pub(crate) enum Crediting {
    /// Their round is confirmed.
    Shipped,
    /// Their round is submitted.
    Submitted,
    /// They have nothing left to ship.
    Settled,
}

impl Crediting {
    /// The change to one cell.
    pub(crate) open spec fn change(self) -> spec_fn(CellState, Credit) -> CellState {
        match self {
            Crediting::Shipped => ship_change(),
            Crediting::Submitted => submit_change(),
            Crediting::Settled => settle_change(),
        }
    }
}

/// Change the cell of each credit, in order.
pub(crate) fn apply_credits(cells: &mut Vec<CellState>, credits: &Vec<Credit>, crediting: Crediting)
    requires
        credits_fit(credits@, old(cells)@.len() as int),
    ensures
        final(cells)@ == credited(old(cells)@, credits@, crediting.change()),
        final(cells)@.len() == old(cells)@.len(),
{
    let ghost before = cells@;
    let mut at: usize = 0;
    assert(credits@.take(0) =~= Seq::<Credit>::empty());
    while at < credits.len()
        invariant
            at <= credits@.len(),
            credits_fit(credits@, before.len() as int),
            cells@.len() == before.len(),
            cells@ == credited(before, credits@.take(at as int), crediting.change()),
        decreases credits@.len() - at,
    {
        let credit = credits[at];
        assert(credits@[at as int].cell < before.len());
        let mut cell = cells[credit.cell];
        match crediting {
            Crediting::Shipped => cell.credit_shipped(credit.tickets, credit.position),
            Crediting::Submitted => cell.note_submitted(credit.tickets, credit.position),
            Crediting::Settled => {
                cell.credit_shipped(credit.tickets, credit.position);
                cell.note_submitted(credit.tickets, credit.position);
            },
        }
        cells.set(credit.cell, cell);
        assert(credits@.take(at + 1).drop_last() =~= credits@.take(at as int));
        assert(credits@.take(at + 1).last() == credit);
        at = at + 1;
    }
    assert(credits@.take(at as int) =~= credits@);
}

/// Make every uncredited range eligible for capture again. The credited
/// watermarks stay.
pub fn reset_submitted(cells: &mut Vec<CellState>, resident: &Vec<usize>)
    requires
        places_fit(resident@, old(cells)@.len() as int),
    ensures
        final(cells)@ == all_rolled_back(old(cells)@, resident@),
{
    let ghost before = cells@;
    let total: usize = cells.len();
    let mut at: usize = 0;
    assert(resident@.take(0) =~= Seq::<usize>::empty());
    assert(cells@ =~= all_rolled_back(before, resident@.take(0)));
    while at < resident.len()
        invariant
            at <= resident@.len(),
            places_fit(resident@, before.len() as int),
            cells@.len() == before.len(),
            total == before.len(),
            cells@ == all_rolled_back(before, resident@.take(at as int)),
        decreases resident@.len() - at,
    {
        let place = resident[at];
        assert(resident@[at as int] < before.len());
        let ghost earlier = cells@;
        let mut cell = cells[place];
        cell.roll_back_submitted();
        cells.set(place, cell);
        proof {
            let now = resident@.take(at + 1);
            let then = resident@.take(at as int);
            assert(now =~= then.push(place));
            assert forall|i: int| 0 <= i < before.len() implies #[trigger] cells@[i]
                == all_rolled_back(before, now)[i] by {
                if i == place {
                    assert(now[at as int] == i as usize);
                    assert(now.contains(i as usize));
                } else {
                    if now.contains(i as usize) {
                        let k = choose|k: int| 0 <= k < now.len() && now[k] == i as usize;
                        assert(then[k] == i as usize);
                    }
                    if then.contains(i as usize) {
                        let k = choose|k: int| 0 <= k < then.len() && then[k] == i as usize;
                        assert(now[k] == i as usize);
                    }
                }
            }
            assert(cells@ =~= all_rolled_back(before, now));
        }
        at = at + 1;
    }
    assert(resident@.take(at as int) =~= resident@);
}

/// A confirmed round that the bucket may not cover yet.
pub struct Batch {
    pub last_seq: u64,
    /// The cells of the round and the position that each reached.
    pub tops: Vec<(usize, u64)>,
}

impl Batch {
    /// Does the bucket hold every cell of the batch as far as the batch went?
    pub open spec fn covered(self, cells: Seq<CellState>) -> bool {
        forall|i: int|
            0 <= i < self.tops@.len() ==> cells[(#[trigger] self.tops@[i]).0 as int].durable_txid
                >= self.tops@[i].1
    }

    /// Every cell of the batch is one of `count`.
    pub open spec fn fits(self, count: int) -> bool {
        forall|i: int| 0 <= i < self.tops@.len() ==> (#[trigger] self.tops@[i]).0 < count
    }

    fn is_covered(&self, cells: &Vec<CellState>) -> (covered: bool)
        requires
            self.fits(cells@.len() as int),
        ensures
            covered == self.covered(cells@),
    {
        let mut at: usize = 0;
        while at < self.tops.len()
            invariant
                at <= self.tops@.len(),
                self.fits(cells@.len() as int),
                forall|i: int|
                    0 <= i < at ==> cells@[(#[trigger] self.tops@[i]).0 as int].durable_txid
                        >= self.tops@[i].1,
            decreases self.tops@.len() - at,
        {
            let top = self.tops[at];
            assert(self.tops@[at as int].0 < cells@.len());
            if cells[top.0].durable_txid < top.1 {
                return false;
            }
            at = at + 1;
        }
        true
    }
}

/// The truncation ledger: the confirmed batches that the bucket does not cover
/// yet, oldest first, and the sequence that members may truncate behind.
pub struct ShipLedger {
    pub epoch: Option<u64>,
    pub covered: u64,
    pub outstanding: Vec<Batch>,
}

/// How many of the oldest batches the bucket covers.
pub open spec fn covered_count(outstanding: Seq<Batch>, cells: Seq<CellState>) -> nat
    decreases outstanding.len(),
{
    if outstanding.len() == 0 || !outstanding[0].covered(cells) {
        0
    } else {
        1 + covered_count(outstanding.drop_first(), cells)
    }
}

/// The highest sequence among `start` and the first `count` batches.
pub open spec fn watermark(outstanding: Seq<Batch>, count: nat, start: u64) -> u64
    decreases count,
{
    if count == 0 {
        start
    } else {
        cell::larger(
            watermark(outstanding, (count - 1) as nat, start),
            outstanding[count - 1].last_seq,
        )
    }
}

proof fn lemma_covered_count(outstanding: Seq<Batch>, cells: Seq<CellState>, count: nat)
    requires
        count <= outstanding.len(),
        forall|i: int| 0 <= i < count ==> (#[trigger] outstanding[i]).covered(cells),
        count < outstanding.len() ==> !outstanding[count as int].covered(cells),
    ensures
        covered_count(outstanding, cells) == count,
    decreases count,
{
    if count > 0 {
        let rest = outstanding.drop_first();
        assert forall|i: int| 0 <= i < count - 1 implies (#[trigger] rest[i]).covered(cells) by {
            assert(rest[i] == outstanding[i + 1]);
        }
        assert(count - 1 < rest.len() ==> rest[count - 1] == outstanding[count as int]);
        lemma_covered_count(rest, cells, (count - 1) as nat);
        assert(outstanding[0].covered(cells));
    }
}

impl ShipLedger {
    /// Sequences ascend, and none that is outstanding is truncated behind.
    pub open spec fn ascending(self) -> bool {
        &&& forall|i: int, j: int|
            0 <= i < j < self.outstanding@.len() ==> (#[trigger] self.outstanding@[i]).last_seq < (
            #[trigger] self.outstanding@[j]).last_seq
        &&& forall|i: int|
            0 <= i < self.outstanding@.len() ==> (#[trigger] self.outstanding@[i]).last_seq
                > self.covered
    }

    /// Every batch speaks of one of `count` cells.
    pub open spec fn fits(self, count: int) -> bool {
        forall|i: int|
            0 <= i < self.outstanding@.len() ==> (#[trigger] self.outstanding@[i]).fits(count)
    }

    pub fn new() -> (ledger: Self)
        ensures
            ledger.epoch is None,
            ledger.covered == 0,
            ledger.outstanding@ == Seq::<Batch>::empty(),
            ledger.ascending(),
    {
        ShipLedger { epoch: None, covered: 0, outstanding: Vec::new() }
    }

    /// Sequences restart with each epoch, so a new one starts an empty ledger.
    pub fn observe_epoch(&mut self, epoch: u64)
        ensures
            final(self).epoch == Some(epoch),
            old(self).epoch == Some(epoch) ==> *final(self) == *old(self),
            old(self).epoch != Some(epoch) ==> final(self).covered == 0
                && final(self).outstanding@ == Seq::<Batch>::empty(),
            old(self).ascending() ==> final(self).ascending(),
    {
        let same = match self.epoch {
            Some(current) => current == epoch,
            None => false,
        };
        if !same {
            self.epoch = Some(epoch);
            self.covered = 0;
            self.outstanding = Vec::new();
        }
    }

    /// Enter a confirmed batch behind the others.
    pub fn shipped(&mut self, last_seq: u64, tops: Vec<(usize, u64)>)
        ensures
            final(self).epoch == old(self).epoch,
            final(self).covered == old(self).covered,
            final(self).outstanding@ == old(self).outstanding@.push(Batch { last_seq, tops }),
            old(self).ascending() && last_seq > old(self).covered && (forall|i: int|
                0 <= i < old(self).outstanding@.len() ==> (#[trigger] old(
                    self,
                ).outstanding@[i]).last_seq < last_seq) ==> final(self).ascending(),
    {
        self.outstanding.push(Batch { last_seq, tops });
    }

    /// Drop the oldest batches that the bucket covers and truncate behind
    /// them. A covered batch behind one that is not stays.
    pub fn advance(&mut self, cells: &Vec<CellState>)
        requires
            old(self).fits(cells@.len() as int),
        ensures
            ({
                let count = covered_count(old(self).outstanding@, cells@);
                &&& count <= old(self).outstanding@.len()
                &&& final(self).outstanding@ == old(self).outstanding@.skip(count as int)
                &&& final(self).covered == watermark(
                    old(self).outstanding@,
                    count,
                    old(self).covered,
                )
            }),
            final(self).epoch == old(self).epoch,
            final(self).fits(cells@.len() as int),
            old(self).ascending() ==> final(self).ascending(),
    {
        let ghost before = *self;
        let mut count: usize = 0;
        let mut covered: u64 = self.covered;
        while count < self.outstanding.len() && self.outstanding[count].is_covered(cells)
            invariant
                *self == before,
                self.fits(cells@.len() as int),
                count <= self.outstanding@.len(),
                covered == watermark(before.outstanding@, count as nat, before.covered),
                forall|i: int|
                    0 <= i < count ==> (#[trigger] before.outstanding@[i]).covered(cells@),
            decreases self.outstanding@.len() - count,
        {
            covered = cell::max_of(covered, self.outstanding[count].last_seq);
            count = count + 1;
        }
        proof {
            lemma_covered_count(before.outstanding@, cells@, count as nat);
            if before.ascending() {
                lemma_watermark(before.outstanding@, count as nat, before.covered);
            }
        }
        self.covered = covered;
        let rest = self.outstanding.split_off(count);
        self.outstanding = rest;
        proof {
            assert(self.outstanding@ =~= before.outstanding@.skip(count as int));
            assert forall|i: int| 0 <= i < self.outstanding@.len() implies (
            #[trigger] self.outstanding@[i]).fits(cells@.len() as int) by {
                assert(self.outstanding@[i] == before.outstanding@[i + count]);
            }
            if before.ascending() {
                assert forall|i: int, j: int|
                    0 <= i < j < self.outstanding@.len() implies (
                #[trigger] self.outstanding@[i]).last_seq < (
                #[trigger] self.outstanding@[j]).last_seq by {
                    assert(self.outstanding@[i] == before.outstanding@[i + count]);
                    assert(self.outstanding@[j] == before.outstanding@[j + count]);
                }
                assert forall|i: int| 0 <= i < self.outstanding@.len() implies (
                #[trigger] self.outstanding@[i]).last_seq > self.covered by {
                    assert(self.outstanding@[i] == before.outstanding@[i + count]);
                }
            }
        }
    }

    /// The sequence that members may truncate behind.
    pub fn covered_seq(&self) -> (covered: u64)
        ensures
            covered == self.covered,
    {
        self.covered
    }
}

/// With ascending sequences the watermark lies at the last dropped batch.
proof fn lemma_watermark(outstanding: Seq<Batch>, count: nat, start: u64)
    requires
        count <= outstanding.len(),
        forall|i: int, j: int|
            0 <= i < j < outstanding.len() ==> (#[trigger] outstanding[i]).last_seq < (
            #[trigger] outstanding[j]).last_seq,
        forall|i: int| 0 <= i < outstanding.len() ==> (#[trigger] outstanding[i]).last_seq > start,
    ensures
        count == 0 ==> watermark(outstanding, count, start) == start,
        count > 0 ==> watermark(outstanding, count, start) == outstanding[count - 1].last_seq,
        forall|i: int|
            count <= i < outstanding.len() ==> (#[trigger] outstanding[i]).last_seq > watermark(
                outstanding,
                count,
                start,
            ),
    decreases count,
{
    if count > 0 {
        lemma_watermark(outstanding, (count - 1) as nat, start);
    }
}

/// Something that is held until a round has been dealt with.
pub trait Reservation: Send {

}

impl<T: Send> Reservation for T {

}

/// The result of one submitted round. A reservation, where there is one,
/// lives as long as the result does.
pub struct ShipCompletion {
    last_seq: Option<u64>,
    reservation: Option<Box<dyn Reservation>>,
}

impl ShipCompletion {
    /// The highest sequence that every member confirmed, if they did.
    pub closed spec fn seq(&self) -> Option<u64> {
        self.last_seq
    }

    /// Does the result hold a reservation?
    pub closed spec fn holds_reservation(&self) -> bool {
        self.reservation is Some
    }

    pub fn unreserved(last_seq: Option<u64>) -> (completion: Self)
        ensures
            completion.seq() == last_seq,
            !completion.holds_reservation(),
    {
        ShipCompletion { last_seq, reservation: None }
    }

    pub fn reserved<R: Send + 'static>(last_seq: Option<u64>, reservation: R) -> (completion: Self)
        ensures
            completion.seq() == last_seq,
            completion.holds_reservation(),
    {
        ShipCompletion { last_seq, reservation: Some(Box::new(reservation)) }
    }

    pub fn last_seq(&self) -> (last_seq: Option<u64>)
        ensures
            last_seq == self.seq(),
    {
        self.last_seq
    }
}

/// The fleet shipper: pipelined, confirmed by every member. A round whose
/// completion has no sequence is not on the fleet's disks, and its tickets
/// wait for the bucket.
pub trait Shipper: Send + Sync {
    /// A round on its way.
    type Round;

    /// A round that is over before it began.
    fn settled(completion: ShipCompletion) -> Self::Round;

    /// Ship one batch; followers may truncate behind `covered_seq`. The order
    /// of these calls is the order in which every member appends.
    fn ship(&self, batch: Vec<ShipEntry>, covered_seq: u64) -> Self::Round;

    /// The log epoch that this shipper writes. Sequences restart with it.
    fn epoch(&self) -> u64;

    /// A shipper that is not active takes nothing.
    fn active(&self) -> bool;

    /// Rounds that this shipper wants in flight at once.
    fn pipeline(&self) -> (depth: usize)
        default_ensures
            depth == 1,
    {
        1
    }

    /// Can the shipper take one more batch now?
    fn admits(&self) -> (admitted: bool)
        default_ensures
            admitted,
    {
        true
    }

    /// Ship a batch that was captured under `expected_epoch`; one that the
    /// shipper has left behind is not shipped.
    fn ship_at_epoch(
        &self,
        expected_epoch: u64,
        batch: Vec<ShipEntry>,
        covered_seq: u64,
    ) -> (round: Self::Round)
        default_ensures
            exists|epoch: u64| #[trigger]
                call_ensures(Self::epoch, (self,), epoch) && if epoch == expected_epoch {
                    call_ensures(Self::ship, (self, batch, covered_seq), round)
                } else {
                    exists|completion: ShipCompletion| #[trigger]
                        call_ensures(Self::settled, (completion,), round) && completion.seq()
                            is None && !completion.holds_reservation()
                },
    {
        let epoch = self.epoch();
        if epoch != expected_epoch {
            let completion = ShipCompletion::unreserved(None);
            return Self::settled(completion);
        }
        self.ship(batch, covered_seq)
    }
}

/// A confirmed round takes the fleet's marks of each cell that it credits up to the
/// credit and no further, and touches nothing else of any cell.
pub proof fn law_confirmed_credits_reach_their_cells(
    cells: Seq<CellState>,
    credits: Seq<Credit>,
    after: Seq<CellState>,
)
    requires
        credits_fit(credits, cells.len() as int),
        after == credited(cells, credits, ship_change()),
    ensures
        after.len() == cells.len(),
        forall|k: int|
            0 <= k < credits.len() ==> {
                let credit = #[trigger] credits[k];
                &&& after[credit.cell as int].shipped_seq >= credit.tickets && after[credit.cell as int].shipped_txid >= credit.position
            },
        forall|i: int|
            0 <= i < cells.len() ==> {
                &&& (#[trigger] after[i]).shipped_seq >= cells[i].shipped_seq && after[i].shipped_txid >= cells[i].shipped_txid
                &&& after[i].shipped_seq == cells[i].shipped_seq || exists|k: int|
                    0 <= k < credits.len() && (#[trigger] credits[k]).cell == i && credits[k].tickets
                        == after[i].shipped_seq
                &&& after[i].shipped_txid == cells[i].shipped_txid || exists|k: int|
                    0 <= k < credits.len() && (#[trigger] credits[k]).cell == i && credits[k].position
                        == after[i].shipped_txid
                &&& after[i].req_seq == cells[i].req_seq
                &&& after[i].synced_seq == cells[i].synced_seq
                &&& after[i].submitted_seq == cells[i].submitted_seq
                &&& after[i].submitted_txid == cells[i].submitted_txid
                &&& after[i].durable_txid == cells[i].durable_txid
                &&& after[i].percell_txid == cells[i].percell_txid
                &&& after[i].syncing == cells[i].syncing
                &&& after[i].last_sync_ms == cells[i].last_sync_ms
                &&& after[i].compaction == cells[i].compaction
            },
    decreases credits.len(),
{
    if credits.len() > 0 {
        let rest = credits.drop_last();
        let before = credited(cells, rest, ship_change());
        assert forall|k: int| 0 <= k < rest.len() implies (#[trigger] rest[k]).cell
            < cells.len() by {
            assert(rest[k] == credits[k]);
        }
        law_confirmed_credits_reach_their_cells(cells, rest, before);
        assert(credits.last() == credits[credits.len() - 1]);
        assert forall|k: int| 0 <= k < credits.len() implies {
            let credit = #[trigger] credits[k];
                &&& after[credit.cell as int].shipped_seq >= credit.tickets && after[credit.cell as int].shipped_txid >= credit.position
        } by {
            if k < rest.len() {
                assert(rest[k] == credits[k]);
            }
        }
        assert forall|i: int| 0 <= i < cells.len() implies {
            &&& (#[trigger] after[i]).shipped_seq == cells[i].shipped_seq || exists|k: int|
                    0 <= k < credits.len() && (#[trigger] credits[k]).cell == i && credits[k].tickets
                        == after[i].shipped_seq
                &&& after[i].shipped_txid == cells[i].shipped_txid || exists|k: int|
                    0 <= k < credits.len() && (#[trigger] credits[k]).cell == i && credits[k].position
                        == after[i].shipped_txid
        } by {
            assert(before[i].req_seq == cells[i].req_seq);
            if after[i].shipped_seq != cells[i].shipped_seq {
                if before[i].shipped_seq == after[i].shipped_seq {
                    let k = choose|k: int|
                        0 <= k < rest.len() && (#[trigger] rest[k]).cell == i && rest[k].tickets
                            == before[i].shipped_seq;
                    assert(credits[k] == rest[k]);
                } else {
                    assert(credits[credits.len() - 1].cell == i);
                }
            }
            if after[i].shipped_txid != cells[i].shipped_txid {
                if before[i].shipped_txid == after[i].shipped_txid {
                    let k = choose|k: int|
                        0 <= k < rest.len() && (#[trigger] rest[k]).cell == i && rest[k].position
                            == before[i].shipped_txid;
                    assert(credits[k] == rest[k]);
                } else {
                    assert(credits[credits.len() - 1].cell == i);
                }
            }
        }
        assert forall|i: int| 0 <= i < cells.len() implies {
            &&& (#[trigger] after[i]).shipped_seq >= cells[i].shipped_seq && after[i].shipped_txid >= cells[i].shipped_txid
                &&& after[i].req_seq == cells[i].req_seq
                &&& after[i].synced_seq == cells[i].synced_seq
                &&& after[i].submitted_seq == cells[i].submitted_seq
                &&& after[i].submitted_txid == cells[i].submitted_txid
                &&& after[i].durable_txid == cells[i].durable_txid
                &&& after[i].percell_txid == cells[i].percell_txid
                &&& after[i].syncing == cells[i].syncing
                &&& after[i].last_sync_ms == cells[i].last_sync_ms
                &&& after[i].compaction == cells[i].compaction
        } by {
            assert(before[i].req_seq == cells[i].req_seq);
        }
    }
}

/// A submission takes the marks of what is in flight up to the credit of each cell
/// and no further, and touches nothing else of any cell.
pub proof fn law_submitted_credits_reach_their_cells(
    cells: Seq<CellState>,
    credits: Seq<Credit>,
    after: Seq<CellState>,
)
    requires
        credits_fit(credits, cells.len() as int),
        after == credited(cells, credits, submit_change()),
    ensures
        after.len() == cells.len(),
        forall|k: int|
            0 <= k < credits.len() ==> {
                let credit = #[trigger] credits[k];
                &&& after[credit.cell as int].submitted_seq >= credit.tickets && after[credit.cell as int].submitted_txid >= credit.position
            },
        forall|i: int|
            0 <= i < cells.len() ==> {
                &&& (#[trigger] after[i]).submitted_seq >= cells[i].submitted_seq && after[i].submitted_txid >= cells[i].submitted_txid
                &&& after[i].submitted_seq == cells[i].submitted_seq || exists|k: int|
                    0 <= k < credits.len() && (#[trigger] credits[k]).cell == i && credits[k].tickets
                        == after[i].submitted_seq
                &&& after[i].submitted_txid == cells[i].submitted_txid || exists|k: int|
                    0 <= k < credits.len() && (#[trigger] credits[k]).cell == i && credits[k].position
                        == after[i].submitted_txid
                &&& after[i].req_seq == cells[i].req_seq
                &&& after[i].synced_seq == cells[i].synced_seq
                &&& after[i].shipped_seq == cells[i].shipped_seq
                &&& after[i].shipped_txid == cells[i].shipped_txid
                &&& after[i].durable_txid == cells[i].durable_txid
                &&& after[i].percell_txid == cells[i].percell_txid
                &&& after[i].syncing == cells[i].syncing
                &&& after[i].last_sync_ms == cells[i].last_sync_ms
                &&& after[i].compaction == cells[i].compaction
            },
    decreases credits.len(),
{
    if credits.len() > 0 {
        let rest = credits.drop_last();
        let before = credited(cells, rest, submit_change());
        assert forall|k: int| 0 <= k < rest.len() implies (#[trigger] rest[k]).cell
            < cells.len() by {
            assert(rest[k] == credits[k]);
        }
        law_submitted_credits_reach_their_cells(cells, rest, before);
        assert(credits.last() == credits[credits.len() - 1]);
        assert forall|k: int| 0 <= k < credits.len() implies {
            let credit = #[trigger] credits[k];
                &&& after[credit.cell as int].submitted_seq >= credit.tickets && after[credit.cell as int].submitted_txid >= credit.position
        } by {
            if k < rest.len() {
                assert(rest[k] == credits[k]);
            }
        }
        assert forall|i: int| 0 <= i < cells.len() implies {
            &&& (#[trigger] after[i]).submitted_seq == cells[i].submitted_seq || exists|k: int|
                    0 <= k < credits.len() && (#[trigger] credits[k]).cell == i && credits[k].tickets
                        == after[i].submitted_seq
                &&& after[i].submitted_txid == cells[i].submitted_txid || exists|k: int|
                    0 <= k < credits.len() && (#[trigger] credits[k]).cell == i && credits[k].position
                        == after[i].submitted_txid
        } by {
            assert(before[i].req_seq == cells[i].req_seq);
            if after[i].submitted_seq != cells[i].submitted_seq {
                if before[i].submitted_seq == after[i].submitted_seq {
                    let k = choose|k: int|
                        0 <= k < rest.len() && (#[trigger] rest[k]).cell == i && rest[k].tickets
                            == before[i].submitted_seq;
                    assert(credits[k] == rest[k]);
                } else {
                    assert(credits[credits.len() - 1].cell == i);
                }
            }
            if after[i].submitted_txid != cells[i].submitted_txid {
                if before[i].submitted_txid == after[i].submitted_txid {
                    let k = choose|k: int|
                        0 <= k < rest.len() && (#[trigger] rest[k]).cell == i && rest[k].position
                            == before[i].submitted_txid;
                    assert(credits[k] == rest[k]);
                } else {
                    assert(credits[credits.len() - 1].cell == i);
                }
            }
        }
        assert forall|i: int| 0 <= i < cells.len() implies {
            &&& (#[trigger] after[i]).submitted_seq >= cells[i].submitted_seq && after[i].submitted_txid >= cells[i].submitted_txid
                &&& after[i].req_seq == cells[i].req_seq
                &&& after[i].synced_seq == cells[i].synced_seq
                &&& after[i].shipped_seq == cells[i].shipped_seq
                &&& after[i].shipped_txid == cells[i].shipped_txid
                &&& after[i].durable_txid == cells[i].durable_txid
                &&& after[i].percell_txid == cells[i].percell_txid
                &&& after[i].syncing == cells[i].syncing
                &&& after[i].last_sync_ms == cells[i].last_sync_ms
                &&& after[i].compaction == cells[i].compaction
        } by {
            assert(before[i].req_seq == cells[i].req_seq);
        }
    }
}

/// A cell with nothing left to ship is credited as if its round had been submitted
/// and confirmed, and nothing else of any cell is touched.
pub proof fn law_settled_credits_reach_their_cells(
    cells: Seq<CellState>,
    credits: Seq<Credit>,
    after: Seq<CellState>,
)
    requires
        credits_fit(credits, cells.len() as int),
        after == credited(cells, credits, settle_change()),
    ensures
        after.len() == cells.len(),
        forall|k: int|
            0 <= k < credits.len() ==> {
                let credit = #[trigger] credits[k];
                &&& after[credit.cell as int].shipped_seq >= credit.tickets && after[credit.cell as int].shipped_txid >= credit.position
                &&& after[credit.cell as int].submitted_seq >= credit.tickets && after[credit.cell as int].submitted_txid >= credit.position
            },
        forall|i: int|
            0 <= i < cells.len() ==> {
                &&& (#[trigger] after[i]).shipped_seq >= cells[i].shipped_seq && after[i].shipped_txid >= cells[i].shipped_txid
                &&& after[i].submitted_seq >= cells[i].submitted_seq && after[i].submitted_txid >= cells[i].submitted_txid
                &&& after[i].shipped_seq == cells[i].shipped_seq || exists|k: int|
                    0 <= k < credits.len() && (#[trigger] credits[k]).cell == i && credits[k].tickets
                        == after[i].shipped_seq
                &&& after[i].shipped_txid == cells[i].shipped_txid || exists|k: int|
                    0 <= k < credits.len() && (#[trigger] credits[k]).cell == i && credits[k].position
                        == after[i].shipped_txid
                &&& after[i].submitted_seq == cells[i].submitted_seq || exists|k: int|
                    0 <= k < credits.len() && (#[trigger] credits[k]).cell == i && credits[k].tickets
                        == after[i].submitted_seq
                &&& after[i].submitted_txid == cells[i].submitted_txid || exists|k: int|
                    0 <= k < credits.len() && (#[trigger] credits[k]).cell == i && credits[k].position
                        == after[i].submitted_txid
                &&& after[i].req_seq == cells[i].req_seq
                &&& after[i].synced_seq == cells[i].synced_seq
                &&& after[i].durable_txid == cells[i].durable_txid
                &&& after[i].percell_txid == cells[i].percell_txid
                &&& after[i].syncing == cells[i].syncing
                &&& after[i].last_sync_ms == cells[i].last_sync_ms
                &&& after[i].compaction == cells[i].compaction
            },
    decreases credits.len(),
{
    if credits.len() > 0 {
        let rest = credits.drop_last();
        let before = credited(cells, rest, settle_change());
        assert forall|k: int| 0 <= k < rest.len() implies (#[trigger] rest[k]).cell
            < cells.len() by {
            assert(rest[k] == credits[k]);
        }
        law_settled_credits_reach_their_cells(cells, rest, before);
        assert(credits.last() == credits[credits.len() - 1]);
        assert forall|k: int| 0 <= k < credits.len() implies {
            let credit = #[trigger] credits[k];
                &&& after[credit.cell as int].shipped_seq >= credit.tickets && after[credit.cell as int].shipped_txid >= credit.position
                &&& after[credit.cell as int].submitted_seq >= credit.tickets && after[credit.cell as int].submitted_txid >= credit.position
        } by {
            if k < rest.len() {
                assert(rest[k] == credits[k]);
            }
        }
        assert forall|i: int| 0 <= i < cells.len() implies {
            &&& (#[trigger] after[i]).shipped_seq == cells[i].shipped_seq || exists|k: int|
                    0 <= k < credits.len() && (#[trigger] credits[k]).cell == i && credits[k].tickets
                        == after[i].shipped_seq
                &&& after[i].shipped_txid == cells[i].shipped_txid || exists|k: int|
                    0 <= k < credits.len() && (#[trigger] credits[k]).cell == i && credits[k].position
                        == after[i].shipped_txid
                &&& after[i].submitted_seq == cells[i].submitted_seq || exists|k: int|
                    0 <= k < credits.len() && (#[trigger] credits[k]).cell == i && credits[k].tickets
                        == after[i].submitted_seq
                &&& after[i].submitted_txid == cells[i].submitted_txid || exists|k: int|
                    0 <= k < credits.len() && (#[trigger] credits[k]).cell == i && credits[k].position
                        == after[i].submitted_txid
        } by {
            assert(before[i].req_seq == cells[i].req_seq);
            if after[i].shipped_seq != cells[i].shipped_seq {
                if before[i].shipped_seq == after[i].shipped_seq {
                    let k = choose|k: int|
                        0 <= k < rest.len() && (#[trigger] rest[k]).cell == i && rest[k].tickets
                            == before[i].shipped_seq;
                    assert(credits[k] == rest[k]);
                } else {
                    assert(credits[credits.len() - 1].cell == i);
                }
            }
            if after[i].shipped_txid != cells[i].shipped_txid {
                if before[i].shipped_txid == after[i].shipped_txid {
                    let k = choose|k: int|
                        0 <= k < rest.len() && (#[trigger] rest[k]).cell == i && rest[k].position
                            == before[i].shipped_txid;
                    assert(credits[k] == rest[k]);
                } else {
                    assert(credits[credits.len() - 1].cell == i);
                }
            }
            if after[i].submitted_seq != cells[i].submitted_seq {
                if before[i].submitted_seq == after[i].submitted_seq {
                    let k = choose|k: int|
                        0 <= k < rest.len() && (#[trigger] rest[k]).cell == i && rest[k].tickets
                            == before[i].submitted_seq;
                    assert(credits[k] == rest[k]);
                } else {
                    assert(credits[credits.len() - 1].cell == i);
                }
            }
            if after[i].submitted_txid != cells[i].submitted_txid {
                if before[i].submitted_txid == after[i].submitted_txid {
                    let k = choose|k: int|
                        0 <= k < rest.len() && (#[trigger] rest[k]).cell == i && rest[k].position
                            == before[i].submitted_txid;
                    assert(credits[k] == rest[k]);
                } else {
                    assert(credits[credits.len() - 1].cell == i);
                }
            }
        }
        assert forall|i: int| 0 <= i < cells.len() implies {
            &&& (#[trigger] after[i]).shipped_seq >= cells[i].shipped_seq && after[i].shipped_txid >= cells[i].shipped_txid
                &&& after[i].submitted_seq >= cells[i].submitted_seq && after[i].submitted_txid >= cells[i].submitted_txid
                &&& after[i].req_seq == cells[i].req_seq
                &&& after[i].synced_seq == cells[i].synced_seq
                &&& after[i].durable_txid == cells[i].durable_txid
                &&& after[i].percell_txid == cells[i].percell_txid
                &&& after[i].syncing == cells[i].syncing
                &&& after[i].last_sync_ms == cells[i].last_sync_ms
                &&& after[i].compaction == cells[i].compaction
        } by {
            assert(before[i].req_seq == cells[i].req_seq);
        }
    }
}

/// A roll-back leaves nothing in flight of any registered cell, and touches no
/// other cell and no other mark.
pub proof fn law_roll_back_reaches_the_registered_cells(
    cells: &mut Vec<CellState>,
    resident: Vec<usize>,
)
    requires
        places_fit(resident@, old(cells)@.len() as int),
        call_ensures(reset_submitted, (cells, &resident), ()),
    ensures
        final(cells)@.len() == old(cells)@.len(),
        forall|k: int|
            0 <= k < resident@.len() ==> {
                let place = #[trigger] resident@[k] as int;
                &&& final(cells)@[place].submitted_seq == old(cells)@[place].shipped_seq
                &&& final(cells)@[place].submitted_txid == old(cells)@[place].shipped_txid
            },
        forall|i: int|
            0 <= i < old(cells)@.len() && !resident@.contains(i as usize)
                ==> #[trigger] final(cells)@[i] == old(cells)@[i],
        forall|i: int|
            0 <= i < old(cells)@.len() ==> {
                &&& (#[trigger] final(cells)@[i]).shipped_seq == old(cells)@[i].shipped_seq
                &&& final(cells)@[i].shipped_txid == old(cells)@[i].shipped_txid
                &&& final(cells)@[i].synced_seq == old(cells)@[i].synced_seq
                &&& final(cells)@[i].req_seq == old(cells)@[i].req_seq
                &&& final(cells)@[i].durable_txid == old(cells)@[i].durable_txid
                &&& final(cells)@[i].percell_txid == old(cells)@[i].percell_txid
            },
{
    let total = old(cells)@.len();
    assert forall|k: int| 0 <= k < resident@.len() implies {
        let place = #[trigger] resident@[k] as int;
        &&& final(cells)@[place].submitted_seq == old(cells)@[place].shipped_seq
        &&& final(cells)@[place].submitted_txid == old(cells)@[place].shipped_txid
    } by {
        let place = resident@[k];
        assert(resident@.contains(place));
        assert(final(cells)@[place as int] == all_rolled_back(old(cells)@, resident@)[place as int]);
    }
}

pub(crate) proof fn lemma_count_is_a_prefix(outstanding: Seq<Batch>, cells: Seq<CellState>)
    ensures
        covered_count(outstanding, cells) <= outstanding.len(),
        forall|i: int|
            0 <= i < covered_count(outstanding, cells) ==> (#[trigger] outstanding[i]).covered(
                cells,
            ),
        covered_count(outstanding, cells) < outstanding.len() ==> !outstanding[covered_count(
            outstanding,
            cells,
        ) as int].covered(cells),
    decreases outstanding.len(),
{
    if outstanding.len() > 0 && outstanding[0].covered(cells) {
        let rest = outstanding.drop_first();
        lemma_count_is_a_prefix(rest, cells);
        let count = covered_count(outstanding, cells);
        assert forall|i: int| 0 <= i < count implies (#[trigger] outstanding[i]).covered(cells) by {
            if i > 0 {
                assert(outstanding[i] == rest[i - 1]);
            }
        }
        if count < outstanding.len() {
            assert(outstanding[count as int] == rest[count - 1]);
        }
    }
}

pub(crate) proof fn lemma_watermark_bounds(outstanding: Seq<Batch>, count: nat, start: u64)
    requires
        count <= outstanding.len(),
    ensures
        watermark(outstanding, count, start) >= start,
        forall|i: int|
            0 <= i < count ==> (#[trigger] outstanding[i]).last_seq <= watermark(
                outstanding,
                count,
                start,
            ),
        watermark(outstanding, count, start) == start || exists|i: int|
            0 <= i < count && (#[trigger] outstanding[i]).last_seq == watermark(
                outstanding,
                count,
                start,
            ),
    decreases count,
{
    if count > 0 {
        lemma_watermark_bounds(outstanding, (count - 1) as nat, start);
        assert(outstanding[count - 1].last_seq <= watermark(outstanding, count, start));
    }
}

/// Members truncate only behind what the bucket holds. The ledger drops its oldest
/// batches while the bucket reaches every position in them, and no batch behind
/// one that it does not reach; the mark goes up to the highest sequence that was
/// dropped and never back.
pub proof fn law_ledger_truncates_behind_the_bucket(
    ledger: &mut ShipLedger,
    cells: Vec<CellState>,
    dropped: int,
)
    requires
        old(ledger).fits(cells@.len() as int),
        call_ensures(ShipLedger::advance, (ledger, &cells), ()),
        dropped == old(ledger).outstanding@.len() - final(ledger).outstanding@.len(),
    ensures
        0 <= dropped,
        forall|k: int|
            0 <= k < final(ledger).outstanding@.len() ==> #[trigger] final(ledger).outstanding@[k]
                == old(ledger).outstanding@[k + dropped],
        forall|k: int, m: int|
            0 <= k < dropped && 0 <= m < old(ledger).outstanding@[k].tops@.len() ==> {
                let top = #[trigger] old(ledger).outstanding@[k].tops@[m];
                cells@[top.0 as int].durable_txid >= top.1
            },
        final(ledger).outstanding@.len() > 0 ==> exists|m: int|
            0 <= m < final(ledger).outstanding@[0].tops@.len() && cells@[(
            #[trigger] final(ledger).outstanding@[0].tops@[m]).0 as int].durable_txid
                < final(ledger).outstanding@[0].tops@[m].1,
        final(ledger).covered >= old(ledger).covered,
        forall|k: int|
            0 <= k < dropped ==> (#[trigger] old(ledger).outstanding@[k]).last_seq
                <= final(ledger).covered,
        final(ledger).covered == old(ledger).covered || exists|k: int|
            0 <= k < dropped && (#[trigger] old(ledger).outstanding@[k]).last_seq
                == final(ledger).covered,
        final(ledger).epoch == old(ledger).epoch,
{
    let all = old(ledger).outstanding@;
    lemma_count_is_a_prefix(all, cells@);
    let count = covered_count(all, cells@);
    lemma_watermark_bounds(all, count, old(ledger).covered);
    assert(dropped == count);
    assert forall|k: int, m: int|
        0 <= k < dropped && 0 <= m < old(ledger).outstanding@[k].tops@.len() implies {
        let top = #[trigger] old(ledger).outstanding@[k].tops@[m];
        cells@[top.0 as int].durable_txid >= top.1
    } by {
        assert(all[k].covered(cells@));
    }
    if final(ledger).outstanding@.len() > 0 {
        assert(final(ledger).outstanding@[0] == all[count as int]);
        assert(!all[count as int].covered(cells@));
    }
}

/// A new epoch starts an empty ledger, the same one keeps it, and a batch that was
/// confirmed is entered behind the others.
pub proof fn law_ledger_goes_by_epochs(
    observing: &mut ShipLedger,
    entering: &mut ShipLedger,
    epoch: u64,
    last_seq: u64,
    tops: Vec<(usize, u64)>,
    covered: u64,
)
    requires
        call_ensures(ShipLedger::observe_epoch, (observing, epoch), ()),
        call_ensures(ShipLedger::shipped, (entering, last_seq, tops), ()),
        call_ensures(ShipLedger::covered_seq, (final(entering),), covered),
    ensures
        final(observing).epoch == Some(epoch),
        old(observing).epoch == Some(epoch) ==> final(observing).outstanding@ == old(observing).outstanding@ && final(observing).covered == old(observing).covered,
        old(observing).epoch != Some(epoch) ==> final(observing).outstanding@.len() == 0
            && final(observing).covered == 0,
        final(entering).outstanding@.len() == old(entering).outstanding@.len() + 1,
        final(entering).outstanding@.last().last_seq == last_seq,
        final(entering).outstanding@.last().tops@ == tops@,
        forall|k: int|
            0 <= k < old(entering).outstanding@.len() ==> #[trigger] final(entering).outstanding@[k] == old(entering).outstanding@[k],
        final(entering).covered == old(entering).covered,
        covered == old(entering).covered,
        final(entering).epoch == old(entering).epoch,
{
}

/// A ledger starts empty, and a result of a round tells the sequence that it was
/// made with.
pub proof fn law_result_tells_its_sequence(
    ledger: ShipLedger,
    last_seq: Option<u64>,
    completion: ShipCompletion,
    told: Option<u64>,
)
    requires
        call_ensures(ShipLedger::new, (), ledger),
        call_ensures(ShipCompletion::unreserved, (last_seq,), completion),
        call_ensures(ShipCompletion::last_seq, (&completion,), told),
    ensures
        ledger.outstanding@.len() == 0 && ledger.covered == 0 && ledger.epoch is None,
        told == last_seq,
        !completion.holds_reservation(),
{
}

} // verus!
