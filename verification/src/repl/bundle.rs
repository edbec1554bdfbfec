//! The bundle tier: one object per node and flush interval that carries the
//! frames of every dirty cell.

use vstd::prelude::*;
use crate::repl::cell::CellState;
use crate::repl::ship;
use crate::repl::ship::Credit;

verus! {

/// One frame of a bundle.
#[derive(Debug)]
pub struct BundleEntry {
    pub cell: String,
    pub cell_epoch: u64,
    pub txid: u64,
    pub bytes: Vec<u8>,
}

/// The places among `resident` whose cells the bucket does not cover, in order.
pub open spec fn dirty_among(cells: Seq<CellState>, resident: Seq<usize>) -> Seq<usize>
    decreases resident.len(),
{
    if resident.len() == 0 {
        Seq::empty()
    } else {
        let rest = dirty_among(cells, resident.drop_last());
        if cells[resident.last() as int].dirty() {
            rest.push(resident.last())
        } else {
            rest
        }
    }
}

/// The cells that the next bundle has to carry.
pub fn select_dirty(cells: &Vec<CellState>, resident: &Vec<usize>) -> (work: Vec<usize>)
    requires
        ship::places_fit(resident@, cells@.len() as int),
    ensures
        work@ == dirty_among(cells@, resident@),
{
    let mut work: Vec<usize> = Vec::new();
    let mut at: usize = 0;
    assert(resident@.take(0) =~= Seq::<usize>::empty());
    while at < resident.len()
        invariant
            at <= resident@.len(),
            ship::places_fit(resident@, cells@.len() as int),
            work@ == dirty_among(cells@, resident@.take(at as int)),
        decreases resident@.len() - at,
    {
        let place = resident[at];
        assert(resident@[at as int] < cells@.len());
        assert(resident@.take(at + 1).drop_last() =~= resident@.take(at as int));
        if cells[place].req_seq > cells[place].synced_seq {
            work.push(place);
        }
        at = at + 1;
    }
    assert(resident@.take(at as int) =~= resident@);
    work
}

/// A bundle as it is put together.
#[derive(Debug)]
pub struct Bundle {
    pub entries: Vec<BundleEntry>,
    pub credits: Vec<Credit>,
}

/// The cell whose frames are being read for a bundle.
#[derive(Debug)]
pub struct BundleCell {
    pub cell: String,
    pub epoch: u64,
    pub place: usize,
    /// Tickets that were counted before the capture.
    pub tickets: u64,
    pub position: u64,
    /// The frame to read next.
    pub next: Option<u64>,
    pub complete: bool,
}

impl BundleCell {
    /// A frame to read lies within the capture.
    pub open spec fn wf(self) -> bool {
        self.next matches Some(txid) ==> txid <= self.position && self.complete
    }

    /// Start on a cell that the bucket covers up to `durable_txid`, when its
    /// log has reached `position`.
    pub fn start(
        cell: &str,
        epoch: u64,
        place: usize,
        tickets: u64,
        durable_txid: u64,
        position: u64,
    ) -> (reading: Self)
        ensures
            reading.wf(),
            reading.cell@ == cell@,
            reading.epoch == epoch,
            reading.place == place,
            reading.tickets == tickets,
            reading.position == position,
            reading.complete,
            reading.next == if durable_txid < position {
                Some((durable_txid + 1) as u64)
            } else {
                None
            },
    {
        BundleCell {
            cell: cell.to_owned(),
            epoch,
            place,
            tickets,
            position,
            next: if durable_txid < position {
                Some(durable_txid + 1)
            } else {
                None
            },
            complete: true,
        }
    }
}

impl Bundle {
    pub fn new() -> (bundle: Self)
        ensures
            bundle.entries@ == Seq::<BundleEntry>::empty(),
            bundle.credits@ == Seq::<Credit>::empty(),
    {
        Bundle { entries: Vec::new(), credits: Vec::new() }
    }

    /// The next frame of `reading` was read, or could not be, which leaves the
    /// cell without a credit.
    pub fn take(&mut self, reading: &mut BundleCell, frame: Option<Vec<u8>>)
        requires
            old(reading).wf(),
            old(reading).next is Some,
        ensures
            final(reading).wf(),
            final(reading).cell == old(reading).cell,
            final(reading).epoch == old(reading).epoch,
            final(reading).place == old(reading).place,
            final(reading).tickets == old(reading).tickets,
            final(reading).position == old(reading).position,
            final(self).credits == old(self).credits,
            ({
                let txid = old(reading).next->0;
                match frame {
                    Some(bytes) => {
                        &&& final(reading).complete
                        &&& final(reading).next == if txid < old(reading).position {
                            Some((txid + 1) as u64)
                        } else {
                            None
                        }
                        &&& final(self).entries@.len() == old(self).entries@.len() + 1
                        &&& final(self).entries@.drop_last() == old(self).entries@
                        &&& final(self).entries@.last().cell@ == old(reading).cell@
                        &&& final(self).entries@.last().cell_epoch == old(reading).epoch
                        &&& final(self).entries@.last().txid == txid
                        &&& final(self).entries@.last().bytes == bytes
                    },
                    None => {
                        &&& !final(reading).complete
                        &&& final(reading).next is None
                        &&& final(self).entries@ == old(self).entries@
                    },
                }
            }),
    {
        let txid: u64 = match reading.next {
            Some(txid) => txid,
            None => 0,
        };
        match frame {
            Some(bytes) => {
                let ghost before = self.entries@;
                self.entries.push(
                    BundleEntry {
                        cell: reading.cell.as_str().to_owned(),
                        cell_epoch: reading.epoch,
                        txid,
                        bytes,
                    },
                );
                assert(self.entries@.drop_last() =~= before);
                reading.next = if txid < reading.position {
                    Some(txid + 1)
                } else {
                    None
                };
            },
            None => {
                reading.complete = false;
                reading.next = None;
            },
        }
    }

    /// The frames of a cell have been read.
    pub fn finish_cell(&mut self, reading: BundleCell)
        requires
            reading.next is None,
        ensures
            final(self).entries == old(self).entries,
            final(self).credits@ == if reading.complete {
                old(self).credits@.push(
                    Credit {
                        cell: reading.place,
                        tickets: reading.tickets,
                        position: reading.position,
                    },
                )
            } else {
                old(self).credits@
            },
    {
        if reading.complete {
            self.credits.push(
                Credit {
                    cell: reading.place,
                    tickets: reading.tickets,
                    position: reading.position,
                },
            );
        }
    }

    /// What to do with a bundle that was put together.
    pub fn step(&self) -> (step: BundleStep)
        ensures
            step == if self.credits@.len() == 0 {
                BundleStep::Drop
            } else if self.entries@.len() == 0 {
                BundleStep::Credit
            } else {
                BundleStep::Put
            },
    {
        if self.credits.len() == 0 {
            BundleStep::Drop
        } else if self.entries.len() == 0 {
            BundleStep::Credit
        } else {
            BundleStep::Put
        }
    }
}

/// What to do with a bundle that was put together.
#[derive(Clone, Copy, Debug, PartialEq, Eq, Structural)]
pub enum BundleStep {
    /// No cell would be credited.
    Drop,
    /// The bucket has every frame already.
    Credit,
    /// Write the bundle, and credit its cells if it is written.
    Put,
}

/// The change that a written bundle makes to a cell.
pub open spec fn bundle_change(now_ms: u64) -> spec_fn(CellState, Credit) -> CellState {
    |cell: CellState, credit: Credit|
        cell.bundled(credit.tickets, credit.position, now_ms).compaction_claimed(credit.position)
}

/// Credit the cells of a bundle that is in the bucket. The result names the
/// cells, in order, that claimed a compaction round.
pub fn credit_bundle(cells: &mut Vec<CellState>, credits: &Vec<Credit>, now_ms: u64) -> (claimed: Vec<
    usize,
>)
    requires
        ship::credits_fit(credits@, old(cells)@.len() as int),
    ensures
        final(cells)@ == ship::credited(old(cells)@, credits@, bundle_change(now_ms)),
        final(cells)@.len() == old(cells)@.len(),
        claimed@ == claims(old(cells)@, credits@, now_ms),
{
    let ghost before = cells@;
    let mut claimed: Vec<usize> = Vec::new();
    let mut at: usize = 0;
    assert(credits@.take(0) =~= Seq::<Credit>::empty());
    while at < credits.len()
        invariant
            at <= credits@.len(),
            ship::credits_fit(credits@, before.len() as int),
            cells@.len() == before.len(),
            cells@ == ship::credited(before, credits@.take(at as int), bundle_change(now_ms)),
            claimed@ == claims(before, credits@.take(at as int), now_ms),
        decreases credits@.len() - at,
    {
        let credit = credits[at];
        assert(credits@[at as int].cell < before.len());
        assert(credits@.take(at + 1).drop_last() =~= credits@.take(at as int));
        assert(credits@.take(at + 1).last() == credit);
        let mut cell = cells[credit.cell];
        cell.credit_bundle(credit.tickets, credit.position, now_ms);
        if cell.claim_compaction(credit.position) {
            claimed.push(credit.cell);
        }
        cells.set(credit.cell, cell);
        at = at + 1;
    }
    assert(credits@.take(at as int) =~= credits@);
    claimed
}

/// The cells, in order, that claim a compaction round when a bundle is
/// credited.
pub open spec fn claims(cells: Seq<CellState>, credits: Seq<Credit>, now_ms: u64) -> Seq<usize>
    decreases credits.len(),
{
    if credits.len() == 0 {
        Seq::empty()
    } else {
        let earlier = credits.drop_last();
        let credit = credits.last();
        let before = ship::credited(cells, earlier, bundle_change(now_ms));
        let rest = claims(cells, earlier, now_ms);
        if before[credit.cell as int].bundled(
            credit.tickets,
            credit.position,
            now_ms,
        ).compaction_due(credit.position) {
            rest.push(credit.cell)
        } else {
            rest
        }
    }
}

/// A bundle proves tickets by the bucket and moves no cell's own prefix, so
/// what only bundles cover stays marked as a tail.
pub proof fn law_bundle_leaves_the_prefix_alone(
    cell: CellState,
    tickets: u64,
    position: u64,
    now_ms: u64,
)
    ensures
        cell.bundled(tickets, position, now_ms).covered() == cell.covered(),
        position > cell.covered() ==> cell.bundled(tickets, position, now_ms).undrained(),
{
}

proof fn lemma_dirty_is_a_filter(
    cells: Seq<CellState>,
    resident: Seq<usize>,
    wanted: spec_fn(usize) -> bool,
)
    requires
        forall|place: usize| #[trigger]
            wanted(place) <==> cells[place as int].req_seq > cells[place as int].synced_seq,
    ensures
        dirty_among(cells, resident) == resident.filter(wanted),
    decreases resident.len(),
{
    reveal(Seq::filter);
    if resident.len() > 0 {
        lemma_dirty_is_a_filter(cells, resident.drop_last(), wanted);
        assert(wanted(resident.last()) || !wanted(resident.last()));
    }
}

/// A bundle carries every registered cell with a ticket that the bucket does not
/// cover, and no other, in their order.
pub proof fn law_bundle_carries_every_dirty_cell(
    cells: Vec<CellState>,
    resident: Vec<usize>,
    work: Vec<usize>,
)
    requires
        call_ensures(select_dirty, (&cells, &resident), work),
    ensures
        forall|at: int|
            0 <= at < resident@.len() ==> {
                let cell = cells@[#[trigger] resident@[at] as int];
                cell.req_seq > cell.synced_seq ==> work@.contains(resident@[at])
            },
        forall|at: int|
            0 <= at < work@.len() ==> {
                let cell = cells@[#[trigger] work@[at] as int];
                cell.req_seq > cell.synced_seq && resident@.contains(work@[at])
            },
        work@ == resident@.filter(
            |place: usize| cells@[place as int].req_seq > cells@[place as int].synced_seq,
        ),
{
    let wanted = |place: usize| cells@[place as int].req_seq > cells@[place as int].synced_seq;
    lemma_dirty_is_a_filter(cells@, resident@, wanted);
    broadcast use vstd::seq_lib::group_filter_ensures;
    assert forall|at: int| 0 <= at < resident@.len() implies {
        let cell = cells@[#[trigger] resident@[at] as int];
        cell.req_seq > cell.synced_seq ==> work@.contains(resident@[at])
    } by {
        if wanted(resident@[at]) {
            assert(resident@.filter(wanted).contains(resident@[at]));
        }
    }
    assert forall|at: int| 0 <= at < work@.len() implies wanted(#[trigger] work@[at])
        && resident@.contains(work@[at]) by {
        assert(wanted(resident@.filter(wanted)[at]));
        ship::lemma_filter_is_among(resident@, wanted, at);
    }
}

/// A bundle reads a cell's frames one by one, from behind what the bucket covers up
/// to its position, and keeps each with its bytes. A frame that could not be read
/// leaves the cell without a credit; one that was read whole is credited with the
/// tickets that were counted before and with its position.
pub proof fn law_bundle_reads_frame_by_frame(
    cell: &str,
    epoch: u64,
    place: usize,
    tickets: u64,
    durable_txid: u64,
    position: u64,
    start: BundleCell,
    bundle: &mut Bundle,
    reading: &mut BundleCell,
    frame: Option<Vec<u8>>,
    closing: &mut Bundle,
    done: BundleCell,
)
    requires
        call_ensures(
            BundleCell::start,
            (cell, epoch, place, tickets, durable_txid, position),
            start,
        ),
        old(reading).next is Some,
        call_ensures(Bundle::take, (bundle, reading, frame), ()),
        call_ensures(Bundle::finish_cell, (closing, done), ()),
    ensures
        start.cell@ == cell@ && start.epoch == epoch && start.place == place && start.tickets
            == tickets && start.position == position && start.complete,
        start.next is Some <==> durable_txid < position,
        start.next matches Some(txid) ==> txid == durable_txid + 1,
        frame is Some ==> {
            &&& final(bundle).entries@.len() == old(bundle).entries@.len() + 1
            &&& final(bundle).entries@.last().txid == old(reading).next->0
            &&& final(bundle).entries@.last().bytes == frame->0
            &&& final(bundle).entries@.last().cell@ == old(reading).cell@
            &&& final(bundle).entries@.last().cell_epoch == old(reading).epoch
            &&& final(reading).complete
            &&& final(reading).next is Some <==> old(reading).next->0 < old(reading).position
            &&& final(reading).next matches Some(txid) ==> txid == old(reading).next->0 + 1
        },
        frame is None ==> final(bundle).entries@ == old(bundle).entries@ && !final(reading).complete && final(reading).next is None,
        final(bundle).credits@ == old(bundle).credits@,
        done.complete ==> final(closing).credits@.len() == old(closing).credits@.len() + 1
            && final(closing).credits@.last().cell == done.place && final(closing).credits@.last().tickets == done.tickets && final(closing).credits@.last().position
            == done.position,
        !done.complete ==> final(closing).credits@ == old(closing).credits@,
        final(closing).entries@ == old(closing).entries@,
{
}

/// A bundle is written where it has frames and someone to credit, credited at once
/// where the bucket has every frame, and dropped where no one would be credited.
pub proof fn law_bundle_is_written_for_someone(bundle: Bundle, step: BundleStep, fresh: Bundle)
    requires
        call_ensures(Bundle::step, (&bundle,), step),
        call_ensures(Bundle::new, (), fresh),
    ensures
        step is Drop <==> bundle.credits@.len() == 0,
        step is Put <==> bundle.credits@.len() > 0 && bundle.entries@.len() > 0,
        step is Credit <==> bundle.credits@.len() > 0 && bundle.entries@.len() == 0,
        fresh.entries@.len() == 0 && fresh.credits@.len() == 0,
{
}

proof fn lemma_bundle_credits(
    cells: Seq<CellState>,
    credits: Seq<Credit>,
    now_ms: u64,
    after: Seq<CellState>,
)
    requires
        ship::credits_fit(credits, cells.len() as int),
        after == ship::credited(cells, credits, bundle_change(now_ms)),
    ensures
        after.len() == cells.len(),
        forall|k: int|
            0 <= k < credits.len() ==> {
                let credit = #[trigger] credits[k];
                &&& after[credit.cell as int].synced_seq >= credit.tickets
                &&& after[credit.cell as int].durable_txid >= credit.position
                &&& after[credit.cell as int].last_sync_ms == now_ms
            },
        forall|i: int|
            0 <= i < cells.len() ==> {
                &&& (#[trigger] after[i]).synced_seq >= cells[i].synced_seq
                &&& after[i].durable_txid >= cells[i].durable_txid
                &&& after[i].synced_seq == cells[i].synced_seq || exists|k: int|
                    0 <= k < credits.len() && (#[trigger] credits[k]).cell == i && credits[k].tickets
                        == after[i].synced_seq
                &&& after[i].durable_txid == cells[i].durable_txid || exists|k: int|
                    0 <= k < credits.len() && (#[trigger] credits[k]).cell == i
                        && credits[k].position == after[i].durable_txid
                &&& after[i].percell_txid == cells[i].percell_txid
                &&& after[i].req_seq == cells[i].req_seq
                &&& after[i].shipped_seq == cells[i].shipped_seq
                &&& after[i].shipped_txid == cells[i].shipped_txid
                &&& after[i].submitted_seq == cells[i].submitted_seq
                &&& after[i].submitted_txid == cells[i].submitted_txid
                &&& after[i].syncing == cells[i].syncing
            },
    decreases credits.len(),
{
    if credits.len() > 0 {
        let rest = credits.drop_last();
        let before = ship::credited(cells, rest, bundle_change(now_ms));
        assert forall|k: int| 0 <= k < rest.len() implies (#[trigger] rest[k]).cell
            < cells.len() by {
            assert(rest[k] == credits[k]);
        }
        lemma_bundle_credits(cells, rest, now_ms, before);
        assert(credits.last() == credits[credits.len() - 1]);
        assert forall|k: int| 0 <= k < credits.len() implies {
            let credit = #[trigger] credits[k];
            &&& after[credit.cell as int].synced_seq >= credit.tickets
            &&& after[credit.cell as int].durable_txid >= credit.position
            &&& after[credit.cell as int].last_sync_ms == now_ms
        } by {
            if k < rest.len() {
                assert(rest[k] == credits[k]);
            }
        }
        assert forall|i: int| 0 <= i < cells.len() implies {
            &&& (#[trigger] after[i]).synced_seq == cells[i].synced_seq || exists|k: int|
                0 <= k < credits.len() && (#[trigger] credits[k]).cell == i && credits[k].tickets
                    == after[i].synced_seq
            &&& after[i].durable_txid == cells[i].durable_txid || exists|k: int|
                0 <= k < credits.len() && (#[trigger] credits[k]).cell == i && credits[k].position
                    == after[i].durable_txid
        } by {
            assert(before[i].req_seq == cells[i].req_seq);
            if after[i].synced_seq != cells[i].synced_seq {
                if before[i].synced_seq == after[i].synced_seq {
                    let k = choose|k: int|
                        0 <= k < rest.len() && (#[trigger] rest[k]).cell == i && rest[k].tickets
                            == before[i].synced_seq;
                    assert(credits[k] == rest[k]);
                } else {
                    assert(credits[credits.len() - 1].cell == i);
                }
            }
            if after[i].durable_txid != cells[i].durable_txid {
                if before[i].durable_txid == after[i].durable_txid {
                    let k = choose|k: int|
                        0 <= k < rest.len() && (#[trigger] rest[k]).cell == i && rest[k].position
                            == before[i].durable_txid;
                    assert(credits[k] == rest[k]);
                } else {
                    assert(credits[credits.len() - 1].cell == i);
                }
            }
        }
        assert forall|i: int| 0 <= i < cells.len() implies {
            &&& (#[trigger] after[i]).synced_seq >= cells[i].synced_seq
            &&& after[i].durable_txid >= cells[i].durable_txid
            &&& after[i].percell_txid == cells[i].percell_txid
            &&& after[i].req_seq == cells[i].req_seq
            &&& after[i].shipped_seq == cells[i].shipped_seq
            &&& after[i].shipped_txid == cells[i].shipped_txid
            &&& after[i].submitted_seq == cells[i].submitted_seq
            &&& after[i].submitted_txid == cells[i].submitted_txid
            &&& after[i].syncing == cells[i].syncing
        } by {
            assert(before[i].req_seq == cells[i].req_seq);
        }
    }
}

/// A written bundle proves by the bucket what it carried of each cell that it
/// credits, and nothing else. No cell's own prefix moves, and no mark of the fleet.
pub proof fn law_written_bundle_proves_what_it_carried(
    cells: &mut Vec<CellState>,
    credits: Vec<Credit>,
    now_ms: u64,
    claimed: Vec<usize>,
    i: int,
)
    requires
        ship::credits_fit(credits@, old(cells)@.len() as int),
        call_ensures(credit_bundle, (cells, &credits, now_ms), claimed),
        0 <= i < old(cells)@.len(),
    ensures
        final(cells)@.len() == old(cells)@.len(),
        forall|k: int|
            0 <= k < credits@.len() ==> {
                let credit = #[trigger] credits@[k];
                &&& final(cells)@[credit.cell as int].synced_seq >= credit.tickets
                &&& final(cells)@[credit.cell as int].durable_txid >= credit.position
                &&& final(cells)@[credit.cell as int].last_sync_ms == now_ms
            },
        final(cells)@[i].synced_seq == old(cells)@[i].synced_seq || exists|k: int|
            0 <= k < credits@.len() && (#[trigger] credits@[k]).cell == i && credits@[k].tickets
                == final(cells)@[i].synced_seq,
        final(cells)@[i].durable_txid == old(cells)@[i].durable_txid || exists|k: int|
            0 <= k < credits@.len() && (#[trigger] credits@[k]).cell == i && credits@[k].position
                == final(cells)@[i].durable_txid,
        final(cells)@[i].synced_seq >= old(cells)@[i].synced_seq,
        final(cells)@[i].durable_txid >= old(cells)@[i].durable_txid,
        final(cells)@[i].percell_txid == old(cells)@[i].percell_txid,
        final(cells)@[i].req_seq == old(cells)@[i].req_seq,
        final(cells)@[i].shipped_seq == old(cells)@[i].shipped_seq,
        final(cells)@[i].shipped_txid == old(cells)@[i].shipped_txid,
        final(cells)@[i].submitted_seq == old(cells)@[i].submitted_seq,
        (forall|k: int| 0 <= k < credits@.len() ==> (#[trigger] credits@[k]).cell != i) ==> final(cells)@[i] == old(cells)@[i],
{
    lemma_bundle_credits(old(cells)@, credits@, now_ms, final(cells)@);
    ship::lemma_credited(old(cells)@, credits@, bundle_change(now_ms));
    assert(final(cells)@[i].req_seq == old(cells)@[i].req_seq);
}

/// A bundle of one cell claims a compaction round for it exactly where enough has
/// gathered behind its last fold, none is claimed and none is forbidden.
pub proof fn law_bundle_claims_due_rounds(
    cells: &mut Vec<CellState>,
    credits: Vec<Credit>,
    now_ms: u64,
    claimed: Vec<usize>,
)
    requires
        credits@.len() == 1,
        credits@[0].cell < old(cells)@.len(),
        call_ensures(credit_bundle, (cells, &credits, now_ms), claimed),
    ensures
        ({
            let at = credits@[0].cell as int;
            let due = old(cells)@[at].compaction matches Some(compaction) && !compaction.queued
                && !compaction.cancelled && (compaction.min_txids == 0 || credits@[0].position
                >= compaction.compacted_txid + compaction.min_txids);
            &&& due ==> claimed@ == seq![credits@[0].cell] && (final(cells)@[at].compaction matches
                Some(compaction) && compaction.queued)
            &&& !due ==> claimed@.len() == 0 && final(cells)@[at].compaction == old(cells)@[at].compaction
        }),
{
    let rest = credits@.drop_last();
    assert(rest =~= Seq::<Credit>::empty());
    assert(credits@.last() == credits@[0]);
    reveal_with_fuel(ship::credited, 2);
    reveal_with_fuel(claims, 2);
    assert(claims(old(cells)@, rest, now_ms) =~= Seq::<usize>::empty());
}

/// Reading a frame changes neither whose it is nor how far it is read.
pub proof fn law_reading_stays_with_its_cell(
    bundle: &mut Bundle,
    reading: &mut BundleCell,
    frame: Option<Vec<u8>>,
    k: int,
)
    requires
        old(reading).next is Some,
        call_ensures(Bundle::take, (bundle, reading, frame), ()),
    ensures
        final(reading).cell@ == old(reading).cell@,
        final(reading).epoch == old(reading).epoch,
        final(reading).place == old(reading).place,
        final(reading).tickets == old(reading).tickets,
        final(reading).position == old(reading).position,
        0 <= k < old(bundle).entries@.len() ==> final(bundle).entries@[k] == old(bundle).entries@[k],
{
}

proof fn lemma_claims(
    cells: Seq<CellState>,
    credits: Seq<Credit>,
    now_ms: u64,
    after: Seq<CellState>,
    claimed: Seq<usize>,
    i: int,
)
    requires
        ship::credits_fit(credits, cells.len() as int),
        after == ship::credited(cells, credits, bundle_change(now_ms)),
        claimed == claims(cells, credits, now_ms),
        0 <= i < cells.len(),
        i <= usize::MAX,
    ensures
        after.len() == cells.len(),
        after[i].compaction is Some <==> cells[i].compaction is Some,
        cells[i].compaction matches Some(before) ==> {
            let now = after[i].compaction->0;
            let reached = exists|k: int|
                0 <= k < credits.len() && (#[trigger] credits[k]).cell == i && (before.min_txids == 0
                    || credits[k].position >= before.compacted_txid + before.min_txids);
            &&& now.cancelled == before.cancelled && now.min_txids == before.min_txids
                && now.compacted_txid == before.compacted_txid
            &&& now.queued <==> before.queued || !before.cancelled && reached
            &&& claimed.contains(i as usize) <==> !before.queued && now.queued
        },
        cells[i].compaction is None ==> !claimed.contains(i as usize),
    decreases credits.len(),
{
    if credits.len() > 0 {
        let rest = credits.drop_last();
        let earlier = ship::credited(cells, rest, bundle_change(now_ms));
        let listed = claims(cells, rest, now_ms);
        assert forall|k: int| 0 <= k < rest.len() implies (#[trigger] rest[k]).cell
            < cells.len() by {
            assert(rest[k] == credits[k]);
        }
        lemma_claims(cells, rest, now_ms, earlier, listed, i);
        let last = credits.last();
        assert(credits[credits.len() - 1] == last);
        if let Some(before) = cells[i].compaction {
            let then = exists|k: int|
                0 <= k < rest.len() && (#[trigger] rest[k]).cell == i && (before.min_txids == 0
                    || rest[k].position >= before.compacted_txid + before.min_txids);
            let reached = exists|k: int|
                0 <= k < credits.len() && (#[trigger] credits[k]).cell == i && (before.min_txids == 0
                    || credits[k].position >= before.compacted_txid + before.min_txids);
            if then {
                let k = choose|k: int|
                    0 <= k < rest.len() && (#[trigger] rest[k]).cell == i && (before.min_txids == 0
                        || rest[k].position >= before.compacted_txid + before.min_txids);
                assert(credits[k] == rest[k]);
            }
            if reached && !then {
                let k = choose|k: int|
                    0 <= k < credits.len() && (#[trigger] credits[k]).cell == i && (before.min_txids
                        == 0 || credits[k].position >= before.compacted_txid + before.min_txids);
                if k < rest.len() {
                    assert(rest[k] == credits[k]);
                }
            }
        }
        if claimed != listed {
            assert(claimed == listed.push(last.cell));
            if claimed.contains(i as usize) {
                let k = choose|k: int| 0 <= k < claimed.len() && claimed[k] == i as usize;
                if k < listed.len() {
                    assert(listed[k] == i as usize);
                }
            }
            if listed.contains(i as usize) {
                let k = choose|k: int| 0 <= k < listed.len() && listed[k] == i as usize;
                assert(claimed[k] == i as usize);
            }
            assert(claimed[listed.len() as int] == last.cell);
        }
    }
}

/// A bundle claims a compaction round for exactly those cells that it brings far
/// enough behind their last fold, where none is claimed already and none is
/// forbidden; what it claims for them is on record, and nothing else about their
/// compaction changes.
pub proof fn law_bundle_claims_every_due_round(
    cells: &mut Vec<CellState>,
    credits: Vec<Credit>,
    now_ms: u64,
    claimed: Vec<usize>,
    place: usize,
)
    requires
        ship::credits_fit(credits@, old(cells)@.len() as int),
        call_ensures(credit_bundle, (cells, &credits, now_ms), claimed),
        place < old(cells)@.len(),
    ensures
        old(cells)@[place as int].compaction is None ==> final(cells)@[place as int].compaction is None
            && !claimed@.contains(place),
        old(cells)@[place as int].compaction matches Some(before) ==> {
            let reached = exists|k: int|
                0 <= k < credits@.len() && (#[trigger] credits@[k]).cell == place && (
                before.min_txids == 0 || credits@[k].position >= before.compacted_txid
                    + before.min_txids);
            &&& claimed@.contains(place) <==> !before.queued && !before.cancelled && reached
            &&& final(cells)@[place as int].compaction matches Some(after) && (after.queued
                <==> before.queued || claimed@.contains(place)) && after.cancelled
                == before.cancelled && after.min_txids == before.min_txids && after.compacted_txid
                == before.compacted_txid
        },
{
    lemma_claims(old(cells)@, credits@, now_ms, final(cells)@, claimed@, place as int);
    assert(place as int as usize == place);
}

} // verus!
