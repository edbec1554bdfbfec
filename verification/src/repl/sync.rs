//! The per-cell sync pass: when a cell is due, what one pass uploads, and what
//! it proves.

use vstd::prelude::*;
use crate::repl::cell::CellState;
use crate::repl::registry::LtxRepl;
use crate::repl::ship;

verus! {

/// How uploads are paced.
#[derive(Clone, Copy, Debug, PartialEq, Eq, Structural)]
pub struct Pace {
    /// Acknowledgements ride the fleet, so an upload may wait for the flush
    /// interval.
    pub paced: bool,
    /// The bundle loop uploads in place of the per-cell pass.
    pub bundling: bool,
}

/// The pace under a flush interval of `flush_ms`, 0 for none, given whether
/// there is an active shipper and an active bundle sink.
pub fn pace(flush_ms: u64, shipper_active: bool, sink_active: bool) -> (pace: Pace)
    ensures
        pace.paced == (flush_ms > 0 && shipper_active),
        pace.bundling == (pace.paced && sink_active),
{
    let paced = flush_ms > 0 && shipper_active;
    Pace { paced, bundling: paced && sink_active }
}

/// Is a per-cell pass due for this cell?
pub open spec fn due(cell: CellState, pace: Pace, flush_ms: u64, now_ms: u64) -> bool {
    &&& cell.dirty()
    &&& !pace.bundling
    &&& pace.paced ==> (if now_ms < cell.last_sync_ms {
        0
    } else {
        now_ms - cell.last_sync_ms
    }) >= flush_ms
}

/// The places among `resident` whose cells are due, in order.
pub open spec fn due_among(
    cells: Seq<CellState>,
    resident: Seq<usize>,
    pace: Pace,
    flush_ms: u64,
    now_ms: u64,
) -> Seq<usize>
    decreases resident.len(),
{
    if resident.len() == 0 {
        Seq::empty()
    } else {
        let rest = due_among(cells, resident.drop_last(), pace, flush_ms, now_ms);
        if due(cells[resident.last() as int], pace, flush_ms, now_ms) {
            rest.push(resident.last())
        } else {
            rest
        }
    }
}

/// The cells that are due for a per-cell pass.
pub fn select_due(
    cells: &Vec<CellState>,
    resident: &Vec<usize>,
    pace: Pace,
    flush_ms: u64,
    now_ms: u64,
) -> (work: Vec<usize>)
    requires
        ship::places_fit(resident@, cells@.len() as int),
    ensures
        work@ == due_among(cells@, resident@, pace, flush_ms, now_ms),
{
    let mut work: Vec<usize> = Vec::new();
    let mut at: usize = 0;
    assert(resident@.take(0) =~= Seq::<usize>::empty());
    while at < resident.len()
        invariant
            at <= resident@.len(),
            ship::places_fit(resident@, cells@.len() as int),
            work@ == due_among(cells@, resident@.take(at as int), pace, flush_ms, now_ms),
        decreases resident@.len() - at,
    {
        let place = resident[at];
        assert(resident@[at as int] < cells@.len());
        assert(resident@.take(at + 1).drop_last() =~= resident@.take(at as int));
        let cell = cells[place];
        if cell.req_seq > cell.synced_seq && !pace.bundling && (!pace.paced
            || now_ms.saturating_sub(cell.last_sync_ms) >= flush_ms) {
            work.push(place);
        }
        at = at + 1;
    }
    assert(resident@.take(at as int) =~= resident@);
    work
}

/// How one sync pass ended.
#[derive(Clone, Copy, Debug, PartialEq, Eq, Structural)]
pub enum SyncEnd {
    /// Everything that it captured is in the bucket.
    Synced,
    /// Something failed; the cell is as dirty as before.
    Failed,
    /// The cell lost its database.
    Closed,
}

/// What a worker does after a pass.
#[derive(Clone, Copy, Debug, PartialEq, Eq, Structural)]
pub enum WorkerStep {
    /// Give the cell up.
    Stop,
    /// Run another pass.
    Again,
    /// Run another pass after this many milliseconds.
    Backoff(u64),
}

/// What a worker does after a pass. It goes on while the cell is dirty, unless
/// uploads are paced; only a pass that failed waits before the next.
pub fn worker_step(cell: &CellState, end: SyncEnd, paced: bool) -> (step: WorkerStep)
    ensures
        step == if end is Closed || !cell.dirty() || paced {
            WorkerStep::Stop
        } else if end is Failed {
            WorkerStep::Backoff(50)
        } else {
            WorkerStep::Again
        },
{
    match end {
        SyncEnd::Closed => return WorkerStep::Stop,
        _ => {},
    }
    if cell.req_seq <= cell.synced_seq || paced {
        return WorkerStep::Stop;
    }
    match end {
        SyncEnd::Failed => WorkerStep::Backoff(50),
        _ => WorkerStep::Again,
    }
}

/// One captured frame.
#[derive(Debug)]
pub struct Row {
    pub txid: u64,
    pub bytes: Vec<u8>,
}

/// The frames of a pass as they are read, from the first that the cell's own
/// prefix lacks to the position that the capture reached.
#[derive(Debug)]
pub struct SyncStaging {
    /// Tickets that were counted before the capture.
    pub captured: u64,
    pub from: u64,
    pub position: u64,
    /// The frame to read next.
    pub next: Option<u64>,
    pub rows: Vec<Row>,
    pub failed: bool,
}

/// Do the rows follow each other without a gap?
pub open spec fn contiguous(rows: Seq<Row>) -> bool {
    forall|i: int|
        0 <= i < rows.len() - 1 ==> (#[trigger] rows[i + 1]).txid == rows[i].txid + 1
}

impl SyncStaging {
    pub open spec fn wf(self) -> bool {
        &&& forall|i: int|
            0 <= i < self.rows@.len() ==> (#[trigger] self.rows@[i]).txid == self.from + i
        &&& match self.next {
            Some(txid) => {
                &&& !self.failed
                &&& txid == self.from + self.rows@.len()
                &&& txid <= self.position
            },
            None => self.failed || self.rows@.len() == (if self.position < self.from {
                0
            } else {
                self.position - self.from + 1
            }),
        }
    }

    /// Start on a cell whose own prefix holds it up to `uploaded`, when its log
    /// has reached `position`.
    pub fn start(captured: u64, uploaded: u64, position: u64) -> (staging: Self)
        requires
            uploaded < u64::MAX,
        ensures
            staging.wf(),
            staging.captured == captured,
            staging.from == uploaded + 1,
            staging.position == position,
            staging.rows@ == Seq::<Row>::empty(),
            !staging.failed,
            staging.next == if uploaded < position {
                Some((uploaded + 1) as u64)
            } else {
                None
            },
    {
        let from: u64 = uploaded + 1;
        SyncStaging {
            captured,
            from,
            position,
            next: if uploaded < position {
                Some(from)
            } else {
                None
            },
            rows: Vec::new(),
            failed: false,
        }
    }

    /// The next frame was read, or could not be, which ends the pass.
    pub fn take(&mut self, frame: Option<Vec<u8>>)
        requires
            old(self).wf(),
            old(self).next is Some,
        ensures
            final(self).wf(),
            final(self).captured == old(self).captured,
            final(self).from == old(self).from,
            final(self).position == old(self).position,
            match frame {
                Some(bytes) => {
                    let txid = old(self).next->0;
                    &&& final(self).rows@ == old(self).rows@.push(Row { txid, bytes })
                    &&& !final(self).failed
                    &&& final(self).next == if txid < old(self).position {
                        Some((txid + 1) as u64)
                    } else {
                        None
                    }
                },
                None => {
                    &&& final(self).rows@ == old(self).rows@
                    &&& final(self).failed
                    &&& final(self).next is None
                },
            },
    {
        let txid: u64 = match self.next {
            Some(txid) => txid,
            None => 0,
        };
        match frame {
            Some(bytes) => {
                self.rows.push(Row { txid, bytes });
                self.next = if txid < self.position {
                    Some(txid + 1)
                } else {
                    None
                };
            },
            None => {
                self.failed = true;
                self.next = None;
            },
        }
    }
}

/// The rows that one merged segment may replace: two or more without a gap.
pub open spec fn mergeable(rows: Seq<Row>) -> bool {
    rows.len() >= 2 && contiguous(rows)
}

impl LtxRepl {
    /// May the rows be merged into one segment? Rows with a gap are uploaded one
    /// by one.
    pub fn merge_l0_rows(rows: &Vec<Row>) -> (merge: bool)
        ensures
            merge == mergeable(rows@),
    {
        if rows.len() < 2 {
            return false;
        }
        let mut at: usize = 1;
        while at < rows.len()
            invariant
                1 <= at <= rows@.len(),
                rows@.len() >= 2,
                forall|i: int| 0 <= i < at - 1 ==> (#[trigger] rows@[i + 1]).txid == rows@[i].txid + 1,
            decreases rows@.len() - at,
        {
            let earlier = rows[at - 1].txid;
            if earlier == u64::MAX || rows[at].txid != earlier + 1 {
                proof {
                    let i = at - 1;
                    assert(rows@[i + 1].txid != rows@[i].txid + 1);
                }
                return false;
            }
            at = at + 1;
        }
        true
    }
}

/// One object to write.
#[derive(Debug)]
pub struct Upload {
    pub min_txid: u64,
    pub max_txid: u64,
    pub bytes: Vec<u8>,
}

/// One object for each row.
pub open spec fn row_uploads(rows: Seq<Row>) -> Seq<Upload> {
    rows.map_values(
        |row: Row| Upload { min_txid: row.txid, max_txid: row.txid, bytes: row.bytes },
    )
}

/// The objects that a pass writes: the merged segment where there is one, or
/// else each row by itself.
pub fn plan_uploads(rows: Vec<Row>, merged: Option<Vec<u8>>) -> (uploads: Vec<Upload>)
    requires
        merged is Some ==> mergeable(rows@),
    ensures
        uploads@ == match merged {
            Some(bytes) => seq![
                Upload {
                    min_txid: rows@[0].txid,
                    max_txid: rows@.last().txid,
                    bytes,
                },
            ],
            None => row_uploads(rows@),
        },
{
    let mut uploads: Vec<Upload> = Vec::new();
    if let Some(bytes) = merged {
        uploads.push(
            Upload { min_txid: rows[0].txid, max_txid: rows[rows.len() - 1].txid, bytes },
        );
        assert(uploads@ =~= seq![
            Upload { min_txid: rows@[0].txid, max_txid: rows@.last().txid, bytes },
        ]);
        return uploads;
    }
    let mut rest = rows;
    let ghost all = row_uploads(rows@);
    while rest.len() > 0
        invariant
            all == row_uploads(rows@),
            rest@.len() <= rows@.len(),
            rest@ == rows@.take(rest@.len() as int),
            uploads@ == all.skip(rest@.len() as int).reverse(),
        decreases rest@.len(),
    {
        let ghost count = rest@.len();
        if let Some(row) = rest.pop() {
            proof {
                assert(row == rows@[count - 1]);
                assert(rest@ =~= rows@.take(count - 1));
                assert(all.skip(count - 1) =~= seq![all[count - 1]] + all.skip(count as int));
            }
            uploads.push(Upload { min_txid: row.txid, max_txid: row.txid, bytes: row.bytes });
            assert(uploads@ =~= all.skip(count - 1).reverse());
        }
    }
    assert(all.skip(0) =~= all);
    let mut ordered: Vec<Upload> = Vec::new();
    while uploads.len() > 0
        invariant
            uploads@.len() <= all.len(),
            uploads@ == all.skip(all.len() - uploads@.len()).reverse(),
            ordered@ == all.take(all.len() - uploads@.len()),
        decreases uploads@.len(),
    {
        let ghost count = uploads@.len();
        let ghost done = all.len() - count;
        if let Some(upload) = uploads.pop() {
            proof {
                assert(upload == all.skip(done)[0]);
                assert(uploads@ =~= all.skip(done + 1).reverse());
            }
            ordered.push(upload);
            assert(ordered@ =~= all.take(done + 1));
        }
    }
    assert(all.take(all.len() as int) =~= all);
    ordered
}

/// Does an object of the list hold the transaction?
pub open spec fn held(uploads: Seq<Upload>, txid: int) -> bool {
    exists|i: int|
        0 <= i < uploads.len() && (#[trigger] uploads[i]).min_txid <= txid <= uploads[i].max_txid
}

/// Merged or not, a pass writes exactly the transactions that it staged.
pub proof fn law_uploads_hold_what_was_staged(staging: SyncStaging, bytes: Vec<u8>, txid: int)
    requires
        staging.wf(),
        staging.next is None,
        !staging.failed,
    ensures
        held(row_uploads(staging.rows@), txid) <==> staging.from <= txid <= staging.position,
        mergeable(staging.rows@) ==> (held(
            seq![
                Upload {
                    min_txid: staging.rows@[0].txid,
                    max_txid: staging.rows@.last().txid,
                    bytes,
                },
            ],
            txid,
        ) <==> staging.from <= txid <= staging.position),
{
    let rows = staging.rows@;
    let uploads = row_uploads(rows);
    if staging.from <= txid <= staging.position {
        assert(uploads[txid - staging.from].min_txid == rows[txid - staging.from].txid);
    }
    if held(uploads, txid) {
        let i = choose|i: int|
            0 <= i < uploads.len() && (#[trigger] uploads[i]).min_txid <= txid
                <= uploads[i].max_txid;
        assert(rows[i].txid == uploads[i].min_txid);
    }
    if mergeable(rows) {
        let one = seq![
            Upload { min_txid: rows[0].txid, max_txid: rows.last().txid, bytes },
        ];
        assert(rows[0].txid == staging.from);
        assert(rows[rows.len() - 1].txid == staging.position);
        assert(one[0].min_txid == staging.from && one[0].max_txid == staging.position);
    }
}

/// Staged rows never have a gap, so two or more of them may always be merged.
pub proof fn law_staged_rows_are_mergeable(staging: SyncStaging)
    requires
        staging.wf(),
        staging.rows@.len() >= 2,
    ensures
        mergeable(staging.rows@),
{
    assert forall|i: int| 0 <= i < staging.rows@.len() - 1 implies (
    #[trigger] staging.rows@[i + 1]).txid == staging.rows@[i].txid + 1 by {
        assert(staging.rows@[i].txid == staging.from + i);
    }
}

/// Credit a pass whose objects were all written, or note that one was not.
/// `last` is the highest transaction that was staged. The result says how the
/// pass ended and whether a compaction round was claimed.
pub fn finish_sync(
    cell: &mut CellState,
    captured: u64,
    last: Option<u64>,
    written: bool,
    now_ms: u64,
) -> (end: (SyncEnd, bool))
    ensures
        written ==> {
            let synced = old(cell).synced(captured, last, now_ms);
            &&& end.0 is Synced
            &&& end.1 == synced.compaction_due(synced.durable_txid)
            &&& *final(cell) == synced.compaction_claimed(synced.durable_txid)
        },
        !written ==> {
            &&& end == (SyncEnd::Failed, false)
            &&& *final(cell) == (CellState { last_sync_ms: now_ms, ..*old(cell) })
        },
{
    if !written {
        cell.last_sync_ms = now_ms;
        return (SyncEnd::Failed, false);
    }
    cell.credit_sync(captured, last, now_ms);
    let durable_txid = cell.durable_txid;
    let claimed = cell.claim_compaction(durable_txid);
    (SyncEnd::Synced, claimed)
}

/// What a caller that waits for one pass is told.
#[derive(Clone, Copy, Debug, PartialEq, Eq, Structural)]
pub enum SyncWait {
    Durable,
    Failed,
    Unsupported,
}

impl LtxRepl {
    /// What a caller that waits for one pass is told; a cell that is not resident
    /// had none.
    pub fn sync_wait(end: Option<SyncEnd>) -> (wait: SyncWait)
        ensures
            wait == match end {
                Some(SyncEnd::Synced) => SyncWait::Durable,
                Some(SyncEnd::Failed) => SyncWait::Failed,
                _ => SyncWait::Unsupported,
            },
    {
        match end {
            Some(SyncEnd::Synced) => SyncWait::Durable,
            Some(SyncEnd::Failed) => SyncWait::Failed,
            _ => SyncWait::Unsupported,
        }
    }
}

proof fn lemma_due_is_a_filter(
    cells: Seq<CellState>,
    resident: Seq<usize>,
    pace: Pace,
    flush_ms: u64,
    now_ms: u64,
    wanted: spec_fn(usize) -> bool,
)
    requires
        forall|place: usize| #[trigger]
            wanted(place) <==> cells[place as int].req_seq > cells[place as int].synced_seq
                && !pace.bundling && (pace.paced ==> cells[place as int].last_sync_ms + flush_ms
                <= now_ms || flush_ms == 0),
    ensures
        due_among(cells, resident, pace, flush_ms, now_ms) == resident.filter(wanted),
    decreases resident.len(),
{
    reveal(Seq::filter);
    if resident.len() > 0 {
        lemma_due_is_a_filter(cells, resident.drop_last(), pace, flush_ms, now_ms, wanted);
        assert(wanted(resident.last()) || !wanted(resident.last()));
    }
}

/// No write is passed over and no pass is wasted: a resident cell is due exactly
/// when the bucket lacks a ticket of it, unless the bundle loop uploads in its
/// place, or uploads are paced and the interval since its last pass is not over.
/// The due cells come in the order of the resident ones.
pub proof fn law_dirty_cell_is_due(
    cells: Vec<CellState>,
    resident: Vec<usize>,
    pace: Pace,
    flush_ms: u64,
    now_ms: u64,
    work: Vec<usize>,
)
    requires
        call_ensures(select_due, (&cells, &resident, pace, flush_ms, now_ms), work),
    ensures
        forall|at: int|
            0 <= at < resident@.len() ==> {
                let cell = cells@[#[trigger] resident@[at] as int];
                cell.req_seq > cell.synced_seq && !pace.bundling && (!pace.paced || now_ms
                    - cell.last_sync_ms >= flush_ms) ==> work@.contains(resident@[at])
            },
        forall|at: int|
            0 <= at < work@.len() ==> {
                let cell = cells@[#[trigger] work@[at] as int];
                &&& resident@.contains(work@[at])
                &&& cell.req_seq > cell.synced_seq
                &&& !pace.bundling
                &&& pace.paced && flush_ms > 0 ==> now_ms >= cell.last_sync_ms + flush_ms
            },
        work@ == resident@.filter(
            |place: usize|
                {
                    let cell = cells@[place as int];
                    &&& cell.req_seq > cell.synced_seq
                    &&& !pace.bundling
                    &&& !pace.paced || flush_ms == 0 || cell.last_sync_ms + flush_ms <= now_ms
                },
        ),
{
    let wanted = |place: usize|
        {
            let cell = cells@[place as int];
            &&& cell.req_seq > cell.synced_seq
            &&& !pace.bundling
            &&& !pace.paced || flush_ms == 0 || cell.last_sync_ms + flush_ms <= now_ms
        };
    lemma_due_is_a_filter(cells@, resident@, pace, flush_ms, now_ms, wanted);
    broadcast use vstd::seq_lib::group_filter_ensures;
    assert forall|at: int| 0 <= at < resident@.len() implies {
        let cell = cells@[#[trigger] resident@[at] as int];
        cell.req_seq > cell.synced_seq && !pace.bundling && (!pace.paced || now_ms
            - cell.last_sync_ms >= flush_ms) ==> work@.contains(resident@[at])
    } by {
        if wanted(resident@[at]) {
            assert(resident@.filter(wanted).contains(resident@[at]));
        }
    }
    assert forall|at: int| 0 <= at < work@.len() implies wanted(#[trigger] work@[at])
        && resident@.contains(work@[at]) by {
        assert(wanted(resident@.filter(wanted)[at]));
        crate::repl::ship::lemma_filter_is_among(resident@, wanted, at);
    }
}

/// Uploads wait only where there is an interval and the fleet acknowledges in
/// the meantime, and the bundle loop takes over only where they wait.
pub proof fn law_uploads_wait_only_for_the_fleet(
    flush_ms: u64,
    shipper_active: bool,
    sink_active: bool,
    pace: Pace,
)
    requires
        call_ensures(self::pace, (flush_ms, shipper_active, sink_active), pace),
    ensures
        pace.paced <==> flush_ms != 0 && shipper_active,
        pace.bundling <==> flush_ms != 0 && shipper_active && sink_active,
{
}

/// Without pacing a worker never gives up a cell that has a ticket left, but for
/// one that lost its database; it waits only after a failure.
pub proof fn law_worker_stays_with_a_dirty_cell(
    cell: CellState,
    end: SyncEnd,
    paced: bool,
    step: WorkerStep,
)
    requires
        call_ensures(worker_step, (&cell, end, paced), step),
    ensures
        step is Stop <==> end is Closed || cell.req_seq <= cell.synced_seq || paced,
        step is Backoff <==> end is Failed && cell.req_seq > cell.synced_seq && !paced,
        step is Again <==> end is Synced && cell.req_seq > cell.synced_seq && !paced,
        step matches WorkerStep::Backoff(wait) ==> wait == 50,
{
}

/// A pass reads every frame from behind the cell's own prefix to its position,
/// one after another: it starts behind the prefix, and after a frame comes the
/// next until the position is reached.
pub proof fn law_pass_reads_frame_by_frame(
    captured: u64,
    uploaded: u64,
    position: u64,
    start: SyncStaging,
    staging: &mut SyncStaging,
    frame: Option<Vec<u8>>,
)
    requires
        call_ensures(SyncStaging::start, (captured, uploaded, position), start),
        old(staging).next is Some,
        call_ensures(SyncStaging::take, (staging, frame), ()),
    ensures
        start.captured == captured && start.position == position && start.rows@.len() == 0
            && !start.failed,
        uploaded < position <==> start.next is Some,
        start.next matches Some(txid) ==> txid == uploaded + 1,
        frame matches Some(bytes) ==> {
            &&& final(staging).rows@.len() == old(staging).rows@.len() + 1
            &&& final(staging).rows@.last().txid == old(staging).next->0
            &&& final(staging).rows@.last().bytes == bytes
            &&& forall|k: int|
                0 <= k < old(staging).rows@.len() ==> #[trigger] final(staging).rows@[k] == old(staging).rows@[k]
            &&& final(staging).next is Some <==> old(staging).next->0 < old(staging).position
            &&& final(staging).next matches Some(txid) ==> txid == old(staging).next->0 + 1
            &&& !final(staging).failed
        },
        frame is None ==> final(staging).failed && final(staging).next is None,
        final(staging).captured == old(staging).captured,
        final(staging).position == old(staging).position,
{
}

/// Rows are merged exactly when there are two or more and each is the one behind
/// the row before it.
pub proof fn law_only_gapless_rows_are_merged(rows: Vec<Row>, merge: bool)
    requires
        call_ensures(LtxRepl::merge_l0_rows, (&rows,), merge),
    ensures
        merge ==> rows@.len() >= 2,
        merge ==> forall|i: int, j: int|
            0 <= i <= j < rows@.len() ==> (#[trigger] rows@[j]).txid - (#[trigger] rows@[i]).txid
                == j - i,
        rows@.len() >= 2 && (forall|i: int|
            0 <= i < rows@.len() ==> (#[trigger] rows@[i]).txid == rows@[0].txid + i) ==> merge,
{
    if merge {
        assert forall|i: int, j: int| 0 <= i <= j < rows@.len() implies (#[trigger] rows@[j]).txid
            - (#[trigger] rows@[i]).txid == j - i by {
            lemma_gapless(rows@, i, j);
        }
    }
    if rows@.len() >= 2 && (forall|i: int|
        0 <= i < rows@.len() ==> (#[trigger] rows@[i]).txid == rows@[0].txid + i) {
        assert forall|i: int| 0 <= i < rows@.len() - 1 implies (#[trigger] rows@[i + 1]).txid
            == rows@[i].txid + 1 by {
            assert(rows@[i].txid == rows@[0].txid + i);
        }
    }
}

proof fn lemma_gapless(rows: Seq<Row>, i: int, j: int)
    requires
        contiguous(rows),
        0 <= i <= j < rows.len(),
    ensures
        rows[j].txid - rows[i].txid == j - i,
    decreases j - i,
{
    if i < j {
        lemma_gapless(rows, i, j - 1);
        assert(rows[(j - 1) + 1].txid == rows[j - 1].txid + 1);
    }
}

/// A pass writes every row that it staged with its own bytes, each once and in
/// order, or the merged segment in place of them all.
pub proof fn law_every_row_is_written(
    rows: Vec<Row>,
    merged: Option<Vec<u8>>,
    uploads: Vec<Upload>,
)
    requires
        rows@.len() > 0 || merged is None,
        call_ensures(plan_uploads, (rows, merged), uploads),
    ensures
        merged is None ==> uploads@.len() == rows@.len() && forall|k: int|
            0 <= k < rows@.len() ==> {
                let upload = #[trigger] uploads@[k];
                &&& upload.min_txid == rows@[k].txid
                &&& upload.max_txid == rows@[k].txid
                &&& upload.bytes == rows@[k].bytes
            },
        merged matches Some(bytes) ==> uploads@.len() == 1 && uploads@[0].bytes == bytes
            && uploads@[0].min_txid == rows@[0].txid && uploads@[0].max_txid == rows@[rows@.len()
            - 1].txid,
{
}

/// A pass that wrote everything proves the tickets that it captured and takes the
/// cell's own prefix up to its last row; one that did not proves nothing. Either
/// way the interval starts anew, and the counters of the fleet stay.
pub proof fn law_pass_proves_what_it_wrote(
    cell: &mut CellState,
    captured: u64,
    last: Option<u64>,
    written: bool,
    now_ms: u64,
    end: (SyncEnd, bool),
)
    requires
        call_ensures(finish_sync, (cell, captured, last, written, now_ms), end),
    ensures
        written <==> end.0 is Synced,
        !written <==> end.0 is Failed,
        final(cell).last_sync_ms == now_ms,
        written ==> final(cell).synced_seq >= captured && final(cell).synced_seq >= old(cell).synced_seq && (final(cell).synced_seq == captured || final(cell).synced_seq == old(cell).synced_seq),
        written && last is Some ==> final(cell).percell_txid >= last->0 && final(cell).durable_txid
            >= last->0 && (final(cell).percell_txid == last->0 || final(cell).percell_txid == old(cell).percell_txid) && (final(cell).durable_txid == last->0 || final(cell).durable_txid == old(cell).durable_txid),
        final(cell).percell_txid >= old(cell).percell_txid,
        final(cell).durable_txid >= old(cell).durable_txid,
        last is None || !written ==> final(cell).percell_txid == old(cell).percell_txid && final(cell).durable_txid == old(cell).durable_txid,
        !written ==> final(cell).synced_seq == old(cell).synced_seq && !end.1 && final(cell).compaction == old(cell).compaction,
        end.1 <==> written && (old(cell).compaction matches Some(compaction) && !compaction.queued
            && !compaction.cancelled && (compaction.min_txids == 0 || final(cell).durable_txid
            >= compaction.compacted_txid + compaction.min_txids)),
        end.1 ==> (final(cell).compaction matches Some(compaction) && compaction.queued),
        !end.1 ==> final(cell).compaction == old(cell).compaction,
        final(cell).req_seq == old(cell).req_seq,
        final(cell).shipped_seq == old(cell).shipped_seq,
        final(cell).shipped_txid == old(cell).shipped_txid,
        final(cell).submitted_seq == old(cell).submitted_seq,
        final(cell).submitted_txid == old(cell).submitted_txid,
        final(cell).syncing == old(cell).syncing,
{
}

/// Only a pass that ended well is told as durable, and a failed one as failed.
pub proof fn law_wait_tells_how_the_pass_ended(end: Option<SyncEnd>, wait: SyncWait)
    requires
        call_ensures(LtxRepl::sync_wait, (end,), wait),
    ensures
        wait is Durable <==> end is Some && end->0 is Synced,
        wait is Failed <==> end is Some && end->0 is Failed,
        wait is Unsupported <==> end is None || end->0 is Closed,
{
}

} // verus!
