//! Capturing the frames that a round ships.

use vstd::prelude::*;
use crate::repl::cell;
use crate::repl::cell::CellState;
use crate::repl::registry::LtxRepl;
use crate::repl::ship;
use crate::repl::ship::{Credit, ShipEntry};

verus! {

/// The places among `resident` whose cells have tickets that neither the
/// bucket covers nor a round carries, in order.
pub open spec fn unshipped_among(cells: Seq<CellState>, resident: Seq<usize>) -> Seq<usize>
    decreases resident.len(),
{
    if resident.len() == 0 {
        Seq::empty()
    } else {
        let rest = unshipped_among(cells, resident.drop_last());
        if cells[resident.last() as int].unshipped() {
            rest.push(resident.last())
        } else {
            rest
        }
    }
}

/// The cells that the next round has to capture.
pub fn select_unshipped(cells: &Vec<CellState>, resident: &Vec<usize>) -> (work: Vec<usize>)
    requires
        ship::places_fit(resident@, cells@.len() as int),
    ensures
        work@ == unshipped_among(cells@, resident@),
        resident@.no_duplicates() ==> work@.no_duplicates(),
{
    let mut work: Vec<usize> = Vec::new();
    let mut at: usize = 0;
    assert(resident@.take(0) =~= Seq::<usize>::empty());
    while at < resident.len()
        invariant
            at <= resident@.len(),
            ship::places_fit(resident@, cells@.len() as int),
            work@ == unshipped_among(cells@, resident@.take(at as int)),
        decreases resident@.len() - at,
    {
        let place = resident[at];
        assert(resident@[at as int] < cells@.len());
        assert(resident@.take(at + 1).drop_last() =~= resident@.take(at as int));
        let cell = cells[place];
        if cell.req_seq > cell.submitted_seq && cell.req_seq > cell.synced_seq {
            work.push(place);
        }
        at = at + 1;
    }
    assert(resident@.take(at as int) =~= resident@);
    proof {
        if resident@.no_duplicates() {
            law_unshipped_places_differ(cells@, resident@);
        }
    }
    work
}

/// No place is captured twice in a round: the cells that have to be captured
/// are among the registered ones, each once.
pub proof fn law_unshipped_places_differ(cells: Seq<CellState>, resident: Seq<usize>)
    requires
        resident.no_duplicates(),
    ensures
        unshipped_among(cells, resident).no_duplicates(),
        forall|place: usize| #[trigger]
            unshipped_among(cells, resident).contains(place) ==> resident.contains(place),
    decreases resident.len(),
{
    if resident.len() > 0 {
        let before = resident.drop_last();
        let rest = unshipped_among(cells, before);
        let all = unshipped_among(cells, resident);
        assert(before.no_duplicates());
        law_unshipped_places_differ(cells, before);
        assert forall|place: usize| #[trigger] all.contains(place) implies resident.contains(
            place,
        ) by {
            let k = choose|k: int| 0 <= k < all.len() && all[k] == place;
            if k < rest.len() {
                assert(rest[k] == place);
                assert(rest.contains(place));
                assert(before.contains(place));
                let m = choose|m: int| 0 <= m < before.len() && before[m] == place;
                assert(resident[m] == place);
            } else {
                assert(resident[resident.len() - 1] == place);
            }
        }
        assert forall|i: int, j: int| 0 <= i < all.len() && 0 <= j < all.len() && i != j implies all[i]
            != all[j] by {
            let last = resident.last();
            if rest.contains(last) {
                assert(before.contains(last));
                let m = choose|m: int| 0 <= m < before.len() && before[m] == last;
                assert(resident[m] == resident[resident.len() - 1]);
            }
            if i < rest.len() {
                assert(rest[i] == all[i]);
            }
            if j < rest.len() {
                assert(rest[j] == all[j]);
            }
        }
    }
}

/// Every `workers`th item of `work`, from `chunk` on.
pub open spec fn picked(work: Seq<usize>, workers: int, chunk: int) -> Seq<usize>
    decreases work.len(),
{
    if work.len() == 0 {
        Seq::empty()
    } else {
        let rest = picked(work.drop_last(), workers, chunk);
        if (work.len() - 1) % workers == chunk {
            rest.push(work.last())
        } else {
            rest
        }
    }
}

/// How many chunks a capture of `count` cells is spread over.
pub open spec fn worker_count(count: int, capture_workers: int) -> int {
    if count < 1 {
        1
    } else if count > capture_workers {
        capture_workers
    } else {
        count
    }
}

/// Deal the cells of a capture out to its workers, one after the other.
pub fn spread(work: &Vec<usize>, capture_workers: usize) -> (chunks: Vec<Vec<usize>>)
    requires
        capture_workers >= 1,
    ensures
        chunks@.len() == worker_count(work@.len() as int, capture_workers as int),
        forall|chunk: int|
            0 <= chunk < chunks@.len() ==> (#[trigger] chunks@[chunk])@ == picked(
                work@,
                chunks@.len() as int,
                chunk,
            ),
{
    let workers: usize = if work.len() < 1 {
        1
    } else if work.len() > capture_workers {
        capture_workers
    } else {
        work.len()
    };
    let mut chunks: Vec<Vec<usize>> = Vec::new();
    while chunks.len() < workers
        invariant
            chunks@.len() <= workers,
            forall|chunk: int|
                0 <= chunk < chunks@.len() ==> (#[trigger] chunks@[chunk])@
                    == Seq::<usize>::empty(),
        decreases workers - chunks@.len(),
    {
        chunks.push(Vec::new());
    }
    let mut at: usize = 0;
    assert(work@.take(0) =~= Seq::<usize>::empty());
    while at < work.len()
        invariant
            at <= work@.len(),
            workers >= 1,
            chunks@.len() == workers,
            forall|chunk: int|
                0 <= chunk < workers ==> (#[trigger] chunks@[chunk])@ == picked(
                    work@.take(at as int),
                    workers as int,
                    chunk,
                ),
        decreases work@.len() - at,
    {
        let slot = at % workers;
        let ghost before = chunks@;
        let mut chunk = chunks.remove(slot);
        chunk.push(work[at]);
        chunks.insert(slot, chunk);
        proof {
            let now = work@.take(at + 1);
            assert(now.drop_last() =~= work@.take(at as int));
            assert(chunks@ =~= before.update(slot as int, chunk));
            assert forall|c: int| 0 <= c < workers implies (#[trigger] chunks@[c])@ == picked(
                now,
                workers as int,
                c,
            ) by {
                assert(before[c]@ == picked(work@.take(at as int), workers as int, c));
            }
        }
        at = at + 1;
    }
    assert(work@.take(at as int) =~= work@);
    chunks
}

/// No cell of a capture is left out by the dealing.
pub proof fn law_every_cell_is_dealt_out(work: Seq<usize>, workers: int, at: int)
    requires
        0 <= at < work.len(),
        workers > 0,
    ensures
        0 <= at % workers < workers,
        picked(work, workers, at % workers).contains(work[at]),
    decreases work.len(),
{
    vstd::arithmetic::div_mod::lemma_mod_bound(at, workers);
    let list = picked(work, workers, at % workers);
    let rest = picked(work.drop_last(), workers, at % workers);
    if at == work.len() - 1 {
        assert(list[list.len() - 1] == work[at]);
    } else {
        law_every_cell_is_dealt_out(work.drop_last(), workers, at);
        let k = choose|k: int| 0 <= k < rest.len() && rest[k] == work[at];
        assert(list[k] == work[at]);
    }
}

/// One cell's frames as they are read, from the first that no round carries to
/// the position that the capture reached.
pub struct FrameCapture {
    pub cell: String,
    pub epoch: u64,
    pub from: u64,
    pub position: u64,
    /// The frame to read next.
    pub next: Option<u64>,
    /// The highest bucket coverage that was looked at.
    pub covered: u64,
    pub entries: Vec<ShipEntry>,
    /// No frame is missing that the followers need.
    pub complete: bool,
}

impl FrameCapture {
    /// The first frame that was not dealt with.
    pub open spec fn reached(self) -> int {
        match self.next {
            Some(txid) => txid as int,
            None => if self.position < self.from {
                self.from as int
            } else {
                self.position + 1
            },
        }
    }

    /// Was the frame `txid` read?
    pub open spec fn has_frame(self, txid: int) -> bool {
        exists|i: int| 0 <= i < self.entries@.len() && (#[trigger] self.entries@[i]).txid == txid
    }

    /// The frames are of this cell and in order, and while the capture is
    /// complete each one is there or in the bucket.
    pub open spec fn wf(self) -> bool {
        &&& self.next matches Some(txid) ==> self.from <= txid <= self.position && self.complete
        &&& forall|i: int|
            0 <= i < self.entries@.len() ==> {
                let entry = #[trigger] self.entries@[i];
                &&& entry.cell@ == self.cell@
                &&& entry.epoch == self.epoch
                &&& self.from <= entry.txid < self.reached()
            }
        &&& forall|i: int, j: int|
            0 <= i < j < self.entries@.len() ==> (#[trigger] self.entries@[i]).txid < (
            #[trigger] self.entries@[j]).txid
        &&& self.complete ==> forall|txid: int|
            self.from <= txid < self.reached() ==> #[trigger] self.has_frame(txid) || txid
                <= self.covered
    }

    /// Start on a cell whose rounds carry it up to `submitted_txid`, when its
    /// log has reached `position`.
    pub fn start(cell: &str, epoch: u64, submitted_txid: u64, position: u64) -> (capture: Self)
        requires
            submitted_txid < u64::MAX,
        ensures
            capture.cell@ == cell@,
            capture.epoch == epoch,
            capture.from == submitted_txid + 1,
            capture.position == position,
            capture.next == if submitted_txid < position {
                Some((submitted_txid + 1) as u64)
            } else {
                None
            },
            capture.covered == 0,
            capture.entries@ == Seq::<ShipEntry>::empty(),
            capture.complete,
            capture.wf(),
    {
        let from: u64 = submitted_txid + 1;
        FrameCapture {
            cell: cell.to_owned(),
            epoch,
            from,
            position,
            next: if submitted_txid < position {
                Some(from)
            } else {
                None
            },
            covered: 0,
            entries: Vec::new(),
            complete: true,
        }
    }

    /// The next frame was read, or could not be. One that the bucket holds
    /// already is no gap that the followers need filled; any other ends the
    /// capture.
    pub fn take(&mut self, frame: Option<Vec<u8>>, durable_txid: u64)
        requires
            old(self).wf(),
            old(self).next is Some,
        ensures
            final(self).wf(),
            final(self).cell == old(self).cell,
            final(self).epoch == old(self).epoch,
            final(self).from == old(self).from,
            final(self).position == old(self).position,
            final(self).covered == cell::larger(old(self).covered, durable_txid),
            ({
                let txid = old(self).next->0;
                let following = if txid < old(self).position {
                    Some((txid + 1) as u64)
                } else {
                    None
                };
                match frame {
                    Some(bytes) => {
                        &&& final(self).next == following
                        &&& final(self).complete
                        &&& final(self).entries@.len() == old(self).entries@.len() + 1
                        &&& final(self).entries@.drop_last() == old(self).entries@
                        &&& final(self).entries@.last().cell@ == old(self).cell@
                        &&& final(self).entries@.last().epoch == old(self).epoch
                        &&& final(self).entries@.last().txid == txid
                        &&& final(self).entries@.last().bytes == bytes
                    },
                    None => {
                        &&& final(self).entries@ == old(self).entries@
                        &&& if txid <= durable_txid {
                            final(self).next == following && final(self).complete
                        } else {
                            final(self).next is None && !final(self).complete
                        }
                    },
                }
            }),
    {
        let ghost before = *self;
        let txid: u64 = match self.next {
            Some(txid) => txid,
            None => 0,
        };
        self.covered = cell::max_of(self.covered, durable_txid);
        let following: Option<u64> = if txid < self.position {
            Some(txid + 1)
        } else {
            None
        };
        match frame {
            Some(bytes) => {
                self.entries.push(
                    ShipEntry { cell: self.cell.as_str().to_owned(), epoch: self.epoch, txid, bytes },
                );
                self.next = following;
                assert(self.entries@.drop_last() =~= before.entries@);
            },
            None => {
                if txid <= durable_txid {
                    self.next = following;
                } else {
                    self.next = None;
                    self.complete = false;
                }
            },
        }
        proof {
            assert forall|i: int| 0 <= i < before.entries@.len() implies self.entries@[i]
                == before.entries@[i] by {}
            if self.complete {
                assert forall|t: int| self.from <= t < self.reached() implies #[trigger] self.has_frame(
                    t,
                ) || t <= self.covered by {
                    if t < txid {
                        assert(before.has_frame(t) || t <= before.covered);
                        if before.has_frame(t) {
                            let i = choose|i: int|
                                0 <= i < before.entries@.len() && (
                                #[trigger] before.entries@[i]).txid == t;
                            assert(self.entries@[i].txid == t);
                        }
                    } else {
                        assert(t == txid);
                        if frame is Some {
                            assert(self.entries@[self.entries@.len() - 1].txid == t);
                        }
                    }
                }
            }
        }
    }

    /// The frames to ship, and what the cell at `place` is owed for them: its
    /// tickets up to `tickets`, which were counted before the capture.
    pub fn finish(self, place: usize, tickets: u64) -> (captured: (Vec<ShipEntry>, Option<Credit>))
        requires
            self.wf(),
            self.next is None,
        ensures
            captured.0 == self.entries,
            captured.1 == if self.complete {
                Some(Credit { cell: place, tickets, position: self.position })
            } else {
                None
            },
    {
        let credit = if self.complete {
            Some(Credit { cell: place, tickets, position: self.position })
        } else {
            None
        };
        (self.entries, credit)
    }
}

/// A cell that a capture credits has every frame up to its position shipped
/// or in the bucket.
pub proof fn law_credit_has_no_gap(capture: FrameCapture, txid: int)
    requires
        capture.wf(),
        capture.complete,
        capture.next is None,
        capture.from <= txid <= capture.position,
    ensures
        capture.has_frame(txid) || txid <= capture.covered,
{
}

/// What one worker captured.
pub struct Captured {
    pub entries: Vec<ShipEntry>,
    pub credits: Vec<Credit>,
}

impl Captured {
    pub fn new() -> (captured: Self)
        ensures
            captured.entries@ == frames_of(Seq::empty()),
            captured.credits@ == Seq::<Credit>::empty(),
    {
        Captured { entries: Vec::new(), credits: Vec::new() }
    }

    /// Enter the frames of a cell that were read, and what the cell at `place`
    /// is owed for them.
    pub fn enter(&mut self, capture: FrameCapture, place: usize, tickets: u64)
        requires
            capture.wf(),
            capture.next is None,
        ensures
            final(self).entries@ == old(self).entries@ + capture.entries@,
            final(self).credits@ == if capture.complete {
                old(self).credits@.push(
                    Credit { cell: place, tickets, position: capture.position },
                )
            } else {
                old(self).credits@
            },
            forall|captures: Seq<FrameCapture>|
                old(self).entries@ == #[trigger] frames_of(captures) ==> final(self).entries@
                    == frames_of(captures.push(capture)),
    {
        let (mut entries, credit) = capture.finish(place, tickets);
        self.entries.append(&mut entries);
        if let Some(credit) = credit {
            self.credits.push(credit);
        }
        assert forall|captures: Seq<FrameCapture>|
            old(self).entries@ == #[trigger] frames_of(captures) implies self.entries@ == frames_of(
            captures.push(capture),
        ) by {
            assert(captures.push(capture).drop_last() =~= captures);
        }
    }
}

/// The frames of all captures, one after another.
pub open spec fn frames_of(captures: Seq<FrameCapture>) -> Seq<ShipEntry>
    decreases captures.len(),
{
    if captures.len() == 0 {
        Seq::empty()
    } else {
        frames_of(captures.drop_last()) + captures.last().entries@
    }
}

/// Are these well-formed captures of different cells?
pub open spec fn apart(captures: Seq<FrameCapture>) -> bool {
    &&& forall|k: int| 0 <= k < captures.len() ==> (#[trigger] captures[k]).wf()
    &&& forall|k: int, m: int|
        0 <= k < m < captures.len() ==> (#[trigger] captures[k]).cell@ != (
        #[trigger] captures[m]).cell@ || captures[k].epoch != captures[m].epoch
}

/// Was this frame captured: read of one of the cells, behind what its rounds
/// carried before and within its log?
pub open spec fn captured_frame(captures: Seq<FrameCapture>, entry: ShipEntry) -> bool {
    exists|k: int|
        0 <= k < captures.len() && (#[trigger] captures[k]).cell@ == entry.cell@
            && captures[k].epoch == entry.epoch && captures[k].from <= entry.txid
            <= captures[k].position
}

/// A batch holds no frame that a round carried before: each lies behind what
/// its cell's rounds carried when it was captured.
pub proof fn law_batch_is_not_submitted_yet(captures: Seq<FrameCapture>, at: int)
    requires
        forall|k: int| 0 <= k < captures.len() ==> (#[trigger] captures[k]).wf(),
        0 <= at < frames_of(captures).len(),
    ensures
        captured_frame(captures, frames_of(captures)[at]),
    decreases captures.len(),
{
    let rest = captures.drop_last();
    let last = captures.last();
    let entry = frames_of(captures)[at];
    assert(captures[captures.len() - 1] == last);
    if at < frames_of(rest).len() {
        assert forall|k: int| 0 <= k < rest.len() implies (#[trigger] rest[k]).wf() by {
            assert(rest[k] == captures[k]);
        }
        law_batch_is_not_submitted_yet(rest, at);
        let k = choose|k: int|
            0 <= k < rest.len() && (#[trigger] rest[k]).cell@ == entry.cell@ && rest[k].epoch
                == entry.epoch && rest[k].from <= entry.txid <= rest[k].position;
        assert(captures[k] == rest[k]);
    } else {
        assert(entry == last.entries@[at - frames_of(rest).len()]);
    }
}

proof fn lemma_rest_is_apart(captures: Seq<FrameCapture>)
    requires
        apart(captures),
        captures.len() > 0,
    ensures
        apart(captures.drop_last()),
{
    let rest = captures.drop_last();
    assert forall|k: int| 0 <= k < rest.len() implies (#[trigger] rest[k]).wf() by {
        assert(rest[k] == captures[k]);
    }
    assert forall|k: int, m: int| 0 <= k < m < rest.len() implies (#[trigger] rest[k]).cell@ != (
    #[trigger] rest[m]).cell@ || rest[k].epoch != rest[m].epoch by {
        assert(rest[k] == captures[k] && rest[m] == captures[m]);
    }
}

/// Of each cell a batch holds every transaction once, in ascending order.
pub proof fn law_batch_ascends(captures: Seq<FrameCapture>, early: int, late: int)
    requires
        apart(captures),
        0 <= early < late < frames_of(captures).len(),
        frames_of(captures)[early].cell@ == frames_of(captures)[late].cell@,
        frames_of(captures)[early].epoch == frames_of(captures)[late].epoch,
    ensures
        frames_of(captures)[early].txid < frames_of(captures)[late].txid,
    decreases captures.len(),
{
    let rest = captures.drop_last();
    let last = captures.last();
    let split = frames_of(rest).len();
    assert(captures[captures.len() - 1] == last);
    lemma_rest_is_apart(captures);
    if late < split {
        law_batch_ascends(rest, early, late);
    } else if early >= split {
        assert(frames_of(captures)[early] == last.entries@[early - split]);
        assert(frames_of(captures)[late] == last.entries@[late - split]);
    } else {
        let entry = frames_of(rest)[early];
        law_batch_is_not_submitted_yet(rest, early);
        let k = choose|k: int|
            0 <= k < rest.len() && (#[trigger] rest[k]).cell@ == entry.cell@ && rest[k].epoch
                == entry.epoch && rest[k].from <= entry.txid <= rest[k].position;
        assert(rest[k] == captures[k]);
        assert(frames_of(captures)[late] == last.entries@[late - split]);
    }
}

/// What all workers have, one after another.
pub open spec fn joined<T>(parts: Seq<Seq<T>>) -> Seq<T>
    decreases parts.len(),
{
    if parts.len() == 0 {
        Seq::empty()
    } else {
        joined(parts.drop_last()) + parts.last()
    }
}

proof fn lemma_frames_of_sum(left: Seq<FrameCapture>, right: Seq<FrameCapture>)
    ensures
        frames_of(left + right) == frames_of(left) + frames_of(right),
    decreases right.len(),
{
    if right.len() == 0 {
        assert(left + right =~= left);
        assert(frames_of(left) + frames_of(right) =~= frames_of(left));
    } else {
        lemma_frames_of_sum(left, right.drop_last());
        assert((left + right).drop_last() =~= left + right.drop_last());
        assert(frames_of(left + right) =~= frames_of(left) + frames_of(right));
    }
}

/// A gathered batch holds the frames of all the captures of the workers, one
/// after another; a worker that failed brought none.
pub proof fn law_gathered_batch_is_what_was_captured(
    chunks: Seq<Option<Captured>>,
    parts: Seq<Seq<FrameCapture>>,
)
    requires
        chunks.len() == parts.len(),
        forall|k: int|
            0 <= k < chunks.len() ==> match #[trigger] chunks[k] {
                Some(captured) => captured.entries@ == frames_of(parts[k]),
                None => parts[k].len() == 0,
            },
    ensures
        all_entries(chunks) == frames_of(joined(parts)),
    decreases chunks.len(),
{
    if chunks.len() > 0 {
        let count = chunks.len() - 1;
        assert forall|k: int| 0 <= k < count implies match #[trigger] chunks.drop_last()[k] {
            Some(captured) => captured.entries@ == frames_of(parts.drop_last()[k]),
            None => parts.drop_last()[k].len() == 0,
        } by {
            assert(chunks.drop_last()[k] == chunks[k]);
        }
        law_gathered_batch_is_what_was_captured(chunks.drop_last(), parts.drop_last());
        lemma_frames_of_sum(joined(parts.drop_last()), parts.last());
        assert(chunks[count] == chunks.last());
    }
}

/// The cells that a round has to capture when the registry stands like this.
pub open spec fn round_work(repl: LtxRepl) -> Seq<usize> {
    unshipped_among(repl.states@, repl.resident_seq())
}

/// Is this a capture of the cell that the registry has at `place`, from behind
/// what its rounds carry?
pub open spec fn captured_at(repl: LtxRepl, capture: FrameCapture, place: usize) -> bool {
    let key = (capture.cell@, capture.epoch);
    &&& capture.wf()
    &&& repl.cells@.contains_key(key)
    &&& repl.cells@[key] == place
    &&& capture.from == repl.states@[place as int].submitted_txid + 1
}

/// Did a worker capture the cells at `places`, which are dealt to it, each once?
/// It may have passed over others.
pub open spec fn worker_captured(
    repl: LtxRepl,
    workers: int,
    chunk: int,
    places: Seq<usize>,
    captures: Seq<FrameCapture>,
) -> bool {
    &&& places.no_duplicates()
    &&& forall|k: int|
        0 <= k < places.len() ==> picked(round_work(repl), workers, chunk).contains(
            #[trigger] places[k],
        )
    &&& captures.len() == places.len()
    &&& forall|k: int|
        0 <= k < captures.len() ==> captured_at(repl, #[trigger] captures[k], places[k])
}

/// Is a cell dealt to one of the first `count` workers?
spec fn dealt_to_some(work: Seq<usize>, workers: int, count: int, place: usize) -> bool {
    exists|chunk: int|
        0 <= chunk < count && (#[trigger] picked(work, workers, chunk)).contains(place)
}

proof fn lemma_picked_from(work: Seq<usize>, workers: int, chunk: int, place: usize)
    requires
        picked(work, workers, chunk).contains(place),
    ensures
        exists|at: int| 0 <= at < work.len() && #[trigger] work[at] == place && at % workers == chunk,
    decreases work.len(),
{
    let list = picked(work, workers, chunk);
    let k = choose|k: int| 0 <= k < list.len() && list[k] == place;
    if work.len() > 0 {
        let before = work.drop_last();
        let rest = picked(before, workers, chunk);
        if k < rest.len() {
            assert(rest[k] == place);
            lemma_picked_from(before, workers, chunk, place);
            let at = choose|at: int|
                0 <= at < before.len() && #[trigger] before[at] == place && at % workers == chunk;
            assert(work[at] == place);
        } else {
            assert(work[work.len() - 1] == place);
        }
    }
}

/// The cells of a round are all different: the registry names no place twice,
/// the selection repeats none, and no two workers are dealt the same.
pub proof fn law_round_captures_different_cells(
    repl: LtxRepl,
    workers: int,
    places: Seq<Seq<usize>>,
    parts: Seq<Seq<FrameCapture>>,
)
    requires
        repl.wf(),
        places.len() == parts.len(),
        forall|chunk: int|
            0 <= chunk < parts.len() ==> worker_captured(
                repl,
                workers,
                chunk,
                places[chunk],
                #[trigger] parts[chunk],
            ),
    ensures
        apart(joined(parts)),
{
    lemma_joined_captures(repl, workers, places, parts);
    let all = joined(parts);
    let at = joined(places);
    assert forall|k: int| 0 <= k < all.len() implies (#[trigger] all[k]).wf() by {
        assert(captured_at(repl, all[k], at[k]));
    }
    assert forall|k: int, m: int| 0 <= k < m < all.len() implies (#[trigger] all[k]).cell@ != (
    #[trigger] all[m]).cell@ || all[k].epoch != all[m].epoch by {
        assert(captured_at(repl, all[k], at[k]) && captured_at(repl, all[m], at[m]));
        assert(at[k] != at[m]);
    }
}

proof fn lemma_joined_captures(
    repl: LtxRepl,
    workers: int,
    places: Seq<Seq<usize>>,
    parts: Seq<Seq<FrameCapture>>,
)
    requires
        repl.wf(),
        places.len() == parts.len(),
        forall|chunk: int|
            0 <= chunk < parts.len() ==> worker_captured(
                repl,
                workers,
                chunk,
                places[chunk],
                #[trigger] parts[chunk],
            ),
    ensures
        joined(places).no_duplicates(),
        joined(parts).len() == joined(places).len(),
        forall|k: int|
            0 <= k < joined(parts).len() ==> captured_at(
                repl,
                #[trigger] joined(parts)[k],
                joined(places)[k],
            ),
        forall|k: int|
            0 <= k < joined(places).len() ==> dealt_to_some(
                round_work(repl),
                workers,
                places.len() as int,
                #[trigger] joined(places)[k],
            ),
    decreases parts.len(),
{
    let work = round_work(repl);
    if parts.len() > 0 {
        let count = parts.len() - 1;
        let early = parts.drop_last();
        let early_places = places.drop_last();
        assert forall|chunk: int| 0 <= chunk < early.len() implies worker_captured(
            repl,
            workers,
            chunk,
            early_places[chunk],
            #[trigger] early[chunk],
        ) by {
            assert(early[chunk] == parts[chunk] && early_places[chunk] == places[chunk]);
        }
        lemma_joined_captures(repl, workers, early_places, early);
        assert(parts[count] == parts.last() && places[count] == places.last());
        assert(worker_captured(repl, workers, count, places.last(), parts.last()));
        let split = joined(early_places).len();
        let at = joined(places);
        let all = joined(parts);
        assert forall|k: int| 0 <= k < all.len() implies captured_at(
            repl,
            #[trigger] all[k],
            at[k],
        ) by {
            if k < split {
                assert(all[k] == joined(early)[k] && at[k] == joined(early_places)[k]);
            } else {
                assert(all[k] == parts.last()[k - split] && at[k] == places.last()[k - split]);
            }
        }
        assert forall|k: int| 0 <= k < at.len() implies dealt_to_some(
            work,
            workers,
            places.len() as int,
            #[trigger] at[k],
        ) by {
            if k < split {
                assert(at[k] == joined(early_places)[k]);
            } else {
                assert(at[k] == places.last()[k - split]);
                assert(picked(work, workers, count).contains(at[k]));
            }
        }
        assert forall|i: int, j: int| 0 <= i < at.len() && 0 <= j < at.len() && i != j implies at[i]
            != at[j] by {
            if i < split && j < split {
                assert(at[i] == joined(early_places)[i] && at[j] == joined(early_places)[j]);
            } else if i >= split && j >= split {
                assert(at[i] == places.last()[i - split] && at[j] == places.last()[j - split]);
            } else {
                let (low, high) = if i < j {
                    (i, j)
                } else {
                    (j, i)
                };
                assert(at[low] == joined(early_places)[low]);
                assert(at[high] == places.last()[high - split]);
                let chunk = choose|chunk: int|
                    0 <= chunk < early_places.len() && #[trigger] picked(
                        work,
                        workers,
                        chunk,
                    ).contains(joined(early_places)[low]);
                if at[low] == at[high] {
                    repl.law_resident_places_differ();
                    law_unshipped_places_differ(repl.states@, repl.resident_seq());
                    lemma_picked_from(work, workers, chunk, at[low]);
                    lemma_picked_from(work, workers, count, at[high]);
                    let one = choose|one: int|
                        0 <= one < work.len() && #[trigger] work[one] == at[low] && one % workers
                            == chunk;
                    let other = choose|other: int|
                        0 <= other < work.len() && #[trigger] work[other] == at[high] && other
                            % workers == count;
                    assert(one == other);
                }
            }
        }
    }
}

/// A round ships what is new, in order: in the batch that is gathered from the
/// captures of the registered cells each frame lies behind what its cell's
/// rounds carried, and of each cell the transactions ascend.
pub proof fn law_round_ships_what_is_new_in_order(
    repl: LtxRepl,
    workers: int,
    places: Seq<Seq<usize>>,
    parts: Seq<Seq<FrameCapture>>,
    chunks: Seq<Option<Captured>>,
)
    requires
        repl.wf(),
        places.len() == parts.len(),
        chunks.len() == parts.len(),
        forall|chunk: int|
            0 <= chunk < parts.len() ==> worker_captured(
                repl,
                workers,
                chunk,
                places[chunk],
                #[trigger] parts[chunk],
            ),
        forall|k: int|
            0 <= k < chunks.len() ==> match #[trigger] chunks[k] {
                Some(captured) => captured.entries@ == frames_of(parts[k]),
                None => parts[k].len() == 0,
            },
    ensures
        forall|at: int|
            0 <= at < all_entries(chunks).len() ==> {
                let entry = #[trigger] all_entries(chunks)[at];
                let key = (entry.cell@, entry.epoch);
                &&& repl.cells@.contains_key(key)
                &&& entry.txid > repl.states@[repl.cells@[key] as int].submitted_txid
            },
        forall|early: int, late: int|
            0 <= early < late < all_entries(chunks).len() && (#[trigger] all_entries(
                chunks,
            )[early]).cell@ == (#[trigger] all_entries(chunks)[late]).cell@ && all_entries(
                chunks,
            )[early].epoch == all_entries(chunks)[late].epoch ==> all_entries(chunks)[early].txid
                < all_entries(chunks)[late].txid,
{
    let all = joined(parts);
    let batch = all_entries(chunks);
    law_gathered_batch_is_what_was_captured(chunks, parts);
    law_round_captures_different_cells(repl, workers, places, parts);
    lemma_joined_captures(repl, workers, places, parts);
    assert forall|at: int| 0 <= at < batch.len() implies {
        let entry = #[trigger] batch[at];
        let key = (entry.cell@, entry.epoch);
        &&& repl.cells@.contains_key(key)
        &&& entry.txid > repl.states@[repl.cells@[key] as int].submitted_txid
    } by {
        law_batch_is_not_submitted_yet(all, at);
        let entry = batch[at];
        let k = choose|k: int|
            0 <= k < all.len() && (#[trigger] all[k]).cell@ == entry.cell@ && all[k].epoch
                == entry.epoch && all[k].from <= entry.txid <= all[k].position;
        assert(captured_at(repl, all[k], joined(places)[k]));
    }
    assert forall|early: int, late: int|
        0 <= early < late < batch.len() && (#[trigger] batch[early]).cell@ == (
        #[trigger] batch[late]).cell@ && batch[early].epoch
            == batch[late].epoch implies batch[early].txid < batch[late].txid by {
        law_batch_ascends(all, early, late);
    }
}

/// All frames that the workers captured, in order; one that failed has none.
pub open spec fn all_entries(captures: Seq<Option<Captured>>) -> Seq<ShipEntry>
    decreases captures.len(),
{
    if captures.len() == 0 {
        Seq::empty()
    } else {
        all_entries(captures.drop_last()) + match captures.last() {
            Some(captured) => captured.entries@,
            None => Seq::empty(),
        }
    }
}

/// All credits of the workers, in order; one that failed has none.
pub open spec fn all_credits(captures: Seq<Option<Captured>>) -> Seq<Credit>
    decreases captures.len(),
{
    if captures.len() == 0 {
        Seq::empty()
    } else {
        all_credits(captures.drop_last()) + match captures.last() {
            Some(captured) => captured.credits@,
            None => Seq::empty(),
        }
    }
}

/// Put together what the workers captured.
pub fn gather(captures: Vec<Option<Captured>>) -> (captured: Captured)
    ensures
        captured.entries@ == all_entries(captures@),
        captured.credits@ == all_credits(captures@),
{
    let ghost all = captures@;
    let mut gathered = Captured { entries: Vec::new(), credits: Vec::new() };
    for captured in taken: captures
        invariant
            taken.seq() == all,
            gathered.entries@ == all_entries(all.take(taken.index() as int)),
            gathered.credits@ == all_credits(all.take(taken.index() as int)),
    {
        let ghost at = taken.index() as int;
        assert(all.take(at + 1).drop_last() =~= all.take(at));
        match captured {
            Some(mut captured) => {
                gathered.entries.append(&mut captured.entries);
                gathered.credits.append(&mut captured.credits);
            },
            None => {},
        }
    }
    assert(all.take(all.len() as int) =~= all);
    gathered
}

/// The microseconds since the last lap; the lap moves to `now`.
pub fn lap_us(lap: &mut u64, now: u64) -> (delta: u64)
    ensures
        *final(lap) == now,
        delta == if now < *old(lap) {
            0
        } else {
            now - *old(lap)
        },
{
    let delta = now.saturating_sub(*lap);
    *lap = now;
    delta
}

proof fn lemma_unshipped_is_a_filter(
    cells: Seq<CellState>,
    resident: Seq<usize>,
    wanted: spec_fn(usize) -> bool,
)
    requires
        forall|place: usize| #[trigger]
            wanted(place) <==> cells[place as int].req_seq > cells[place as int].submitted_seq
                && cells[place as int].req_seq > cells[place as int].synced_seq,
    ensures
        unshipped_among(cells, resident) == resident.filter(wanted),
    decreases resident.len(),
{
    reveal(Seq::filter);
    if resident.len() > 0 {
        lemma_unshipped_is_a_filter(cells, resident.drop_last(), wanted);
        assert(wanted(resident.last()) || !wanted(resident.last()));
    }
}

/// A round captures every registered cell with a ticket that neither the bucket
/// covers nor a round carries, and no other, in their order.
pub proof fn law_round_captures_what_no_one_carries(
    cells: Vec<CellState>,
    resident: Vec<usize>,
    work: Vec<usize>,
)
    requires
        call_ensures(select_unshipped, (&cells, &resident), work),
    ensures
        forall|at: int|
            0 <= at < resident@.len() ==> {
                let cell = cells@[#[trigger] resident@[at] as int];
                cell.req_seq > cell.submitted_seq && cell.req_seq > cell.synced_seq
                    ==> work@.contains(resident@[at])
            },
        forall|at: int|
            0 <= at < work@.len() ==> {
                let cell = cells@[#[trigger] work@[at] as int];
                &&& resident@.contains(work@[at])
                &&& cell.req_seq > cell.submitted_seq
                &&& cell.req_seq > cell.synced_seq
            },
        work@ == resident@.filter(
            |place: usize|
                cells@[place as int].req_seq > cells@[place as int].submitted_seq
                    && cells@[place as int].req_seq > cells@[place as int].synced_seq,
        ),
{
    let wanted = |place: usize|
        cells@[place as int].req_seq > cells@[place as int].submitted_seq
            && cells@[place as int].req_seq > cells@[place as int].synced_seq;
    lemma_unshipped_is_a_filter(cells@, resident@, wanted);
    broadcast use vstd::seq_lib::group_filter_ensures;
    assert forall|at: int| 0 <= at < resident@.len() implies {
        let cell = cells@[#[trigger] resident@[at] as int];
        cell.req_seq > cell.submitted_seq && cell.req_seq > cell.synced_seq ==> work@.contains(
            resident@[at],
        )
    } by {
        if wanted(resident@[at]) {
            assert(resident@.filter(wanted).contains(resident@[at]));
        }
    }
    assert forall|at: int| 0 <= at < work@.len() implies wanted(#[trigger] work@[at])
        && resident@.contains(work@[at]) by {
        assert(wanted(resident@.filter(wanted)[at]));
        ship::lemma_filter_is_among(resident@, wanted, at);
    }
}

proof fn lemma_picked_is_work(work: Seq<usize>, workers: int, chunk: int)
    ensures
        forall|place: usize| #[trigger]
            picked(work, workers, chunk).contains(place) ==> work.contains(place),
    decreases work.len(),
{
    if work.len() > 0 {
        let rest = work.drop_last();
        lemma_picked_is_work(rest, workers, chunk);
        let all = picked(work, workers, chunk);
        let before = picked(rest, workers, chunk);
        assert forall|place: usize| #[trigger] all.contains(place) implies work.contains(place) by {
            let k = choose|k: int| 0 <= k < all.len() && all[k] == place;
            if k < before.len() {
                assert(before[k] == place);
                assert(before.contains(place));
                let m = choose|m: int| 0 <= m < rest.len() && rest[m] == place;
                assert(work[m] == place);
            } else {
                assert(work[work.len() - 1] == place);
            }
        }
    }
}

/// The cells of a round are dealt out whole: there is at least one worker, no more
/// than there may be nor than there are cells, each cell is in some worker's chunk,
/// and nothing else is.
pub proof fn law_round_is_dealt_out_whole(
    work: Vec<usize>,
    capture_workers: usize,
    chunks: Vec<Vec<usize>>,
    at: int,
)
    requires
        capture_workers >= 1,
        call_ensures(spread, (&work, capture_workers), chunks),
        0 <= at < work@.len(),
    ensures
        1 <= chunks@.len() <= capture_workers,
        chunks@.len() <= work@.len(),
        chunks@.len() == capture_workers || chunks@.len() == work@.len(),
        exists|chunk: int|
            0 <= chunk < chunks@.len() && (#[trigger] chunks@[chunk])@.contains(work@[at]),
        forall|chunk: int, k: int|
            0 <= chunk < chunks@.len() && 0 <= k < chunks@[chunk]@.len() ==> work@.contains(
                #[trigger] chunks@[chunk]@[k],
            ),
{
    let workers = chunks@.len() as int;
    law_every_cell_is_dealt_out(work@, workers, at);
    assert(chunks@[at % workers]@.contains(work@[at]));
    assert forall|chunk: int, k: int|
        0 <= chunk < chunks@.len() && 0 <= k < chunks@[chunk]@.len() implies work@.contains(
        #[trigger] chunks@[chunk]@[k],
    ) by {
        lemma_picked_is_work(work@, workers, chunk);
        assert(chunks@[chunk]@ == picked(work@, workers, chunk));
        assert(picked(work@, workers, chunk).contains(chunks@[chunk]@[k]));
    }
}

/// A capture reads frame by frame, from behind what the cell's rounds carry up to
/// its position. A frame that was read is kept with its bytes; one that could not
/// be is passed over where the bucket has it, and ends the capture otherwise.
pub proof fn law_capture_reads_frame_by_frame(
    cell: &str,
    epoch: u64,
    submitted_txid: u64,
    position: u64,
    start: FrameCapture,
    capture: &mut FrameCapture,
    frame: Option<Vec<u8>>,
    durable_txid: u64,
)
    requires
        call_ensures(FrameCapture::start, (cell, epoch, submitted_txid, position), start),
        old(capture).next is Some,
        call_ensures(FrameCapture::take, (capture, frame, durable_txid), ()),
    ensures
        start.cell@ == cell@ && start.epoch == epoch && start.position == position,
        start.entries@.len() == 0 && start.complete,
        start.next is Some <==> submitted_txid < position,
        start.next matches Some(txid) ==> txid == submitted_txid + 1,
        ({
            let txid = old(capture).next->0;
            &&& frame is Some ==> {
                &&& final(capture).entries@.len() == old(capture).entries@.len() + 1
                &&& final(capture).entries@.last().txid == txid
                &&& final(capture).entries@.last().bytes == frame->0
                &&& final(capture).entries@.last().cell@ == old(capture).cell@
                &&& final(capture).entries@.last().epoch == old(capture).epoch
            }
            &&& frame is None ==> final(capture).entries@ == old(capture).entries@
            &&& frame is None && txid > durable_txid ==> final(capture).next is None && !final(capture).complete
            &&& frame is Some || txid <= durable_txid ==> {
                &&& final(capture).complete
                &&& final(capture).next is Some <==> txid < old(capture).position
                &&& final(capture).next matches Some(next) ==> next == txid + 1
            }
            &&& final(capture).covered >= durable_txid
        }),
        final(capture).cell@ == old(capture).cell@,
        final(capture).epoch == old(capture).epoch,
        final(capture).position == old(capture).position,
{
}

/// A cell is credited exactly where its capture is complete, with the tickets that
/// were counted before it and the position that it reached; its frames are handed
/// on either way.
pub proof fn law_whole_capture_is_credited(
    capture: FrameCapture,
    place: usize,
    tickets: u64,
    finished: (Vec<ShipEntry>, Option<Credit>),
    captured: &mut Captured,
)
    requires
        call_ensures(FrameCapture::finish, (capture, place, tickets), finished),
        call_ensures(Captured::enter, (captured, capture, place, tickets), ()),
    ensures
        finished.0@ == capture.entries@,
        finished.1 is Some <==> capture.complete,
        finished.1 matches Some(credit) ==> credit.cell == place && credit.tickets == tickets
            && credit.position == capture.position,
        final(captured).entries@ == old(captured).entries@ + capture.entries@,
        capture.complete ==> final(captured).credits@.len() == old(captured).credits@.len() + 1
            && final(captured).credits@.last().cell == place && final(captured).credits@.last().tickets == tickets && final(captured).credits@.last().position
            == capture.position && final(captured).credits@.drop_last() == old(captured).credits@,
        !capture.complete ==> final(captured).credits@ == old(captured).credits@,
{
    if capture.complete {
        assert(final(captured).credits@.drop_last() =~= old(captured).credits@);
    }
}

proof fn lemma_gathered_parts(captures: Seq<Option<Captured>>)
    ensures
        forall|k: int, m: int|
            0 <= k < captures.len() && captures[k] is Some && 0 <= m
                < captures[k]->0.entries@.len() ==> all_entries(captures).contains(
                #[trigger] captures[k]->0.entries@[m],
            ),
        forall|k: int, m: int|
            0 <= k < captures.len() && captures[k] is Some && 0 <= m
                < captures[k]->0.credits@.len() ==> all_credits(captures).contains(
                #[trigger] captures[k]->0.credits@[m],
            ),
    decreases captures.len(),
{
    if captures.len() > 0 {
        let rest = captures.drop_last();
        lemma_gathered_parts(rest);
        let count = captures.len() - 1;
        let (entries, credits) = (all_entries(captures), all_credits(captures));
        let (before, owed) = (all_entries(rest), all_credits(rest));
        assert forall|k: int, m: int|
            0 <= k < captures.len() && captures[k] is Some && 0 <= m
                < captures[k]->0.entries@.len() implies entries.contains(
            #[trigger] captures[k]->0.entries@[m],
        ) by {
            let entry = captures[k]->0.entries@[m];
            if k < count {
                assert(rest[k] == captures[k]);
                assert(before.contains(rest[k]->0.entries@[m]));
                let i = choose|i: int| 0 <= i < before.len() && before[i] == entry;
                assert(entries[i] == entry);
            } else {
                assert(entries[before.len() + m] == entry);
            }
        }
        assert forall|k: int, m: int|
            0 <= k < captures.len() && captures[k] is Some && 0 <= m
                < captures[k]->0.credits@.len() implies credits.contains(
            #[trigger] captures[k]->0.credits@[m],
        ) by {
            let credit = captures[k]->0.credits@[m];
            if k < count {
                assert(rest[k] == captures[k]);
                assert(owed.contains(rest[k]->0.credits@[m]));
                let i = choose|i: int| 0 <= i < owed.len() && owed[i] == credit;
                assert(credits[i] == credit);
            } else {
                assert(credits[owed.len() + m] == credit);
            }
        }
    }
}

/// Nothing that a worker captured is lost in the gathering: each of its frames and
/// each of its credits is there.
pub proof fn law_gathering_loses_nothing(
    captures: Vec<Option<Captured>>,
    captured: Captured,
    k: int,
    m: int,
)
    requires
        call_ensures(gather, (captures,), captured),
        0 <= k < captures@.len(),
        captures@[k] is Some,
    ensures
        0 <= m < captures@[k]->0.entries@.len() ==> captured.entries@.contains(
            captures@[k]->0.entries@[m],
        ),
        0 <= m < captures@[k]->0.credits@.len() ==> captured.credits@.contains(
            captures@[k]->0.credits@[m],
        ),
{
    lemma_gathered_parts(captures@);
}

/// A lap is the time since the one before it, and none where the clock went back.
pub proof fn law_laps_add_up(lap: &mut u64, now: u64, delta: u64)
    requires
        call_ensures(lap_us, (lap, now), delta),
    ensures
        *final(lap) == now,
        now >= *old(lap) ==> *old(lap) + delta == now,
        now < *old(lap) ==> delta == 0,
{
}

/// A capture keeps what it has read, starts behind what its rounds carry, and
/// remembers the furthest that the bucket was seen to cover.
pub proof fn law_capture_keeps_what_it_has_read(
    cell: &str,
    epoch: u64,
    submitted_txid: u64,
    position: u64,
    start: FrameCapture,
    capture: &mut FrameCapture,
    frame: Option<Vec<u8>>,
    durable_txid: u64,
    k: int,
)
    requires
        call_ensures(FrameCapture::start, (cell, epoch, submitted_txid, position), start),
        old(capture).next is Some,
        call_ensures(FrameCapture::take, (capture, frame, durable_txid), ()),
    ensures
        start.from == submitted_txid + 1,
        start.covered == 0,
        final(capture).from == old(capture).from,
        0 <= k < old(capture).entries@.len() ==> final(capture).entries@[k] == old(capture).entries@[k],
        final(capture).covered >= old(capture).covered,
        final(capture).covered == old(capture).covered || final(capture).covered == durable_txid,
        final(capture).entries@.len() <= old(capture).entries@.len() + 1,
{
}

proof fn lemma_picked(work: Seq<usize>, workers: int, chunk: int)
    requires
        0 <= chunk < workers,
    ensures
        work.len() <= chunk + picked(work, workers, chunk).len() * workers,
        picked(work, workers, chunk).len() > 0 ==> chunk + (picked(work, workers, chunk).len() - 1)
            * workers < work.len(),
    decreases work.len(),
{
    if work.len() > 0 {
        let rest = work.drop_last();
        lemma_picked(rest, workers, chunk);
        let last = work.len() - 1;
        let count = picked(rest, workers, chunk).len() as int;
        lemma_next_place(last, workers, chunk, count);
    } else {
        assert(0 * workers == 0) by (nonlinear_arith);
    }
}

proof fn lemma_next_place(last: int, workers: int, chunk: int, count: int)
    requires
        0 <= chunk < workers,
        0 <= last,
        0 <= count,
        last <= chunk + count * workers,
        count > 0 ==> chunk + (count - 1) * workers < last,
    ensures
        last % workers == chunk ==> last == chunk + count * workers,
        last % workers == chunk ==> last + 1 <= chunk + (count + 1) * workers,
        last % workers != chunk ==> last + 1 <= chunk + count * workers,
{
    let row = last / workers;
    vstd::arithmetic::div_mod::lemma_fundamental_div_mod(last, workers);
    vstd::arithmetic::div_mod::lemma_mod_bound(last, workers);
    if last % workers == chunk {
        assert(row == count && last == chunk + count * workers && last + 1 <= chunk + (count + 1)
            * workers) by (nonlinear_arith)
            requires
                last == workers * row + chunk,
                0 <= chunk < workers,
                last <= chunk + count * workers,
                count > 0 ==> chunk + (count - 1) * workers < last,
                count >= 0,
                last >= 0,
        ;
    } else {
        assert(last != chunk + count * workers) by (nonlinear_arith)
            requires
                last == workers * row + last % workers,
                0 <= last % workers < workers,
                last % workers != chunk,
                0 <= chunk < workers,
        ;
    }
}

proof fn lemma_picked_item(work: Seq<usize>, workers: int, chunk: int, k: int)
    requires
        0 <= chunk < workers,
        0 <= k < picked(work, workers, chunk).len(),
    ensures
        0 <= chunk + k * workers < work.len(),
        picked(work, workers, chunk)[k] == work[chunk + k * workers],
    decreases work.len(),
{
    let rest = work.drop_last();
    let before = picked(rest, workers, chunk);
    assert(k * workers >= 0) by (nonlinear_arith)
        requires
            k >= 0,
            workers > 0,
    ;
    if k < before.len() {
        lemma_picked_item(rest, workers, chunk, k);
    } else {
        lemma_picked(rest, workers, chunk);
        lemma_next_place(work.len() - 1, workers, chunk, k);
    }
}

/// The cells are dealt out in turn: each worker gets every so many cells, as many as
/// there are workers apart, from its own place on and to the end; no worker's share is
/// larger than another's by more than one. Without a cell one worker gets none.
pub proof fn law_cells_are_dealt_out_in_turn(
    work: Vec<usize>,
    capture_workers: usize,
    chunks: Vec<Vec<usize>>,
    chunk: int,
    k: int,
)
    requires
        capture_workers >= 1,
        call_ensures(spread, (&work, capture_workers), chunks),
        0 <= chunk < chunks@.len(),
    ensures
        work@.len() == 0 ==> chunks@.len() == 1,
        ({
            let workers = chunks@.len() as int;
            let share = chunks@[chunk]@;
            &&& 0 <= k < share.len() ==> 0 <= chunk + k * workers < work@.len() && share[k]
                == work@[chunk + k * workers]
            &&& work@.len() <= chunk + share.len() * workers
            &&& share.len() > 0 ==> chunk + (share.len() - 1) * workers < work@.len()
        }),
{
    let workers = chunks@.len() as int;
    let list = picked(work@, workers, chunk);
    lemma_picked(work@, workers, chunk);
    assert(chunks@[chunk]@ == list);
    if 0 <= k < list.len() {
        lemma_picked_item(work@, workers, chunk, k);
    }
}

} // verus!
