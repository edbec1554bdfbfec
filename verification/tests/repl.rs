use celld::repl::bundle::{credit_bundle, select_dirty, Bundle, BundleCell, BundleStep};
use celld::repl::capture::{gather, lap_us, select_unshipped, spread, Captured, FrameCapture};
use celld::repl::cell::{clock_ms, wait_step, CellState, Compaction, ProofSource, WaitStep};
use celld::repl::compact::{
    begin_round, compaction_config, finish_round, CompactionConfig, CompactionOutcome, RoundResult,
};
use celld::repl::durability::{RegistrationState, TaskGroup};
use celld::repl::registry::LtxRepl;
use celld::repl::rounds::{CaptureOutcome, ShipLoop, ShipWait};
use celld::repl::ship::{
    reset_submitted, Credit, ShipCompletion, ShipEntry, ShipLedger, Shipper,
};
use celld::repl::sync::{
    finish_sync, pace, plan_uploads, select_due, worker_step, Row, SyncEnd, SyncStaging, SyncWait, WorkerStep,
};

fn cell(txid: u64) -> CellState {
    CellState::activated(Some(txid), 100, Some(3))
}

fn credit(cell: usize, tickets: u64, position: u64) -> Credit {
    Credit {
        cell,
        tickets,
        position,
    }
}

fn entry(txid: u64) -> ShipEntry {
    ShipEntry {
        cell: "a".to_string(),
        epoch: 1,
        txid,
        bytes: vec![txid as u8],
    }
}

#[test]
fn an_activated_cell_starts_from_its_seed() {
    let state = cell(7);
    assert_eq!((state.req_seq, state.synced_seq, state.shipped_seq, state.submitted_seq), (0, 0, 0, 0));
    assert_eq!((state.shipped_txid, state.submitted_txid), (7, 7));
    assert_eq!((state.durable_txid, state.percell_txid), (7, 7));
    assert_eq!((state.syncing, state.last_sync_ms), (false, 100));
    let plain = CellState::activated(None, 0, None);
    assert_eq!(plain.durable_txid, 0);
    assert!(plain.compaction.is_none());
    assert_eq!(clock_ms(-5), 0);
    assert_eq!(clock_ms(5), 5);
}

#[test]
fn a_ticket_is_proven_by_the_fleet_or_the_bucket() {
    let mut state = cell(0);
    let first = state.take_ticket();
    let second = state.take_ticket();
    assert_eq!((first, second), (1, 2));
    assert_eq!(wait_step(&state, first, false), WaitStep::Wait);
    assert_eq!(wait_step(&state, first, true), WaitStep::TimedOut);
    state.credit_sync(1, Some(4), 200);
    assert_eq!((state.durable_txid, state.percell_txid, state.last_sync_ms), (4, 4, 200));
    assert_eq!(state.proof_for(first), Some(ProofSource::Bucket));
    assert_eq!(state.proof_for(second), None);
    state.note_submitted(2, 5);
    assert_eq!(state.proof_for(second), None);
    state.credit_shipped(2, 5);
    // Where both hold, the fleet's proof is told.
    assert_eq!(state.proof_for(first), Some(ProofSource::Fleet));
    assert_eq!(wait_step(&state, second, false), WaitStep::Proven(ProofSource::Fleet));
    // A wait that ran out is not looked at again.
    assert_eq!(wait_step(&state, second, true), WaitStep::TimedOut);
    // Less than what was proven takes nothing back.
    state.credit_sync(0, None, 300);
    state.credit_shipped(1, 1);
    assert_eq!((state.synced_seq, state.durable_txid), (1, 4));
    assert_eq!((state.shipped_seq, state.shipped_txid), (2, 5));
}

#[test]
fn a_tail_is_what_the_cells_prefix_lacks() {
    let mut state = cell(3);
    assert!(!state.has_undrained_tail());
    state.credit_bundle(1, 5, 10);
    assert_eq!((state.durable_txid, state.percell_txid), (5, 3));
    assert!(state.has_undrained_tail());
    state.compaction = Some(Compaction {
        min_txids: 3,
        compacted_txid: 5,
        queued: false,
        cancelled: false,
    });
    assert!(!state.has_undrained_tail());
    state.reset_to_branch(9);
    assert_eq!((state.durable_txid, state.percell_txid, state.last_sync_ms), (9, 0, 0));
    assert!(state.has_undrained_tail());
    state.reset_to_import(2, 40);
    assert_eq!((state.shipped_txid, state.percell_txid, state.last_sync_ms), (2, 2, 40));
    assert!(state.shipped_is_tiered());
    state.credit_shipped(1, 3);
    assert!(!state.shipped_is_tiered());
}

#[test]
fn syncs_are_claimed_by_one_pass() {
    let mut state = cell(0);
    assert!(state.claim_sync());
    assert!(!state.claim_sync());
    let _ = state.take_ticket();
    assert!(state.release_sync());
    state.credit_sync(1, None, 0);
    assert!(state.claim_sync());
    assert!(!state.release_sync());
}

#[test]
fn paced_cells_wait_for_their_interval() {
    let free = pace(0, true, true);
    assert!(!free.paced && !free.bundling);
    let paced = pace(10, true, false);
    assert!(paced.paced && !paced.bundling);
    let bundling = pace(10, true, true);
    assert!(bundling.paced && bundling.bundling);
    assert!(!pace(10, false, true).paced);
    let mut dirty = cell(0);
    let _ = dirty.take_ticket();
    let cells = vec![dirty, cell(0), dirty];
    let resident = vec![2, 1, 0];
    assert_eq!(select_due(&cells, &resident, free, 10, 0), vec![2, 0]);
    assert_eq!(select_due(&cells, &resident, paced, 10, 109), Vec::<usize>::new());
    assert_eq!(select_due(&cells, &resident, paced, 10, 110), vec![2, 0]);
    assert_eq!(select_due(&cells, &resident, bundling, 10, 999), Vec::<usize>::new());
}

#[test]
fn a_sync_worker_goes_on_while_its_cell_is_dirty() {
    let mut dirty = cell(0);
    let _ = dirty.take_ticket();
    assert_eq!(worker_step(&dirty, SyncEnd::Closed, false), WorkerStep::Stop);
    assert_eq!(worker_step(&cell(0), SyncEnd::Synced, false), WorkerStep::Stop);
    assert_eq!(worker_step(&dirty, SyncEnd::Synced, true), WorkerStep::Stop);
    assert_eq!(worker_step(&dirty, SyncEnd::Synced, false), WorkerStep::Again);
    assert_eq!(worker_step(&dirty, SyncEnd::Failed, false), WorkerStep::Backoff(50));
}

#[test]
fn staged_rows_go_up_as_one_or_one_by_one() {
    let mut staging = SyncStaging::start(2, 4, 6);
    assert_eq!((staging.from, staging.next), (5, Some(5)));
    staging.take(Some(vec![5]));
    staging.take(Some(vec![6]));
    assert_eq!(staging.next, None);
    assert!(LtxRepl::merge_l0_rows(&staging.rows));
    let uploads = plan_uploads(staging.rows, Some(vec![9]));
    assert_eq!(uploads.len(), 1);
    assert_eq!((uploads[0].min_txid, uploads[0].max_txid), (5, 6));
    assert_eq!(uploads[0].bytes, vec![9]);
    let row = |txid: u64| Row {
        txid,
        bytes: vec![txid as u8],
    };
    let uploads = plan_uploads(vec![row(5), row(7)], None);
    let ranges: Vec<(u64, u64)> = uploads.iter().map(|one| (one.min_txid, one.max_txid)).collect();
    assert_eq!(ranges, vec![(5, 5), (7, 7)]);
    assert_eq!(uploads[1].bytes, vec![7]);
    assert!(!LtxRepl::merge_l0_rows(&vec![row(5), row(7)]));
    assert!(!LtxRepl::merge_l0_rows(&vec![row(6), row(5)]));
    assert!(!LtxRepl::merge_l0_rows(&vec![row(5)]));
    assert!(!LtxRepl::merge_l0_rows(&vec![]));
    assert!(!LtxRepl::merge_l0_rows(&vec![row(u64::MAX), row(0)]));
}

#[test]
fn a_missing_row_fails_the_pass() {
    let mut staging = SyncStaging::start(0, 0, 3);
    staging.take(Some(vec![1]));
    staging.take(None);
    assert!(staging.failed);
    assert_eq!(staging.next, None);
    let empty = SyncStaging::start(0, 3, 3);
    assert_eq!(empty.next, None);
    assert!(!empty.failed);
}

#[test]
fn a_pass_credits_what_was_written() {
    let mut state = cell(0);
    let _ = state.take_ticket();
    let (end, queued) = finish_sync(&mut state, 1, Some(3), true, 50);
    assert_eq!((end, queued), (SyncEnd::Synced, true));
    assert_eq!((state.synced_seq, state.durable_txid, state.percell_txid), (1, 3, 3));
    let (end, queued) = finish_sync(&mut state, 9, Some(9), false, 60);
    assert_eq!((end, queued), (SyncEnd::Failed, false));
    assert_eq!((state.synced_seq, state.durable_txid, state.last_sync_ms), (1, 3, 60));
    assert_eq!(LtxRepl::sync_wait(Some(SyncEnd::Synced)), SyncWait::Durable);
    assert_eq!(LtxRepl::sync_wait(Some(SyncEnd::Failed)), SyncWait::Failed);
    assert_eq!(LtxRepl::sync_wait(Some(SyncEnd::Closed)), SyncWait::Unsupported);
    assert_eq!(LtxRepl::sync_wait(None), SyncWait::Unsupported);
}

#[test]
fn bundles_take_every_frame_above_the_covered_ones() {
    let mut dirty = cell(4);
    let _ = dirty.take_ticket();
    let mut cells = vec![dirty, cell(0)];
    assert_eq!(select_dirty(&cells, &vec![0, 1]), vec![0]);
    let mut bundle = Bundle::new();
    assert_eq!(bundle.step(), BundleStep::Drop);
    let mut reading = BundleCell::start("a", 2, 0, 1, 4, 6);
    assert_eq!(reading.next, Some(5));
    bundle.take(&mut reading, Some(vec![5]));
    bundle.take(&mut reading, Some(vec![6]));
    bundle.finish_cell(reading);
    let mut broken = BundleCell::start("b", 2, 1, 9, 0, 2);
    bundle.take(&mut broken, None);
    assert_eq!(broken.next, None);
    bundle.finish_cell(broken);
    assert_eq!(bundle.step(), BundleStep::Put);
    let txids: Vec<u64> = bundle.entries.iter().map(|entry| entry.txid).collect();
    assert_eq!(txids, vec![5, 6]);
    assert_eq!(bundle.entries[0].cell_epoch, 2);
    let claimed = credit_bundle(&mut cells, &bundle.credits, 70);
    assert_eq!(claimed, vec![0]);
    assert_eq!((cells[0].synced_seq, cells[0].durable_txid, cells[0].percell_txid), (1, 6, 4));
    assert_eq!(cells[0].last_sync_ms, 70);
    assert_eq!(cells[1].synced_seq, 0);
    // Covered frames need no object, only the credit.
    let mut idle = Bundle::new();
    idle.finish_cell(BundleCell::start("a", 2, 0, 1, 6, 6));
    assert_eq!(idle.step(), BundleStep::Credit);
}

#[test]
fn compactions_are_queued_once_at_the_threshold() {
    let mut state = cell(0);
    assert!(!state.claim_compaction(2));
    assert!(state.claim_compaction(3));
    assert!(!state.claim_compaction(9));
    assert_eq!(begin_round(&mut state, true), None);
    let (outcome, pause) = finish_round(&mut state, RoundResult::Folded { max_txid: 3 }, 500);
    assert_eq!((outcome, pause), (CompactionOutcome::Advanced, Some(500)));
    assert!(!state.claim_compaction(5));
    assert!(state.claim_compaction(6));
    state.cancel_compaction();
    assert_eq!(begin_round(&mut state, false), None);
    assert_eq!(begin_round(&mut state, true), Some(CompactionOutcome::Cancelled));
    assert!(!state.claim_compaction(99));
    let mut none = CellState::activated(None, 0, None);
    assert_eq!(begin_round(&mut none, true), Some(CompactionOutcome::Current));
    assert!(!none.claim_compaction(99));
}

#[test]
fn rounds_end_with_a_pause_of_their_own_length() {
    let mut state = cell(8);
    let (outcome, pause) = finish_round(&mut state, RoundResult::NoWork, 2001);
    assert_eq!((outcome, pause), (CompactionOutcome::Current, Some(2000)));
    assert_eq!(state.compaction.unwrap().compacted_txid, 8);
    let (outcome, pause) = finish_round(&mut state, RoundResult::Failed, 1);
    assert_eq!((outcome, pause), (CompactionOutcome::Failed, None));
    let (outcome, pause) = finish_round(&mut state, RoundResult::Cancelled, 1);
    assert_eq!((outcome, pause), (CompactionOutcome::Cancelled, None));
}

#[test]
fn compaction_settings_are_checked() {
    assert_eq!(compaction_config(false, 0, 0), Ok(None));
    assert_eq!(
        compaction_config(true, 256, 2),
        Ok(Some(CompactionConfig {
            min_txids: 256,
            concurrency: 2
        }))
    );
    assert_eq!(
        compaction_config(true, 1, 0),
        Err("CELLD_LTX_COMPACTION_MIN_TXIDS must be at least 2".to_string())
    );
    assert_eq!(
        compaction_config(true, 2, 0),
        Err("CELLD_LTX_COMPACTIONS must be positive".to_string())
    );
}

#[test]
fn captures_are_spread_over_workers() {
    assert_eq!(spread(&vec![10, 11, 12, 13, 14], 2), vec![vec![10, 12, 14], vec![11, 13]]);
    assert_eq!(spread(&vec![10], 8), vec![vec![10]]);
    assert_eq!(spread(&vec![], 8), vec![Vec::<usize>::new()]);
    let mut unshipped = cell(0);
    let _ = unshipped.take_ticket();
    let mut submitted = unshipped;
    submitted.note_submitted(1, 1);
    let cells = vec![submitted, unshipped];
    assert_eq!(select_unshipped(&cells, &vec![0, 1]), vec![1]);
    let mut lap = 10;
    assert_eq!((lap_us(&mut lap, 15), lap), (5, 15));
    assert_eq!((lap_us(&mut lap, 3), lap), (0, 3));
}

#[test]
fn a_capture_may_skip_only_covered_frames() {
    let mut capture = FrameCapture::start("a", 1, 4, 7);
    assert_eq!(capture.next, Some(5));
    capture.take(None, 5);
    capture.take(Some(vec![6]), 5);
    capture.take(Some(vec![7]), 5);
    let (entries, done) = capture.finish(3, 2);
    assert_eq!(entries.iter().map(|entry| entry.txid).collect::<Vec<u64>>(), vec![6, 7]);
    let done = done.unwrap();
    assert_eq!((done.cell, done.tickets, done.position), (3, 2, 7));
    let mut gap = FrameCapture::start("a", 1, 4, 7);
    gap.take(Some(vec![5]), 5);
    gap.take(None, 5);
    assert_eq!(gap.next, None);
    let (entries, done) = gap.finish(3, 2);
    assert_eq!(entries.len(), 1);
    assert!(done.is_none());
    let (entries, done) = FrameCapture::start("a", 1, 7, 7).finish(0, 1);
    assert!(entries.is_empty() && done.is_some());
}

#[test]
fn captures_are_gathered_in_order() {
    let captured = gather(vec![
        Some(Captured {
            entries: vec![entry(1)],
            credits: vec![credit(0, 1, 1)],
        }),
        None,
        Some(Captured {
            entries: vec![entry(2), entry(3)],
            credits: vec![],
        }),
    ]);
    assert_eq!(captured.entries.iter().map(|one| one.txid).collect::<Vec<u64>>(), vec![1, 2, 3]);
    assert_eq!(captured.credits.len(), 1);
}

#[test]
fn ledgers_cover_batches_in_order() {
    let mut ledger = ShipLedger::new();
    ledger.observe_epoch(1);
    ledger.shipped(10, vec![(0, 5)]);
    ledger.shipped(20, vec![(0, 7), (1, 2)]);
    let mut cells = vec![cell(5), cell(2)];
    ledger.advance(&cells);
    assert_eq!(ledger.covered_seq(), 10);
    assert_eq!(ledger.outstanding.len(), 1);
    cells[0].credit_bundle(0, 7, 0);
    ledger.advance(&cells);
    assert_eq!(ledger.covered_seq(), 20);
    ledger.observe_epoch(1);
    assert_eq!(ledger.covered_seq(), 20);
    // Sequences start over with each epoch.
    ledger.observe_epoch(2);
    assert_eq!(ledger.covered_seq(), 0);
}

#[test]
fn a_round_credits_what_it_carried() {
    let mut state = cell(4);
    let _ = state.take_ticket();
    let mut cells = vec![state];
    let resident = vec![0];
    let mut ships = ShipLoop::new();
    assert_eq!(ships.next_wait(None), ShipWait::Work);
    assert!(ships.observe_shipper(&mut cells, &resident, Some(1)));
    let outcome = ships.finish_capture(&mut cells, vec![credit(0, 1, 6)], vec![entry(5), entry(6)]);
    match outcome {
        CaptureOutcome::Submit {
            epoch,
            batch,
            covered_seq,
        } => assert_eq!((epoch, batch.len(), covered_seq), (1, 2, 0)),
        _ => panic!("nothing was submitted"),
    }
    assert_eq!((cells[0].submitted_seq, cells[0].submitted_txid, cells[0].shipped_seq), (1, 6, 0));
    assert_eq!(ships.next_wait(Some((1, true))), ShipWait::Round);
    assert_eq!(ships.next_wait(Some((2, true))), ShipWait::RoundOrWork);
    assert_eq!(ships.next_wait(Some((2, false))), ShipWait::Round);
    assert_eq!(ships.complete_round(&mut cells, &resident, Some(2)), vec![0]);
    assert_eq!((cells[0].shipped_seq, cells[0].shipped_txid), (1, 6));
    assert_eq!(ships.ledger.outstanding.len(), 1);
    assert!(ships.inflight.is_empty());
}

#[test]
fn a_failed_round_rolls_everything_back() {
    let mut state = cell(4);
    let _ = state.take_ticket();
    let mut cells = vec![state];
    let resident = vec![0];
    let mut ships = ShipLoop::new();
    ships.observe_shipper(&mut cells, &resident, Some(1));
    let _ = ships.finish_capture(&mut cells, vec![credit(0, 1, 5)], vec![entry(5)]);
    let _ = ships.finish_capture(&mut cells, vec![credit(0, 1, 6)], vec![entry(6)]);
    assert_eq!(ships.inflight.len(), 2);
    assert_eq!(ships.complete_round(&mut cells, &resident, None), Vec::<usize>::new());
    assert!(ships.inflight.is_empty());
    assert_eq!((cells[0].submitted_seq, cells[0].submitted_txid), (0, 4));
    assert_eq!(select_unshipped(&cells, &resident), vec![0]);
}

#[test]
fn rounds_are_credited_in_the_order_of_submission() {
    let mut cells = vec![cell(4), cell(4)];
    let resident = vec![0, 1];
    let mut ships = ShipLoop::new();
    ships.observe_shipper(&mut cells, &resident, Some(1));
    let _ = ships.finish_capture(&mut cells, vec![credit(0, 1, 5)], vec![entry(5)]);
    let _ = ships.finish_capture(&mut cells, vec![credit(1, 1, 6)], vec![entry(6)]);
    assert_eq!(ships.complete_round(&mut cells, &resident, Some(1)), vec![0]);
    assert_eq!((cells[0].shipped_txid, cells[1].shipped_txid), (5, 4));
    assert_eq!(ships.complete_round(&mut cells, &resident, Some(2)), vec![1]);
    assert_eq!((cells[0].shipped_txid, cells[1].shipped_txid), (5, 6));
}

#[test]
fn nothing_is_captured_after_the_stop() {
    let mut cells = vec![cell(4)];
    let resident = vec![0];
    let mut ships = ShipLoop::new();
    assert!(ships.observe_shipper(&mut cells, &resident, Some(1)));
    ships.observe_stop();
    assert!(!ships.observe_shipper(&mut cells, &resident, Some(1)));
    assert!(!ships.observe_shipper(&mut cells, &resident, Some(2)));
}

#[test]
fn a_batch_holds_each_cells_frames_in_order() {
    let mut captured = Captured::new();
    for (place, name, submitted) in [(0, "a", 4), (1, "b", 6)] {
        let mut capture = FrameCapture::start(name, 1, submitted, 8);
        while let Some(txid) = capture.next {
            capture.take(Some(vec![txid as u8]), 0);
        }
        captured.enter(capture, place, 3);
    }
    let mut gap = FrameCapture::start("c", 1, 1, 2);
    gap.take(None, 0);
    captured.enter(gap, 2, 3);
    let batch: Vec<(String, u64)> = captured
        .entries
        .iter()
        .map(|entry| (entry.cell.clone(), entry.txid))
        .collect();
    let expected = [("a", 5), ("a", 6), ("a", 7), ("a", 8), ("b", 7), ("b", 8)];
    assert_eq!(batch, expected.map(|(name, txid)| (name.to_string(), txid)).to_vec());
    assert_eq!(captured.credits.len(), 2);
}

#[test]
fn a_round_captures_each_registered_cell_once() {
    let mut repl = LtxRepl::new();
    for name in ["b", "a", "c"] {
        let mut state = cell(4);
        let _ = state.take_ticket();
        repl.install(name, 1, state).unwrap();
    }
    // One that is installed again has a place of its own.
    let _ = repl.close_for_reload("a", 1);
    let mut state = cell(6);
    let _ = state.take_ticket();
    assert_eq!(repl.install("a", 1, state), Ok(3));
    let resident = repl.resident_places();
    assert_eq!(resident, vec![3, 0, 2]);
    let work = select_unshipped(&repl.states, &resident);
    assert_eq!(work, vec![3, 0, 2]);
    let names = ["b", "", "c", "a"];
    let parts = spread(&work, 2).into_iter().map(|chunk| {
        let mut captured = Captured::new();
        for place in chunk {
            let submitted = repl.states[place].submitted_txid;
            let mut capture = FrameCapture::start(names[place], 1, submitted, 8);
            while let Some(txid) = capture.next {
                capture.take(Some(vec![]), 0);
                assert!(txid > submitted);
            }
            captured.enter(capture, place, 1);
        }
        Some(captured)
    });
    let batch = gather(parts.collect());
    let shipped: Vec<(&str, u64)> = batch
        .entries
        .iter()
        .map(|entry| (entry.cell.as_str(), entry.txid))
        .collect();
    assert_eq!(
        shipped,
        vec![
            ("a", 7),
            ("a", 8),
            ("c", 5),
            ("c", 6),
            ("c", 7),
            ("c", 8),
            ("b", 5),
            ("b", 6),
            ("b", 7),
            ("b", 8),
        ]
    );
}

#[test]
fn another_shipper_orphans_the_rounds() {
    let mut state = cell(4);
    let _ = state.take_ticket();
    let mut cells = vec![state];
    let resident = vec![0];
    let mut ships = ShipLoop::new();
    ships.observe_shipper(&mut cells, &resident, Some(1));
    let _ = ships.finish_capture(&mut cells, vec![credit(0, 1, 5)], vec![entry(5)]);
    assert!(ships.observe_shipper(&mut cells, &resident, Some(1)));
    assert_eq!(ships.inflight.len(), 1);
    assert!(ships.observe_shipper(&mut cells, &resident, Some(2)));
    assert!(ships.inflight.is_empty());
    assert_eq!(cells[0].submitted_txid, 4);
    assert!(!ships.observe_shipper(&mut cells, &resident, None));
    assert_eq!(ships.epoch, None);
}

#[test]
fn covered_captures_settle_without_a_round() {
    let mut state = cell(4);
    let _ = state.take_ticket();
    let mut cells = vec![state];
    let mut ships = ShipLoop::new();
    ships.observe_shipper(&mut cells, &vec![0], Some(1));
    assert!(matches!(
        ships.finish_capture(&mut cells, vec![], vec![entry(5)]),
        CaptureOutcome::Nothing
    ));
    match ships.finish_capture(&mut cells, vec![credit(0, 1, 4)], vec![]) {
        CaptureOutcome::Settled(woken) => assert_eq!(woken, vec![0]),
        _ => panic!("nothing was settled"),
    }
    assert_eq!((cells[0].shipped_seq, cells[0].submitted_seq), (1, 1));
    reset_submitted(&mut cells, &vec![0]);
    assert_eq!((cells[0].shipped_seq, cells[0].submitted_seq), (1, 1));
}

struct Fleet {
    epoch: u64,
}

impl Shipper for Fleet {
    type Round = Option<u64>;

    fn settled(completion: ShipCompletion) -> Option<u64> {
        completion.last_seq()
    }

    fn ship(&self, batch: Vec<ShipEntry>, covered_seq: u64) -> Option<u64> {
        Some(covered_seq + batch.len() as u64)
    }

    fn epoch(&self) -> u64 {
        self.epoch
    }

    fn active(&self) -> bool {
        true
    }
}

#[test]
fn batches_of_another_epoch_are_not_shipped() {
    let fleet = Fleet { epoch: 3 };
    assert_eq!(fleet.ship_at_epoch(3, vec![entry(1)], 6), Some(7));
    assert_eq!(fleet.ship_at_epoch(2, vec![entry(1)], 6), None);
    assert_eq!(fleet.pipeline(), 1);
    assert!(fleet.admits());
    assert_eq!(ShipCompletion::unreserved(Some(4)).last_seq(), Some(4));
    assert_eq!(ShipCompletion::reserved(None, "held").last_seq(), None);
}

#[test]
fn an_old_owner_ends_nothing() {
    let mut state = RegistrationState::new();
    let first = state.register(false).unwrap();
    let second = state.register(false).unwrap();
    state.retire(first);
    assert_eq!(state.current, Some(second));
    state.retire(second);
    assert_eq!(state.current, None);
    assert_eq!(state.register(true), None);
    let _ = state.register(false);
    state.clear();
    assert_eq!(state.current, None);
}

#[test]
fn stopped_groups_take_no_task() {
    let mut group = TaskGroup::new();
    let first = group.spawn_owned().unwrap();
    let second = group.spawn_owned().unwrap();
    assert_ne!(first, second);
    group.completed(first, false);
    assert_eq!(group.tasks.len(), 1);
    // A task that failed is kept for the one who joins it.
    group.completed(second, true);
    assert!(!group.is_empty());
    group.request_stop();
    assert_eq!(group.spawn_owned(), None);
}

#[test]
fn an_abandoned_wait_loses_no_task() {
    let mut group = TaskGroup::new();
    let first = group.spawn_owned().unwrap();
    let second = group.spawn_owned().unwrap();
    let waited = group.take_task().unwrap();
    assert_eq!(waited.id, second);
    group.put_back(waited);
    assert_eq!(group.take_task().map(|task| task.id), Some(second));
    assert_eq!(group.take_task().map(|task| task.id), Some(first));
    assert_eq!(group.take_task(), None);
}
