use celld::branch::cell_branch::ValidatedParentBucket;
use celld::ltx::base::{BasePointer, TXID};
use celld::ltx::client::FileInfo;
use celld::repl::activate::{
    failure_message, refusal_message, ActivateError, Activation, ActivationOptions, Origin, Stage,
};
use celld::repl::cell::CellState;
use celld::repl::compact::CompactionConfig;
use celld::repl::config::{
    assemble, file_age, node_config, timestamp_metadata_key, EnvCredentials, Overrides,
    StorageBackend, StorageCredentials, TimestampMetadataKey,
};
use celld::repl::evict::{
    check_published, check_snapshot, check_unbranched, final_durability_barrier, remove_plan,
    snapshot_plan, EvictionRestoreArtifact, PublishRetry, RetryStep, SnapshotPlan,
};
use celld::repl::paths::{
    cell_db_path, check_inventory, epoch_of_key, epoch_of_name, epoch_prefix_text,
    highest_nonempty_epoch, inspect_directory, log_prefix, ltx_epochs,
    restore_directory, stale_cells, truncate_pages_for_cell, FoundEpoch,
};
use celld::repl::rebuild::{
    fork_point, has_anchor, import_captured, import_uploaded, rebuild_message, Branching,
    EpochSearch, RebuildError,
};
use celld::repl::registry::{AdmitError, CellKey, CloseEnd, CloseStart, LtxRepl};
use celld::repl::sync::SyncWait;
use celld::table::Table;

fn state(txid: u64) -> CellState {
    CellState::activated(Some(txid), 0, None)
}

fn file(level: i32, min: u64, max: u64, size: i64) -> FileInfo {
    FileInfo {
        level,
        min_txid: TXID(min),
        max_txid: TXID(max),
        size,
    }
}

fn options(epoch: u64) -> ActivationOptions {
    ActivationOptions {
        cell: "a".to_string(),
        epoch,
        fresh: false,
        resume_local: false,
        previous_reusable: false,
    }
}

fn pointer(parent_epoch: u64, checksum: &str) -> BasePointer {
    BasePointer {
        parent_bucket: "s3://b/demo/v1".to_string(),
        parent_cell: "a".to_string(),
        parent_epoch,
        fork_txid: 7,
        fork_checksum: checksum.to_string(),
    }
}

fn terminal(checksum: u64) -> Vec<u8> {
    let mut bytes = checksum.to_be_bytes().to_vec();
    bytes.extend([0; 8]);
    bytes
}

fn project() -> Result<String, String> {
    Ok("demo".to_string())
}

fn told(error: ActivateError) -> String {
    failure_message(error, "a", 5, "/p")
}

fn strings(list: &[&str]) -> Vec<String> {
    list.iter().map(|one| one.to_string()).collect()
}

#[test]
fn cells_are_installed_and_removed() {
    let mut repl = LtxRepl::new();
    assert_eq!(repl.admit_activation("a", 1), Ok(()));
    let place = repl.install("a", 1, state(3)).unwrap();
    assert_eq!(repl.resident("a", 1), Some(place));
    assert_eq!(repl.resident("a", 2), None);
    assert_eq!(repl.resident_places(), vec![place]);
    assert!(repl.all_shipped_tiered());
    repl.states[place].credit_shipped(1, 9);
    assert!(!repl.all_shipped_tiered());
    assert_eq!(repl.remove_local("a", 1), Some(place));
    assert!(repl.dirty_tails.contains(&"a".to_string()));
    assert_eq!(repl.remove_local("a", 1), None);
    let other = repl.install("b", 1, state(3)).unwrap();
    repl.states[other].credit_shipped(1, 9);
    // A reload keeps the files, so no tail is recorded.
    assert_eq!(repl.close_for_reload("b", 1), Some(other));
    assert!(!repl.dirty_tails.contains(&"b".to_string()));
}

#[test]
fn a_close_keeps_its_path_until_it_is_done() {
    let mut repl = LtxRepl::new();
    let place = repl.install("a", 1, state(3)).unwrap();
    assert_eq!(repl.close_in_place("a", 1), CloseStart::Close(place));
    assert_eq!(repl.close_in_place("a", 1), CloseStart::Incomplete);
    assert_eq!(repl.admit_activation("a", 1), Err(AdmitError::CloseIncomplete));
    assert_eq!(repl.install("a", 1, state(0)), Err(AdmitError::CloseIncomplete));
    repl.finish_close("a", 1, place, CloseEnd::NotTaken);
    // A close that took nothing can be tried again.
    assert_eq!(repl.close_in_place("a", 1), CloseStart::Close(place));
    repl.finish_close("a", 1, place, CloseEnd::Closed);
    assert_eq!(repl.close_in_place("a", 1), CloseStart::Done);
    assert_eq!(repl.admit_activation("a", 1), Ok(()));
}

#[test]
fn shutdown_takes_every_handle() {
    let mut repl = LtxRepl::new();
    let first = repl.install("a", 1, state(0)).unwrap();
    let second = repl.install("b", 2, state(0)).unwrap();
    assert_eq!(repl.close_in_place("a", 1), CloseStart::Close(first));
    repl.shutdown_local_fallback();
    assert_eq!(repl.install("c", 1, state(0)), Err(AdmitError::Stopped));
    assert_eq!(repl.resident_places(), Vec::<usize>::new());
    let taken = repl.start_close_local_replicas();
    let places: Vec<usize> = taken.entries.iter().map(|(_, place)| *place).collect();
    assert_eq!(places, vec![first, second]);
    assert!(repl.start_close_local_replicas().entries.is_empty());
}

#[test]
fn a_release_after_shutdown_is_deferred() {
    let mut repl = LtxRepl::new();
    let _ = repl.install("a", 1, state(0)).unwrap();
    repl.close_stopped = true;
    assert_eq!(repl.close_in_place("a", 1), CloseStart::Deferred);
    assert_eq!(repl.close_in_place("z", 1), CloseStart::Done);
    assert_eq!(
        refusal_message(AdmitError::CloseIncomplete, "a", 1, true),
        "managed replica close is incomplete for a epoch 1"
    );
    assert_eq!(
        refusal_message(AdmitError::Stopped, "a", 1, true),
        "LTX replication stopped before activation installed"
    );
    assert_eq!(
        refusal_message(AdmitError::Stopped, "a", 1, false),
        "LTX replication stopped before activation started"
    );
}

#[test]
fn fresh_and_resumed_cells_need_no_source() {
    let mut asked = options(5);
    asked.fresh = true;
    let mut activation = Activation::begin(asked);
    activation.directory_made(true, false).unwrap();
    assert_eq!(activation.stage, Stage::Open(Origin::Fresh));
    assert!(!activation.restored());
    let mut asked = options(5);
    asked.resume_local = true;
    let mut activation = Activation::begin(asked);
    activation.directory_made(true, false).unwrap();
    assert_eq!(activation.stage, Stage::FindResumed);
    assert_eq!(
        told(activation.resumed_found(false).unwrap_err()),
        "clean reload database is missing: /p"
    );
    activation.resumed_found(true).unwrap();
    assert_eq!(activation.stage, Stage::Open(Origin::Resumed));
    assert!(activation.restored());
}

#[test]
fn a_local_snapshot_goes_before_the_bucket() {
    let mut asked = options(5);
    asked.previous_reusable = true;
    let mut activation = Activation::begin(asked);
    activation.directory_made(false, false).unwrap();
    assert_eq!(activation.stage, Stage::FindSnapshot { legacy: false });
    activation.snapshot_found(false, false, false).unwrap();
    assert_eq!(activation.stage, Stage::FindSnapshot { legacy: true });
    activation.snapshot_found(true, false, false).unwrap();
    activation.snapshot_moved();
    assert_eq!(activation.stage, Stage::Open(Origin::Reused { legacy: true }));
}

#[test]
fn a_stranded_tail_is_folded_before_the_source_is_looked_for() {
    let mut activation = Activation::begin(options(5));
    assert_eq!(
        told(activation.directory_made(true, false).unwrap_err()),
        "a has an un-drained bundle tail and no bundle sink"
    );
    let mut activation = Activation::begin(options(5));
    activation.directory_made(true, true).unwrap();
    assert_eq!(activation.stage, Stage::FoldTail);
    assert_eq!(
        told(activation.failed("x".to_string())),
        "fold bundle tail for a: x"
    );
    activation.tail_folded();
    assert_eq!(activation.stage, Stage::FindSource);
}

#[test]
fn a_used_epoch_is_never_restored() {
    let mut activation = Activation::begin(options(5));
    activation.directory_made(false, false).unwrap();
    assert_eq!(
        told(activation.source_found(Some(5)).unwrap_err()),
        "refusing to restore a from used epoch 5 into writer epoch 5"
    );
    activation.source_found(None).unwrap();
    assert_eq!(activation.stage, Stage::Open(Origin::Fresh));
}

#[test]
fn a_plain_source_needs_its_first_transaction() {
    let mut activation = Activation::begin(options(5));
    activation.directory_made(false, false).unwrap();
    activation.source_found(Some(4)).unwrap();
    activation.base_read(None, project()).unwrap();
    assert_eq!(activation.stage, Stage::FindAnchor { from: 4 });
    activation.anchor_found(false);
    assert_eq!(
        told(activation.objects_found(true).unwrap_err()),
        "restore a e4: remote prefix has objects but no LTX anchor or base.json"
    );
    activation.objects_found(false).unwrap();
    assert_eq!(activation.stage, Stage::Open(Origin::Fresh));
    let mut activation = Activation::begin(options(5));
    activation.directory_made(false, false).unwrap();
    activation.source_found(Some(4)).unwrap();
    activation.base_read(None, project()).unwrap();
    activation.anchor_found(true);
    assert_eq!(told(activation.failed("x".to_string())), "restore a e4: x");
    activation.restore_done();
    assert_eq!(activation.stage, Stage::Open(Origin::Restored { from: 4 }));
    assert_eq!(told(activation.failed("x".to_string())), "open managed db /p: x");
}

#[test]
fn a_branched_source_is_restored_through_its_parent() {
    let mut activation = Activation::begin(options(5));
    activation.directory_made(false, false).unwrap();
    activation.source_found(Some(4)).unwrap();
    activation.base_read(Some(pointer(0, "00000000000000ff")), project()).unwrap();
    assert_eq!(activation.stage, Stage::FindParentEpoch { from: 4 });
    assert_eq!(
        told(activation.parent_epoch_found(None).unwrap_err()),
        "parent prefix has no LTX epoch for a"
    );
    activation.parent_epoch_found(Some(2)).unwrap();
    assert_eq!(activation.stage, Stage::ReadTerminal { from: 4, parent_epoch: 2 });
    assert_eq!(told(activation.failed("x".to_string())), "read parent terminal LTX: x");
    assert_eq!(
        told(activation.terminal_read(None).unwrap_err()),
        "parent plan missing terminal LTX"
    );
    assert_eq!(
        told(activation.terminal_read(Some(terminal(254))).unwrap_err()),
        "parent terminal LTX does not match fork_checksum"
    );
    assert_eq!(
        told(activation.terminal_read(Some(vec![0; 15])).unwrap_err()),
        "parent terminal LTX is corrupted"
    );
    activation.terminal_read(Some(terminal(255))).unwrap();
    let baseline = activation.baseline.unwrap();
    assert_eq!((baseline.fork_txid, baseline.checksum), (7, 255));
    assert_eq!(told(activation.failed("x".to_string())), "restore branched a e4: x");
    activation.restore_done();
    assert_eq!(activation.stage, Stage::Open(Origin::Branched { from: 4 }));
}

#[test]
fn a_foreign_pointer_is_refused() {
    let begun = || {
        let mut activation = Activation::begin(options(5));
        activation.directory_made(false, false).unwrap();
        activation.source_found(Some(4)).unwrap();
        activation
    };
    let mut foreign = pointer(1, "0");
    foreign.parent_cell = "b".to_string();
    assert_eq!(
        told(begun().base_read(Some(foreign), project()).unwrap_err()),
        "base.json parent_cell \"b\" does not match a"
    );
    assert_eq!(
        told(begun().base_read(Some(pointer(1, "0")), Err("no".to_string())).unwrap_err()),
        "no"
    );
    let mut activation = begun();
    activation.base_read(Some(pointer(3, "odd")), project()).unwrap();
    assert_eq!(activation.stage, Stage::ReadTerminal { from: 4, parent_epoch: 3 });
    assert_eq!(
        told(activation.terminal_read(Some(terminal(1))).unwrap_err()),
        "invalid fork_checksum hex: \"odd\""
    );
}

#[test]
fn a_parent_epoch_needs_an_anchor() {
    assert!(has_anchor(&vec![file(0, 2, 2, 0), file(0, 1, 4, 0)]));
    assert!(!has_anchor(&vec![file(0, 2, 2, 0)]));
    let mut search = EpochSearch::start(3, &vec![1, 2]);
    assert_eq!(search.wanted(), Some(3));
    search.pass();
    assert_eq!(search.wanted(), None);
    assert_eq!(search.failure("a"), "parent epoch 3 for a has no MinTXID==1 LTX (L0 or L9)");
    let mut search = EpochSearch::start(0, &vec![2, 5]);
    let mut order = Vec::new();
    while let Some(epoch) = search.wanted() {
        order.push(epoch);
        search.pass();
    }
    assert_eq!(order, vec![5, 2, 1]);
    assert_eq!(search.failure("a"), "parent prefix has no restorable LTX for a");
    assert_eq!(EpochSearch::start(0, &vec![1]).candidates, vec![1]);
}

#[test]
fn a_fork_is_the_end_of_the_parents_plan() {
    assert!(fork_point(&vec![]).is_none());
    let fork = fork_point(&vec![file(9, 1, 4, 900), file(0, 5, 7, 30)]).unwrap();
    assert_eq!((fork.fork_txid, fork.bytes_parent), (TXID(7), 900));
    let fork = fork_point(&vec![file(9, 2, 4, 900), file(0, 5, 7, -1)]).unwrap();
    assert_eq!(fork.bytes_parent, 0);
}

#[test]
fn a_branch_is_written_for_its_cell() {
    let parent = ValidatedParentBucket {
        uri: "s3://b/demo/v1".to_string(),
        key_prefix: "demo/v1/".to_string(),
    };
    let mut branching = Branching::begin("a", parent);
    assert_eq!(
        rebuild_message(branching.child_base_read(true).unwrap_err(), "a", 1),
        "child prefix already has base.json"
    );
    branching.child_base_read(false).unwrap();
    branching.epoch_found(3);
    assert_eq!(
        rebuild_message(branching.parent_base_read(true).unwrap_err(), "a", 1),
        "parent is already a branch; compact first"
    );
    branching.parent_base_read(false).unwrap();
    assert_eq!(
        rebuild_message(branching.planned(&vec![]).unwrap_err(), "a", 1),
        "parent prefix has no restorable LTX"
    );
    branching.planned(&vec![file(0, 1, 7, 30)]).unwrap();
    assert_eq!(
        rebuild_message(branching.terminal_read(&vec![]).unwrap_err(), "a", 1),
        "parent terminal LTX is corrupted"
    );
    let written = branching.terminal_read(&terminal(255)).unwrap();
    assert_eq!(written.parent_bucket, "s3://b/demo/v1");
    assert_eq!((written.parent_cell.as_str(), written.parent_epoch), ("a", 3));
    assert_eq!((written.fork_txid, written.fork_checksum.as_str()), (7, "00000000000000ff"));
    branching.rebuilt();
    let mut cell = state(2);
    assert_eq!(
        rebuild_message(branching.opened(&mut cell, 6).unwrap_err(), "a", 1),
        "branch baseline txid mismatch: expected 7, got 6"
    );
    let done = branching.opened(&mut cell, 7).unwrap();
    assert_eq!((done.fork_txid, done.bytes_parent), (7, 30));
    assert_eq!((cell.durable_txid, cell.percell_txid), (7, 0));
}

#[test]
fn a_database_is_replaced_by_one_claim() {
    let mut repl = LtxRepl::new();
    assert_eq!(
        rebuild_message(repl.claim_rebuild("a", 1).unwrap_err(), "a", 1),
        "no managed replica for a epoch 1"
    );
    let mut cell = CellState::activated(None, 0, Some(2));
    assert!(!cell.syncing);
    cell.percell_txid = 0;
    let place = repl.install("a", 1, cell).unwrap();
    assert_eq!(repl.claim_rebuild("a", 1).unwrap(), place);
    assert!(repl.states[place].compaction.unwrap().cancelled);
    assert_eq!(
        rebuild_message(repl.claim_rebuild("a", 1).unwrap_err(), "a", 1),
        "cell a epoch 1 sync already in progress"
    );
    repl.release_rebuild(place);
    assert_eq!(repl.claim_rebuild("a", 1).unwrap(), place);
}

#[test]
fn an_import_is_checked_after_its_upload() {
    assert_eq!(
        rebuild_message(import_captured(0).unwrap_err(), "a", 1),
        "import produced no durable snapshot"
    );
    assert_eq!(import_captured(2).unwrap(), 2);
    let mut cell = state(9);
    let error = import_uploaded(&mut cell, 10, 2, file(0, 1, 3, 10), 50).unwrap_err();
    assert_eq!(
        rebuild_message(error, "a", 1),
        "import snapshot metadata does not match the captured LTX"
    );
    assert_eq!(cell.durable_txid, 9);
    let done = import_uploaded(&mut cell, 10, 2, file(0, 1, 2, 10), 50).unwrap();
    assert_eq!((done.bytes, done.snapshot_txid), (10, 2));
    assert_eq!((cell.durable_txid, cell.percell_txid, cell.last_sync_ms), (2, 2, 50));
    assert_eq!(
        rebuild_message(RebuildError::Outside("x".to_string()), "a", 1),
        "x"
    );
}

#[test]
fn evictions_pass_a_last_barrier() {
    assert!(final_durability_barrier(SyncWait::Durable, "a", 1).is_ok());
    assert_eq!(
        final_durability_barrier(SyncWait::Unsupported, "a", 1).unwrap_err(),
        "final durability is unsupported for a epoch 1"
    );
    assert_eq!(
        final_durability_barrier(SyncWait::Failed, "a", 1).unwrap_err(),
        "final durability failed for a epoch 1"
    );
    assert_eq!(snapshot_plan(true, 4), SnapshotPlan::Skip);
    assert_eq!(snapshot_plan(false, 0), SnapshotPlan::Skip);
    assert_eq!(snapshot_plan(false, 4), SnapshotPlan::Publish(4));
    assert!(check_snapshot(4, 4).is_ok());
    assert_eq!(
        check_snapshot(5, 4).unwrap_err(),
        "handoff snapshot position 5 does not match durable position 4"
    );
    assert_eq!(
        check_unbranched(true, "a", 1).unwrap_err(),
        "refusing MinTXID=1 handoff snapshot on branched cell a e1"
    );
    assert!(check_unbranched(false, "a", 1).is_ok());
    assert!(check_published(file(9, 1, 4, 0), 4).is_ok());
    for wrong in [file(8, 1, 4, 0), file(9, 2, 4, 0), file(9, 1, 5, 0)] {
        assert_eq!(
            check_published(wrong, 4).unwrap_err(),
            "handoff snapshot metadata does not match the closed database"
        );
    }
}

#[test]
fn publishing_backs_off_until_its_deadline() {
    let mut retry = PublishRetry::start(1000, 120);
    assert_eq!(retry.attempted(false, 1000), RetryStep::Sleep(50));
    assert_eq!(retry.woke(1050), RetryStep::Attempt);
    assert_eq!(retry.attempted(false, 1060), RetryStep::Sleep(60));
    assert_eq!(retry.woke(1120), RetryStep::Finish(EvictionRestoreArtifact::L0Chain));
    assert_eq!(
        retry.attempted(false, 1120),
        RetryStep::Finish(EvictionRestoreArtifact::L0Chain)
    );
    assert_eq!(
        retry.attempted(true, 9999),
        RetryStep::Finish(EvictionRestoreArtifact::Snapshot)
    );
    assert_eq!(PublishRetry::start(u64::MAX, 5).deadline_ms, u64::MAX);
}

#[test]
fn removals_keep_a_database_only_after_a_clean_close() {
    let plan = remove_plan("/d/db.sqlite", "/d/db", true, true);
    assert_eq!(plan.keep_as.as_deref(), Some("/d/db.evicted"));
    assert_eq!(plan.remove, strings(&["/d/db.sqlite-wal", "/d/db.sqlite-shm"]));
    for (preserve, closed) in [(true, false), (false, true)] {
        let plan = remove_plan("/d/db.sqlite", "/d/db", preserve, closed);
        assert!(plan.keep_as.is_none());
        assert_eq!(
            plan.remove,
            strings(&["/d/db.sqlite-wal", "/d/db.sqlite-shm", "/d/db.sqlite"])
        );
    }
}

#[test]
fn logs_are_found_where_they_are_written() {
    let prefix = epoch_prefix_text("fleet/", "Db:a", 12);
    assert_eq!(prefix, "fleet/cells/Db:a/ltx/e12");
    assert_eq!(log_prefix("fleet/", "Db:a"), "fleet/cells/Db:a/ltx/");
    assert_eq!(epoch_of_key(&format!("{prefix}/0/1-1.ltx")), Some(12));
    assert_eq!(epoch_of_key(&format!("{prefix}/base.json")), None);
    assert_eq!(epoch_of_key("cells/a/ltx/ex/1.ltx"), None);
    // A bucket prefix that is itself below a log hides the epoch.
    assert_eq!(epoch_of_key("x/ltx/e9/cells/a/ltx/e12/1.ltx"), Some(9));
    assert_eq!(
        ltx_epochs(&strings(&[
            "cells/a/ltx/e7/1.ltx",
            "cells/a/ltx/e2/1.ltx",
            "cells/a/ltx/e7/2.ltx",
            "cells/a/ltx/e9/base.json",
        ])),
        vec![2, 7]
    );
    assert_eq!(epoch_of_name("e0012"), Some(12));
    assert_eq!(epoch_of_name("12"), None);
    assert_eq!(highest_nonempty_epoch(&strings(&["e2", "x", "e10", "e9"])), Some(10));
    assert_eq!(highest_nonempty_epoch(&strings(&["x"])), None);
    assert_eq!(LtxRepl::covered_txid(&vec![file(0, 1, 4, 0), file(1, 1, 9, 0)]), 9);
    assert_eq!(LtxRepl::covered_txid(&vec![]), 0);
}

#[test]
fn local_paths_follow_the_cell_and_epoch() {
    assert_eq!(cell_db_path("/data", "a", 3), "/data/a/ltx/e3/db.sqlite");
    assert_eq!(cell_db_path("", "a", 3), "a/ltx/e3/db.sqlite");
    assert_eq!(cell_db_path("/data/", "a", 3), "/data/a/ltx/e3/db.sqlite");
    assert_eq!(cell_db_path("data", "", 0), "data/ltx/e0/db.sqlite");
    assert_eq!(cell_db_path("data", "/a", 10), "/a/ltx/e10/db.sqlite");
    for (root, cell) in [("", "a"), ("/data/", "a"), ("data", ""), ("data", "/a"), ("d", "a/")] {
        let joined = std::path::Path::new(root).join(cell).join("ltx").join("e7").join("db.sqlite");
        assert_eq!(cell_db_path(root, cell, 7), joined.to_str().unwrap());
    }
    assert_eq!(inspect_directory("a", 3), ".inspect-a-e3");
    assert_eq!(restore_directory("a"), ".restore-a");
    assert_eq!(truncate_pages_for_cell("Queue:x", "Queue", Some(128)), Some(0));
    assert_eq!(truncate_pages_for_cell("Db:x", "Queue", Some(128)), Some(128));
    assert_eq!(truncate_pages_for_cell("Queue", "Queue", None), None);
}

#[test]
fn stale_databases_are_told_from_kept_ones() {
    let found = |cell: &str, name: &str, has_database: bool| FoundEpoch {
        cell: cell.to_string(),
        name: name.to_string(),
        has_database,
    };
    let local = LtxRepl::local_cells(&vec![
        found("b", "e1", true),
        found("a", "e2", true),
        found("a", "e10", true),
        found("a", "e2", true),
        found("a", "e3", false),
        found("a", "x", true),
    ]);
    let listed: Vec<(String, u64)> =
        local.entries.iter().map(|(key, _)| (key.cell.clone(), key.epoch)).collect();
    assert_eq!(
        listed,
        vec![("a".to_string(), 2), ("a".to_string(), 10), ("b".to_string(), 1)]
    );
    let mut keep: Table<CellKey, ()> = Table::new();
    keep.insert(CellKey::new("a", 10), ());
    let stale = stale_cells(&local, &keep);
    assert_eq!(stale.entries.len(), 2);
    assert_eq!(
        check_inventory(&local, &keep, 2).unwrap_err(),
        "clean reload inventory mismatch after pruning: expected 1, found 3"
    );
    let mut remaining: Table<CellKey, ()> = Table::new();
    remaining.insert(CellKey::new("a", 10), ());
    assert_eq!(check_inventory(&remaining, &keep, 2).unwrap(), 2);
}

#[test]
fn settings_have_defaults() {
    let none = Overrides {
        flush_ms: None,
        durability_timeout_secs: None,
        truncate_pages: None,
    };
    let settings = assemble(StorageBackend::Azure, None, none);
    assert_eq!(settings.timestamp_metadata_key, TimestampMetadataKey::Underscore);
    assert_eq!((settings.flush_ms, settings.durability_timeout_ms), (2000, 10000));
    assert_eq!((settings.compaction_min_txids, settings.compaction_workers), (0, None));
    assert_eq!(settings.truncate_pages, Some(128));
    let set = Overrides {
        flush_ms: Some(0),
        durability_timeout_secs: Some(u64::MAX),
        truncate_pages: Some(0),
    };
    let config = CompactionConfig {
        min_txids: 5,
        concurrency: 3,
    };
    let settings = assemble(StorageBackend::S3, Some(config), set);
    assert_eq!(settings.timestamp_metadata_key, TimestampMetadataKey::Litestream);
    assert_eq!((settings.flush_ms, settings.durability_timeout_ms), (0, u64::MAX));
    assert_eq!((settings.compaction_min_txids, settings.compaction_workers), (5, Some(3)));
    assert_eq!(settings.truncate_pages, Some(0));
    assert_eq!(timestamp_metadata_key(StorageBackend::Local), TimestampMetadataKey::Litestream);
    assert_eq!(file_age(100, 40), 60);
    assert_eq!(file_age(40, 100), 0);
}

#[test]
fn credentials_come_from_the_control_plane_first() {
    let env = EnvCredentials {
        access_key_id: Some("env-id".to_string()),
        secret_access_key: Some("env-key".to_string()),
        session_token: Some(String::new()),
    };
    let given = StorageCredentials {
        access_key_id: "id".to_string(),
        secret_access_key: String::new(),
        session_token: None,
    };
    let config = node_config("b", Some("http://e"), "r", Some(&given), &env);
    assert_eq!(config.access_key_id, "id");
    assert_eq!(config.secret_access_key, "env-key");
    assert_eq!(config.session_token, "");
    assert_eq!((config.endpoint.as_str(), config.force_path_style), ("http://e", true));
    assert_eq!((config.bucket.as_str(), config.path.as_str(), config.region.as_str()), ("b", "", "r"));
    let config = node_config("b", None, "r", None, &env);
    assert_eq!(config.access_key_id, "env-id");
    assert!(!config.force_path_style);
}
