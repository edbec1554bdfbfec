//! Compaction rounds: their settings, their outcomes and their pacing.

use vstd::prelude::*;
use crate::repl::cell::{CellState, Compaction};

verus! {

/// One round reads at most this many files.
pub const COMPACTION_MAX_FILES: usize = 256;

/// One round reads at most this many bytes.
pub const COMPACTION_MAX_INPUT_BYTES: u64 = 67108864;

/// The settings of compaction.
#[derive(Clone, Copy, Debug, PartialEq, Eq, Structural)]
pub struct CompactionConfig {
    /// Positions that must have gathered before a round.
    pub min_txids: u64,
    /// Rounds that may run at once.
    pub concurrency: usize,
}

/// The settings from what the environment says; none where compaction is off.
pub fn compaction_config(enabled: bool, min_txids: u64, concurrency: usize) -> (config: Result<
    Option<CompactionConfig>,
    String,
>)
    ensures
        match config {
            Ok(None) => !enabled,
            Ok(Some(config)) => {
                &&& enabled
                &&& min_txids >= 2
                &&& concurrency > 0
                &&& config == (CompactionConfig { min_txids, concurrency })
            },
            Err(message) => {
                &&& enabled
                &&& min_txids < 2 || concurrency == 0
                &&& message@ == if min_txids < 2 {
                    "CELLD_LTX_COMPACTION_MIN_TXIDS must be at least 2"@
                } else {
                    "CELLD_LTX_COMPACTIONS must be positive"@
                }
            },
        },
{
    if !enabled {
        return Ok(None);
    }
    if min_txids < 2 {
        return Err("CELLD_LTX_COMPACTION_MIN_TXIDS must be at least 2".to_owned());
    }
    if concurrency == 0 {
        return Err("CELLD_LTX_COMPACTIONS must be positive".to_owned());
    }
    Ok(Some(CompactionConfig { min_txids, concurrency }))
}

/// What became of a round.
#[derive(Clone, Copy, Debug, PartialEq, Eq, Structural)]
pub enum CompactionOutcome {
    Advanced,
    Current,
    Failed,
    Cancelled,
}

/// What the compactor said.
#[derive(Clone, Copy, Debug, PartialEq, Eq, Structural)]
pub enum RoundResult {
    /// It folded everything up to this position.
    Folded { max_txid: u64 },
    /// There was nothing to fold.
    NoWork,
    /// It failed.
    Failed,
    /// It was cancelled first.
    Cancelled,
}

/// May a round start? One that may be cancelled and was, or one of a cell
/// without compaction, is over at once. This is asked before and after the
/// wait for the cell's previous round.
pub fn begin_round(cell: &mut CellState, cancellable: bool) -> (over: Option<CompactionOutcome>)
    ensures
        match old(cell).compaction {
            None => over == Some(CompactionOutcome::Current) && *final(cell) == *old(cell),
            Some(compaction) => if cancellable && compaction.cancelled {
                &&& over == Some(CompactionOutcome::Cancelled)
                &&& *final(cell) == (CellState {
                    compaction: Some(Compaction { queued: false, ..compaction }),
                    ..*old(cell)
                })
            } else {
                over is None && *final(cell) == *old(cell)
            },
        },
{
    match cell.compaction {
        None => Some(CompactionOutcome::Current),
        Some(compaction) => {
            if cancellable && compaction.cancelled {
                cell.release_compaction();
                Some(CompactionOutcome::Cancelled)
            } else {
                None
            }
        },
    }
}

/// What a result means.
pub open spec fn outcome_of(result: RoundResult) -> CompactionOutcome {
    match result {
        RoundResult::Folded { .. } => CompactionOutcome::Advanced,
        RoundResult::NoWork => CompactionOutcome::Current,
        RoundResult::Failed => CompactionOutcome::Failed,
        RoundResult::Cancelled => CompactionOutcome::Cancelled,
    }
}

/// The position that a cell counts as folded after a round.
pub open spec fn folded_to(cell: CellState, result: RoundResult) -> u64 {
    match result {
        RoundResult::Folded { max_txid } => max_txid,
        RoundResult::NoWork => cell.durable_txid,
        _ => cell.compaction->0.compacted_txid,
    }
}

/// A round is over. After one that went well, and was not cancelled meanwhile,
/// the next may be claimed when the pause is over: as long as the round took,
/// two seconds at most.
pub fn finish_round(cell: &mut CellState, result: RoundResult, elapsed_ms: u64) -> (end: (
    CompactionOutcome,
    Option<u64>,
))
    requires
        old(cell).compaction is Some,
    ensures
        end.0 == outcome_of(result),
        *final(cell) == (CellState {
            compaction: Some(
                Compaction {
                    queued: false,
                    compacted_txid: folded_to(*old(cell), result),
                    ..old(cell).compaction->0
                },
            ),
            ..*old(cell)
        }),
        end.1 == if (end.0 is Advanced || end.0 is Current) && !old(cell).compaction->0.cancelled {
            Some(
                if elapsed_ms < 2000 {
                    elapsed_ms
                } else {
                    2000
                },
            )
        } else {
            None
        },
{
    let compaction = match cell.compaction {
        Some(compaction) => compaction,
        None => return (CompactionOutcome::Current, None),
    };
    let (outcome, compacted_txid): (CompactionOutcome, u64) = match result {
        RoundResult::Folded { max_txid } => (CompactionOutcome::Advanced, max_txid),
        RoundResult::NoWork => (CompactionOutcome::Current, cell.durable_txid),
        RoundResult::Failed => (CompactionOutcome::Failed, compaction.compacted_txid),
        RoundResult::Cancelled => (CompactionOutcome::Cancelled, compaction.compacted_txid),
    };
    cell.compaction = Some(Compaction { queued: false, compacted_txid, ..compaction });
    let well = match outcome {
        CompactionOutcome::Advanced | CompactionOutcome::Current => true,
        _ => false,
    };
    let pause: Option<u64> = if well && !compaction.cancelled {
        Some(
            if elapsed_ms < 2000 {
                elapsed_ms
            } else {
                2000
            },
        )
    } else {
        None
    };
    (outcome, pause)
}

/// A cancelled cell never claims another round, whatever its rounds come to.
pub proof fn law_cancelled_cell_claims_no_round(
    cell: CellState,
    result: RoundResult,
    durable_txid: u64,
)
    requires
        cell.compaction matches Some(compaction) && compaction.cancelled,
    ensures
        !cell.compaction_due(durable_txid),
        !(CellState {
            compaction: Some(
                Compaction {
                    queued: false,
                    compacted_txid: folded_to(cell, result),
                    ..cell.compaction->0
                },
            ),
            ..cell
        }).compaction_due(durable_txid),
{
}

/// A cell never has two rounds at once: one that is claimed cannot be claimed
/// again before it is over.
pub proof fn law_claimed_round_is_claimed_once(cell: CellState, first: u64, second: u64)
    requires
        cell.compaction_due(first),
    ensures
        !cell.compaction_claimed(first).compaction_due(second),
{
}

/// Compaction is off exactly where it was not asked for. Asked for, it takes its
/// two numbers as they are, where at least two positions gather and at least one
/// round may run, and is refused otherwise.
pub proof fn law_compaction_settings_are_sound(
    enabled: bool,
    min_txids: u64,
    concurrency: usize,
    config: Result<Option<CompactionConfig>, String>,
)
    requires
        call_ensures(compaction_config, (enabled, min_txids, concurrency), config),
    ensures
        (config matches Ok(None)) <==> !enabled,
        config is Err <==> enabled && (min_txids == 0 || min_txids == 1 || concurrency == 0),
        config matches Ok(Some(config)) ==> config.min_txids == min_txids && config.concurrency
            == concurrency,
{
}

/// A round of a cell is over before it starts only where the cell has no compaction,
/// or was cancelled and may be; a cancelled one gives its claim back.
pub proof fn law_round_starts_unless_cancelled(
    cell: &mut CellState,
    cancellable: bool,
    over: Option<CompactionOutcome>,
)
    requires
        call_ensures(begin_round, (cell, cancellable), over),
    ensures
        over is None <==> (old(cell).compaction matches Some(compaction) && !(cancellable
            && compaction.cancelled)),
        over matches Some(outcome) ==> (outcome is Current <==> old(cell).compaction is None) && (
        outcome is Cancelled <==> old(cell).compaction is Some),
        over is None ==> *final(cell) == *old(cell),
        (over matches Some(CompactionOutcome::Cancelled)) ==> (final(cell).compaction matches Some(
            compaction,
        ) && !compaction.queued && compaction.cancelled && compaction.compacted_txid == old(cell).compaction->0.compacted_txid),
        final(cell).durable_txid == old(cell).durable_txid,
        final(cell).synced_seq == old(cell).synced_seq,
        final(cell).percell_txid == old(cell).percell_txid,
{
}

/// A round that is over gives its claim back. One that folded counts as folded up to
/// where it did, one without work up to where the bucket reaches, and a failed or
/// cancelled one as before. The next may be claimed after a pause as long as the
/// round took, two seconds at most, but not at once after a failure nor ever after
/// a cancellation.
pub proof fn law_finished_round_tells_what_it_folded(
    cell: &mut CellState,
    result: RoundResult,
    elapsed_ms: u64,
    end: (CompactionOutcome, Option<u64>),
)
    requires
        old(cell).compaction is Some,
        call_ensures(finish_round, (cell, result, elapsed_ms), end),
    ensures
        end.0 is Advanced <==> result is Folded,
        end.0 is Current <==> result is NoWork,
        end.0 is Failed <==> result is Failed,
        end.0 is Cancelled <==> result is Cancelled,
        final(cell).compaction is Some,
        ({
            let before = old(cell).compaction->0;
            let after = final(cell).compaction->0;
            &&& !after.queued
            &&& after.cancelled == before.cancelled
            &&& after.min_txids == before.min_txids
            &&& result matches RoundResult::Folded { max_txid } ==> after.compacted_txid == max_txid
            &&& result is NoWork ==> after.compacted_txid == old(cell).durable_txid
            &&& result is Failed || result is Cancelled ==> after.compacted_txid
                == before.compacted_txid
            &&& end.1 is Some <==> (result is Folded || result is NoWork) && !before.cancelled
            &&& end.1 matches Some(pause) ==> pause <= elapsed_ms && pause <= 2000 && (pause
                == elapsed_ms || pause == 2000)
        }),
        final(cell).req_seq == old(cell).req_seq,
        final(cell).synced_seq == old(cell).synced_seq,
        final(cell).shipped_seq == old(cell).shipped_seq,
        final(cell).durable_txid == old(cell).durable_txid,
        final(cell).percell_txid == old(cell).percell_txid,
        final(cell).shipped_txid == old(cell).shipped_txid,
{
}

/// A setting that is refused is named, the gathering before the concurrency.
pub proof fn law_refused_compaction_names_its_setting(
    enabled: bool,
    min_txids: u64,
    concurrency: usize,
    config: Result<Option<CompactionConfig>, String>,
)
    requires
        call_ensures(compaction_config, (enabled, min_txids, concurrency), config),
    ensures
        enabled && min_txids < 2 ==> config->Err_0@
            == "CELLD_LTX_COMPACTION_MIN_TXIDS must be at least 2"@,
        enabled && min_txids >= 2 && concurrency == 0 ==> config->Err_0@
            == "CELLD_LTX_COMPACTIONS must be positive"@,
{
}

} // verus!
