//! Branching a D1 database's cell.

use vstd::prelude::*;
use crate::branch::cell_branch;
use crate::branch::cell_branch::{BranchFailure, BranchOk, BranchRequest, NodeFacts, ReopenSpec};

verus! {

/// What a branched database is answered with.
#[derive(Debug)]
pub struct D1BranchOk {
    pub fork_txid: u64,
    pub parent_bucket: String,
    pub bytes_parent: u64,
    pub duration_ms: u64,
}

/// Why a database was not branched.
#[derive(Debug)]
pub struct D1BranchFailure {
    pub message: String,
}

/// A database's branch whose checks have passed.
#[derive(Debug)]
pub struct PreparedBranch(pub cell_branch::PreparedBranch);

/// Check the branch of a database's cell.
pub fn prepare(scope: &str, request: BranchRequest, sqlite_vec: bool, facts: NodeFacts) -> (prepared:
    Result<(PreparedBranch, ReopenSpec), D1BranchFailure>)
    ensures
        match cell_branch::prepare_refusal(scope@, request, facts) {
            Some(message) => prepared matches Err(failure) && failure.message@ == message,
            None => prepared matches Ok((branch, reopen)) && cell_branch::branch_prepared_from(
                branch.0,
                reopen,
                scope@,
                request,
                sqlite_vec,
                facts,
            ),
        },
{
    match cell_branch::prepare(scope, request, sqlite_vec, facts) {
        Ok((branch, reopen)) => Ok((PreparedBranch(branch), reopen)),
        Err(failure) => Err(D1BranchFailure { message: failure.message }),
    }
}

/// The answer to a branch that has run.
pub fn branch_prepared(outcome: Result<BranchOk, BranchFailure>) -> (reply: Result<
    D1BranchOk,
    D1BranchFailure,
>)
    ensures
        match outcome {
            Ok(done) => reply == Ok::<D1BranchOk, D1BranchFailure>(
                D1BranchOk {
                    fork_txid: done.fork_txid,
                    parent_bucket: done.parent_bucket,
                    bytes_parent: done.bytes_parent,
                    duration_ms: done.duration_ms,
                },
            ),
            Err(failure) => reply == Err::<D1BranchOk, D1BranchFailure>(
                D1BranchFailure { message: failure.message },
            ),
        },
{
    match outcome {
        Ok(done) => Ok(
            D1BranchOk {
                fork_txid: done.fork_txid,
                parent_bucket: done.parent_bucket,
                bytes_parent: done.bytes_parent,
                duration_ms: done.duration_ms,
            },
        ),
        Err(failure) => Err(D1BranchFailure { message: failure.message }),
    }
}

/// The answer to a cell that was opened again after its branch.
pub fn reopen(outcome: Result<(), BranchFailure>) -> (reply: Result<(), D1BranchFailure>)
    ensures
        match outcome {
            Ok(_) => reply is Ok,
            Err(failure) => reply == Err::<(), D1BranchFailure>(
                D1BranchFailure { message: failure.message },
            ),
        },
{
    match outcome {
        Ok(()) => Ok(()),
        Err(failure) => Err(D1BranchFailure { message: failure.message }),
    }
}

/// A database is branched exactly where its cell can be, with the same parts and the
/// same reasons.
pub proof fn law_database_is_branched_as_its_cell(
    scope: &str,
    request: BranchRequest,
    sqlite_vec: bool,
    facts: NodeFacts,
    prepared: Result<(PreparedBranch, ReopenSpec), D1BranchFailure>,
    cell: Result<(cell_branch::PreparedBranch, ReopenSpec), BranchFailure>,
)
    requires
        call_ensures(prepare, (scope, request, sqlite_vec, facts), prepared),
        call_ensures(cell_branch::prepare, (scope, request, sqlite_vec, facts), cell),
    ensures
        prepared is Ok <==> cell is Ok,
        prepared matches Err(failure) ==> failure.message@ == cell->Err_0.message@,
        prepared matches Ok((branch, reopen)) ==> {
            &&& branch.0.scope@ == scope@ && reopen.scope@ == scope@
            &&& Some(branch.0.epoch) == facts.epoch && Some(reopen.epoch) == facts.epoch
            &&& branch.0.parent.uri@ == request.parent_bucket@
            &&& branch.0.parent_epoch == request.parent_epoch
            &&& reopen.db_path@ == facts.db_path@
            &&& reopen.sqlite_vec == sqlite_vec
        },
{
}

/// What a branch did is answered as it was, and a failure with its own message.
pub proof fn law_branch_is_answered_as_it_went(
    outcome: Result<BranchOk, BranchFailure>,
    reply: Result<D1BranchOk, D1BranchFailure>,
    opened: Result<(), BranchFailure>,
    again: Result<(), D1BranchFailure>,
)
    requires
        call_ensures(branch_prepared, (outcome,), reply),
        call_ensures(reopen, (opened,), again),
    ensures
        reply is Ok <==> outcome is Ok,
        reply matches Ok(reply) ==> reply.fork_txid == outcome->Ok_0.fork_txid
            && reply.parent_bucket@ == outcome->Ok_0.parent_bucket@ && reply.bytes_parent
            == outcome->Ok_0.bytes_parent && reply.duration_ms == outcome->Ok_0.duration_ms,
        reply matches Err(error) ==> error.message@ == outcome->Err_0.message@,
        again is Ok <==> opened is Ok,
        again matches Err(error) ==> error.message@ == opened->Err_0.message@,
{
}

} // verus!
