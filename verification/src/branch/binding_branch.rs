//! Branching the cells behind KV and queue bindings.

use vstd::prelude::*;
use crate::branch::cell_branch;
use crate::branch::cell_branch::{
    BranchFailure, BranchOk, BranchRequest, NodeFacts, PreparedBranch, ReopenSpec,
};
use crate::text;

verus! {

pub const KV_BRANCH_FAMILY: &'static str = "KV_BRANCH_ERROR";

pub const QUEUE_BRANCH_FAMILY: &'static str = "QUEUE_BRANCH_ERROR";

/// What a branched binding is answered with.
#[derive(Debug)]
pub struct BindingBranchOk {
    pub fork_txid: u64,
    pub parent_bucket: String,
    pub bytes_parent: u64,
    pub duration_ms: u64,
}

/// Why a binding was not branched.
#[derive(Debug)]
pub struct BindingBranchError<'a> {
    pub family: &'a str,
    pub message: String,
}

/// A binding's branch whose checks have passed.
#[derive(Debug)]
pub struct PreparedBinding(pub PreparedBranch);

/// The message for a scope that is not the binding's, from the quoted forms of
/// both.
pub open spec fn scope_mismatch(scope: Seq<char>, expected: Seq<char>) -> Seq<char> {
    "cell scope "@ + scope + " does not match binding identity "@ + expected
}

/// The message for a scope that is not the binding's, from the quoted forms of
/// both.
pub fn scope_mismatch_text(scope: &str, expected: &str) -> (message: String)
    ensures
        message@ == scope_mismatch(scope@, expected@),
{
    let mut message = "cell scope ".to_owned();
    message.append(scope);
    message.append(" does not match binding identity ");
    message.append(expected);
    message
}

/// The first thing that keeps a binding's branch from being prepared.
pub open spec fn binding_refusal(
    scope: Seq<char>,
    request: BranchRequest,
    expected_scope: Seq<char>,
    facts: NodeFacts,
) -> Option<Seq<char>> {
    if scope != expected_scope {
        Some(scope_mismatch(text::debug_quoted(scope), text::debug_quoted(expected_scope)))
    } else {
        cell_branch::prepare_refusal(scope, request, facts)
    }
}

fn prepare_for(
    family: &'static str,
    scope: &str,
    request: BranchRequest,
    expected_scope: &str,
    facts: NodeFacts,
) -> (prepared: Result<(PreparedBinding, ReopenSpec), BindingBranchError<'static>>)
    ensures
        match binding_refusal(scope@, request, expected_scope@, facts) {
            Some(message) => prepared matches Err(error) && error.family@ == family@
                && error.message@ == message,
            None => prepared matches Ok((binding, reopen)) && cell_branch::branch_prepared_from(
                binding.0,
                reopen,
                scope@,
                request,
                false,
                facts,
            ),
        },
{
    if !text::same(scope, expected_scope) {
        let quoted = text::debug_text(scope);
        let quoted_expected = text::debug_text(expected_scope);
        let message = scope_mismatch_text(quoted.as_str(), quoted_expected.as_str());
        return Err(BindingBranchError { family, message });
    }
    match cell_branch::prepare(scope, request, false, facts) {
        Ok((branch, reopen)) => Ok((PreparedBinding(branch), reopen)),
        Err(failure) => Err(BindingBranchError { family, message: failure.message }),
    }
}

/// Check the branch of a KV binding's cell.
pub fn prepare_binding(scope: &str, request: BranchRequest, expected_scope: &str, facts: NodeFacts) -> (
prepared: Result<(PreparedBinding, ReopenSpec), BindingBranchError<'static>>)
    ensures
        match binding_refusal(scope@, request, expected_scope@, facts) {
            Some(message) => prepared matches Err(error) && error.family@ == "KV_BRANCH_ERROR"@
                && error.message@ == message,
            None => prepared matches Ok((binding, reopen)) && cell_branch::branch_prepared_from(
                binding.0,
                reopen,
                scope@,
                request,
                false,
                facts,
            ),
        },
{
    prepare_for(KV_BRANCH_FAMILY, scope, request, expected_scope, facts)
}

/// Check the branch of a queue binding's cell.
pub fn prepare_queue_binding(
    scope: &str,
    request: BranchRequest,
    expected_scope: &str,
    facts: NodeFacts,
) -> (prepared: Result<(PreparedBinding, ReopenSpec), BindingBranchError<'static>>)
    ensures
        match binding_refusal(scope@, request, expected_scope@, facts) {
            Some(message) => prepared matches Err(error) && error.family@ == "QUEUE_BRANCH_ERROR"@
                && error.message@ == message,
            None => prepared matches Ok((binding, reopen)) && cell_branch::branch_prepared_from(
                binding.0,
                reopen,
                scope@,
                request,
                false,
                facts,
            ),
        },
{
    prepare_for(QUEUE_BRANCH_FAMILY, scope, request, expected_scope, facts)
}

/// The answer to a branch that has run, whose errors are of `family`.
pub fn branch_binding_prepared(outcome: Result<BranchOk, BranchFailure>, family: &'static str) -> (
reply: Result<BindingBranchOk, BindingBranchError<'static>>)
    ensures
        match outcome {
            Ok(done) => reply == Ok::<BindingBranchOk, BindingBranchError<'static>>(
                BindingBranchOk {
                    fork_txid: done.fork_txid,
                    parent_bucket: done.parent_bucket,
                    bytes_parent: done.bytes_parent,
                    duration_ms: done.duration_ms,
                },
            ),
            Err(failure) => reply matches Err(error) && error.family@ == family@ && error.message
                == failure.message,
        },
{
    match outcome {
        Ok(done) => Ok(
            BindingBranchOk {
                fork_txid: done.fork_txid,
                parent_bucket: done.parent_bucket,
                bytes_parent: done.bytes_parent,
                duration_ms: done.duration_ms,
            },
        ),
        Err(failure) => Err(BindingBranchError { family, message: failure.message }),
    }
}

/// The answer to a cell that was opened again after its branch.
pub fn reopen(outcome: Result<(), BranchFailure>) -> (reply: Result<
    (),
    BindingBranchError<'static>,
>)
    ensures
        match outcome {
            Ok(_) => reply is Ok,
            Err(failure) => reply matches Err(error) && error.family@ == "KV_BRANCH_ERROR"@
                && error.message == failure.message,
        },
{
    match outcome {
        Ok(()) => Ok(()),
        Err(failure) => Err(
            BindingBranchError { family: KV_BRANCH_FAMILY, message: failure.message },
        ),
    }
}

/// A binding is branched only under its own scope, and then exactly where its cell
/// could be; it is opened again without vectors. Refusals of a queue and of a store
/// differ in their family alone.
pub proof fn law_binding_is_branched_under_its_own_scope(
    scope: &str,
    request: BranchRequest,
    expected_scope: &str,
    facts: NodeFacts,
    store: Result<(PreparedBinding, ReopenSpec), BindingBranchError<'static>>,
    queue: Result<(PreparedBinding, ReopenSpec), BindingBranchError<'static>>,
    cell: Result<(PreparedBranch, ReopenSpec), BranchFailure>,
)
    requires
        call_ensures(prepare_binding, (scope, request, expected_scope, facts), store),
        call_ensures(prepare_queue_binding, (scope, request, expected_scope, facts), queue),
        call_ensures(cell_branch::prepare, (scope, request, false, facts), cell),
    ensures
        store is Ok <==> scope@ == expected_scope@ && cell is Ok,
        queue is Ok <==> store is Ok,
        store matches Err(error) ==> error.family@ == "KV_BRANCH_ERROR"@,
        queue matches Err(error) ==> error.family@ == "QUEUE_BRANCH_ERROR"@ && error.message@
            == store->Err_0.message@,
        store is Err && scope@ == expected_scope@ ==> store->Err_0.message@
            == cell->Err_0.message@,
        store matches Ok((binding, reopen)) ==> {
            &&& binding.0.scope@ == scope@ && reopen.scope@ == scope@
            &&& Some(binding.0.epoch) == facts.epoch && Some(reopen.epoch) == facts.epoch
            &&& binding.0.parent.uri@ == request.parent_bucket@
            &&& binding.0.parent_epoch == request.parent_epoch
            &&& reopen.db_path@ == facts.db_path@
            &&& !reopen.sqlite_vec
        },
        queue matches Ok((binding, reopen)) ==> {
            &&& binding.0.scope@ == scope@ && reopen.scope@ == scope@
            &&& Some(binding.0.epoch) == facts.epoch && Some(reopen.epoch) == facts.epoch
            &&& binding.0.parent.uri@ == request.parent_bucket@
            &&& binding.0.parent_epoch == request.parent_epoch
            &&& reopen.db_path@ == facts.db_path@
            &&& !reopen.sqlite_vec
        },
{
}

/// What a branch did is answered as it was, and a failure with its own message.
pub proof fn law_branch_is_answered_as_it_went(
    outcome: Result<BranchOk, BranchFailure>,
    family: &'static str,
    reply: Result<BindingBranchOk, BindingBranchError<'static>>,
    opened: Result<(), BranchFailure>,
    again: Result<(), BindingBranchError<'static>>,
)
    requires
        call_ensures(branch_binding_prepared, (outcome, family), reply),
        call_ensures(reopen, (opened,), again),
    ensures
        reply is Ok <==> outcome is Ok,
        reply matches Ok(reply) ==> reply.fork_txid == outcome->Ok_0.fork_txid
            && reply.parent_bucket@ == outcome->Ok_0.parent_bucket@ && reply.bytes_parent
            == outcome->Ok_0.bytes_parent && reply.duration_ms == outcome->Ok_0.duration_ms,
        reply matches Err(error) ==> error.family@ == family@ && error.message@
            == outcome->Err_0.message@,
        again is Ok <==> opened is Ok,
        again matches Err(error) ==> error.message@ == opened->Err_0.message@ && error.family@
            == "KV_BRANCH_ERROR"@,
{
}

/// A scope that is not the binding's is told with both, as they are quoted.
pub proof fn law_foreign_scope_is_named(scope: &str, expected: &str, message: String)
    requires
        call_ensures(scope_mismatch_text, (scope, expected), message),
    ensures
        message@ == "cell scope "@ + scope@ + " does not match binding identity "@ + expected@,
{
}

} // verus!
