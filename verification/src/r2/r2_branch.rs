//! Branching an R2 binding: the checks before its overlay pointer is written.

use vstd::prelude::*;
use crate::branch::cell_branch;
use crate::branch::cell_branch::ValidatedParentBucket;
use crate::r2::r2_overlay::R2OverlayPointer;

verus! {

pub const R2_BRANCH_FAMILY: &'static str = "R2_BRANCH_ERROR";

/// What a branched binding is answered with.
#[derive(Debug)]
pub struct R2BranchOk {
    pub parent_bucket: String,
    pub duration_ms: u64,
}

/// What a branch does next.
#[derive(Clone, Copy, Debug, PartialEq, Eq, Structural)]
pub enum R2BranchStage {
    /// Read the child's overlay pointer.
    ReadChild,
    /// Read the parent's overlay pointer.
    ReadParent,
    /// Write the child's overlay pointer, unless one has come up meanwhile.
    Write,
    /// The pointer is written.
    Done,
}

/// A branch on its way.
#[derive(Debug)]
pub struct R2Branching {
    pub parent: ValidatedParentBucket,
    pub stage: R2BranchStage,
}

impl R2Branching {
    /// Begin with a parent that belongs to the project.
    pub fn begin(parent_bucket: &str, project_id: &str) -> (branching: Result<Self, String>)
        ensures
            match cell_branch::parent_parts(parent_bucket@) {
                None => branching matches Err(message) && message@ == cell_branch::bad_address(),
                Some((_, project, _)) => if project == project_id@ {
                    branching matches Ok(branching) && cell_branch::parent_at(
                        branching.parent,
                        parent_bucket@,
                    ) && branching.stage == R2BranchStage::ReadChild
                } else {
                    branching matches Err(message) && message@ == cell_branch::other_project(
                        project,
                        project_id@,
                    )
                },
            },
    {
        match cell_branch::validate_parent_bucket(parent_bucket, project_id) {
            Ok(parent) => Ok(R2Branching { parent, stage: R2BranchStage::ReadChild }),
            Err(message) => Err(message),
        }
    }

    /// The child's overlay pointer was read; a branch is not branched again.
    pub fn child_read(&mut self, found: bool) -> (next: Result<(), String>)
        requires
            old(self).stage == R2BranchStage::ReadChild,
        ensures
            final(self).parent == old(self).parent,
            next is Ok <==> !found,
            next is Err ==> final(self).stage == old(self).stage,
            next is Ok ==> final(self).stage == R2BranchStage::ReadParent,
            next matches Err(message) ==> message@
                == "child R2 binding already has base.json; compact first"@,
    {
        if found {
            return Err("child R2 binding already has base.json; compact first".to_owned());
        }
        self.stage = R2BranchStage::ReadParent;
        Ok(())
    }

    /// The parent's overlay pointer was read; only a whole parent is branched
    /// from.
    pub fn parent_read(&mut self, found: bool) -> (next: Result<R2OverlayPointer, String>)
        requires
            old(self).stage == R2BranchStage::ReadParent,
        ensures
            final(self).parent == old(self).parent,
            next is Ok <==> !found,
            next is Err ==> final(self).stage == old(self).stage,
            next matches Ok(pointer) ==> final(self).stage == R2BranchStage::Write
                && pointer.parent_bucket@ == old(self).parent.uri@,
            next matches Err(message) ==> message@
                == "parent R2 binding is already a branch; compact first"@,
    {
        if found {
            return Err("parent R2 binding is already a branch; compact first".to_owned());
        }
        self.stage = R2BranchStage::Write;
        Ok(R2OverlayPointer { parent_bucket: self.parent.uri.as_str().to_owned() })
    }

    /// The pointer was written, or one was there already.
    pub fn pointer_written(&mut self, written: bool) -> (next: Result<(), String>)
        requires
            old(self).stage == R2BranchStage::Write,
        ensures
            final(self).parent == old(self).parent,
            next is Ok <==> written,
            next is Err ==> final(self).stage == old(self).stage,
            next is Ok ==> final(self).stage == R2BranchStage::Done,
            next matches Err(message) ==> message@
                == "R2 overlay pointer already exists on child prefix"@,
    {
        if !written {
            return Err("R2 overlay pointer already exists on child prefix".to_owned());
        }
        self.stage = R2BranchStage::Done;
        Ok(())
    }

    /// The answer to a branch that is done.
    pub fn reply(self, duration_ms: u64) -> (reply: R2BranchOk)
        requires
            self.stage == R2BranchStage::Done,
        ensures
            reply.parent_bucket == self.parent.uri,
            reply.duration_ms == duration_ms,
    {
        R2BranchOk { parent_bucket: self.parent.uri, duration_ms }
    }
}

/// A binding is branched from a parent that a cell could be branched from, and from
/// no other.
pub proof fn law_binding_begins_with_a_valid_parent(
    parent_bucket: &str,
    project_id: &str,
    branching: Result<R2Branching, String>,
    parent: Result<ValidatedParentBucket, String>,
)
    requires
        call_ensures(R2Branching::begin, (parent_bucket, project_id), branching),
        call_ensures(
            cell_branch::validate_parent_bucket,
            (parent_bucket, project_id),
            parent,
        ),
    ensures
        branching is Ok <==> parent is Ok,
        branching matches Ok(branching) ==> branching.stage is ReadChild && branching.parent.uri@
            == parent_bucket@ && branching.parent.key_prefix@ == parent->Ok_0.key_prefix@,
        branching matches Err(message) ==> message@ == parent->Err_0@,
{
}

/// The pointer of a binding is written once, after neither it nor its parent was
/// found to be a branch, and names the parent; what is answered names it too.
pub proof fn law_pointer_is_written_once(
    child: &mut R2Branching,
    found: bool,
    next: Result<(), String>,
    parent: &mut R2Branching,
    branched: bool,
    pointer: Result<R2OverlayPointer, String>,
    writing: &mut R2Branching,
    written: bool,
    done: Result<(), String>,
    over: R2Branching,
    duration_ms: u64,
    reply: R2BranchOk,
)
    requires
        call_ensures(R2Branching::child_read, (child, found), next),
        call_ensures(R2Branching::parent_read, (parent, branched), pointer),
        call_ensures(R2Branching::pointer_written, (writing, written), done),
        call_ensures(R2Branching::reply, (over, duration_ms), reply),
    ensures
        next is Err <==> found,
        next is Ok ==> final(child).stage is ReadParent,
        next is Err ==> final(child).stage == old(child).stage,
        pointer is Err <==> branched,
        pointer matches Ok(pointer) ==> pointer.parent_bucket@ == old(parent).parent.uri@ && final(parent).stage is Write,
        pointer is Err ==> final(parent).stage == old(parent).stage,
        done is Ok <==> written,
        done is Ok ==> final(writing).stage is Done,
        done is Err ==> final(writing).stage == old(writing).stage,
        final(child).parent == old(child).parent,
        final(parent).parent == old(parent).parent,
        final(writing).parent == old(writing).parent,
        reply.parent_bucket@ == over.parent.uri@,
        reply.duration_ms == duration_ms,
{
}

/// A refused branch is told which pointer was in its way.
pub proof fn law_refused_branch_names_the_pointer(
    child: &mut R2Branching,
    found: bool,
    next: Result<(), String>,
    parent: &mut R2Branching,
    branched: bool,
    pointer: Result<R2OverlayPointer, String>,
    writing: &mut R2Branching,
    written: bool,
    done: Result<(), String>,
)
    requires
        call_ensures(R2Branching::child_read, (child, found), next),
        call_ensures(R2Branching::parent_read, (parent, branched), pointer),
        call_ensures(R2Branching::pointer_written, (writing, written), done),
    ensures
        next matches Err(message) ==> message@
            == "child R2 binding already has base.json; compact first"@,
        pointer matches Err(message) ==> message@
            == "parent R2 binding is already a branch; compact first"@,
        done matches Err(message) ==> message@
            == "R2 overlay pointer already exists on child prefix"@,
{
}

} // verus!
