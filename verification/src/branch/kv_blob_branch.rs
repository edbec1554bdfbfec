//! Reading a large KV value of a branched cell: from the child, or else from
//! the parent.

use vstd::prelude::*;
use crate::branch::cell_branch;
use crate::branch::cell_branch::ValidatedParentBucket;
use crate::ltx::base::BasePointer;
use crate::text;

verus! {

/// Where the parent's bucket is reached: the first of two settings that is
/// there, unless it is empty.
pub fn parent_endpoint(s3_endpoint: Option<String>, aws_endpoint: Option<String>) -> (endpoint: Option<
    String,
>)
    ensures
        ({
            let set = match s3_endpoint {
                Some(_) => s3_endpoint,
                None => aws_endpoint,
            };
            endpoint == match set {
                Some(value) => if value@.len() > 0 {
                    Some(value)
                } else {
                    None
                },
                None => None,
            }
        }),
{
    let set = match s3_endpoint {
        Some(value) => Some(value),
        None => aws_endpoint,
    };
    match set {
        Some(value) => {
            if text::chars_of(value.as_str()).len() > 0 {
                Some(value)
            } else {
                None
            }
        },
        None => None,
    }
}

/// The region of the parent's bucket: the first of two settings, or else
/// `us-east-1`.
pub fn parent_region(region: Option<String>, default_region: Option<String>) -> (chosen: String)
    ensures
        chosen@ == match region {
            Some(region) => region@,
            None => match default_region {
                Some(region) => region@,
                None => "us-east-1"@,
            },
        },
{
    match region {
        Some(region) => region,
        None => match default_region {
            Some(region) => region,
            None => "us-east-1".to_owned(),
        },
    }
}

/// Where a value that the child does not hold may be.
#[derive(Debug)]
pub enum BlobFallback {
    /// Nowhere: the cell is no branch.
    Missing,
    /// In the parent's bucket.
    Parent(ValidatedParentBucket),
}

/// What keeps the parent's bucket from being read.
pub open spec fn fallback_refusal(
    cell: Seq<char>,
    base: BasePointer,
    project_id: Result<String, String>,
) -> Option<Seq<char>> {
    if base.parent_cell@ != cell {
        Some(cell_mismatch(text::debug_quoted(base.parent_cell@), cell))
    } else {
        match project_id {
            Err(message) => Some(message@),
            Ok(project_id) => match cell_branch::parent_parts(base.parent_bucket@) {
                None => Some(cell_branch::bad_address()),
                Some((_, project, _)) => if project == project_id@ {
                    None
                } else {
                    Some(cell_branch::other_project(project, project_id@))
                },
            },
        }
    }
}

/// The message for a pointer to another cell, from that cell's quoted form.
pub open spec fn cell_mismatch(quoted: Seq<char>, cell: Seq<char>) -> Seq<char> {
    "branch parent_cell "@ + quoted + " does not match "@ + cell
}

/// The message for a pointer to another cell, from that cell's quoted form.
pub fn cell_mismatch_text(quoted: &str, cell: &str) -> (message: String)
    ensures
        message@ == cell_mismatch(quoted@, cell@),
{
    let mut message = "branch parent_cell ".to_owned();
    message.append(quoted);
    message.append(" does not match ");
    message.append(cell);
    message
}

/// Where a value may be that the child does not hold.
pub fn blob_fallback(cell: &str, base: Option<BasePointer>, project_id: Result<String, String>) -> (
fallback: Result<BlobFallback, String>)
    ensures
        match base {
            None => fallback matches Ok(place) && place is Missing,
            Some(base) => match fallback_refusal(cell@, base, project_id) {
                Some(message) => fallback matches Err(told) && told@ == message,
                None => fallback matches Ok(place) && (place matches BlobFallback::Parent(parent)
                    && cell_branch::parent_at(parent, base.parent_bucket@)),
            },
        },
{
    let base = match base {
        Some(base) => base,
        None => return Ok(BlobFallback::Missing),
    };
    if !text::same(base.parent_cell.as_str(), cell) {
        let quoted = text::debug_text(base.parent_cell.as_str());
        return Err(cell_mismatch_text(quoted.as_str(), cell));
    }
    let project_id = match project_id {
        Ok(project_id) => project_id,
        Err(message) => return Err(message),
    };
    match cell_branch::validate_parent_bucket(base.parent_bucket.as_str(), project_id.as_str()) {
        Ok(parent) => Ok(BlobFallback::Parent(parent)),
        Err(message) => Err(message),
    }
}

/// The first setting that is there decides where the parent is reached, and an empty
/// one says nowhere; the region is the first that is there, or `us-east-1`.
pub proof fn law_first_setting_decides(
    s3_endpoint: Option<String>,
    aws_endpoint: Option<String>,
    endpoint: Option<String>,
    region: Option<String>,
    default_region: Option<String>,
    chosen: String,
)
    requires
        call_ensures(parent_endpoint, (s3_endpoint, aws_endpoint), endpoint),
        call_ensures(parent_region, (region, default_region), chosen),
    ensures
        s3_endpoint matches Some(set) ==> (endpoint is Some <==> set@.len() > 0) && (
        endpoint matches Some(endpoint) ==> endpoint@ == set@),
        s3_endpoint is None ==> (aws_endpoint matches Some(set) ==> (endpoint is Some <==> set@.len()
            > 0) && (endpoint matches Some(endpoint) ==> endpoint@ == set@)),
        s3_endpoint is None && aws_endpoint is None ==> endpoint is None,
        region matches Some(region) ==> chosen@ == region@,
        region is None ==> (default_region matches Some(region) ==> chosen@ == region@),
        region is None && default_region is None ==> chosen@ == "us-east-1"@,
{
}

/// A value is looked for in the parent's bucket exactly where the cell is a branch of
/// the same cell in a bucket of the node's project; without a pointer it is missing.
pub proof fn law_value_falls_back_to_the_parent(
    cell: &str,
    pointer: Option<BasePointer>,
    project_id: Result<String, String>,
    fallback: Result<BlobFallback, String>,
    uri: &str,
    id: &str,
    parent: Result<ValidatedParentBucket, String>,
)
    requires
        call_ensures(blob_fallback, (cell, pointer, project_id), fallback),
        pointer matches Some(pointer) ==> uri@ == pointer.parent_bucket@,
        project_id matches Ok(project_id) ==> id@ == project_id@,
        call_ensures(cell_branch::validate_parent_bucket, (uri, id), parent),
    ensures
        (fallback matches Ok(BlobFallback::Missing)) <==> pointer is None,
        (fallback matches Ok(BlobFallback::Parent(_))) <==> pointer is Some
            && pointer->0.parent_cell@ == cell@ && project_id is Ok && parent is Ok,
        fallback matches Ok(BlobFallback::Parent(found)) ==> found.uri@
            == pointer->0.parent_bucket@ && found.key_prefix@ == parent->Ok_0.key_prefix@,
{
}

/// A pointer to another cell is told with both cells.
pub proof fn law_foreign_parent_is_named(quoted: &str, cell: &str, message: String)
    requires
        call_ensures(cell_mismatch_text, (quoted, cell), message),
    ensures
        message@ == "branch parent_cell "@ + quoted@ + " does not match "@ + cell@,
{
}

} // verus!
