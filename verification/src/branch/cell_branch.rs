//! The checks before a cell is branched from its parent's bucket.

use vstd::prelude::*;
use crate::text;

verus! {

/// A parent bucket that belongs to the project.
#[derive(Debug)]
pub struct ValidatedParentBucket {
    pub uri: String,
    /// The key prefix of the parent's version, with a slash at its end.
    pub key_prefix: String,
}

/// What a caller asks for.
#[derive(Debug)]
pub struct BranchRequest {
    pub parent_bucket: String,
    /// The parent's epoch, or 0 for its newest one.
    pub parent_epoch: u64,
}

/// What the node knows when a branch is asked for.
#[derive(Debug)]
pub struct NodeFacts {
    /// Whether the node replicates; if not, what to answer.
    pub replication: Result<(), String>,
    /// The epoch at which the cell is active.
    pub epoch: Option<u64>,
    /// The node's project; if it has none, what to answer.
    pub project_id: Result<String, String>,
    /// Where the cell's database is.
    pub db_path: String,
}

/// A branch whose checks have passed.
#[derive(Debug)]
pub struct PreparedBranch {
    pub scope: String,
    pub epoch: u64,
    pub parent: ValidatedParentBucket,
    pub parent_epoch: u64,
}

/// How to open the cell again afterwards.
#[derive(Debug)]
pub struct ReopenSpec {
    pub scope: String,
    pub db_path: String,
    pub epoch: u64,
    pub sqlite_vec: bool,
}

/// What a branch did.
#[derive(Clone, Copy, Debug, PartialEq, Eq, Structural)]
pub struct BranchResult {
    pub fork_txid: u64,
    pub bytes_parent: u64,
}

/// What a finished branch is answered with.
#[derive(Debug)]
pub struct BranchOk {
    pub fork_txid: u64,
    pub parent_bucket: String,
    pub bytes_parent: u64,
    pub duration_ms: u64,
}

/// Why a branch was refused or failed.
#[derive(Debug)]
pub struct BranchFailure {
    pub message: String,
}

/// The bucket, the project and the version of a `s3://bucket/project/version`
/// address.
pub open spec fn parent_parts(uri: Seq<char>) -> Option<(Seq<char>, Seq<char>, Seq<char>)> {
    let rest = text::without_prefix(uri, "s3://"@);
    let bucket_end = text::first_at(rest, '/', 0);
    let project_end = text::first_at(rest, '/', bucket_end + 1);
    let version_end = text::first_at(rest, '/', project_end + 1);
    if text::has_prefix(uri, "s3://"@) && 0 < bucket_end && bucket_end + 1 < project_end
        && project_end + 1 < rest.len() && version_end == rest.len() {
        Some(
            (
                rest.subrange(0, bucket_end),
                rest.subrange(bucket_end + 1, project_end),
                rest.subrange(project_end + 1, rest.len() as int),
            ),
        )
    } else {
        None
    }
}

/// Is this the parent at an address, with the prefix of its keys?
pub open spec fn parent_at(parent: ValidatedParentBucket, uri: Seq<char>) -> bool {
    let (_, project, version) = parent_parts(uri)->0;
    parent.uri@ == uri && parent.key_prefix@ == project + "/"@ + version + "/"@
}

/// The message for an address that is not of that form.
pub open spec fn bad_address() -> Seq<char> {
    "parent_bucket must be s3://<bucket>/<project>/<version>"@
}

/// The message for a parent of another project.
pub open spec fn other_project(found: Seq<char>, project_id: Seq<char>) -> Seq<char> {
    "parent_bucket project "@ + found + " does not match "@ + project_id
}

/// Is `uri` a version bucket of the project?
pub fn validate_parent_bucket(uri: &str, project_id: &str) -> (parent: Result<
    ValidatedParentBucket,
    String,
>)
    ensures
        match parent_parts(uri@) {
            None => parent matches Err(message) && message@ == bad_address(),
            Some((_, project, _)) => if project == project_id@ {
                parent matches Ok(parent) && parent_at(parent, uri@)
            } else {
                parent matches Err(message) && message@ == other_project(project, project_id@)
            },
        },
{
    let rest = match text::strip_prefix(uri, "s3://") {
        Some(rest) => rest,
        None => return Err(
            "parent_bucket must be s3://<bucket>/<project>/<version>".to_owned(),
        ),
    };
    let chars = text::chars_of(rest.as_str());
    let total: usize = chars.len();
    let bucket_end = text::find_char(&chars, '/', 0);
    if bucket_end == 0 || bucket_end == total {
        proof {
            text::lemma_first_at(chars@, '/', bucket_end as int);
        }
        return Err("parent_bucket must be s3://<bucket>/<project>/<version>".to_owned());
    }
    let project_end = text::find_char(&chars, '/', bucket_end + 1);
    if project_end == bucket_end + 1 || project_end == total || project_end + 1 == total {
        return Err("parent_bucket must be s3://<bucket>/<project>/<version>".to_owned());
    }
    let version_end = text::find_char(&chars, '/', project_end + 1);
    if version_end != total {
        return Err("parent_bucket must be s3://<bucket>/<project>/<version>".to_owned());
    }
    let project = text::slice_text(&chars, bucket_end + 1, project_end);
    let version = text::slice_text(&chars, project_end + 1, total);
    if !text::same(project.as_str(), project_id) {
        let mut message = "parent_bucket project ".to_owned();
        message.append(project.as_str());
        message.append(" does not match ");
        message.append(project_id);
        return Err(message);
    }
    let mut key_prefix = project;
    key_prefix.append("/");
    key_prefix.append(version.as_str());
    key_prefix.append("/");
    Ok(ValidatedParentBucket { uri: uri.to_owned(), key_prefix })
}

/// The message for a cell that has no open database.
pub open spec fn no_database(scope: Seq<char>) -> Seq<char> {
    "no active database for "@ + scope
}

/// The first thing that keeps a branch from being prepared.
pub open spec fn prepare_refusal(
    scope: Seq<char>,
    request: BranchRequest,
    facts: NodeFacts,
) -> Option<Seq<char>> {
    match facts.replication {
        Err(message) => Some(message@),
        Ok(_) => match facts.epoch {
            None => Some(no_database(scope)),
            Some(_) => match facts.project_id {
                Err(message) => Some(message@),
                Ok(project_id) => match parent_parts(request.parent_bucket@) {
                    None => Some(bad_address()),
                    Some((_, project, _)) => if project == project_id@ {
                        None
                    } else {
                        Some(other_project(project, project_id@))
                    },
                },
            },
        },
    }
}

/// Check a branch before the cell's database is closed for it.
pub fn prepare(scope: &str, request: BranchRequest, sqlite_vec: bool, facts: NodeFacts) -> (prepared:
    Result<(PreparedBranch, ReopenSpec), BranchFailure>)
    ensures
        match prepare_refusal(scope@, request, facts) {
            Some(message) => prepared matches Err(failure) && failure.message@ == message,
            None => prepared matches Ok((branch, reopen)) && branch_prepared_from(
                branch,
                reopen,
                scope@,
                request,
                sqlite_vec,
                facts,
            ),
        },
{
    match facts.replication {
        Err(message) => return Err(BranchFailure { message }),
        Ok(()) => {},
    }
    let epoch = match facts.epoch {
        Some(epoch) => epoch,
        None => {
            let mut message = "no active database for ".to_owned();
            message.append(scope);
            return Err(BranchFailure { message });
        },
    };
    let project_id = match facts.project_id {
        Ok(project_id) => project_id,
        Err(message) => return Err(BranchFailure { message }),
    };
    let parent = match validate_parent_bucket(
        request.parent_bucket.as_str(),
        project_id.as_str(),
    ) {
        Ok(parent) => parent,
        Err(message) => return Err(BranchFailure { message }),
    };
    Ok(
        (
            PreparedBranch {
                scope: scope.to_owned(),
                epoch,
                parent,
                parent_epoch: request.parent_epoch,
            },
            ReopenSpec { scope: scope.to_owned(), db_path: facts.db_path, epoch, sqlite_vec },
        ),
    )
}

/// What a prepared branch and its reopening hold.
pub open spec fn branch_prepared_from(
    branch: PreparedBranch,
    reopen: ReopenSpec,
    scope: Seq<char>,
    request: BranchRequest,
    sqlite_vec: bool,
    facts: NodeFacts,
) -> bool {
    &&& branch.scope@ == scope
    &&& facts.epoch == Some(branch.epoch)
    &&& parent_at(branch.parent, request.parent_bucket@)
    &&& branch.parent_epoch == request.parent_epoch
    &&& reopen.scope@ == scope
    &&& reopen.db_path == facts.db_path
    &&& reopen.epoch == branch.epoch
    &&& reopen.sqlite_vec == sqlite_vec
}

/// A valid parent lies under its project's prefix, and nowhere else.
pub proof fn law_parent_lies_in_its_project(uri: Seq<char>)
    requires
        parent_parts(uri) is Some,
    ensures
        ({
            let (bucket, project, version) = parent_parts(uri)->0;
            &&& uri == "s3://"@ + bucket + "/"@ + project + "/"@ + version
            &&& bucket.len() > 0
            &&& project.len() > 0
            &&& version.len() > 0
            &&& !bucket.contains('/')
            &&& !project.contains('/')
            &&& !version.contains('/')
        }),
{
    let rest = text::without_prefix(uri, "s3://"@);
    let bucket_end = text::first_at(rest, '/', 0);
    text::lemma_first_at(rest, '/', 0);
    let project_end = text::first_at(rest, '/', bucket_end + 1);
    text::lemma_first_at(rest, '/', bucket_end + 1);
    text::lemma_first_at(rest, '/', project_end + 1);
    let (bucket, project, version) = parent_parts(uri)->0;
    reveal_strlit("/");
    assert(uri =~= "s3://"@ + rest);
    assert(rest =~= bucket + "/"@ + project + "/"@ + version);
    assert(uri =~= "s3://"@ + bucket + "/"@ + project + "/"@ + version);
}

/// An address that is made of its three parts is read as them.
pub(crate) proof fn lemma_parent_parts(
    uri: Seq<char>,
    bucket: Seq<char>,
    project: Seq<char>,
    version: Seq<char>,
)
    requires
        uri == "s3://"@ + bucket + "/"@ + project + "/"@ + version,
        bucket.len() > 0 && project.len() > 0 && version.len() > 0,
        !bucket.contains('/') && !project.contains('/') && !version.contains('/'),
    ensures
        parent_parts(uri) == Some((bucket, project, version)),
{
    reveal_strlit("s3://");
    reveal_strlit("/");
    assert(uri.subrange(0, 5) =~= "s3://"@);
    let rest = bucket + "/"@ + project + "/"@ + version;
    assert(text::without_prefix(uri, "s3://"@) =~= rest);
    let one = bucket.len() as int;
    let two = one + 1 + project.len();
    text::lemma_first_at(rest, '/', 0);
    assert(rest[one] == '/');
    if text::first_at(rest, '/', 0) < one {
        assert(bucket.contains(bucket[text::first_at(rest, '/', 0)]));
    }
    text::lemma_first_at(rest, '/', one + 1);
    assert(rest[two] == '/');
    if text::first_at(rest, '/', one + 1) < two {
        assert(project.contains(project[text::first_at(rest, '/', one + 1) - one - 1]));
    }
    text::lemma_first_at(rest, '/', two + 1);
    if text::first_at(rest, '/', two + 1) < rest.len() {
        assert(version.contains(version[text::first_at(rest, '/', two + 1) - two - 1]));
    }
    assert(rest.subrange(0, one) =~= bucket);
    assert(rest.subrange(one + 1, two) =~= project);
    assert(rest.subrange(two + 1, rest.len() as int) =~= version);
}

/// A parent is a bucket, a project and a version, none of them empty, and only one
/// of the node's own project is taken, with its project and version as the prefix of
/// its keys. Nothing else is a parent.
pub proof fn law_only_versions_of_the_project_are_parents(
    uri: &str,
    project_id: &str,
    parent: Result<ValidatedParentBucket, String>,
    bucket: Seq<char>,
    project: Seq<char>,
    version: Seq<char>,
)
    requires
        call_ensures(validate_parent_bucket, (uri, project_id), parent),
        bucket.len() > 0 && project.len() > 0 && version.len() > 0,
        !bucket.contains('/') && !project.contains('/') && !version.contains('/'),
    ensures
        uri@ == "s3://"@ + bucket + "/"@ + project + "/"@ + version ==> (parent is Ok <==> project
            == project_id@) && (parent matches Ok(parent) ==> parent.uri@ == uri@
            && parent.key_prefix@ == project + "/"@ + version + "/"@),
        parent is Ok ==> exists|bucket: Seq<char>, version: Seq<char>|
            bucket.len() > 0 && version.len() > 0 && !bucket.contains('/') && !version.contains('/')
                && uri@ == #[trigger] ("s3://"@ + bucket + "/"@ + project_id@ + "/"@ + version),
{
    if uri@ == "s3://"@ + bucket + "/"@ + project + "/"@ + version {
        lemma_parent_parts(uri@, bucket, project, version);
    }
    if parent is Ok {
        law_parent_lies_in_its_project(uri@);
        let (bucket, project, version) = parent_parts(uri@)->0;
        assert(uri@ == "s3://"@ + bucket + "/"@ + project_id@ + "/"@ + version);
    }
}

/// A branch is prepared exactly where the node replicates, the cell is active, the
/// node has a project and the parent belongs to it; with the epoch at which the cell
/// is active, the parent's epoch that was asked for, and all that the cell is opened
/// with again.
pub proof fn law_branch_is_prepared_for_an_active_cell(
    scope: &str,
    request: BranchRequest,
    sqlite_vec: bool,
    facts: NodeFacts,
    prepared: Result<(PreparedBranch, ReopenSpec), BranchFailure>,
    uri: &str,
    id: &str,
    parent: Result<ValidatedParentBucket, String>,
)
    requires
        call_ensures(prepare, (scope, request, sqlite_vec, facts), prepared),
        uri@ == request.parent_bucket@,
        facts.project_id matches Ok(project_id) ==> id@ == project_id@,
        call_ensures(validate_parent_bucket, (uri, id), parent),
    ensures
        prepared is Ok <==> facts.replication is Ok && facts.epoch is Some && facts.project_id is Ok
            && parent is Ok,
        prepared matches Ok((branch, reopen)) ==> {
            &&& branch.scope@ == scope@ && reopen.scope@ == scope@
            &&& Some(branch.epoch) == facts.epoch && Some(reopen.epoch) == facts.epoch
            &&& branch.parent.uri@ == request.parent_bucket@
            &&& branch.parent.key_prefix@ == parent->Ok_0.key_prefix@
            &&& branch.parent_epoch == request.parent_epoch
            &&& reopen.db_path@ == facts.db_path@
            &&& reopen.sqlite_vec == sqlite_vec
        },
        facts.replication matches Err(message) ==> prepared->Err_0.message@ == message@,
{
}

/// A refused parent is told by the form that it should have or by its project, and a
/// cell without a database by its name.
pub proof fn law_refused_parent_names_its_reason(
    uri: &str,
    project_id: &str,
    parent: Result<ValidatedParentBucket, String>,
    bucket: Seq<char>,
    project: Seq<char>,
    version: Seq<char>,
    scope: &str,
    request: BranchRequest,
    facts: NodeFacts,
    prepared: Result<(PreparedBranch, ReopenSpec), BranchFailure>,
)
    requires
        call_ensures(validate_parent_bucket, (uri, project_id), parent),
        bucket.len() > 0 && project.len() > 0 && version.len() > 0,
        !bucket.contains('/') && !project.contains('/') && !version.contains('/'),
        call_ensures(prepare, (scope, request, false, facts), prepared),
    ensures
        parent is Err ==> (parent->Err_0@
            == "parent_bucket must be s3://<bucket>/<project>/<version>"@ || exists|
            found: Seq<char>,
        |
            parent->Err_0@ == #[trigger] ("parent_bucket project "@ + found + " does not match "@
                + project_id@)),
        parent is Err && uri@ == "s3://"@ + bucket + "/"@ + project + "/"@ + version
            ==> parent->Err_0@ == "parent_bucket project "@ + project + " does not match "@
            + project_id@,
        facts.replication is Ok && facts.epoch is None ==> prepared->Err_0.message@
            == "no active database for "@ + scope@,
        facts.replication is Ok && facts.epoch is Some && facts.project_id is Err
            ==> prepared->Err_0.message@ == facts.project_id->Err_0@,
{
    if uri@ == "s3://"@ + bucket + "/"@ + project + "/"@ + version {
        lemma_parent_parts(uri@, bucket, project, version);
    }
    if parent is Err {
        if let Some((_, found, _)) = parent_parts(uri@) {
            assert(parent->Err_0@ == "parent_bucket project "@ + found + " does not match "@
                + project_id@);
        }
    }
}

} // verus!
