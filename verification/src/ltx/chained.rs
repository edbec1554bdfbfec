//! A branched replica: the parent's files up to the fork, the child's above it.

use vstd::prelude::*;
use crate::ltx::base::{Error, TXID};
use crate::ltx::client::{FileInfo, ReplicaClient};
use crate::text;

verus! {

/// Reads the parent up to `fork_txid` and the child above it, and writes only
/// to the child.
#[derive(Debug)]
pub struct ChainedReplicaClient<P, C> {
    pub parent: P,
    pub child: C,
    pub fork_txid: TXID,
}

/// Do two files cover the same transactions at the same level?
pub open spec fn same_file(left: FileInfo, right: FileInfo) -> bool {
    left.level == right.level && left.min_txid == right.min_txid && left.max_txid == right.max_txid
}

/// Does `left` stand before `right` in a listing: by level, then by the first
/// transaction, then by the last?
pub open spec fn file_before(left: FileInfo, right: FileInfo) -> bool {
    ||| left.level < right.level
    ||| left.level == right.level && left.min_txid.0 < right.min_txid.0
    ||| left.level == right.level && left.min_txid == right.min_txid && left.max_txid.0
        < right.max_txid.0
}

/// Is a listing in order, with no file twice?
pub open spec fn listing_in_order(files: Seq<FileInfo>) -> bool {
    forall|i: int, j: int|
        0 <= i < j < files.len() ==> file_before(#[trigger] files[i], #[trigger] files[j])
}

/// Is `info` the first of `files` that covers its transactions?
pub open spec fn first_of_its_kind(files: Seq<FileInfo>, info: FileInfo) -> bool {
    exists|i: int|
        0 <= i < files.len() && #[trigger] files[i] == info && forall|j: int|
            0 <= j < i ==> !same_file(#[trigger] files[j], info)
}

/// Is there a file in `merged` that covers the transactions of `info`?
pub open spec fn listed(merged: Seq<FileInfo>, info: FileInfo) -> bool {
    exists|k: int| 0 <= k < merged.len() && same_file(#[trigger] merged[k], info)
}

/// Does `merged` list each file of `files` once, as it first occurs there, in
/// order?
pub open spec fn merge_of(files: Seq<FileInfo>, merged: Seq<FileInfo>) -> bool {
    &&& listing_in_order(merged)
    &&& forall|k: int| 0 <= k < merged.len() ==> first_of_its_kind(files, #[trigger] merged[k])
    &&& forall|i: int| 0 <= i < files.len() ==> #[trigger] listed(merged, files[i])
}

fn precedes(left: &FileInfo, right: &FileInfo) -> (before: bool)
    ensures
        before == file_before(*left, *right),
{
    if left.level != right.level {
        left.level < right.level
    } else if left.min_txid.0 != right.min_txid.0 {
        left.min_txid.0 < right.min_txid.0
    } else {
        left.max_txid.0 < right.max_txid.0
    }
}

/// Enter `info` where it belongs, unless the listing has its transactions.
fn enter(merged: &mut Vec<FileInfo>, info: FileInfo)
    requires
        listing_in_order(old(merged)@),
    ensures
        listing_in_order(final(merged)@),
        listed(final(merged)@, info),
        forall|k: int|
            0 <= k < old(merged)@.len() ==> final(merged)@.contains(#[trigger] old(merged)@[k]),
        forall|k: int|
            0 <= k < final(merged)@.len() ==> old(merged)@.contains(#[trigger] final(merged)@[k])
                || final(merged)@[k] == info && forall|j: int|
                0 <= j < old(merged)@.len() ==> !same_file(#[trigger] old(merged)@[j], info),
{
    let ghost before = merged@;
    let mut at: usize = 0;
    while at < merged.len() && precedes(&merged[at], &info)
        invariant
            at <= merged@.len(),
            merged@ == before,
            listing_in_order(before),
            forall|i: int| 0 <= i < at ==> file_before(#[trigger] before[i], info),
        decreases merged@.len() - at,
    {
        at = at + 1;
    }
    if at < merged.len() && !precedes(&info, &merged[at]) {
        assert(same_file(merged@[at as int], info));
        return ;
    }
    merged.insert(at, info);
    proof {
        assert(merged@ =~= before.insert(at as int, info));
        assert(merged@[at as int] == info);
        assert forall|i: int, j: int| 0 <= i < j < merged@.len() implies file_before(
            #[trigger] merged@[i],
            #[trigger] merged@[j],
        ) by {
            let oi = if i > at { i - 1 } else { i };
            let oj = if j > at { j - 1 } else { j };
            if i != at {
                assert(merged@[i] == before[oi]);
            }
            if j != at {
                assert(merged@[j] == before[oj]);
            }
            if j > at {
                assert(file_before(info, before[at as int]));
                assert(at < oj ==> file_before(before[at as int], before[oj]));
            }
        }
        assert forall|k: int| 0 <= k < before.len() implies merged@.contains(
            #[trigger] before[k],
        ) by {
            let place = if k >= at { k + 1 } else { k };
            assert(merged@[place] == before[k]);
        }
        assert forall|k: int| 0 <= k < merged@.len() && k != at implies before.contains(
            #[trigger] merged@[k],
        ) by {
            let place = if k > at { k - 1 } else { k };
            assert(before[place] == merged@[k]);
        }
        assert forall|j: int| 0 <= j < before.len() implies !same_file(
            #[trigger] before[j],
            info,
        ) by {
            if j > at {
                assert(file_before(before[at as int], before[j]));
            }
        }
    }
}

/// Merge two listings. Where both have a file, the first one's is taken.
pub fn merge_ltx_files(parent_files: &Vec<FileInfo>, child_files: &Vec<FileInfo>) -> (merged: Vec<
    FileInfo,
>)
    ensures
        merge_of(parent_files@ + child_files@, merged@),
{
    let mut all: Vec<FileInfo> = Vec::new();
    let mut at: usize = 0;
    while at < parent_files.len()
        invariant
            at <= parent_files@.len(),
            all@ == parent_files@.take(at as int),
        decreases parent_files@.len() - at,
    {
        all.push(parent_files[at]);
        assert(all@ =~= parent_files@.take(at + 1));
        at = at + 1;
    }
    at = 0;
    while at < child_files.len()
        invariant
            at <= child_files@.len(),
            all@ == parent_files@ + child_files@.take(at as int),
        decreases child_files@.len() - at,
    {
        all.push(child_files[at]);
        assert(all@ =~= parent_files@ + child_files@.take(at + 1));
        at = at + 1;
    }
    assert(all@ =~= parent_files@ + child_files@);
    let mut merged: Vec<FileInfo> = Vec::new();
    at = 0;
    while at < all.len()
        invariant
            at <= all@.len(),
            merge_of(all@.take(at as int), merged@),
        decreases all@.len() - at,
    {
        let ghost before = merged@;
        enter(&mut merged, all[at]);
        proof {
            lemma_merge_step(all@, at as int, before, merged@);
        }
        at = at + 1;
    }
    assert(all@.take(at as int) =~= all@);
    merged
}

proof fn lemma_merge_step(all: Seq<FileInfo>, at: int, before: Seq<FileInfo>, after: Seq<FileInfo>)
    requires
        0 <= at < all.len(),
        merge_of(all.take(at), before),
        listing_in_order(after),
        listed(after, all[at]),
        forall|k: int| 0 <= k < before.len() ==> after.contains(#[trigger] before[k]),
        forall|k: int|
            0 <= k < after.len() ==> before.contains(#[trigger] after[k]) || after[k] == all[at]
                && forall|j: int|
                0 <= j < before.len() ==> !same_file(#[trigger] before[j], all[at]),
    ensures
        merge_of(all.take(at + 1), after),
{
    let earlier = all.take(at);
    let now = all.take(at + 1);
    assert forall|k: int| 0 <= k < after.len() implies first_of_its_kind(
        now,
        #[trigger] after[k],
    ) by {
        let info = after[k];
        if before.contains(info) {
            let b = choose|b: int| 0 <= b < before.len() && before[b] == info;
            assert(first_of_its_kind(earlier, before[b]));
            let i = choose|i: int|
                0 <= i < earlier.len() && #[trigger] earlier[i] == info && forall|j: int|
                    0 <= j < i ==> !same_file(#[trigger] earlier[j], info);
            assert(now[i] == info);
            assert forall|j: int| 0 <= j < i implies !same_file(#[trigger] now[j], info) by {
                assert(now[j] == earlier[j]);
            }
        } else {
            assert(now[at] == info);
            assert forall|j: int| 0 <= j < at implies !same_file(#[trigger] now[j], info) by {
                assert(now[j] == earlier[j]);
                assert(listed(before, earlier[j]));
                let b = choose|b: int|
                    0 <= b < before.len() && same_file(#[trigger] before[b], earlier[j]);
                assert(same_file(before[b], earlier[j]));
                assert(!same_file(before[b], info));
            }
        }
    }
    assert forall|i: int| 0 <= i < now.len() implies #[trigger] listed(after, now[i]) by {
        if i < at {
            assert(now[i] == earlier[i]);
            assert(listed(before, earlier[i]));
            let b = choose|b: int|
                0 <= b < before.len() && same_file(#[trigger] before[b], earlier[i]);
            assert(after.contains(before[b]));
            let k = choose|k: int| 0 <= k < after.len() && after[k] == before[b];
            assert(same_file(after[k], now[i]));
        } else {
            assert(now[i] == all[at]);
        }
    }
}

/// The parent's files that end at or before the fork.
pub open spec fn parent_part(files: Seq<FileInfo>, fork_txid: TXID) -> Seq<FileInfo> {
    files.filter(|info: FileInfo| info.max_txid.0 <= fork_txid.0)
}

/// The child's files that start above the fork.
pub open spec fn child_part(files: Seq<FileInfo>, fork_txid: TXID) -> Seq<FileInfo> {
    files.filter(|info: FileInfo| info.min_txid.0 > fork_txid.0)
}

fn keep_parent_part(files: &Vec<FileInfo>, fork_txid: TXID) -> (kept: Vec<FileInfo>)
    ensures
        kept@ == parent_part(files@, fork_txid),
{
    let ghost wanted = |info: FileInfo| info.max_txid.0 <= fork_txid.0;
    let mut kept: Vec<FileInfo> = Vec::new();
    let mut at: usize = 0;
    proof {
        reveal(Seq::filter);
        assert(files@.take(0) =~= Seq::<FileInfo>::empty());
    }
    while at < files.len()
        invariant
            at <= files@.len(),
            wanted == (|info: FileInfo| info.max_txid.0 <= fork_txid.0),
            kept@ == files@.take(at as int).filter(wanted),
        decreases files@.len() - at,
    {
        proof {
            reveal(Seq::filter);
            assert(files@.take(at + 1).drop_last() =~= files@.take(at as int));
        }
        if files[at].max_txid.0 <= fork_txid.0 {
            kept.push(files[at]);
        }
        at = at + 1;
    }
    assert(files@.take(at as int) =~= files@);
    kept
}

fn keep_child_part(files: &Vec<FileInfo>, fork_txid: TXID) -> (kept: Vec<FileInfo>)
    ensures
        kept@ == child_part(files@, fork_txid),
{
    let ghost wanted = |info: FileInfo| info.min_txid.0 > fork_txid.0;
    let mut kept: Vec<FileInfo> = Vec::new();
    let mut at: usize = 0;
    proof {
        reveal(Seq::filter);
        assert(files@.take(0) =~= Seq::<FileInfo>::empty());
    }
    while at < files.len()
        invariant
            at <= files@.len(),
            wanted == (|info: FileInfo| info.min_txid.0 > fork_txid.0),
            kept@ == files@.take(at as int).filter(wanted),
        decreases files@.len() - at,
    {
        proof {
            reveal(Seq::filter);
            assert(files@.take(at + 1).drop_last() =~= files@.take(at as int));
        }
        if files[at].min_txid.0 > fork_txid.0 {
            kept.push(files[at]);
        }
        at = at + 1;
    }
    assert(files@.take(at as int) =~= files@);
    kept
}

/// The listing of a branched replica, from what its parent and its child list.
pub fn chained_listing(
    parent_files: &Vec<FileInfo>,
    child_files: &Vec<FileInfo>,
    fork_txid: TXID,
) -> (files: Vec<FileInfo>)
    ensures
        merge_of(parent_part(parent_files@, fork_txid) + child_part(child_files@, fork_txid), files@),
{
    let from_parent = keep_parent_part(parent_files, fork_txid);
    let from_child = keep_child_part(child_files, fork_txid);
    merge_ltx_files(&from_parent, &from_child)
}

/// Does a file that starts at `min_txid` belong to the child?
pub open spec fn owned_by_child(min_txid: TXID, fork_txid: TXID) -> bool {
    min_txid.0 > fork_txid.0
}

/// The message for a write at or below the fork.
pub open spec fn parent_owned(min_txid: TXID, max_txid: TXID, fork_txid: TXID) -> Seq<char> {
    "refusing parent-owned LTX write min="@ + text::dec(min_txid.0 as nat) + " max="@ + text::dec(
        max_txid.0 as nat,
    ) + " fork="@ + text::dec(fork_txid.0 as nat)
}

/// May a file be written? Only the child is written to, and only above the
/// fork.
pub fn check_write(min_txid: TXID, max_txid: TXID, fork_txid: TXID) -> (checked: Result<(), Error>)
    ensures
        checked is Ok <==> owned_by_child(min_txid, fork_txid),
        checked matches Err(error) ==> error matches Error::Other(message) && message@
            == parent_owned(min_txid, max_txid, fork_txid),
{
    if min_txid.0 > fork_txid.0 {
        return Ok(());
    }
    let mut message = "refusing parent-owned LTX write min=".to_owned();
    text::push_dec(&mut message, min_txid.0);
    message.append(" max=");
    text::push_dec(&mut message, max_txid.0);
    message.append(" fork=");
    text::push_dec(&mut message, fork_txid.0);
    Err(Error::Other(message))
}

impl<P, C> ChainedReplicaClient<P, C> {
    pub fn new(parent: P, child: C, fork_txid: TXID) -> (client: Self)
        ensures
            client.parent == parent,
            client.child == child,
            client.fork_txid == fork_txid,
    {
        ChainedReplicaClient { parent, child, fork_txid }
    }

    pub fn fork_txid(&self) -> (fork_txid: TXID)
        ensures
            fork_txid == self.fork_txid,
    {
        self.fork_txid
    }

    pub fn parent(&self) -> (parent: &P)
        ensures
            *parent == self.parent,
    {
        &self.parent
    }

    pub fn child(&self) -> (child: &C)
        ensures
            *child == self.child,
    {
        &self.child
    }
}

/// Does a file that starts at `min_txid` belong to the child?
pub fn child_owns(min_txid: TXID, fork_txid: TXID) -> (owned: bool)
    ensures
        owned == owned_by_child(min_txid, fork_txid),
{
    min_txid.0 > fork_txid.0
}

/// Where the child's listing starts when the whole listing starts at `seek`.
pub open spec fn seek_in_child(seek: TXID, fork_txid: TXID) -> TXID {
    if seek.0 > fork_txid.0 {
        seek
    } else if fork_txid.0 < u64::MAX {
        TXID((fork_txid.0 + 1) as u64)
    } else {
        fork_txid
    }
}

/// Where the child's listing starts when the whole listing starts at `seek`.
pub fn child_seek(seek: TXID, fork_txid: TXID) -> (start: TXID)
    ensures
        start == seek_in_child(seek, fork_txid),
{
    if seek.0 > fork_txid.0 {
        seek
    } else {
        TXID(fork_txid.0.saturating_add(1))
    }
}

impl<P: ReplicaClient, C: ReplicaClient> ReplicaClient for ChainedReplicaClient<P, C> {
    fn ltx_files(&self, level: i32, seek: TXID) -> (listed: Result<Vec<FileInfo>, Error>)
        ensures
            exists|from_parent: Result<Vec<FileInfo>, Error>| #[trigger]
                call_ensures(P::ltx_files, (&self.parent, level, seek), from_parent)
                    && match from_parent {
                    Err(error) => listed == Err::<Vec<FileInfo>, Error>(error),
                    Ok(parent_files) => exists|from_child: Result<Vec<FileInfo>, Error>| #[trigger]
                        call_ensures(
                            C::ltx_files,
                            (&self.child, level, seek_in_child(seek, self.fork_txid)),
                            from_child,
                        ) && match from_child {
                            Err(error) => listed == Err::<Vec<FileInfo>, Error>(error),
                            Ok(child_files) => listed matches Ok(files) && merge_of(
                                parent_part(parent_files@, self.fork_txid) + child_part(
                                    child_files@,
                                    self.fork_txid,
                                ),
                                files@,
                            ),
                        },
                },
    {
        let parent_files = match self.parent.ltx_files(level, seek) {
            Ok(files) => files,
            Err(error) => return Err(error),
        };
        let start = child_seek(seek, self.fork_txid);
        let child_files = match self.child.ltx_files(level, start) {
            Ok(files) => files,
            Err(error) => return Err(error),
        };
        Ok(chained_listing(&parent_files, &child_files, self.fork_txid))
    }

    fn open_ltx_file(&self, level: i32, min_txid: TXID, max_txid: TXID) -> (opened: Result<
        Vec<u8>,
        Error,
    >)
        ensures
            owned_by_child(min_txid, self.fork_txid) ==> call_ensures(
                C::open_ltx_file,
                (&self.child, level, min_txid, max_txid),
                opened,
            ),
            !owned_by_child(min_txid, self.fork_txid) ==> call_ensures(
                P::open_ltx_file,
                (&self.parent, level, min_txid, max_txid),
                opened,
            ),
    {
        if child_owns(min_txid, self.fork_txid) {
            self.child.open_ltx_file(level, min_txid, max_txid)
        } else {
            self.parent.open_ltx_file(level, min_txid, max_txid)
        }
    }

    fn write_ltx_file(&self, level: i32, min_txid: TXID, max_txid: TXID, data: &[u8]) -> (written:
        Result<FileInfo, Error>)
        ensures
            owned_by_child(min_txid, self.fork_txid) ==> call_ensures(
                C::write_ltx_file,
                (&self.child, level, min_txid, max_txid, data),
                written,
            ),
            !owned_by_child(min_txid, self.fork_txid) ==> (written matches Err(error)
                && (error matches Error::Other(message) && message@ == parent_owned(
                min_txid,
                max_txid,
                self.fork_txid,
            ))),
    {
        match check_write(min_txid, max_txid, self.fork_txid) {
            Ok(()) => self.child.write_ltx_file(level, min_txid, max_txid, data),
            Err(error) => Err(error),
        }
    }

    fn delete_ltx_files(&self, files: &[FileInfo]) -> (deleted: Result<(), Error>)
        ensures
            call_ensures(C::delete_ltx_files, (&self.child, files), deleted),
    {
        self.child.delete_ltx_files(files)
    }

    fn delete_all(&self) -> (deleted: Result<(), Error>)
        ensures
            call_ensures(C::delete_all, (&self.child,), deleted),
    {
        self.child.delete_all()
    }
}

/// A branched listing holds nothing of the parent above the fork and nothing
/// of the child at or below it.
pub proof fn law_listing_splits_at_the_fork(
    parent_files: Seq<FileInfo>,
    child_files: Seq<FileInfo>,
    fork_txid: TXID,
    files: Seq<FileInfo>,
    at: int,
)
    requires
        merge_of(parent_part(parent_files, fork_txid) + child_part(child_files, fork_txid), files),
        0 <= at < files.len(),
    ensures
        files[at].max_txid.0 <= fork_txid.0 && parent_files.contains(files[at])
            || files[at].min_txid.0 > fork_txid.0 && child_files.contains(files[at]),
{
    let from_parent = parent_part(parent_files, fork_txid);
    let from_child = child_part(child_files, fork_txid);
    let all = from_parent + from_child;
    let info = files[at];
    assert(first_of_its_kind(all, info));
    let i = choose|i: int|
        0 <= i < all.len() && #[trigger] all[i] == info && forall|j: int|
            0 <= j < i ==> !same_file(#[trigger] all[j], info);
    if i < from_parent.len() {
        let wanted = |info: FileInfo| info.max_txid.0 <= fork_txid.0;
        assert(from_parent[i] == info);
        parent_files.lemma_filter_contains_rev(wanted, info);
        parent_files.lemma_filter_pred(wanted, i);
    } else {
        let wanted = |info: FileInfo| info.min_txid.0 > fork_txid.0;
        let k = i - from_parent.len();
        assert(from_child[k] == info);
        child_files.lemma_filter_contains_rev(wanted, info);
        child_files.lemma_filter_pred(wanted, k);
    }
}

/// A listed file is read from where it lies: from the child where it starts
/// above the fork, from the parent otherwise.
pub proof fn law_listed_file_is_read_where_it_lies(
    parent_files: Seq<FileInfo>,
    child_files: Seq<FileInfo>,
    fork_txid: TXID,
    files: Seq<FileInfo>,
    at: int,
)
    requires
        merge_of(parent_part(parent_files, fork_txid) + child_part(child_files, fork_txid), files),
        0 <= at < files.len(),
        files[at].min_txid.0 <= files[at].max_txid.0,
    ensures
        owned_by_child(files[at].min_txid, fork_txid) ==> child_files.contains(files[at]),
        !owned_by_child(files[at].min_txid, fork_txid) ==> parent_files.contains(files[at]),
{
    law_listing_splits_at_the_fork(parent_files, child_files, fork_txid, files, at);
}

/// A file that may be written is listed once the child lists it.
pub proof fn law_written_file_is_listed(
    parent_files: Seq<FileInfo>,
    child_files: Seq<FileInfo>,
    fork_txid: TXID,
    files: Seq<FileInfo>,
    at: int,
)
    requires
        merge_of(parent_part(parent_files, fork_txid) + child_part(child_files, fork_txid), files),
        0 <= at < child_files.len(),
        owned_by_child(child_files[at].min_txid, fork_txid),
    ensures
        listed(files, child_files[at]),
{
    let wanted = |info: FileInfo| info.min_txid.0 > fork_txid.0;
    child_files.lemma_filter_contains(wanted, at);
    let from_parent = parent_part(parent_files, fork_txid);
    let from_child = child_part(child_files, fork_txid);
    let k = choose|k: int| 0 <= k < from_child.len() && from_child[k] == child_files[at];
    assert((from_parent + from_child)[from_parent.len() + k] == child_files[at]);
    assert(listed(files, (from_parent + from_child)[from_parent.len() + k]));
}

/// A merged listing is the only one there is.
pub proof fn law_merge_is_determined(files: Seq<FileInfo>, one: Seq<FileInfo>, other: Seq<FileInfo>)
    requires
        merge_of(files, one),
        merge_of(files, other),
    ensures
        one == other,
{
    lemma_merge_prefix(files, one, other, one.len() as int);
    lemma_merge_prefix(files, other, one, other.len() as int);
    assert(one.take(one.len() as int) =~= one);
    assert(other.take(other.len() as int) =~= other);
    assert(one =~= other);
}

/// Two files of one merged listing that cover the same transactions are one.
proof fn lemma_same_first(files: Seq<FileInfo>, left: FileInfo, right: FileInfo)
    requires
        first_of_its_kind(files, left),
        first_of_its_kind(files, right),
        same_file(left, right),
    ensures
        left == right,
{
    let i = choose|i: int|
        0 <= i < files.len() && #[trigger] files[i] == left && forall|j: int|
            0 <= j < i ==> !same_file(#[trigger] files[j], left);
    let k = choose|k: int|
        0 <= k < files.len() && #[trigger] files[k] == right && forall|j: int|
            0 <= j < k ==> !same_file(#[trigger] files[j], right);
    if i < k {
        assert(same_file(files[i], right));
    }
    if k < i {
        assert(same_file(files[k], left));
    }
}

proof fn lemma_merge_prefix(
    files: Seq<FileInfo>,
    one: Seq<FileInfo>,
    other: Seq<FileInfo>,
    count: int,
)
    requires
        merge_of(files, one),
        merge_of(files, other),
        0 <= count <= one.len(),
    ensures
        count <= other.len(),
        one.take(count) == other.take(count),
    decreases count,
{
    if count > 0 {
        lemma_merge_prefix(files, one, other, count - 1);
        let at = count - 1;
        assert(forall|i: int| 0 <= i < at ==> one.take(at)[i] == other.take(at)[i]);
        assert forall|i: int| 0 <= i < at implies #[trigger] one[i] == other[i] by {
            assert(one.take(at)[i] == one[i] && other.take(at)[i] == other[i]);
        }
        // Each of the two listings has the other's next file at or behind its own.
        let mine = one[at];
        lemma_has_counterpart(files, one, other, at);
        let k = choose|k: int| 0 <= k < other.len() && #[trigger] other[k] == mine;
        if k < at {
            assert(one[k] == other[k]);
            assert(file_before(one[k], one[at]));
        }
        lemma_has_counterpart(files, other, one, at);
        let m = choose|m: int| 0 <= m < one.len() && #[trigger] one[m] == other[at];
        if m < at {
            assert(one[m] == other[m]);
            assert(file_before(other[m], other[at]));
        }
        if k > at && m > at {
            assert(file_before(other[at], other[k]));
            assert(file_before(one[at], one[m]));
        }
        assert(one.take(count) =~= one.take(at).push(one[at]));
        assert(other.take(count) =~= other.take(at).push(other[at]));
    } else {
        assert(one.take(0) =~= other.take(0));
    }
}

/// A file of one merge stands in the other too.
proof fn lemma_has_counterpart(
    files: Seq<FileInfo>,
    one: Seq<FileInfo>,
    other: Seq<FileInfo>,
    at: int,
)
    requires
        merge_of(files, one),
        merge_of(files, other),
        0 <= at < one.len(),
    ensures
        exists|k: int| 0 <= k < other.len() && #[trigger] other[k] == one[at],
{
    assert(first_of_its_kind(files, one[at]));
    let i = choose|i: int|
        0 <= i < files.len() && #[trigger] files[i] == one[at] && forall|j: int|
            0 <= j < i ==> !same_file(#[trigger] files[j], one[at]);
    assert(listed(other, files[i]));
    let k = choose|k: int| 0 <= k < other.len() && same_file(#[trigger] other[k], files[i]);
    assert(same_file(other[k], files[i]));
    lemma_same_first(files, other[k], one[at]);
}

/// Nothing of a merge is lost and nothing is made up: each file of either listing
/// has one of its level and transactions in the merge, each file there is one of
/// the two listings', the first one's wherever it has it, and they come by level,
/// by first transaction and by last, none twice.
pub proof fn law_merge_keeps_every_file(
    parent_files: Vec<FileInfo>,
    child_files: Vec<FileInfo>,
    merged: Vec<FileInfo>,
)
    requires
        call_ensures(merge_ltx_files, (&parent_files, &child_files), merged),
    ensures
        forall|info: FileInfo| #[trigger]
            parent_files@.contains(info) ==> exists|k: int|
                0 <= k < merged@.len() && (#[trigger] merged@[k]).level == info.level
                    && merged@[k].min_txid.0 == info.min_txid.0 && merged@[k].max_txid.0
                    == info.max_txid.0,
        forall|info: FileInfo| #[trigger]
            child_files@.contains(info) ==> exists|k: int|
                0 <= k < merged@.len() && (#[trigger] merged@[k]).level == info.level
                    && merged@[k].min_txid.0 == info.min_txid.0 && merged@[k].max_txid.0
                    == info.max_txid.0,
        forall|k: int|
            0 <= k < merged@.len() ==> parent_files@.contains(#[trigger] merged@[k])
                || child_files@.contains(merged@[k]),
        forall|k: int, i: int|
            0 <= k < merged@.len() && 0 <= i < parent_files@.len() && (
            #[trigger] merged@[k]).level == (#[trigger] parent_files@[i]).level
                && merged@[k].min_txid.0 == parent_files@[i].min_txid.0 && merged@[k].max_txid.0
                == parent_files@[i].max_txid.0 ==> parent_files@.contains(merged@[k]),
        forall|k: int, m: int|
            0 <= k < m < merged@.len() ==> {
                let (early, late) = (#[trigger] merged@[k], #[trigger] merged@[m]);
                &&& early.level <= late.level
                &&& early.level == late.level ==> early.min_txid.0 <= late.min_txid.0
                &&& early.level == late.level && early.min_txid.0 == late.min_txid.0
                    ==> early.max_txid.0 < late.max_txid.0
            },
{
    let all = parent_files@ + child_files@;
    assert forall|info: FileInfo| #[trigger] parent_files@.contains(info) implies exists|k: int|
        0 <= k < merged@.len() && (#[trigger] merged@[k]).level == info.level
            && merged@[k].min_txid.0 == info.min_txid.0 && merged@[k].max_txid.0
            == info.max_txid.0 by {
        let i = choose|i: int| 0 <= i < parent_files@.len() && parent_files@[i] == info;
        assert(all[i] == parent_files@[i]);
        assert(listed(merged@, all[i]));
        let k = choose|k: int| 0 <= k < merged@.len() && same_file(#[trigger] merged@[k], all[i]);
        assert(same_file(merged@[k], all[i]));
    }
    assert forall|info: FileInfo| #[trigger] child_files@.contains(info) implies exists|k: int|
        0 <= k < merged@.len() && (#[trigger] merged@[k]).level == info.level
            && merged@[k].min_txid.0 == info.min_txid.0 && merged@[k].max_txid.0
            == info.max_txid.0 by {
        let i = choose|i: int| 0 <= i < child_files@.len() && child_files@[i] == info;
        assert(all[parent_files@.len() + i] == child_files@[i]);
        assert(listed(merged@, all[parent_files@.len() + i]));
        let k = choose|k: int|
            0 <= k < merged@.len() && same_file(#[trigger] merged@[k], child_files@[i]);
        assert(same_file(merged@[k], child_files@[i]));
    }
    assert forall|k: int| 0 <= k < merged@.len() implies {
        ||| parent_files@.contains(#[trigger] merged@[k])
        ||| child_files@.contains(merged@[k]) && forall|i: int|
            0 <= i < parent_files@.len() ==> !same_file(#[trigger] parent_files@[i], merged@[k])
    } by {
        assert(first_of_its_kind(all, merged@[k]));
        let i = choose|i: int|
            0 <= i < all.len() && #[trigger] all[i] == merged@[k] && forall|j: int|
                0 <= j < i ==> !same_file(#[trigger] all[j], merged@[k]);
        if i < parent_files@.len() {
            assert(parent_files@[i] == merged@[k]);
        } else {
            assert(child_files@[i - parent_files@.len()] == merged@[k]);
            assert forall|j: int| 0 <= j < parent_files@.len() implies !same_file(
                #[trigger] parent_files@[j],
                merged@[k],
            ) by {
                assert(all[j] == parent_files@[j]);
            }
        }
    }
    assert forall|k: int, i: int|
        0 <= k < merged@.len() && 0 <= i < parent_files@.len() && (#[trigger] merged@[k]).level == (
        #[trigger] parent_files@[i]).level && merged@[k].min_txid.0
            == parent_files@[i].min_txid.0 && merged@[k].max_txid.0
            == parent_files@[i].max_txid.0 implies parent_files@.contains(merged@[k]) by {
        assert(same_file(parent_files@[i], merged@[k]));
    }
    assert forall|k: int, m: int| 0 <= k < m < merged@.len() implies {
        let (early, late) = (#[trigger] merged@[k], #[trigger] merged@[m]);
        &&& early.level <= late.level
        &&& early.level == late.level ==> early.min_txid.0 <= late.min_txid.0
        &&& early.level == late.level && early.min_txid.0 == late.min_txid.0 ==> early.max_txid.0
            < late.max_txid.0
    } by {
        assert(file_before(merged@[k], merged@[m]));
    }
}

/// A branch sees the whole of its parent up to the fork and the whole of its own
/// log above it: each such file, of whatever level, is listed, and no other is.
pub proof fn law_branch_sees_its_parent_up_to_the_fork(
    parent_files: Vec<FileInfo>,
    child_files: Vec<FileInfo>,
    fork_txid: TXID,
    files: Vec<FileInfo>,
)
    requires
        call_ensures(chained_listing, (&parent_files, &child_files, fork_txid), files),
    ensures
        forall|i: int|
            0 <= i < parent_files@.len() && (#[trigger] parent_files@[i]).max_txid.0 <= fork_txid.0
                ==> exists|k: int|
                0 <= k < files@.len() && (#[trigger] files@[k]).level == parent_files@[i].level
                    && files@[k].min_txid.0 == parent_files@[i].min_txid.0 && files@[k].max_txid.0
                    == parent_files@[i].max_txid.0,
        forall|i: int|
            0 <= i < child_files@.len() && (#[trigger] child_files@[i]).min_txid.0 > fork_txid.0
                ==> exists|k: int|
                0 <= k < files@.len() && (#[trigger] files@[k]).level == child_files@[i].level
                    && files@[k].min_txid.0 == child_files@[i].min_txid.0 && files@[k].max_txid.0
                    == child_files@[i].max_txid.0,
        forall|k: int|
            0 <= k < files@.len() ==> parent_files@.contains(#[trigger] files@[k])
                && files@[k].max_txid.0 <= fork_txid.0 || child_files@.contains(files@[k])
                && files@[k].min_txid.0 > fork_txid.0,
        forall|k: int, m: int|
            0 <= k < m < files@.len() ==> {
                let (early, late) = (#[trigger] files@[k], #[trigger] files@[m]);
                &&& early.level <= late.level
                &&& early.level == late.level ==> early.min_txid.0 <= late.min_txid.0
                &&& early.level == late.level && early.min_txid.0 == late.min_txid.0
                    ==> early.max_txid.0 < late.max_txid.0
            },
{
    let up_to = |info: FileInfo| info.max_txid.0 <= fork_txid.0;
    let above = |info: FileInfo| info.min_txid.0 > fork_txid.0;
    let from_parent = parent_files@.filter(up_to);
    let from_child = child_files@.filter(above);
    assert(parent_part(parent_files@, fork_txid) == from_parent);
    assert(child_part(child_files@, fork_txid) == from_child);
    let all = from_parent + from_child;
    assert forall|i: int|
        0 <= i < parent_files@.len() && (#[trigger] parent_files@[i]).max_txid.0
            <= fork_txid.0 implies exists|k: int|
        0 <= k < files@.len() && (#[trigger] files@[k]).level == parent_files@[i].level
            && files@[k].min_txid.0 == parent_files@[i].min_txid.0 && files@[k].max_txid.0
            == parent_files@[i].max_txid.0 by {
        parent_files@.lemma_filter_contains(up_to, i);
        let m = choose|m: int| 0 <= m < from_parent.len() && from_parent[m] == parent_files@[i];
        assert(all[m] == parent_files@[i]);
        assert(listed(files@, all[m]));
        let k = choose|k: int| 0 <= k < files@.len() && same_file(#[trigger] files@[k], all[m]);
        assert(same_file(files@[k], all[m]));
    }
    assert forall|i: int|
        0 <= i < child_files@.len() && (#[trigger] child_files@[i]).min_txid.0
            > fork_txid.0 implies exists|k: int|
        0 <= k < files@.len() && (#[trigger] files@[k]).level == child_files@[i].level
            && files@[k].min_txid.0 == child_files@[i].min_txid.0 && files@[k].max_txid.0
            == child_files@[i].max_txid.0 by {
        child_files@.lemma_filter_contains(above, i);
        let m = choose|m: int| 0 <= m < from_child.len() && from_child[m] == child_files@[i];
        assert(all[from_parent.len() + m] == child_files@[i]);
        assert(listed(files@, all[from_parent.len() + m]));
        let k = choose|k: int|
            0 <= k < files@.len() && same_file(#[trigger] files@[k], child_files@[i]);
        assert(same_file(files@[k], child_files@[i]));
    }
    assert forall|k: int| 0 <= k < files@.len() implies parent_files@.contains(
        #[trigger] files@[k],
    ) && files@[k].max_txid.0 <= fork_txid.0 || child_files@.contains(files@[k])
        && files@[k].min_txid.0 > fork_txid.0 by {
        law_listing_splits_at_the_fork(parent_files@, child_files@, fork_txid, files@, k);
    }
    assert forall|k: int, m: int| 0 <= k < m < files@.len() implies {
        let (early, late) = (#[trigger] files@[k], #[trigger] files@[m]);
        &&& early.level <= late.level
        &&& early.level == late.level ==> early.min_txid.0 <= late.min_txid.0
        &&& early.level == late.level && early.min_txid.0 == late.min_txid.0 ==> early.max_txid.0
            < late.max_txid.0
    } by {
        assert(file_before(files@[k], files@[m]));
    }
}

/// A branch writes above its fork and nowhere else.
pub proof fn law_branch_writes_above_its_fork(
    min_txid: TXID,
    max_txid: TXID,
    fork_txid: TXID,
    checked: Result<(), Error>,
    owned: bool,
)
    requires
        call_ensures(check_write, (min_txid, max_txid, fork_txid), checked),
        call_ensures(child_owns, (min_txid, fork_txid), owned),
    ensures
        checked is Ok <==> fork_txid.0 < min_txid.0,
        owned <==> fork_txid.0 < min_txid.0,
        checked matches Err(error) ==> error is Other,
{
}

/// The child is listed from where it can matter: no transaction of the child that
/// was asked for is left out, and none at or below the fork is asked for, but
/// where the fork is the last transaction that there can be.
pub proof fn law_child_is_listed_from_above_the_fork(
    seek: TXID,
    fork_txid: TXID,
    start: TXID,
    txid: u64,
)
    requires
        call_ensures(child_seek, (seek, fork_txid), start),
    ensures
        txid >= seek.0 && txid > fork_txid.0 ==> txid >= start.0,
        start.0 >= seek.0,
        fork_txid.0 < u64::MAX ==> start.0 > fork_txid.0,
        txid >= start.0 && fork_txid.0 < u64::MAX ==> txid >= seek.0 && txid > fork_txid.0,
{
}

/// A branch reads a file from its own log where it starts above the fork, and
/// from its parent's otherwise; it writes and deletes in its own alone.
pub proof fn law_branch_reads_where_the_file_lies<P: ReplicaClient, C: ReplicaClient>(
    client: ChainedReplicaClient<P, C>,
    level: i32,
    min_txid: TXID,
    max_txid: TXID,
    data: &[u8],
    gone: &[FileInfo],
    opened: Result<Vec<u8>, Error>,
    written: Result<FileInfo, Error>,
    deleted: Result<(), Error>,
    cleared: Result<(), Error>,
)
    requires
        call_ensures(
            <ChainedReplicaClient<P, C> as ReplicaClient>::open_ltx_file,
            (&client, level, min_txid, max_txid),
            opened,
        ),
        call_ensures(
            <ChainedReplicaClient<P, C> as ReplicaClient>::write_ltx_file,
            (&client, level, min_txid, max_txid, data),
            written,
        ),
        call_ensures(
            <ChainedReplicaClient<P, C> as ReplicaClient>::delete_ltx_files,
            (&client, gone),
            deleted,
        ),
        call_ensures(
            <ChainedReplicaClient<P, C> as ReplicaClient>::delete_all,
            (&client,),
            cleared,
        ),
    ensures
        min_txid.0 > client.fork_txid.0 ==> call_ensures(
            C::open_ltx_file,
            (&client.child, level, min_txid, max_txid),
            opened,
        ) && call_ensures(
            C::write_ltx_file,
            (&client.child, level, min_txid, max_txid, data),
            written,
        ),
        min_txid.0 <= client.fork_txid.0 ==> call_ensures(
            P::open_ltx_file,
            (&client.parent, level, min_txid, max_txid),
            opened,
        ) && written is Err,
        call_ensures(C::delete_ltx_files, (&client.child, gone), deleted),
        call_ensures(C::delete_all, (&client.child,), cleared),
{
}

/// A chained replica is made of what it was given.
pub proof fn law_chain_holds_its_ends<P, C>(
    parent: P,
    child: C,
    fork_txid: TXID,
    client: ChainedReplicaClient<P, C>,
    fork: TXID,
)
    requires
        call_ensures(ChainedReplicaClient::<P, C>::new, (parent, child, fork_txid), client),
        call_ensures(ChainedReplicaClient::<P, C>::fork_txid, (&client,), fork),
    ensures
        client.parent == parent,
        client.child == child,
        fork == fork_txid,
{
}

/// What a branch lists is what its parent and its own log answer when they are
/// asked for the same level: it fails only where one of them does, and holds
/// each file of the parent that ends at or before the fork and each of its own
/// that starts above it, and no other, in their order.
pub proof fn law_branch_lists_what_both_answer<P: ReplicaClient, C: ReplicaClient>(
    client: ChainedReplicaClient<P, C>,
    level: i32,
    seek: TXID,
    listing: Result<Vec<FileInfo>, Error>,
)
    requires
        call_ensures(
            <ChainedReplicaClient<P, C> as ReplicaClient>::ltx_files,
            (&client, level, seek),
            listing,
        ),
    ensures
        exists|from_parent: Result<Vec<FileInfo>, Error>| #[trigger]
            call_ensures(P::ltx_files, (&client.parent, level, seek), from_parent)
                && match from_parent {
                Err(error) => listing == Err::<Vec<FileInfo>, Error>(error),
                Ok(parent_files) => exists|start: TXID, from_child: Result<Vec<FileInfo>, Error>|
                    #[trigger]
                    call_ensures(C::ltx_files, (&client.child, level, start), from_child)
                        && start.0 >= seek.0 && (start.0 == seek.0 || start.0
                        == client.fork_txid.0 + 1 || start.0 == u64::MAX) && (
                    client.fork_txid.0 < u64::MAX ==> start.0 > client.fork_txid.0)
                        && match from_child {
                        Err(error) => listing == Err::<Vec<FileInfo>, Error>(error),
                        Ok(child_files) => listing matches Ok(files) && (forall|info: FileInfo|
                            #[trigger]
                            parent_files@.contains(info) && info.max_txid.0 <= client.fork_txid.0
                                ==> listed(files@, info)) && (forall|info: FileInfo| #[trigger]
                            child_files@.contains(info) && info.min_txid.0 > client.fork_txid.0
                                ==> listed(files@, info)) && (forall|k: int|
                            0 <= k < files@.len() ==> parent_files@.contains(#[trigger] files@[k])
                                && files@[k].max_txid.0 <= client.fork_txid.0
                                || child_files@.contains(files@[k]) && files@[k].min_txid.0
                                > client.fork_txid.0) && (forall|k: int, m: int|
                            0 <= k < m < files@.len() ==> {
                                let (early, late) = (#[trigger] files@[k], #[trigger] files@[m]);
                                early.level < late.level || early.level == late.level && (
                                early.min_txid.0 < late.min_txid.0 || early.min_txid.0
                                    == late.min_txid.0 && early.max_txid.0 < late.max_txid.0)
                            }),
                    },
            },
{
    let from_parent = choose|from_parent: Result<Vec<FileInfo>, Error>| #[trigger]
        call_ensures(P::ltx_files, (&client.parent, level, seek), from_parent)
            && match from_parent {
            Err(error) => listing == Err::<Vec<FileInfo>, Error>(error),
            Ok(parent_files) => exists|from_child: Result<Vec<FileInfo>, Error>| #[trigger]
                call_ensures(
                    C::ltx_files,
                    (&client.child, level, seek_in_child(seek, client.fork_txid)),
                    from_child,
                ) && match from_child {
                    Err(error) => listing == Err::<Vec<FileInfo>, Error>(error),
                    Ok(child_files) => listing matches Ok(files) && merge_of(
                        parent_part(parent_files@, client.fork_txid) + child_part(
                            child_files@,
                            client.fork_txid,
                        ),
                        files@,
                    ),
                },
        };
    assert(call_ensures(P::ltx_files, (&client.parent, level, seek), from_parent));
    if let Ok(parent_files) = from_parent {
        let start = seek_in_child(seek, client.fork_txid);
        let from_child = choose|from_child: Result<Vec<FileInfo>, Error>| #[trigger]
            call_ensures(C::ltx_files, (&client.child, level, start), from_child)
                && match from_child {
                Err(error) => listing == Err::<Vec<FileInfo>, Error>(error),
                Ok(child_files) => listing matches Ok(files) && merge_of(
                    parent_part(parent_files@, client.fork_txid) + child_part(
                        child_files@,
                        client.fork_txid,
                    ),
                    files@,
                ),
            };
        assert(call_ensures(C::ltx_files, (&client.child, level, start), from_child));
        if let Ok(child_files) = from_child {
            let files = listing->Ok_0;
            let fork_txid = client.fork_txid;
            assert forall|info: FileInfo| #[trigger]
                parent_files@.contains(info) && info.max_txid.0
                    <= fork_txid.0 implies listed(files@, info) by {
                lemma_parent_is_listed(parent_files@, child_files@, fork_txid, files@, info);
            }
            assert forall|info: FileInfo| #[trigger]
                child_files@.contains(info) && info.min_txid.0 > fork_txid.0 implies listed(
                files@,
                info,
            ) by {
                let i = choose|i: int| 0 <= i < child_files@.len() && child_files@[i] == info;
                law_written_file_is_listed(parent_files@, child_files@, fork_txid, files@, i);
            }
            assert forall|k: int| 0 <= k < files@.len() implies parent_files@.contains(
                #[trigger] files@[k],
            ) && files@[k].max_txid.0 <= fork_txid.0 || child_files@.contains(files@[k])
                && files@[k].min_txid.0 > fork_txid.0 by {
                law_listing_splits_at_the_fork(parent_files@, child_files@, fork_txid, files@, k);
            }
            assert forall|k: int, m: int| 0 <= k < m < files@.len() implies {
                let (early, late) = (#[trigger] files@[k], #[trigger] files@[m]);
                early.level < late.level || early.level == late.level && (early.min_txid.0
                    < late.min_txid.0 || early.min_txid.0 == late.min_txid.0 && early.max_txid.0
                    < late.max_txid.0)
            } by {
                assert(file_before(files@[k], files@[m]));
            }
        }
    }
}

/// To be listed is to have a file of the same level and transactions there.
pub proof fn law_listed_file_is_there(files: Seq<FileInfo>, info: FileInfo)
    ensures
        listed(files, info) <==> exists|k: int|
            0 <= k < files.len() && (#[trigger] files[k]).level == info.level
                && files[k].min_txid.0 == info.min_txid.0 && files[k].max_txid.0
                == info.max_txid.0,
{
    if listed(files, info) {
        let k = choose|k: int| 0 <= k < files.len() && same_file(#[trigger] files[k], info);
        assert(same_file(files[k], info));
    }
    if exists|k: int|
        0 <= k < files.len() && (#[trigger] files[k]).level == info.level && files[k].min_txid.0
            == info.min_txid.0 && files[k].max_txid.0 == info.max_txid.0 {
        let k = choose|k: int|
            0 <= k < files.len() && (#[trigger] files[k]).level == info.level
                && files[k].min_txid.0 == info.min_txid.0 && files[k].max_txid.0
                == info.max_txid.0;
        assert(same_file(files[k], info));
    }
}

proof fn lemma_parent_is_listed(
    parent_files: Seq<FileInfo>,
    child_files: Seq<FileInfo>,
    fork_txid: TXID,
    files: Seq<FileInfo>,
    info: FileInfo,
)
    requires
        merge_of(parent_part(parent_files, fork_txid) + child_part(child_files, fork_txid), files),
        parent_files.contains(info),
        info.max_txid.0 <= fork_txid.0,
    ensures
        listed(files, info),
{
    let up_to = |info: FileInfo| info.max_txid.0 <= fork_txid.0;
    let i = choose|i: int| 0 <= i < parent_files.len() && parent_files[i] == info;
    parent_files.lemma_filter_contains(up_to, i);
    let from_parent = parent_part(parent_files, fork_txid);
    let all = from_parent + child_part(child_files, fork_txid);
    let m = choose|m: int| 0 <= m < from_parent.len() && from_parent[m] == info;
    assert(all[m] == info);
    assert(listed(files, all[m]));
}

/// A refused write is told with its own range and the fork.
pub proof fn law_refused_write_names_its_range(
    min_txid: TXID,
    max_txid: TXID,
    fork_txid: TXID,
    checked: Result<(), Error>,
)
    requires
        call_ensures(check_write, (min_txid, max_txid, fork_txid), checked),
    ensures
        checked matches Err(Error::Other(message)) ==> message@
            == "refusing parent-owned LTX write min="@ + text::dec(min_txid.0 as nat) + " max="@
            + text::dec(max_txid.0 as nat) + " fork="@ + text::dec(fork_txid.0 as nat),
{
}

/// A branch hands out the clients that it was made of.
pub proof fn law_branch_hands_out_its_ends<P, C>(
    client: ChainedReplicaClient<P, C>,
    parent: &P,
    child: &C,
)
    requires
        call_ensures(ChainedReplicaClient::<P, C>::parent, (&client,), parent),
        call_ensures(ChainedReplicaClient::<P, C>::child, (&client,), child),
    ensures
        *parent == client.parent,
        *child == client.child,
{
}

} // verus!
