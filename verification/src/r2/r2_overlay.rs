//! A branched binding: reads fall back to the parent, writes go to the child,
//! and a deleted object leaves a tombstone.

use vstd::prelude::*;
use crate::table;
use crate::table::{SortKey, Table};
use crate::text;

verus! {

/// The name of an overlay pointer's object.
pub const R2_BASE_JSON: &'static str = "base.json";

/// Where the tombstones of a binding are.
pub const R2_TOMBSTONE_DIR: &'static str = ".tombstones/";

/// The pointer of a branched binding.
#[derive(Debug, PartialEq, Eq)]
pub struct R2OverlayPointer {
    pub parent_bucket: String,
}

/// The key of an object of a binding.
pub open spec fn object_key(bucket_name: Seq<char>, key: Seq<char>) -> Seq<char> {
    "r2/"@ + bucket_name + "/"@ + key
}

fn binding_key(bucket_name: &str, key: &str) -> (text: String)
    ensures
        text@ == object_key(bucket_name@, key@),
{
    let mut text = "r2/".to_owned();
    text.append(bucket_name);
    text.append("/");
    text.append(key);
    text
}

/// Where the objects of a binding are.
pub fn r2_binding_prefix(bucket_name: &str) -> (prefix: String)
    ensures
        prefix@ == object_key(bucket_name@, ""@),
        prefix@ == "r2/"@ + bucket_name@ + "/"@,
{
    let prefix = binding_key(bucket_name, "");
    proof {
        reveal_strlit("");
        assert(prefix@ =~= "r2/"@ + bucket_name@ + "/"@);
    }
    prefix
}

/// Where the overlay pointer of a binding is.
pub fn r2_base_json_key(bucket_name: &str) -> (key: String)
    ensures
        key@ == object_key(bucket_name@, "base.json"@),
{
    binding_key(bucket_name, R2_BASE_JSON)
}

/// Where an object of a binding is.
pub fn r2_object_key(bucket_name: &str, key: &str) -> (text: String)
    ensures
        text@ == object_key(bucket_name@, key@),
{
    binding_key(bucket_name, key)
}

/// The key of an object's tombstone.
pub open spec fn tombstone_key(bucket_name: Seq<char>, key: Seq<char>) -> Seq<char> {
    object_key(bucket_name, ".tombstones/"@ + key)
}

/// Where the tombstone of an object is.
pub fn r2_tombstone_key(bucket_name: &str, object_key: &str) -> (key: String)
    ensures
        key@ == tombstone_key(bucket_name@, object_key@),
{
    let mut tail = R2_TOMBSTONE_DIR.to_owned();
    tail.append(object_key);
    binding_key(bucket_name, tail.as_str())
}

/// Two objects of a binding never share a key, nor do their tombstones.
pub proof fn law_keys_tell_objects_apart(bucket_name: Seq<char>, left: Seq<char>, right: Seq<char>)
    ensures
        object_key(bucket_name, left) == object_key(bucket_name, right) ==> left == right,
        tombstone_key(bucket_name, left) == tombstone_key(bucket_name, right) ==> left == right,
{
    let head = "r2/"@ + bucket_name + "/"@;
    let tomb = head + ".tombstones/"@;
    if object_key(bucket_name, left) == object_key(bucket_name, right) {
        assert(left =~= object_key(bucket_name, left).skip(head.len() as int));
        assert(right =~= object_key(bucket_name, right).skip(head.len() as int));
    }
    if tombstone_key(bucket_name, left) == tombstone_key(bucket_name, right) {
        assert(left =~= tombstone_key(bucket_name, left).skip(tomb.len() as int));
        assert(right =~= tombstone_key(bucket_name, right).skip(tomb.len() as int));
    }
}

/// The key of an object as the binding's user knows it.
pub open spec fn logical_key(bucket_name: Seq<char>, key: Seq<char>) -> Seq<char> {
    text::without_prefix(key, object_key(bucket_name, ""@))
}

/// The key of an object as the binding's user knows it.
pub fn logical(bucket_name: &str, key: &str) -> (text: String)
    ensures
        text@ == logical_key(bucket_name@, key@),
{
    let strip = binding_key(bucket_name, "");
    match text::strip_prefix(key, strip.as_str()) {
        Some(rest) => rest,
        None => key.to_owned(),
    }
}

/// An object's key is what its user knows it by, under the binding's prefix.
pub proof fn law_logical_key_undoes_object_key(bucket_name: Seq<char>, key: Seq<char>)
    ensures
        logical_key(bucket_name, object_key(bucket_name, key)) == key,
{
    reveal_strlit("");
    let prefix = object_key(bucket_name, ""@);
    let full = object_key(bucket_name, key);
    assert(prefix =~= "r2/"@ + bucket_name + "/"@);
    assert(full.subrange(0, prefix.len() as int) =~= prefix);
    assert(full.subrange(prefix.len() as int, full.len() as int) =~= key);
}

/// One listed object, by its key and whatever else is known of it.
#[derive(Debug)]
pub struct BlobEntry<M> {
    pub key: String,
    pub meta: M,
}

/// One page of a listing.
#[derive(Debug)]
pub struct BlobPage<M> {
    pub objects: Vec<BlobEntry<M>>,
    pub prefixes: Vec<String>,
    pub truncated: bool,
    pub cursor: Option<String>,
}

/// Is this the key of a tombstone?
pub open spec fn is_tombstone(logical: Seq<char>) -> bool {
    text::has_prefix(logical, ".tombstones/"@)
}

/// Is this what holds the overlay itself: its pointer, or a tombstone?
pub open spec fn overlay_own(logical: Seq<char>) -> bool {
    is_tombstone(logical) || logical == "base.json"@
}

fn is_overlay_own(logical: &str) -> (own: bool)
    ensures
        own == overlay_own(logical@),
{
    text::starts_with(logical, R2_TOMBSTONE_DIR) || text::same(logical, R2_BASE_JSON)
}

/// Is an object of a branch hidden: is it the overlay's own, or has it a
/// tombstone?
pub open spec fn hidden(logical: Seq<char>, tombstones: Map<Seq<char>, ()>) -> bool {
    overlay_own(logical) || tombstones.contains_key(logical)
}

/// The objects that are neither a tombstone nor have one, in order.
pub open spec fn visible<M>(
    bucket_name: Seq<char>,
    objects: Seq<BlobEntry<M>>,
    tombstones: Map<Seq<char>, ()>,
) -> Seq<BlobEntry<M>>
    decreases objects.len(),
{
    if objects.len() == 0 {
        Seq::empty()
    } else {
        let earlier = visible(bucket_name, objects.drop_last(), tombstones);
        let key = logical_key(bucket_name, objects.last().key@);
        if is_tombstone(key) || tombstones.contains_key(key) {
            earlier
        } else {
            earlier.push(objects.last())
        }
    }
}

/// What the parent's page shows, over `start`: each object under its logical
/// key, but for the overlay's own and those with a tombstone.
pub open spec fn shown_by_parent<M>(
    start: Map<Seq<char>, BlobEntry<M>>,
    bucket_name: Seq<char>,
    objects: Seq<BlobEntry<M>>,
    tombstones: Map<Seq<char>, ()>,
) -> Map<Seq<char>, BlobEntry<M>>
    decreases objects.len(),
{
    if objects.len() == 0 {
        start
    } else {
        let earlier = shown_by_parent(start, bucket_name, objects.drop_last(), tombstones);
        let entry = objects.last();
        let key = logical_key(bucket_name, entry.key@);
        if hidden(key, tombstones) {
            earlier
        } else {
            earlier.insert(key, entry)
        }
    }
}

/// What the child's page shows, over `start`: its objects go before the
/// parent's, and one with a tombstone is not there.
pub open spec fn shown_by_child<M>(
    start: Map<Seq<char>, BlobEntry<M>>,
    bucket_name: Seq<char>,
    objects: Seq<BlobEntry<M>>,
    tombstones: Map<Seq<char>, ()>,
) -> Map<Seq<char>, BlobEntry<M>>
    decreases objects.len(),
{
    if objects.len() == 0 {
        start
    } else {
        let earlier = shown_by_child(start, bucket_name, objects.drop_last(), tombstones);
        let entry = objects.last();
        let key = logical_key(bucket_name, entry.key@);
        if overlay_own(key) {
            earlier
        } else if tombstones.contains_key(key) {
            earlier.remove(key)
        } else {
            earlier.insert(key, entry)
        }
    }
}

/// What the two pages show together.
pub open spec fn shown<M>(
    bucket_name: Seq<char>,
    parent: Seq<BlobEntry<M>>,
    child: Seq<BlobEntry<M>>,
    tombstones: Map<Seq<char>, ()>,
) -> Map<Seq<char>, BlobEntry<M>> {
    shown_by_child(
        shown_by_parent(Map::empty(), bucket_name, parent, tombstones),
        bucket_name,
        child,
        tombstones,
    )
}

/// Is every object in the map under its own logical key?
spec fn keyed<M>(map: Map<Seq<char>, BlobEntry<M>>, bucket_name: Seq<char>) -> bool {
    forall|key: Seq<char>| #[trigger]
        map.contains_key(key) ==> logical_key(bucket_name, map[key].key@) == key
}

proof fn lemma_parent_keyed<M>(
    start: Map<Seq<char>, BlobEntry<M>>,
    bucket_name: Seq<char>,
    objects: Seq<BlobEntry<M>>,
    tombstones: Map<Seq<char>, ()>,
)
    requires
        keyed(start, bucket_name),
    ensures
        keyed(shown_by_parent(start, bucket_name, objects, tombstones), bucket_name),
    decreases objects.len(),
{
    if objects.len() > 0 {
        lemma_parent_keyed(start, bucket_name, objects.drop_last(), tombstones);
    }
}

proof fn lemma_child_keyed<M>(
    start: Map<Seq<char>, BlobEntry<M>>,
    bucket_name: Seq<char>,
    objects: Seq<BlobEntry<M>>,
    tombstones: Map<Seq<char>, ()>,
)
    requires
        keyed(start, bucket_name),
    ensures
        keyed(shown_by_child(start, bucket_name, objects, tombstones), bucket_name),
    decreases objects.len(),
{
    if objects.len() > 0 {
        lemma_child_keyed(start, bucket_name, objects.drop_last(), tombstones);
    }
}

/// Does a list of objects show the first `limit` of the map, in the order of
/// their logical keys?
pub open spec fn listing_of<M>(
    map: Map<Seq<char>, BlobEntry<M>>,
    bucket_name: Seq<char>,
    objects: Seq<BlobEntry<M>>,
    limit: int,
) -> bool {
    &&& objects.len() <= limit
    &&& forall|i: int, j: int|
        0 <= i < j < objects.len() ==> table::text_before(
            logical_key(bucket_name, (#[trigger] objects[i]).key@),
            logical_key(bucket_name, (#[trigger] objects[j]).key@),
        )
    &&& forall|i: int|
        0 <= i < objects.len() ==> {
            let key = logical_key(bucket_name, (#[trigger] objects[i]).key@);
            map.contains_key(key) && map[key] == objects[i]
        }
    &&& forall|key: Seq<char>| #[trigger]
        map.contains_key(key) ==> listed_at(bucket_name, objects, key) || objects.len() == limit
            && forall|i: int|
            0 <= i < objects.len() ==> table::text_before(
                logical_key(bucket_name, (#[trigger] objects[i]).key@),
                key,
            )
}

/// Is the object under `key` among the listed ones?
pub open spec fn listed_at<M>(
    bucket_name: Seq<char>,
    objects: Seq<BlobEntry<M>>,
    key: Seq<char>,
) -> bool {
    exists|i: int|
        0 <= i < objects.len() && logical_key(bucket_name, (#[trigger] objects[i]).key@) == key
}

/// One page of a binding: the child's, or where it is branched the child's and
/// the parent's together. Neither tombstones nor objects that have one are
/// listed, nor of a branch its pointer. `tombstones` are the logical keys among
/// both that have one.
pub fn list_overlay_page<M>(
    bucket_name: &str,
    child: BlobPage<M>,
    parent: Option<Vec<BlobEntry<M>>>,
    tombstones: &Table<String, ()>,
    limit: usize,
) -> (page: BlobPage<M>)
    requires
        tombstones.wf(),
    ensures
        match parent {
            None => {
                &&& page.objects@ == visible(bucket_name@, child.objects@, tombstones@)
                &&& page.prefixes == child.prefixes
                &&& page.truncated == child.truncated
                &&& page.cursor == child.cursor
            },
            Some(parent) => {
                &&& listing_of(
                    shown(bucket_name@, parent@, child.objects@, tombstones@),
                    bucket_name@,
                    page.objects@,
                    limit as int,
                )
                &&& page.prefixes == child.prefixes
                &&& page.truncated == (page.objects@.len() >= limit)
                &&& page.cursor is Some <==> page.objects@.len() > 0
                &&& page.cursor matches Some(cursor) ==> cursor@ == logical_key(
                    bucket_name@,
                    page.objects@.last().key@,
                )
            },
        },
{
    match parent {
        None => BlobPage {
            objects: keep_visible(bucket_name, child.objects, tombstones),
            prefixes: child.prefixes,
            truncated: child.truncated,
            cursor: child.cursor,
        },
        Some(parent) => merge_pages(bucket_name, child, parent, tombstones, limit),
    }
}

fn keep_visible<M>(
    bucket_name: &str,
    objects: Vec<BlobEntry<M>>,
    tombstones: &Table<String, ()>,
) -> (kept: Vec<BlobEntry<M>>)
    requires
        tombstones.wf(),
    ensures
        kept@ == visible(bucket_name@, objects@, tombstones@),
{
    let ghost all = objects@;
    let mut kept: Vec<BlobEntry<M>> = Vec::new();
    for entry in taken: objects
        invariant
            tombstones.wf(),
            taken.seq() == all,
            kept@ == visible(bucket_name@, all.take(taken.index() as int), tombstones@),
    {
        let ghost at = taken.index() as int;
        assert(all.take(at + 1).drop_last() =~= all.take(at));
        let key = logical(bucket_name, entry.key.as_str());
        if !text::starts_with(key.as_str(), R2_TOMBSTONE_DIR) && !tombstones.contains(&key) {
            kept.push(entry);
        }
    }
    assert(all.take(all.len() as int) =~= all);
    kept
}

fn merge_pages<M>(
    bucket_name: &str,
    child: BlobPage<M>,
    parent: Vec<BlobEntry<M>>,
    tombstones: &Table<String, ()>,
    limit: usize,
) -> (page: BlobPage<M>)
    requires
        tombstones.wf(),
    ensures
        listing_of(
            shown(bucket_name@, parent@, child.objects@, tombstones@),
            bucket_name@,
            page.objects@,
            limit as int,
        ),
        page.prefixes == child.prefixes,
        page.truncated == (page.objects@.len() >= limit),
        page.cursor is Some <==> page.objects@.len() > 0,
        page.cursor matches Some(cursor) ==> cursor@ == logical_key(
            bucket_name@,
            page.objects@.last().key@,
        ),
{
    let mut merged: Table<String, BlobEntry<M>> = Table::new();
    enter_parent(bucket_name, parent, tombstones, &mut merged);
    enter_child(bucket_name, child.objects, tombstones, &mut merged);
    let ghost map = merged@;
    proof {
        let empty = Map::<Seq<char>, BlobEntry<M>>::empty();
        lemma_parent_keyed(empty, bucket_name@, parent@, tombstones@);
        lemma_child_keyed(
            shown_by_parent(empty, bucket_name@, parent@, tombstones@),
            bucket_name@,
            child.objects@,
            tombstones@,
        );
    }
    let ghost all = merged.entries@;
    let ghost whole = merged;
    // Drop what is over the limit, from the end.
    let mut entries = merged.entries;
    entries.truncate(limit);
    assert(entries@ =~= all.take(entries@.len() as int));
    let ghost count = entries@.len();
    let ghost kept = entries@;
    let mut objects: Vec<BlobEntry<M>> = Vec::new();
    for entry in taken: entries
        invariant
            count <= all.len(),
            kept == all.take(count as int),
            taken.seq() == kept,
            objects@.len() == taken.index(),
            forall|i: int| 0 <= i < objects@.len() ==> #[trigger] objects@[i] == all[i].1,
    {
        assert(entry == kept[taken.index() as int]);
        objects.push(entry.1);
    }
    proof {
        lemma_listing(whole, bucket_name@, objects@, limit as int);
    }
    let truncated = objects.len() >= limit;
    let cursor: Option<String> = if objects.len() > 0 {
        Some(logical(bucket_name, objects[objects.len() - 1].key.as_str()))
    } else {
        None
    };
    BlobPage { objects, prefixes: child.prefixes, truncated, cursor }
}

proof fn lemma_listing<M>(
    table: Table<String, BlobEntry<M>>,
    bucket_name: Seq<char>,
    objects: Seq<BlobEntry<M>>,
    limit: int,
)
    requires
        table.wf(),
        keyed(table@, bucket_name),
        limit >= 0,
        objects.len() == if table.entries@.len() < limit {
            table.entries@.len() as int
        } else {
            limit
        },
        forall|i: int| 0 <= i < objects.len() ==> #[trigger] objects[i] == table.entries@[i].1,
    ensures
        listing_of(table@, bucket_name, objects, limit),
{
    let all = table.entries@;
    assert forall|i: int| 0 <= i < objects.len() implies {
        let key = logical_key(bucket_name, (#[trigger] objects[i]).key@);
        &&& key == all[i].0@
        &&& table@.contains_key(key)
        &&& table@[key] == objects[i]
    } by {
        table.lemma_place(i);
        assert(table@.contains_key(all[i].0.key()));
    }
    assert forall|i: int, j: int| 0 <= i < j < objects.len() implies table::text_before(
        logical_key(bucket_name, (#[trigger] objects[i]).key@),
        logical_key(bucket_name, (#[trigger] objects[j]).key@),
    ) by {
        assert(String::before(all[i].0.key(), all[j].0.key()));
    }
    assert forall|key: Seq<char>| #[trigger] table@.contains_key(key) implies listed_at(
        bucket_name,
        objects,
        key,
    ) || objects.len() == limit && forall|i: int|
        0 <= i < objects.len() ==> table::text_before(
            logical_key(bucket_name, (#[trigger] objects[i]).key@),
            key,
        ) by {
        let place = table.place(key);
        assert(all[place].0.key() == key);
        if place < objects.len() {
            assert(logical_key(bucket_name, objects[place].key@) == key);
        } else {
            assert forall|i: int| 0 <= i < objects.len() implies table::text_before(
                logical_key(bucket_name, (#[trigger] objects[i]).key@),
                key,
            ) by {
                assert(String::before(all[i].0.key(), all[place].0.key()));
            }
        }
    }
}

fn enter_parent<M>(
    bucket_name: &str,
    objects: Vec<BlobEntry<M>>,
    tombstones: &Table<String, ()>,
    merged: &mut Table<String, BlobEntry<M>>,
)
    requires
        tombstones.wf(),
        old(merged).wf(),
    ensures
        final(merged).wf(),
        final(merged)@ == shown_by_parent(old(merged)@, bucket_name@, objects@, tombstones@),
{
    let ghost start = merged@;
    let ghost all = objects@;
    for entry in taken: objects
        invariant
            tombstones.wf(),
            merged.wf(),
            taken.seq() == all,
            merged@ == shown_by_parent(
                start,
                bucket_name@,
                all.take(taken.index() as int),
                tombstones@,
            ),
    {
        let ghost at = taken.index() as int;
        assert(all.take(at + 1).drop_last() =~= all.take(at));
        let key = logical(bucket_name, entry.key.as_str());
        if !is_overlay_own(key.as_str()) && !tombstones.contains(&key) {
            merged.insert(key, entry);
        }
    }
    assert(all.take(all.len() as int) =~= all);
}

fn enter_child<M>(
    bucket_name: &str,
    objects: Vec<BlobEntry<M>>,
    tombstones: &Table<String, ()>,
    merged: &mut Table<String, BlobEntry<M>>,
)
    requires
        tombstones.wf(),
        old(merged).wf(),
    ensures
        final(merged).wf(),
        final(merged)@ == shown_by_child(old(merged)@, bucket_name@, objects@, tombstones@),
{
    let ghost start = merged@;
    let ghost all = objects@;
    for entry in taken: objects
        invariant
            tombstones.wf(),
            merged.wf(),
            taken.seq() == all,
            merged@ == shown_by_child(
                start,
                bucket_name@,
                all.take(taken.index() as int),
                tombstones@,
            ),
    {
        let ghost at = taken.index() as int;
        assert(all.take(at + 1).drop_last() =~= all.take(at));
        let key = logical(bucket_name, entry.key.as_str());
        if !is_overlay_own(key.as_str()) {
            if tombstones.contains(&key) {
                let _ = merged.remove(&key);
            } else {
                merged.insert(key, entry);
            }
        }
    }
    assert(all.take(all.len() as int) =~= all);
}

/// A key with a tombstone is never listed, with a parent or without.
pub proof fn law_tombstone_hides_an_object<M>(
    bucket_name: Seq<char>,
    parent: Seq<BlobEntry<M>>,
    child: Seq<BlobEntry<M>>,
    tombstones: Map<Seq<char>, ()>,
    key: Seq<char>,
)
    requires
        tombstones.contains_key(key),
    ensures
        !shown(bucket_name, parent, child, tombstones).contains_key(key),
        !listed_at(bucket_name, visible(bucket_name, child, tombstones), key),
{
    lemma_hidden_is_not_shown(bucket_name, parent, child, tombstones, key);
    lemma_visible_hides(bucket_name, child, tombstones, key);
}

/// A tombstone itself is never listed, with a parent or without.
pub proof fn law_tombstone_is_never_listed<M>(
    bucket_name: Seq<char>,
    parent: Seq<BlobEntry<M>>,
    child: Seq<BlobEntry<M>>,
    tombstones: Map<Seq<char>, ()>,
    key: Seq<char>,
)
    ensures
        ({
            let own = logical_key(bucket_name, tombstone_key(bucket_name, key));
            &&& !shown(bucket_name, parent, child, tombstones).contains_key(own)
            &&& !listed_at(bucket_name, visible(bucket_name, child, tombstones), own)
        }),
{
    let own = logical_key(bucket_name, tombstone_key(bucket_name, key));
    let tail = ".tombstones/"@ + key;
    law_logical_key_undoes_object_key(bucket_name, tail);
    assert(tail.subrange(0, ".tombstones/"@.len() as int) =~= ".tombstones/"@);
    lemma_hidden_is_not_shown(bucket_name, parent, child, tombstones, own);
    lemma_visible_hides(bucket_name, child, tombstones, own);
}

/// The pointer of a branch is never listed with it, the parent's no more than
/// its own.
pub proof fn law_branch_hides_its_pointer<M>(
    bucket_name: Seq<char>,
    parent: Seq<BlobEntry<M>>,
    child: Seq<BlobEntry<M>>,
    tombstones: Map<Seq<char>, ()>,
)
    ensures
        !shown(bucket_name, parent, child, tombstones).contains_key("base.json"@),
{
    lemma_hidden_is_not_shown(bucket_name, parent, child, tombstones, "base.json"@);
}

/// A binding without a parent and without tombstones is listed as it is.
pub proof fn law_plain_binding_is_listed_as_it_is<M>(
    bucket_name: Seq<char>,
    objects: Seq<BlobEntry<M>>,
)
    requires
        forall|i: int|
            0 <= i < objects.len() ==> !is_tombstone(
                logical_key(bucket_name, (#[trigger] objects[i]).key@),
            ),
    ensures
        visible(bucket_name, objects, Map::empty()) == objects,
    decreases objects.len(),
{
    if objects.len() > 0 {
        let rest = objects.drop_last();
        assert forall|i: int| 0 <= i < rest.len() implies !is_tombstone(
            logical_key(bucket_name, (#[trigger] rest[i]).key@),
        ) by {
            assert(rest[i] == objects[i]);
        }
        law_plain_binding_is_listed_as_it_is(bucket_name, rest);
        assert(objects.last() == objects[objects.len() - 1]);
        assert(rest.push(objects.last()) =~= objects);
    }
}

proof fn lemma_hidden_is_not_shown<M>(
    bucket_name: Seq<char>,
    parent: Seq<BlobEntry<M>>,
    child: Seq<BlobEntry<M>>,
    tombstones: Map<Seq<char>, ()>,
    key: Seq<char>,
)
    requires
        hidden(key, tombstones),
    ensures
        !shown(bucket_name, parent, child, tombstones).contains_key(key),
{
    let empty = Map::<Seq<char>, BlobEntry<M>>::empty();
    lemma_parent_hides(empty, bucket_name, parent, tombstones, key);
    lemma_child_hides(
        shown_by_parent(empty, bucket_name, parent, tombstones),
        bucket_name,
        child,
        tombstones,
        key,
    );
}

proof fn lemma_visible_hides<M>(
    bucket_name: Seq<char>,
    objects: Seq<BlobEntry<M>>,
    tombstones: Map<Seq<char>, ()>,
    key: Seq<char>,
)
    requires
        is_tombstone(key) || tombstones.contains_key(key),
    ensures
        !listed_at(bucket_name, visible(bucket_name, objects, tombstones), key),
    decreases objects.len(),
{
    if objects.len() > 0 {
        let earlier = visible(bucket_name, objects.drop_last(), tombstones);
        let all = visible(bucket_name, objects, tombstones);
        lemma_visible_hides(bucket_name, objects.drop_last(), tombstones, key);
        if listed_at(bucket_name, all, key) {
            let i = choose|i: int|
                0 <= i < all.len() && logical_key(bucket_name, (#[trigger] all[i]).key@) == key;
            if i < earlier.len() {
                assert(all[i] == earlier[i]);
            }
        }
    }
}

proof fn lemma_parent_hides<M>(
    start: Map<Seq<char>, BlobEntry<M>>,
    bucket_name: Seq<char>,
    objects: Seq<BlobEntry<M>>,
    tombstones: Map<Seq<char>, ()>,
    key: Seq<char>,
)
    requires
        hidden(key, tombstones),
        !start.contains_key(key),
    ensures
        !shown_by_parent(start, bucket_name, objects, tombstones).contains_key(key),
    decreases objects.len(),
{
    if objects.len() > 0 {
        lemma_parent_hides(start, bucket_name, objects.drop_last(), tombstones, key);
    }
}

proof fn lemma_child_hides<M>(
    start: Map<Seq<char>, BlobEntry<M>>,
    bucket_name: Seq<char>,
    objects: Seq<BlobEntry<M>>,
    tombstones: Map<Seq<char>, ()>,
    key: Seq<char>,
)
    requires
        hidden(key, tombstones),
        !start.contains_key(key),
    ensures
        !shown_by_child(start, bucket_name, objects, tombstones).contains_key(key),
    decreases objects.len(),
{
    if objects.len() > 0 {
        lemma_child_hides(start, bucket_name, objects.drop_last(), tombstones, key);
    }
}

/// An object of the child is listed in place of the parent's under the same
/// key.
pub proof fn law_child_goes_before_parent<M>(
    bucket_name: Seq<char>,
    parent: Seq<BlobEntry<M>>,
    child: Seq<BlobEntry<M>>,
    tombstones: Map<Seq<char>, ()>,
    entry: BlobEntry<M>,
)
    requires
        !tombstones.contains_key(logical_key(bucket_name, entry.key@)),
        !overlay_own(logical_key(bucket_name, entry.key@)),
    ensures
        ({
            let map = shown(bucket_name, parent, child.push(entry), tombstones);
            let key = logical_key(bucket_name, entry.key@);
            map.contains_key(key) && map[key] == entry
        }),
{
    assert(child.push(entry).drop_last() =~= child);
}

/// An object of the parent is listed where the child has neither an object nor
/// a tombstone under its key.
pub proof fn law_parent_shows_through<M>(
    bucket_name: Seq<char>,
    parent: Seq<BlobEntry<M>>,
    child: Seq<BlobEntry<M>>,
    tombstones: Map<Seq<char>, ()>,
    key: Seq<char>,
)
    requires
        forall|i: int|
            0 <= i < child.len() ==> logical_key(bucket_name, (#[trigger] child[i]).key@) != key,
    ensures
        ({
            let through = shown_by_parent(Map::empty(), bucket_name, parent, tombstones);
            let map = shown(bucket_name, parent, child, tombstones);
            &&& map.contains_key(key) <==> through.contains_key(key)
            &&& map.contains_key(key) ==> map[key] == through[key]
        }),
    decreases child.len(),
{
    if child.len() > 0 {
        let rest = child.drop_last();
        assert forall|i: int| 0 <= i < rest.len() implies logical_key(
            bucket_name,
            (#[trigger] rest[i]).key@,
        ) != key by {
            assert(rest[i] == child[i]);
        }
        law_parent_shows_through(bucket_name, parent, rest, tombstones, key);
        assert(child.last() == child[child.len() - 1]);
    }
}

/// Where a read of one object goes next.
#[derive(Debug)]
pub enum ReadStep<T> {
    /// The read is over, with or without the object.
    Done(Option<T>),
    /// Ask the child.
    AskChild,
    /// Ask the parent.
    AskParent,
}

/// A read begins with the tombstone: a deleted object is not there.
pub fn read_begin<T>(tombstoned: bool) -> (step: ReadStep<T>)
    ensures
        step == if tombstoned {
            ReadStep::<T>::Done(None)
        } else {
            ReadStep::<T>::AskChild
        },
{
    if tombstoned {
        ReadStep::Done(None)
    } else {
        ReadStep::AskChild
    }
}

/// The child was asked. What it has is the answer; only where it has nothing
/// is the parent asked, if there is one.
pub fn read_child<T>(found: Option<T>, has_parent: bool) -> (step: ReadStep<T>)
    ensures
        step == match found {
            Some(found) => ReadStep::Done(Some(found)),
            None => if has_parent {
                ReadStep::AskParent
            } else {
                ReadStep::Done(None)
            },
        },
{
    match found {
        Some(found) => ReadStep::Done(Some(found)),
        None => if has_parent {
            ReadStep::AskParent
        } else {
            ReadStep::Done(None)
        },
    }
}

/// What a whole read comes to.
pub open spec fn overlay_read<T>(
    tombstoned: bool,
    child: Option<T>,
    parent: Option<Option<T>>,
) -> Option<T> {
    if tombstoned {
        None
    } else if child is Some {
        child
    } else {
        match parent {
            Some(found) => found,
            None => None,
        }
    }
}

/// What a whole read comes to, once everyone was asked: the child's object, or
/// else the parent's, but nothing that has a tombstone.
pub fn overlay_head_blob<T>(tombstoned: bool, child: Option<T>, parent: Option<Option<T>>) -> (found:
    Option<T>)
    ensures
        found == overlay_read(tombstoned, child, parent),
{
    match read_begin::<T>(tombstoned) {
        ReadStep::Done(found) => return found,
        _ => {},
    }
    match read_child(child, parent.is_some()) {
        ReadStep::Done(found) => found,
        _ => match parent {
            Some(found) => found,
            None => None,
        },
    }
}

/// A binding's objects, its pointer and its tombstones lie below its own prefix, and
/// an object's key reads back as the name that it was made from.
pub proof fn law_keys_lie_below_the_binding(
    bucket_name: &str,
    name: &str,
    prefix: String,
    pointer: String,
    object: String,
    tombstone: String,
    key: &str,
    read: String,
)
    requires
        call_ensures(r2_binding_prefix, (bucket_name,), prefix),
        call_ensures(r2_base_json_key, (bucket_name,), pointer),
        call_ensures(r2_object_key, (bucket_name, name), object),
        call_ensures(r2_tombstone_key, (bucket_name, name), tombstone),
        key@ == object@,
        call_ensures(logical, (bucket_name, key), read),
    ensures
        prefix@ == "r2/"@ + bucket_name@ + "/"@,
        pointer@ == prefix@ + "base.json"@,
        object@ == prefix@ + name@,
        tombstone@ == prefix@ + ".tombstones/"@ + name@,
        read@ == name@,
{
    law_logical_key_undoes_object_key(bucket_name@, name@);
    assert(tombstone@ =~= prefix@ + ".tombstones/"@ + name@);
}

/// A key that does not lie below the binding is known by itself.
pub proof fn law_foreign_key_is_known_by_itself(bucket_name: &str, key: &str, read: String)
    requires
        call_ensures(logical, (bucket_name, key), read),
        forall|rest: Seq<char>| key@ != #[trigger] ("r2/"@ + bucket_name@ + "/"@ + rest),
    ensures
        read@ == key@,
{
    reveal_strlit("");
    let prefix = object_key(bucket_name@, ""@);
    assert(prefix =~= "r2/"@ + bucket_name@ + "/"@);
    if text::has_prefix(key@, prefix) {
        let rest = key@.skip(prefix.len() as int);
        assert(key@ =~= "r2/"@ + bucket_name@ + "/"@ + rest);
    }
}

proof fn lemma_visible_is_a_filter<M>(
    bucket_name: Seq<char>,
    objects: Seq<BlobEntry<M>>,
    tombstones: Map<Seq<char>, ()>,
    wanted: spec_fn(BlobEntry<M>) -> bool,
)
    requires
        forall|entry: BlobEntry<M>| #[trigger]
            wanted(entry) <==> !is_tombstone(logical_key(bucket_name, entry.key@))
                && !tombstones.contains_key(logical_key(bucket_name, entry.key@)),
    ensures
        visible(bucket_name, objects, tombstones) == objects.filter(wanted),
    decreases objects.len(),
{
    reveal(Seq::filter);
    if objects.len() > 0 {
        lemma_visible_is_a_filter(bucket_name, objects.drop_last(), tombstones, wanted);
        assert(wanted(objects.last()) || !wanted(objects.last()));
    }
}

/// Without a parent a page lists every object that neither is a tombstone nor has
/// one, and no other, in the order of the page, and goes on where the page does.
pub proof fn law_plain_page_lists_what_is_not_deleted<M>(
    bucket_name: &str,
    child: BlobPage<M>,
    tombstones: Table<String, ()>,
    limit: usize,
    page: BlobPage<M>,
    at: int,
    key: &str,
    name: String,
)
    requires
        tombstones.wf(),
        call_ensures(
            list_overlay_page::<M>,
            (bucket_name, child, None, &tombstones, limit),
            page,
        ),
        0 <= at < child.objects@.len(),
        key@ == child.objects@[at].key@,
        call_ensures(logical, (bucket_name, key), name),
    ensures
        (forall|i: int| 0 <= i < 12 && i < name@.len() ==> #[trigger] name@[i] == ".tombstones/"@[i])
            && name@.len() >= 12 || tombstones@.contains_key(name@) || page.objects@.contains(
            child.objects@[at],
        ),
        page.objects@ == child.objects@.filter(
            |entry: BlobEntry<M>|
                !is_tombstone(logical_key(bucket_name@, entry.key@)) && !tombstones@.contains_key(
                    logical_key(bucket_name@, entry.key@),
                ),
        ),
        page.prefixes == child.prefixes,
        page.truncated == child.truncated,
        page.cursor == child.cursor,
{
    let wanted = |entry: BlobEntry<M>|
        !is_tombstone(logical_key(bucket_name@, entry.key@)) && !tombstones@.contains_key(
            logical_key(bucket_name@, entry.key@),
        );
    lemma_visible_is_a_filter(bucket_name@, child.objects@, tombstones@, wanted);
    broadcast use vstd::seq_lib::group_filter_ensures;
    reveal_strlit(".tombstones/");
    if is_tombstone(name@) {
        let start = name@.subrange(0, 12);
        assert forall|i: int| 0 <= i < 12 && i < name@.len() implies #[trigger] name@[i]
            == ".tombstones/"@[i] by {
            assert(start[i] == name@[i]);
        }
    } else if !tombstones@.contains_key(name@) {
        assert(wanted(child.objects@[at]));
        assert(child.objects@.filter(wanted).contains(child.objects@[at]));
    }
}

/// An object of the child that is not the overlay's own and has no tombstone, with
/// no other of the same key behind it, is shown as the child has it.
proof fn lemma_child_is_shown<M>(
    start: Map<Seq<char>, BlobEntry<M>>,
    bucket_name: Seq<char>,
    objects: Seq<BlobEntry<M>>,
    tombstones: Map<Seq<char>, ()>,
    at: int,
)
    requires
        0 <= at < objects.len(),
        !hidden(logical_key(bucket_name, objects[at].key@), tombstones),
        forall|i: int|
            at < i < objects.len() ==> logical_key(bucket_name, (#[trigger] objects[i]).key@)
                != logical_key(bucket_name, objects[at].key@),
    ensures
        ({
            let map = shown_by_child(start, bucket_name, objects, tombstones);
            let key = logical_key(bucket_name, objects[at].key@);
            map.contains_key(key) && map[key] == objects[at]
        }),
    decreases objects.len(),
{
    if at < objects.len() - 1 {
        let rest = objects.drop_last();
        assert(rest[at] == objects[at]);
        assert forall|i: int| at < i < rest.len() implies logical_key(
            bucket_name,
            (#[trigger] rest[i]).key@,
        ) != logical_key(bucket_name, rest[at].key@) by {
            assert(rest[i] == objects[i]);
        }
        lemma_child_is_shown(start, bucket_name, rest, tombstones, at);
        assert(objects[objects.len() - 1] == objects.last());
    }
}

proof fn lemma_parent_is_shown<M>(
    start: Map<Seq<char>, BlobEntry<M>>,
    bucket_name: Seq<char>,
    objects: Seq<BlobEntry<M>>,
    tombstones: Map<Seq<char>, ()>,
    at: int,
)
    requires
        0 <= at < objects.len(),
        !hidden(logical_key(bucket_name, objects[at].key@), tombstones),
        forall|i: int|
            at < i < objects.len() ==> logical_key(bucket_name, (#[trigger] objects[i]).key@)
                != logical_key(bucket_name, objects[at].key@),
    ensures
        ({
            let map = shown_by_parent(start, bucket_name, objects, tombstones);
            let key = logical_key(bucket_name, objects[at].key@);
            map.contains_key(key) && map[key] == objects[at]
        }),
    decreases objects.len(),
{
    if at < objects.len() - 1 {
        let rest = objects.drop_last();
        assert(rest[at] == objects[at]);
        assert forall|i: int| at < i < rest.len() implies logical_key(
            bucket_name,
            (#[trigger] rest[i]).key@,
        ) != logical_key(bucket_name, rest[at].key@) by {
            assert(rest[i] == objects[i]);
        }
        lemma_parent_is_shown(start, bucket_name, rest, tombstones, at);
        assert(objects[objects.len() - 1] == objects.last());
    }
}

proof fn lemma_shown_by_child_is_there<M>(
    start: Map<Seq<char>, BlobEntry<M>>,
    bucket_name: Seq<char>,
    objects: Seq<BlobEntry<M>>,
    tombstones: Map<Seq<char>, ()>,
    key: Seq<char>,
)
    requires
        shown_by_child(start, bucket_name, objects, tombstones).contains_key(key),
    ensures
        ({
            let entry = shown_by_child(start, bucket_name, objects, tombstones)[key];
            objects.contains(entry) || start.contains_key(key) && start[key] == entry
        }),
    decreases objects.len(),
{
    if objects.len() > 0 {
        let rest = objects.drop_last();
        let earlier = shown_by_child(start, bucket_name, rest, tombstones);
        let map = shown_by_child(start, bucket_name, objects, tombstones);
        if earlier.contains_key(key) && earlier[key] == map[key] {
            lemma_shown_by_child_is_there(start, bucket_name, rest, tombstones, key);
            if rest.contains(map[key]) {
                let i = choose|i: int| 0 <= i < rest.len() && rest[i] == map[key];
                assert(objects[i] == map[key]);
            }
        } else {
            assert(objects[objects.len() - 1] == map[key]);
        }
    }
}

proof fn lemma_shown_by_parent_is_there<M>(
    start: Map<Seq<char>, BlobEntry<M>>,
    bucket_name: Seq<char>,
    objects: Seq<BlobEntry<M>>,
    tombstones: Map<Seq<char>, ()>,
    key: Seq<char>,
)
    requires
        shown_by_parent(start, bucket_name, objects, tombstones).contains_key(key),
    ensures
        ({
            let entry = shown_by_parent(start, bucket_name, objects, tombstones)[key];
            objects.contains(entry) || start.contains_key(key) && start[key] == entry
        }),
    decreases objects.len(),
{
    if objects.len() > 0 {
        let rest = objects.drop_last();
        let earlier = shown_by_parent(start, bucket_name, rest, tombstones);
        let map = shown_by_parent(start, bucket_name, objects, tombstones);
        if earlier.contains_key(key) && earlier[key] == map[key] {
            lemma_shown_by_parent_is_there(start, bucket_name, rest, tombstones, key);
            if rest.contains(map[key]) {
                let i = choose|i: int| 0 <= i < rest.len() && rest[i] == map[key];
                assert(objects[i] == map[key]);
            }
        } else {
            assert(objects[objects.len() - 1] == map[key]);
        }
    }
}

/// Where a branched page has room it lists every object of the child, and every one
/// of the parent whose key the child has not, but for those with a tombstone and the
/// overlay's own: its pointer and the tombstones. Of two with one key the later
/// counts.
pub proof fn law_branched_page_lists_both<M>(
    bucket_name: &str,
    child: BlobPage<M>,
    parent: Vec<BlobEntry<M>>,
    tombstones: Table<String, ()>,
    limit: usize,
    page: BlobPage<M>,
    at: int,
)
    requires
        tombstones.wf(),
        call_ensures(
            list_overlay_page::<M>,
            (bucket_name, child, Some(parent), &tombstones, limit),
            page,
        ),
        page.objects@.len() < limit,
    ensures
        ({
            let key = logical_key(bucket_name@, child.objects@[at].key@);
            0 <= at < child.objects@.len() && !tombstones@.contains_key(key) && key != "base.json"@
                && !text::has_prefix(key, ".tombstones/"@) && (forall|i: int|
                at < i < child.objects@.len() ==> logical_key(
                    bucket_name@,
                    (#[trigger] child.objects@[i]).key@,
                ) != key) ==> page.objects@.contains(child.objects@[at])
        }),
        ({
            let key = logical_key(bucket_name@, parent@[at].key@);
            0 <= at < parent@.len() && !tombstones@.contains_key(key) && key != "base.json"@
                && !text::has_prefix(key, ".tombstones/"@) && (forall|i: int|
                at < i < parent@.len() ==> logical_key(bucket_name@, (#[trigger] parent@[i]).key@)
                    != key) && (forall|i: int|
                0 <= i < child.objects@.len() ==> logical_key(
                    bucket_name@,
                    (#[trigger] child.objects@[i]).key@,
                ) != key) ==> page.objects@.contains(parent@[at])
        }),
{
    let map = shown(bucket_name@, parent@, child.objects@, tombstones@);
    let empty = Map::<Seq<char>, BlobEntry<M>>::empty();
    let through = shown_by_parent(empty, bucket_name@, parent@, tombstones@);
    let child_key = logical_key(bucket_name@, child.objects@[at].key@);
    if 0 <= at < child.objects@.len() && !tombstones@.contains_key(child_key) && child_key
        != "base.json"@ && !text::has_prefix(child_key, ".tombstones/"@) && (forall|i: int|
        at < i < child.objects@.len() ==> logical_key(
            bucket_name@,
            (#[trigger] child.objects@[i]).key@,
        ) != child_key) {
        lemma_child_is_shown(through, bucket_name@, child.objects@, tombstones@, at);
        assert(map.contains_key(child_key));
        assert(listed_at(bucket_name@, page.objects@, child_key));
    }
    let parent_key = logical_key(bucket_name@, parent@[at].key@);
    if 0 <= at < parent@.len() && !tombstones@.contains_key(parent_key) && parent_key
        != "base.json"@ && !text::has_prefix(parent_key, ".tombstones/"@) && (forall|i: int|
        at < i < parent@.len() ==> logical_key(bucket_name@, (#[trigger] parent@[i]).key@)
            != parent_key) && (forall|i: int|
        0 <= i < child.objects@.len() ==> logical_key(
            bucket_name@,
            (#[trigger] child.objects@[i]).key@,
        ) != parent_key) {
        lemma_parent_is_shown(empty, bucket_name@, parent@, tombstones@, at);
        law_parent_shows_through(
            bucket_name@,
            parent@,
            child.objects@,
            tombstones@,
            parent_key,
        );
        assert(map.contains_key(parent_key));
        assert(listed_at(bucket_name@, page.objects@, parent_key));
    }
}

/// A branched page lists nothing but objects of the two, no two of one key, in the
/// order of their keys and no more than it may; nothing with a tombstone and nothing
/// of the overlay's own. It is cut off exactly where it is full, and goes on behind
/// its last key.
pub proof fn law_branched_page_lists_nothing_else<M>(
    bucket_name: &str,
    child: BlobPage<M>,
    parent: Vec<BlobEntry<M>>,
    tombstones: Table<String, ()>,
    limit: usize,
    page: BlobPage<M>,
    at: int,
    other: int,
)
    requires
        tombstones.wf(),
        call_ensures(
            list_overlay_page::<M>,
            (bucket_name, child, Some(parent), &tombstones, limit),
            page,
        ),
        0 <= at < page.objects@.len(),
    ensures
        child.objects@.contains(page.objects@[at]) || parent@.contains(page.objects@[at]),
        ({
            let key = logical_key(bucket_name@, page.objects@[at].key@);
            &&& !tombstones@.contains_key(key)
            &&& key != "base.json"@
            &&& !text::has_prefix(key, ".tombstones/"@)
        }),
        at < other < page.objects@.len() ==> table::text_before(
            logical_key(bucket_name@, page.objects@[at].key@),
            logical_key(bucket_name@, page.objects@[other].key@),
        ),
        page.objects@.len() <= limit,
        page.truncated <==> page.objects@.len() == limit,
        page.prefixes == child.prefixes,
        page.cursor matches Some(cursor) && cursor@ == logical_key(
            bucket_name@,
            page.objects@.last().key@,
        ),
{
    let empty = Map::<Seq<char>, BlobEntry<M>>::empty();
    let through = shown_by_parent(empty, bucket_name@, parent@, tombstones@);
    let key = logical_key(bucket_name@, page.objects@[at].key@);
    lemma_shown_by_child_is_there(through, bucket_name@, child.objects@, tombstones@, key);
    if !child.objects@.contains(page.objects@[at]) {
        lemma_shown_by_parent_is_there(empty, bucket_name@, parent@, tombstones@, key);
    }
    if hidden(key, tombstones@) {
        lemma_hidden_is_not_shown(bucket_name@, parent@, child.objects@, tombstones@, key);
    }
}

/// An object of both that the child has is listed as the child's.
pub proof fn law_branched_page_prefers_the_child<M>(
    bucket_name: &str,
    child: BlobPage<M>,
    parent: Vec<BlobEntry<M>>,
    tombstones: Table<String, ()>,
    limit: usize,
    page: BlobPage<M>,
    at: int,
    of: int,
)
    requires
        tombstones.wf(),
        call_ensures(
            list_overlay_page::<M>,
            (bucket_name, child, Some(parent), &tombstones, limit),
            page,
        ),
        0 <= at < page.objects@.len(),
        0 <= of < child.objects@.len(),
        logical_key(bucket_name@, child.objects@[of].key@) == logical_key(
            bucket_name@,
            page.objects@[at].key@,
        ),
        forall|i: int|
            of < i < child.objects@.len() ==> logical_key(
                bucket_name@,
                (#[trigger] child.objects@[i]).key@,
            ) != logical_key(bucket_name@, child.objects@[of].key@),
    ensures
        page.objects@[at] == child.objects@[of],
{
    let empty = Map::<Seq<char>, BlobEntry<M>>::empty();
    let through = shown_by_parent(empty, bucket_name@, parent@, tombstones@);
    let key = logical_key(bucket_name@, page.objects@[at].key@);
    if hidden(key, tombstones@) {
        lemma_hidden_is_not_shown(bucket_name@, parent@, child.objects@, tombstones@, key);
    }
    lemma_child_is_shown(through, bucket_name@, child.objects@, tombstones@, of);
}

/// A full page leaves out only what comes behind all that it lists.
pub proof fn law_full_page_is_the_start<M>(
    bucket_name: &str,
    child: BlobPage<M>,
    parent: Vec<BlobEntry<M>>,
    tombstones: Table<String, ()>,
    limit: usize,
    page: BlobPage<M>,
    of: int,
    at: int,
)
    requires
        tombstones.wf(),
        call_ensures(
            list_overlay_page::<M>,
            (bucket_name, child, Some(parent), &tombstones, limit),
            page,
        ),
        0 <= of < child.objects@.len(),
        !tombstones@.contains_key(logical_key(bucket_name@, child.objects@[of].key@)),
        logical_key(bucket_name@, child.objects@[of].key@) != "base.json"@,
        !text::has_prefix(logical_key(bucket_name@, child.objects@[of].key@), ".tombstones/"@),
        forall|i: int|
            of < i < child.objects@.len() ==> logical_key(
                bucket_name@,
                (#[trigger] child.objects@[i]).key@,
            ) != logical_key(bucket_name@, child.objects@[of].key@),
        0 <= at < page.objects@.len(),
    ensures
        page.objects@.contains(child.objects@[of]) || page.objects@.len() == limit
            && table::text_before(
            logical_key(bucket_name@, page.objects@[at].key@),
            logical_key(bucket_name@, child.objects@[of].key@),
        ),
{
    let map = shown(bucket_name@, parent@, child.objects@, tombstones@);
    let empty = Map::<Seq<char>, BlobEntry<M>>::empty();
    let through = shown_by_parent(empty, bucket_name@, parent@, tombstones@);
    let key = logical_key(bucket_name@, child.objects@[of].key@);
    lemma_child_is_shown(through, bucket_name@, child.objects@, tombstones@, of);
    assert(map.contains_key(key));
    if listed_at(bucket_name@, page.objects@, key) {
        let i = choose|i: int|
            0 <= i < page.objects@.len() && logical_key(
                bucket_name@,
                (#[trigger] page.objects@[i]).key@,
            ) == key;
        assert(page.objects@[i] == child.objects@[of]);
    }
}

/// A read gives what the child has, or else what the parent has, and nothing where
/// there is a tombstone; the child is asked unless there is one, and the parent only
/// where the child has nothing.
pub proof fn law_read_falls_through_to_the_parent<T>(
    tombstoned: bool,
    begin: ReadStep<T>,
    child: Option<T>,
    has_parent: bool,
    step: ReadStep<T>,
    parent: Option<Option<T>>,
    found: Option<T>,
)
    requires
        call_ensures(read_begin::<T>, (tombstoned,), begin),
        call_ensures(read_child::<T>, (child, has_parent), step),
        call_ensures(overlay_head_blob::<T>, (tombstoned, child, parent), found),
    ensures
        tombstoned ==> begin == ReadStep::<T>::Done(None) && found is None,
        !tombstoned ==> begin is AskChild,
        child is Some ==> step == ReadStep::<T>::Done(child),
        child is None && has_parent ==> step is AskParent,
        child is None && !has_parent ==> step == ReadStep::<T>::Done(None),
        !tombstoned && child is Some ==> found == child,
        !tombstoned && child is None && parent is Some ==> found == parent->0,
        !tombstoned && child is None && parent is None ==> found is None,
{
}

/// A branched page that lists nothing has no cursor, and is cut off only where it may
/// list nothing.
pub proof fn law_empty_page_has_no_cursor<M>(
    bucket_name: &str,
    child: BlobPage<M>,
    parent: Vec<BlobEntry<M>>,
    tombstones: Table<String, ()>,
    limit: usize,
    page: BlobPage<M>,
)
    requires
        tombstones.wf(),
        call_ensures(
            list_overlay_page::<M>,
            (bucket_name, child, Some(parent), &tombstones, limit),
            page,
        ),
    ensures
        page.objects@.len() == 0 ==> page.cursor is None,
        page.truncated <==> page.objects@.len() == limit,
        limit == 0 ==> page.objects@.len() == 0,
        page.prefixes == child.prefixes,
{
}

/// A full page leaves out an object of the parent too only where it comes behind all
/// that the page lists.
pub proof fn law_full_page_is_the_start_of_both<M>(
    bucket_name: &str,
    child: BlobPage<M>,
    parent: Vec<BlobEntry<M>>,
    tombstones: Table<String, ()>,
    limit: usize,
    page: BlobPage<M>,
    of: int,
    at: int,
)
    requires
        tombstones.wf(),
        call_ensures(
            list_overlay_page::<M>,
            (bucket_name, child, Some(parent), &tombstones, limit),
            page,
        ),
        0 <= of < parent@.len(),
        !tombstones@.contains_key(logical_key(bucket_name@, parent@[of].key@)),
        logical_key(bucket_name@, parent@[of].key@) != "base.json"@,
        !text::has_prefix(logical_key(bucket_name@, parent@[of].key@), ".tombstones/"@),
        forall|i: int|
            of < i < parent@.len() ==> logical_key(bucket_name@, (#[trigger] parent@[i]).key@)
                != logical_key(bucket_name@, parent@[of].key@),
        forall|i: int|
            0 <= i < child.objects@.len() ==> logical_key(
                bucket_name@,
                (#[trigger] child.objects@[i]).key@,
            ) != logical_key(bucket_name@, parent@[of].key@),
        0 <= at < page.objects@.len(),
    ensures
        page.objects@.contains(parent@[of]) || page.objects@.len() == limit && table::text_before(
            logical_key(bucket_name@, page.objects@[at].key@),
            logical_key(bucket_name@, parent@[of].key@),
        ),
{
    let map = shown(bucket_name@, parent@, child.objects@, tombstones@);
    let empty = Map::<Seq<char>, BlobEntry<M>>::empty();
    let key = logical_key(bucket_name@, parent@[of].key@);
    lemma_parent_is_shown(empty, bucket_name@, parent@, tombstones@, of);
    law_parent_shows_through(bucket_name@, parent@, child.objects@, tombstones@, key);
    assert(map.contains_key(key));
    if listed_at(bucket_name@, page.objects@, key) {
        let i = choose|i: int|
            0 <= i < page.objects@.len() && logical_key(
                bucket_name@,
                (#[trigger] page.objects@[i]).key@,
            ) == key;
        assert(page.objects@[i] == parent@[of]);
    }
}

} // verus!
