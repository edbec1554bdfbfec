//! Maps that keep their keys in order.
//!
//! A [`Table`] is a vector of entries whose keys strictly ascend, so walking it
//! visits the keys in order and no key occurs twice.

use vstd::prelude::*;
use vstd::string::*;
use crate::text::chars_of;

verus! {

/// How one key stands to another.
pub enum Order {
    Less,
    Same,
    Greater,
}

/// A key with a strict total order on what it stands for.
pub trait SortKey: Sized {
    /// What the key stands for.
    type Value;

    /// What this key stands for.
    spec fn key(&self) -> Self::Value;

    /// Does `left` come before `right`?
    spec fn before(left: Self::Value, right: Self::Value) -> bool;

    /// Nothing comes before itself.
    proof fn irreflexive(value: Self::Value)
        ensures
            !Self::before(value, value),
    ;

    /// The order is transitive.
    proof fn transitive(low: Self::Value, mid: Self::Value, high: Self::Value)
        requires
            Self::before(low, mid),
            Self::before(mid, high),
        ensures
            Self::before(low, high),
    ;

    /// Of two different values one comes first.
    proof fn total(left: Self::Value, right: Self::Value)
        ensures
            left == right || Self::before(left, right) || Self::before(right, left),
    ;

    /// Which of the two comes first?
    fn order(&self, other: &Self) -> (order: Order)
        ensures
            order is Less <==> Self::before(self.key(), other.key()),
            order is Same <==> self.key() == other.key(),
            order is Greater <==> Self::before(other.key(), self.key()),
    ;
}

/// Character by character, a beginning before what goes on.
pub open spec fn text_before(left: Seq<char>, right: Seq<char>) -> bool
    decreases left.len(),
{
    if right.len() == 0 {
        false
    } else if left.len() == 0 {
        true
    } else if left[0] == right[0] {
        text_before(left.drop_first(), right.drop_first())
    } else {
        left[0] < right[0]
    }
}

proof fn lemma_text_irreflexive(text: Seq<char>)
    ensures
        !text_before(text, text),
    decreases text.len(),
{
    if text.len() > 0 {
        lemma_text_irreflexive(text.drop_first());
    }
}

proof fn lemma_text_transitive(low: Seq<char>, mid: Seq<char>, high: Seq<char>)
    requires
        text_before(low, mid),
        text_before(mid, high),
    ensures
        text_before(low, high),
    decreases low.len(),
{
    if low.len() > 0 && low[0] == mid[0] && mid[0] == high[0] {
        lemma_text_transitive(low.drop_first(), mid.drop_first(), high.drop_first());
    }
}

proof fn lemma_text_total(left: Seq<char>, right: Seq<char>)
    ensures
        left == right || text_before(left, right) || text_before(right, left),
    decreases left.len(),
{
    if left.len() == 0 {
        assert(right.len() == 0 ==> left =~= right);
    } else if right.len() > 0 && left[0] == right[0] {
        lemma_text_total(left.drop_first(), right.drop_first());
        if left.drop_first() == right.drop_first() {
            assert(left =~= seq![left[0]] + left.drop_first());
            assert(right =~= seq![right[0]] + right.drop_first());
        }
    }
}

/// Which of two strings comes first?
pub fn text_order(left: &str, right: &str) -> (order: Order)
    ensures
        order is Less <==> text_before(left@, right@),
        order is Same <==> left@ == right@,
        order is Greater <==> text_before(right@, left@),
{
    let a = chars_of(left);
    let b = chars_of(right);
    proof {
        lemma_text_irreflexive(left@);
        lemma_text_irreflexive(right@);
        if text_before(left@, right@) && text_before(right@, left@) {
            lemma_text_transitive(left@, right@, left@);
        }
    }
    let mut at: usize = 0;
    assert(a@.skip(0) =~= a@ && b@.skip(0) =~= b@);
    while at < a.len() && at < b.len() && a[at] == b[at]
        invariant
            at <= a@.len(),
            at <= b@.len(),
            a@.take(at as int) == b@.take(at as int),
            text_before(left@, right@) == text_before(a@.skip(at as int), b@.skip(at as int)),
            text_before(right@, left@) == text_before(b@.skip(at as int), a@.skip(at as int)),
        decreases a@.len() - at,
    {
        assert(a@.skip(at as int).drop_first() =~= a@.skip(at + 1));
        assert(b@.skip(at as int).drop_first() =~= b@.skip(at + 1));
        assert(a@.take(at + 1) =~= a@.take(at as int).push(a@[at as int]));
        assert(b@.take(at + 1) =~= b@.take(at as int).push(b@[at as int]));
        at = at + 1;
    }
    if at == a.len() {
        if at == b.len() {
            assert(a@.take(at as int) =~= a@ && b@.take(at as int) =~= b@);
            Order::Same
        } else {
            Order::Less
        }
    } else if at == b.len() {
        Order::Greater
    } else if a[at] < b[at] {
        Order::Less
    } else {
        Order::Greater
    }
}

impl SortKey for String {
    type Value = Seq<char>;

    open spec fn key(&self) -> Seq<char> {
        self@
    }

    open spec fn before(left: Seq<char>, right: Seq<char>) -> bool {
        text_before(left, right)
    }

    proof fn irreflexive(value: Seq<char>) {
        lemma_text_irreflexive(value);
        assert(!Self::before(value, value));
    }

    proof fn transitive(low: Seq<char>, mid: Seq<char>, high: Seq<char>) {
        lemma_text_transitive(low, mid, high);
    }

    proof fn total(left: Seq<char>, right: Seq<char>) {
        lemma_text_total(left, right);
    }

    fn order(&self, other: &Self) -> Order {
        text_order(self.as_str(), other.as_str())
    }
}

impl SortKey for u64 {
    type Value = u64;

    open spec fn key(&self) -> u64 {
        *self
    }

    open spec fn before(left: u64, right: u64) -> bool {
        left < right
    }

    proof fn irreflexive(value: u64) {
    }

    proof fn transitive(low: u64, mid: u64, high: u64) {
    }

    proof fn total(left: u64, right: u64) {
    }

    fn order(&self, other: &Self) -> Order {
        if *self < *other {
            Order::Less
        } else if *self == *other {
            Order::Same
        } else {
            Order::Greater
        }
    }
}

/// A map from keys to values that is walked in the order of its keys.
pub struct Table<K: SortKey, V> {
    pub entries: Vec<(K, V)>,
}

impl<K: SortKey, V> Table<K, V> {
    /// Do the keys strictly ascend?
    pub open spec fn wf(self) -> bool {
        forall|i: int, j: int|
            0 <= i < j < self.entries@.len() ==> K::before(
                #[trigger] self.entries@[i].0.key(),
                #[trigger] self.entries@[j].0.key(),
            )
    }

    /// Is there an entry under `key`?
    pub open spec fn has(self, key: K::Value) -> bool {
        exists|i: int| 0 <= i < self.entries@.len() && #[trigger] self.entries@[i].0.key() == key
    }

    /// The place of the entry under `key`.
    pub open spec fn place(self, key: K::Value) -> int {
        choose|i: int| 0 <= i < self.entries@.len() && #[trigger] self.entries@[i].0.key() == key
    }

    /// The map that the entries make up.
    pub open spec fn view(self) -> Map<K::Value, V> {
        Map::new(|key: K::Value| self.has(key), |key: K::Value| self.entries@[self.place(key)].1)
    }

    /// In a table that is in order a key has one place.
    pub proof fn lemma_place(self, at: int)
        requires
            self.wf(),
            0 <= at < self.entries@.len(),
        ensures
            self.has(self.entries@[at].0.key()),
            self.place(self.entries@[at].0.key()) == at,
            self@.contains_key(self.entries@[at].0.key()),
            self@[self.entries@[at].0.key()] == self.entries@[at].1,
    {
        let key = self.entries@[at].0.key();
        let place = self.place(key);
        assert(self.entries@[place].0.key() == key);
        K::irreflexive(key);
    }

    pub fn new() -> (table: Self)
        ensures
            table.wf(),
            table@ == Map::<K::Value, V>::empty(),
            table.entries@ == Seq::<(K, V)>::empty(),
    {
        let table = Table { entries: Vec::new() };
        assert(table@ =~= Map::<K::Value, V>::empty());
        table
    }

    /// The place of `key`, or the place where it would stand.
    fn search(&self, key: &K) -> (found: (bool, usize))
        requires
            self.wf(),
        ensures
            found.1 <= self.entries@.len(),
            found.0 == self@.contains_key(key.key()),
            found.0 ==> found.1 < self.entries@.len() && self.entries@[found.1 as int].0.key()
                == key.key(),
            forall|i: int|
                0 <= i < found.1 ==> K::before(
                    #[trigger] self.entries@[i].0.key(),
                    key.key(),
                ),
            forall|i: int|
                found.1 < i < self.entries@.len() ==> K::before(
                    key.key(),
                    #[trigger] self.entries@[i].0.key(),
                ),
            !found.0 && found.1 < self.entries@.len() ==> K::before(
                key.key(),
                self.entries@[found.1 as int].0.key(),
            ),
    {
        let mut at: usize = 0;
        while at < self.entries.len()
            invariant
                self.wf(),
                at <= self.entries@.len(),
                forall|i: int|
                    0 <= i < at ==> K::before(#[trigger] self.entries@[i].0.key(), key.key()),
            decreases self.entries@.len() - at,
        {
            match key.order(&self.entries[at].0) {
                Order::Less => {
                    proof {
                        assert forall|i: int| at < i < self.entries@.len() implies K::before(
                            key.key(),
                            #[trigger] self.entries@[i].0.key(),
                        ) by {
                            K::transitive(
                                key.key(),
                                self.entries@[at as int].0.key(),
                                self.entries@[i].0.key(),
                            );
                        }
                        if self.has(key.key()) {
                            let place = self.place(key.key());
                            assert(self.entries@[place].0.key() == key.key());
                            K::irreflexive(key.key());
                        }
                    }
                    return (false, at);
                },
                Order::Same => {
                    assert(self.has(key.key()));
                    return (true, at);
                },
                Order::Greater => {
                    at = at + 1;
                },
            }
        }
        proof {
            if self.has(key.key()) {
                let place = self.place(key.key());
                assert(self.entries@[place].0.key() == key.key());
                K::irreflexive(key.key());
            }
        }
        (false, at)
    }

    pub fn contains(&self, key: &K) -> (found: bool)
        requires
            self.wf(),
        ensures
            found == self@.contains_key(key.key()),
    {
        self.search(key).0
    }

    pub fn get(&self, key: &K) -> (value: Option<&V>)
        requires
            self.wf(),
        ensures
            value is Some <==> self@.contains_key(key.key()),
            value matches Some(value) ==> *value == self@[key.key()],
    {
        let (found, at) = self.search(key);
        if found {
            proof {
                self.lemma_place(at as int);
            }
            Some(&self.entries[at].1)
        } else {
            None
        }
    }

    /// Enter `value` under `key`, in place of what stood there.
    pub fn insert(&mut self, key: K, value: V)
        requires
            old(self).wf(),
        ensures
            final(self).wf(),
            final(self)@ == old(self)@.insert(key.key(), value),
    {
        let (found, at) = self.search(&key);
        let ghost before = *self;
        if found {
            let _ = self.entries.remove(at);
            proof {
                assert(self.entries@ =~= before.entries@.remove(at as int));
            }
        }
        self.entries.insert(at, (key, value));
        proof {
            let after = *self;
            assert forall|i: int, j: int| 0 <= i < j < after.entries@.len() implies K::before(
                #[trigger] after.entries@[i].0.key(),
                #[trigger] after.entries@[j].0.key(),
            ) by {
                let skip: int = if found { 0 } else { 1 };
                let oi = if i > at { i - skip } else { i };
                let oj = if j > at { j - skip } else { j };
                if i != at {
                    assert(after.entries@[i] == before.entries@[oi]);
                }
                if j != at {
                    assert(after.entries@[j] == before.entries@[oj]);
                }
            }
            assert(after.entries@[at as int] == (key, value));
            assert forall|other: K::Value| #[trigger] after.has(other) == (before.has(other) || other == key.key()) by {
                if after.has(other) {
                    let place = after.place(other);
                    let skip: int = if found { 0 } else { 1 };
                    if place != at {
                        let back = if place > at { place - skip } else { place };
                        assert(before.entries@[back].0.key() == other);
                    }
                }
                if before.has(other) {
                    let place = before.place(other);
                    let skip: int = if found { 0 } else { 1 };
                    if found && place == at {
                        assert(after.entries@[at as int].0.key() == other);
                    } else {
                        let forth = if place >= at { place + skip } else { place };
                        assert(after.entries@[forth].0.key() == other);
                    }
                }
                if other == key.key() {
                    assert(after.entries@[at as int].0.key() == other);
                }
            }
            assert forall|other: K::Value| after@.contains_key(other) implies #[trigger] after@[other]
                == before@.insert(key.key(), value)[other] by {
                let place = after.place(other);
                assert(after.entries@[place].0.key() == other);
                after.lemma_place(place);
                if place != at {
                    let skip: int = if found { 0 } else { 1 };
                    let back = if place > at { place - skip } else { place };
                    assert(before.entries@[back] == after.entries@[place]);
                    before.lemma_place(back);
                    K::irreflexive(other);
                }
            }
            assert(after@ =~= before@.insert(key.key(), value));
        }
    }

    /// Take out what stands under `key`.
    pub fn remove(&mut self, key: &K) -> (value: Option<V>)
        requires
            old(self).wf(),
        ensures
            final(self).wf(),
            final(self)@ == old(self)@.remove(key.key()),
            value is Some <==> old(self)@.contains_key(key.key()),
            value matches Some(value) ==> value == old(self)@[key.key()],
    {
        let (found, at) = self.search(key);
        let ghost before = *self;
        if !found {
            assert(self@ =~= before@.remove(key.key()));
            return None;
        }
        let entry = self.entries.remove(at);
        proof {
            let after = *self;
            assert(after.entries@ =~= before.entries@.remove(at as int));
            before.lemma_place(at as int);
            assert(after.wf());
            assert forall|other: K::Value| #[trigger] after.has(other) == (before.has(other) && other != key.key()) by {
                if after.has(other) {
                    let place = after.place(other);
                    let back = if place >= at { place + 1 } else { place };
                    assert(before.entries@[back].0.key() == other);
                    before.lemma_place(back);
                }
                if before.has(other) && other != key.key() {
                    let place = before.place(other);
                    assert(before.entries@[place].0.key() == other);
                    let forth = if place > at { place - 1 } else { place };
                    assert(after.entries@[forth].0.key() == other);
                }
            }
            assert forall|other: K::Value| after@.contains_key(other) implies #[trigger] after@[other]
                == before@[other] by {
                let place = after.place(other);
                assert(after.entries@[place].0.key() == other);
                let back = if place >= at { place + 1 } else { place };
                assert(before.entries@[back].0.key() == other);
                before.lemma_place(back);
            }
            assert(after@ =~= before@.remove(key.key()));
        }
        Some(entry.1)
    }

    /// Take out the last entry.
    pub fn take_last(&mut self) -> (entry: Option<(K, V)>)
        requires
            old(self).wf(),
        ensures
            final(self).wf(),
            old(self).entries@.len() == 0 ==> entry is None,
            entry matches Some((key, value)) ==> {
                &&& old(self)@.contains_key(key.key())
                &&& old(self)@[key.key()] == value
                &&& final(self)@ == old(self)@.remove(key.key())
                &&& final(self).entries@ == old(self).entries@.drop_last()
            },
            entry is None ==> old(self).entries@.len() == 0,
    {
        let ghost before = *self;
        match self.entries.pop() {
            None => None,
            Some((key, value)) => {
                proof {
                    let after = *self;
                    let last = before.entries@.len() - 1;
                    assert(after.entries@ =~= before.entries@.drop_last());
                    assert(before.entries@[last] == (key, value));
                    before.lemma_place(last);
                    assert forall|i: int, j: int| 0 <= i < j < after.entries@.len() implies K::before(
                        #[trigger] after.entries@[i].0.key(),
                        #[trigger] after.entries@[j].0.key(),
                    ) by {
                        assert(after.entries@[i] == before.entries@[i]);
                        assert(after.entries@[j] == before.entries@[j]);
                    }
                    assert forall|other: K::Value| #[trigger] after.has(other) == (before.has(other)
                        && other != key.key()) by {
                        if after.has(other) {
                            let place = after.place(other);
                            assert(before.entries@[place].0.key() == other);
                            before.lemma_place(place);
                        }
                        if before.has(other) && other != key.key() {
                            let place = before.place(other);
                            assert(before.entries@[place].0.key() == other);
                            assert(after.entries@[place].0.key() == other);
                        }
                    }
                    assert forall|other: K::Value| after@.contains_key(other) implies #[trigger] after@[other]
                        == before@[other] by {
                        let place = after.place(other);
                        assert(after.entries@[place].0.key() == other);
                        assert(before.entries@[place].0.key() == other);
                        before.lemma_place(place);
                    }
                    assert(after@ =~= before@.remove(key.key()));
                }
                Some((key, value))
            },
        }
    }

    /// A table without entries is the empty map.
    pub proof fn lemma_empty(self)
        requires
            self.entries@.len() == 0,
        ensures
            self@ == Map::<K::Value, V>::empty(),
    {
        assert(self@ =~= Map::<K::Value, V>::empty());
    }

    /// Enter every entry of `other`, in place of what stood there.
    pub fn absorb(&mut self, other: Self)
        requires
            old(self).wf(),
            other.wf(),
        ensures
            final(self).wf(),
            final(self)@ == old(self)@.union_prefer_right(other@),
    {
        let ghost before = self@;
        let ghost all = other@;
        let mut rest = other;
        assert(self@ =~= before.union_prefer_right(all.remove_keys(rest@.dom())));
        while rest.entries.len() > 0
            invariant
                self.wf(),
                rest.wf(),
                all == other@,
                rest@.submap_of(all),
                self@ == before.union_prefer_right(all.remove_keys(rest@.dom())),
            decreases rest.entries@.len(),
        {
            let ghost earlier = rest@;
            if let Some((key, value)) = rest.take_last() {
                self.insert(key, value);
                proof {
                    assert(all[key.key()] == value);
                    assert(all.remove_keys(rest@.dom()) =~= all.remove_keys(earlier.dom()).insert(
                        key.key(),
                        value,
                    ));
                    assert(self@ =~= before.union_prefer_right(all.remove_keys(rest@.dom())));
                }
            }
        }
        proof {
            rest.lemma_empty();
            assert(all.remove_keys(rest@.dom()) =~= all);
        }
    }
}

/// Two texts are ordered by the first character in which they differ, and a text
/// comes before every longer one that begins with it.
pub proof fn law_texts_go_by_their_first_difference(
    left: &str,
    right: &str,
    order: Order,
    at: int,
)
    requires
        call_ensures(text_order, (left, right), order),
        0 <= at <= left@.len(),
        at <= right@.len(),
        forall|i: int| 0 <= i < at ==> #[trigger] left@[i] == right@[i],
    ensures
        at < left@.len() && at < right@.len() && left@[at] < right@[at]
            ==> order is Less,
        at < left@.len() && at < right@.len() && left@[at] > right@[at]
            ==> order is Greater,
        at == left@.len() && at < right@.len() ==> order is Less,
        at < left@.len() && at == right@.len() ==> order is Greater,
        at == left@.len() && at == right@.len() ==> order is Same,
{
    lemma_text_before_at(left@, right@, at);
    lemma_text_before_at(right@, left@, at);
    if at == left@.len() && at == right@.len() {
        assert(left@ =~= right@);
    }
}

proof fn lemma_text_before_at(left: Seq<char>, right: Seq<char>, at: int)
    requires
        0 <= at <= left.len(),
        at <= right.len(),
        forall|i: int| 0 <= i < at ==> #[trigger] left[i] == right[i],
    ensures
        at < left.len() && at < right.len() && left[at] != right[at] ==> (text_before(left, right)
            <==> left[at] < right[at]),
        at == left.len() ==> (text_before(left, right) <==> at < right.len()),
        at == right.len() ==> !text_before(left, right),
    decreases at,
{
    if at > 0 {
        assert(left[0] == right[0]);
        assert forall|i: int| 0 <= i < at - 1 implies #[trigger] left.drop_first()[i]
            == right.drop_first()[i] by {
            assert(left[i + 1] == right[i + 1]);
        }
        lemma_text_before_at(left.drop_first(), right.drop_first(), at - 1);
    }
}

/// Numbers are ordered by their size.
pub proof fn law_numbers_go_by_size(left: u64, right: u64, order: Order)
    requires
        call_ensures(<u64 as SortKey>::order, (&left, &right), order),
    ensures
        order is Less <==> left < right,
        order is Same <==> left == right,
        order is Greater <==> left > right,
{
}

/// A table finds the value of an entry under its key, and nothing under a key that
/// no entry has.
pub proof fn law_table_finds_its_entries<K: SortKey, V>(
    table: Table<K, V>,
    key: K,
    found: bool,
    value: Option<&V>,
    at: int,
)
    requires
        table.wf(),
        call_ensures(Table::<K, V>::contains, (&table, &key), found),
        call_ensures(Table::<K, V>::get, (&table, &key), value),
    ensures
        found <==> value is Some,
        0 <= at < table.entries@.len() && table.entries@[at].0.key() == key.key() ==> (
        value matches Some(value) && *value == table.entries@[at].1),
        found ==> exists|i: int|
            0 <= i < table.entries@.len() && (#[trigger] table.entries@[i]).0.key() == key.key(),
{
    if 0 <= at < table.entries@.len() {
        table.lemma_place(at);
    }
    if found {
        let place = table.place(key.key());
        assert(table.entries@[place].0.key() == key.key());
    }
}

/// What was entered is found, what was taken out is not, and every other entry
/// stays.
pub proof fn law_table_keeps_its_other_entries<K: SortKey, V>(
    entering: &mut Table<K, V>,
    key: K,
    value: V,
    taking: &mut Table<K, V>,
    gone: K,
    taken: Option<V>,
    other: K,
    before: Option<&V>,
    after: Option<&V>,
    left: Option<&V>,
    entered: Option<&V>,
    missing: bool,
)
    requires
        old(entering).wf(),
        *old(taking) == *old(entering),
        call_ensures(Table::<K, V>::insert, (entering, key, value), ()),
        call_ensures(Table::<K, V>::remove, (taking, &gone), taken),
        call_ensures(Table::<K, V>::get, (old(entering), &other), before),
        call_ensures(Table::<K, V>::get, (final(entering), &other), after),
        call_ensures(Table::<K, V>::get, (final(taking), &other), left),
        call_ensures(Table::<K, V>::get, (final(entering), &key), entered),
        call_ensures(Table::<K, V>::contains, (final(taking), &gone), missing),
    ensures
        entered matches Some(entered) && *entered == value,
        !missing,
        other.key() != key.key() ==> after == before,
        other.key() != gone.key() ==> left == before,
        other.key() == gone.key() ==> (taken is Some <==> before is Some) && (taken matches Some(
            taken,
        ) ==> *before->0 == taken),
{
}

/// The last entry is taken from the end, and an empty table has none.
pub proof fn law_last_entry_is_taken<K: SortKey, V>(
    table: &mut Table<K, V>,
    entry: Option<(K, V)>,
)
    requires
        old(table).wf(),
        call_ensures(Table::<K, V>::take_last, (table,), entry),
    ensures
        entry is None <==> old(table).entries@.len() == 0,
        entry is Some ==> final(table).entries@ == old(table).entries@.drop_last(),
        entry matches Some((key, value)) ==> old(table)@.contains_key(key.key()) && old(table)@[key.key()] == value && !final(table)@.contains_key(key.key()),
{
}

/// A table that takes another in has the other's value wherever the other has one,
/// and its own elsewhere.
pub proof fn law_absorbed_entries_go_first<K: SortKey, V>(
    table: &mut Table<K, V>,
    other: Table<K, V>,
    key: K,
    own: Option<&V>,
    theirs: Option<&V>,
    both: Option<&V>,
)
    requires
        old(table).wf(),
        other.wf(),
        call_ensures(Table::<K, V>::absorb, (table, other), ()),
        call_ensures(Table::<K, V>::get, (old(table), &key), own),
        call_ensures(Table::<K, V>::get, (&other, &key), theirs),
        call_ensures(Table::<K, V>::get, (final(table), &key), both),
    ensures
        theirs is Some ==> both == theirs,
        theirs is None ==> both == own,
{
}

} // verus!
