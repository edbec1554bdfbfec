//! Which cells are resident, which are being closed, and what may be
//! activated.
//!
//! A cell's counters stand in one vector and keep their place there; the
//! tables name the places.

use vstd::prelude::*;
use crate::repl::cell::CellState;
use crate::repl::ship;
use crate::table;
use crate::table::{Order, SortKey, Table};

verus! {

/// A cell at an epoch.
#[derive(Debug)]
pub struct CellKey {
    pub cell: String,
    pub epoch: u64,
}

impl CellKey {
    pub fn new(cell: &str, epoch: u64) -> (key: Self)
        ensures
            key.cell@ == cell@,
            key.epoch == epoch,
    {
        CellKey { cell: cell.to_owned(), epoch }
    }
}

impl SortKey for CellKey {
    type Value = (Seq<char>, u64);

    open spec fn key(&self) -> (Seq<char>, u64) {
        (self.cell@, self.epoch)
    }

    /// By cell, then by epoch.
    open spec fn before(left: (Seq<char>, u64), right: (Seq<char>, u64)) -> bool {
        table::text_before(left.0, right.0) || left.0 == right.0 && left.1 < right.1
    }

    proof fn irreflexive(value: (Seq<char>, u64)) {
        String::irreflexive(value.0);
    }

    proof fn transitive(low: (Seq<char>, u64), mid: (Seq<char>, u64), high: (Seq<char>, u64)) {
        if table::text_before(low.0, mid.0) && table::text_before(mid.0, high.0) {
            String::transitive(low.0, mid.0, high.0);
        }
    }

    proof fn total(left: (Seq<char>, u64), right: (Seq<char>, u64)) {
        String::total(left.0, right.0);
    }

    fn order(&self, other: &Self) -> Order {
        proof {
            String::irreflexive(self.cell@);
            if table::text_before(self.cell@, other.cell@) && table::text_before(
                other.cell@,
                self.cell@,
            ) {
                String::transitive(self.cell@, other.cell@, self.cell@);
            }
        }
        match table::text_order(self.cell.as_str(), other.cell.as_str()) {
            Order::Less => Order::Less,
            Order::Greater => Order::Greater,
            Order::Same => if self.epoch < other.epoch {
                Order::Less
            } else if self.epoch == other.epoch {
                Order::Same
            } else {
                Order::Greater
            },
        }
    }
}

/// Every place that a table names is one of `count`.
pub open spec fn places_in(cells: Table<CellKey, usize>, count: int) -> bool {
    forall|key: (Seq<char>, u64)| #[trigger] cells@.contains_key(key) ==> cells@[key] < count
}

/// The place that a key names, of a cell that is resident or being closed.
pub open spec fn place_named(
    cells: Map<(Seq<char>, u64), usize>,
    stopped: Map<(Seq<char>, u64), usize>,
    key: (Seq<char>, u64),
) -> Option<usize> {
    if cells.contains_key(key) {
        Some(cells[key])
    } else if stopped.contains_key(key) {
        Some(stopped[key])
    } else {
        None
    }
}

/// No two keys name one place.
pub open spec fn places_apart(
    cells: Map<(Seq<char>, u64), usize>,
    stopped: Map<(Seq<char>, u64), usize>,
) -> bool {
    forall|one: (Seq<char>, u64), other: (Seq<char>, u64)|
        (#[trigger] place_named(cells, stopped, one)) is Some && one != other ==> place_named(
            cells,
            stopped,
            one,
        ) != #[trigger] place_named(cells, stopped, other)
}

/// The resident cells, those whose close is not over, and the stop flags.
pub struct LtxRepl {
    pub states: Vec<CellState>,
    /// The cells that are resident.
    pub cells: Table<CellKey, usize>,
    /// The cells that left but whose database may still be open.
    pub stopped_cells: Table<CellKey, usize>,
    /// Those of them whose close failed and may be tried again.
    pub failed_closes: Table<CellKey, ()>,
    /// Cells whose last epoch ended with acknowledged rows outside their own
    /// prefix.
    pub dirty_tails: Table<String, ()>,
    /// Nothing new may start.
    pub stopped: bool,
    /// No close may start.
    pub close_stopped: bool,
}

/// Why an activation, or its installation, was refused.
#[derive(Clone, Copy, Debug, PartialEq, Eq, Structural)]
pub enum AdmitError {
    /// Replication stopped first.
    Stopped,
    /// An earlier close of the same cell and epoch is not over.
    CloseIncomplete,
}

/// What a release leads to.
#[derive(Clone, Copy, Debug, PartialEq, Eq, Structural)]
pub enum CloseStart {
    /// There is nothing to close.
    Done,
    /// A close runs already, or waits for the shutdown.
    Incomplete,
    /// The shutdown closes this cell.
    Deferred,
    /// Close the cell at this place.
    Close(usize),
}

/// How the closing of a database went.
#[derive(Clone, Copy, Debug, PartialEq, Eq, Structural)]
pub enum CloseEnd {
    /// The database is closed, with or without an error on the way.
    Closed,
    /// The task ended before it had taken the database.
    NotTaken,
}

impl LtxRepl {
    /// The places of the resident cells, in the order of their keys.
    pub open spec fn resident_seq(self) -> Seq<usize> {
        self.cells.entries@.map_values(|entry: (CellKey, usize)| entry.1)
    }

    /// The tables are in order and name cells, each its own, and no cell is at
    /// once resident and being closed.
    pub open spec fn wf(self) -> bool {
        &&& self.cells.wf()
        &&& self.stopped_cells.wf()
        &&& self.failed_closes.wf()
        &&& self.dirty_tails.wf()
        &&& places_in(self.cells, self.states@.len() as int)
        &&& places_in(self.stopped_cells, self.states@.len() as int)
        &&& forall|key: (Seq<char>, u64)|
            !(#[trigger] self.cells@.contains_key(key) && self.stopped_cells@.contains_key(key))
        &&& places_apart(self.cells@, self.stopped_cells@)
    }

    /// Where every key that is still named names the place that it did, no two
    /// come to name one.
    pub(crate) proof fn lemma_places_stay_apart(self, before: Self)
        requires
            places_apart(before.cells@, before.stopped_cells@),
            forall|key: (Seq<char>, u64)|
                (#[trigger] place_named(self.cells@, self.stopped_cells@, key)) is Some
                    ==> place_named(self.cells@, self.stopped_cells@, key) == place_named(
                    before.cells@,
                    before.stopped_cells@,
                    key,
                ),
        ensures
            places_apart(self.cells@, self.stopped_cells@),
    {
        let (cells, stopped) = (self.cells@, self.stopped_cells@);
        assert forall|one: (Seq<char>, u64), other: (Seq<char>, u64)|
            (#[trigger] place_named(cells, stopped, one)) is Some && one
                != other implies place_named(cells, stopped, one) != #[trigger] place_named(
            cells,
            stopped,
            other,
        ) by {
            let then = (before.cells@, before.stopped_cells@);
            assert(place_named(then.0, then.1, one) is Some);
            assert(place_named(then.0, then.1, one) != place_named(then.0, then.1, other));
        }
    }

    /// No place is listed twice among the resident cells.
    pub proof fn law_resident_places_differ(self)
        requires
            self.wf(),
        ensures
            self.resident_seq().no_duplicates(),
    {
        let places = self.resident_seq();
        assert forall|i: int, j: int|
            0 <= i < places.len() && 0 <= j < places.len() && i != j implies places[i]
            != places[j] by {
            self.cells.lemma_place(i);
            self.cells.lemma_place(j);
            let one = self.cells.entries@[i].0.key();
            let other = self.cells.entries@[j].0.key();
            let (cells, stopped) = (self.cells@, self.stopped_cells@);
            assert(place_named(cells, stopped, one) == Some(places[i]));
            assert(place_named(cells, stopped, other) == Some(places[j]));
        }
    }

    pub fn new() -> (repl: Self)
        ensures
            repl.wf(),
            repl.states@ == Seq::<CellState>::empty(),
            repl.cells@ == Map::<(Seq<char>, u64), usize>::empty(),
            repl.stopped_cells@ == Map::<(Seq<char>, u64), usize>::empty(),
            repl.failed_closes@ == Map::<(Seq<char>, u64), ()>::empty(),
            repl.dirty_tails@ == Map::<Seq<char>, ()>::empty(),
            !repl.stopped,
            !repl.close_stopped,
    {
        LtxRepl {
            states: Vec::new(),
            cells: Table::new(),
            stopped_cells: Table::new(),
            failed_closes: Table::new(),
            dirty_tails: Table::new(),
            stopped: false,
            close_stopped: false,
        }
    }

    /// Everything but the tail marks is as it was.
    pub open spec fn same_but_tails(self, other: Self) -> bool {
        &&& self.states == other.states
        &&& self.cells == other.cells
        &&& self.stopped_cells == other.stopped_cells
        &&& self.failed_closes == other.failed_closes
        &&& self.stopped == other.stopped
        &&& self.close_stopped == other.close_stopped
    }

    /// The place of a resident cell.
    pub fn resident(&self, cell: &str, epoch: u64) -> (place: Option<usize>)
        requires
            self.wf(),
        ensures
            place == if self.cells@.contains_key((cell@, epoch)) {
                Some(self.cells@[(cell@, epoch)])
            } else {
                None
            },
            place matches Some(place) ==> place < self.states@.len(),
    {
        let key = CellKey::new(cell, epoch);
        match self.cells.get(&key) {
            Some(place) => Some(*place),
            None => None,
        }
    }

    /// The places of the resident cells, in the order of their keys.
    pub fn resident_places(&self) -> (places: Vec<usize>)
        requires
            self.wf(),
        ensures
            places@ == self.resident_seq(),
            places@.no_duplicates(),
            ship::places_fit(places@, self.states@.len() as int),
            forall|key: (Seq<char>, u64)| #[trigger]
                self.cells@.contains_key(key) ==> places@.contains(self.cells@[key]),
    {
        let mut places: Vec<usize> = Vec::new();
        let ghost all = self.resident_seq();
        let mut at: usize = 0;
        while at < self.cells.entries.len()
            invariant
                at <= self.cells.entries@.len(),
                all == self.resident_seq(),
                places@ == all.take(at as int),
            decreases self.cells.entries@.len() - at,
        {
            places.push(self.cells.entries[at].1);
            assert(places@ =~= all.take(at + 1));
            at = at + 1;
        }
        assert(places@ =~= all);
        proof {
            self.law_resident_places_differ();
            assert forall|i: int| 0 <= i < places@.len() implies #[trigger] places@[i]
                < self.states@.len() by {
                self.cells.lemma_place(i);
                let key = self.cells.entries@[i].0.key();
                assert(self.cells@.contains_key(key));
            }
            assert forall|key: (Seq<char>, u64)| #[trigger]
                self.cells@.contains_key(key) implies places@.contains(self.cells@[key]) by {
                let place = self.cells.place(key);
                assert(self.cells.entries@[place].0.key() == key);
                assert(places@[place] == self.cells.entries@[place].1);
            }
        }
        places
    }

    /// Has every frame that was ever handed to a shipper reached the bucket?
    /// Followers may drop what they hold of this node exactly then.
    pub fn all_shipped_tiered(&self) -> (tiered: bool)
        requires
            self.wf(),
        ensures
            tiered == forall|key: (Seq<char>, u64)| #[trigger]
                self.cells@.contains_key(key) ==> {
                    let state = self.states@[self.cells@[key] as int];
                    state.durable_txid >= state.shipped_txid
                },
    {
        let mut at: usize = 0;
        while at < self.cells.entries.len()
            invariant
                at <= self.cells.entries@.len(),
                self.wf(),
                forall|i: int|
                    0 <= i < at ==> {
                        let state = self.states@[(#[trigger] self.cells.entries@[i]).1 as int];
                        state.durable_txid >= state.shipped_txid
                    },
            decreases self.cells.entries@.len() - at,
        {
            proof {
                self.cells.lemma_place(at as int);
                assert(self.cells@.contains_key(self.cells.entries@[at as int].0.key()));
            }
            let place = self.cells.entries[at].1;
            if !self.states[place].shipped_is_tiered() {
                return false;
            }
            at = at + 1;
        }
        proof {
            assert forall|key: (Seq<char>, u64)| #[trigger] self.cells@.contains_key(key) implies {
                let state = self.states@[self.cells@[key] as int];
                state.durable_txid >= state.shipped_txid
            } by {
                let place = self.cells.place(key);
                assert(self.cells.entries@[place].0.key() == key);
            }
        }
        true
    }

    /// May an activation start?
    pub fn admit_activation(&self, cell: &str, epoch: u64) -> (admitted: Result<(), AdmitError>)
        requires
            self.wf(),
        ensures
            admitted == if self.stopped {
                Err::<(), AdmitError>(AdmitError::Stopped)
            } else if self.stopped_cells@.contains_key((cell@, epoch)) {
                Err::<(), AdmitError>(AdmitError::CloseIncomplete)
            } else {
                Ok::<(), AdmitError>(())
            },
    {
        if self.stopped {
            return Err(AdmitError::Stopped);
        }
        let key = CellKey::new(cell, epoch);
        if self.stopped_cells.contains(&key) {
            return Err(AdmitError::CloseIncomplete);
        }
        Ok(())
    }

    /// Register an opened cell. An activation that lost against a shutdown, or
    /// against a close of the same path, must close what it opened.
    pub fn install(&mut self, cell: &str, epoch: u64, state: CellState) -> (installed: Result<
        usize,
        AdmitError,
    >)
        requires
            old(self).wf(),
        ensures
            final(self).wf(),
            final(self).failed_closes == old(self).failed_closes,
            final(self).stopped_cells == old(self).stopped_cells,
            final(self).dirty_tails == old(self).dirty_tails,
            final(self).stopped == old(self).stopped,
            final(self).close_stopped == old(self).close_stopped,
            match installed {
                Ok(place) => {
                    &&& !old(self).stopped
                    &&& !old(self).stopped_cells@.contains_key((cell@, epoch))
                    &&& place == old(self).states@.len()
                    &&& final(self).states@ == old(self).states@.push(state)
                    &&& final(self).cells@ == old(self).cells@.insert((cell@, epoch), place)
                },
                Err(error) => {
                    &&& *final(self) == *old(self)
                    &&& error == if old(self).stopped_cells@.contains_key((cell@, epoch)) {
                        AdmitError::CloseIncomplete
                    } else {
                        AdmitError::Stopped
                    }
                    &&& old(self).stopped || old(self).stopped_cells@.contains_key((cell@, epoch))
                },
            },
    {
        let key = CellKey::new(cell, epoch);
        if self.stopped_cells.contains(&key) {
            return Err(AdmitError::CloseIncomplete);
        }
        if self.stopped {
            return Err(AdmitError::Stopped);
        }
        let ghost before = *self;
        let place = self.states.len();
        self.states.push(state);
        self.cells.insert(key, place);
        proof {
            assert forall|other: (Seq<char>, u64)| #[trigger]
                self.cells@.contains_key(other) implies self.cells@[other] < self.states@.len() by {
                if other != (cell@, epoch) {
                    assert(before.cells@.contains_key(other));
                }
            }
            assert forall|other: (Seq<char>, u64)|
                !(#[trigger] self.cells@.contains_key(other) && self.stopped_cells@.contains_key(
                    other,
                )) by {
                if other != (cell@, epoch) {
                    assert(before.cells@.contains_key(other) == self.cells@.contains_key(other));
                }
            }
            let (cells, stopped) = (self.cells@, self.stopped_cells@);
            assert forall|one: (Seq<char>, u64), other: (Seq<char>, u64)|
                (#[trigger] place_named(cells, stopped, one)) is Some && one
                    != other implies place_named(cells, stopped, one) != #[trigger] place_named(
                cells,
                stopped,
                other,
            ) by {
                let then = before.cells@;
                if one != (cell@, epoch) {
                    assert(place_named(cells, stopped, one) == place_named(then, stopped, one));
                }
                if other != (cell@, epoch) {
                    assert(place_named(cells, stopped, other) == place_named(then, stopped, other));
                }
            }
        }
        Ok(place)
    }

    /// Mark a cell that ends with acknowledged rows outside its own prefix.
    pub(crate) fn note_undrained_tail(&mut self, cell: &str, place: usize)
        requires
            old(self).wf(),
            place < old(self).states@.len(),
        ensures
            final(self).wf(),
            final(self).same_but_tails(*old(self)),
            final(self).dirty_tails@ == tails_after(
                old(self).dirty_tails@,
                cell@,
                old(self).states@[place as int],
            ),
    {
        if self.states[place].has_undrained_tail() {
            self.dirty_tails.insert(cell.to_owned(), ());
        }
    }

    /// Take a cell out of the registry before its files go, as an eviction, a
    /// release or a discard does. The result is the place of the database to
    /// close.
    pub fn remove_local(&mut self, cell: &str, epoch: u64) -> (removed: Option<usize>)
        requires
            old(self).wf(),
        ensures
            final(self).wf(),
            final(self).states == old(self).states,
            final(self).stopped_cells == old(self).stopped_cells,
            final(self).failed_closes == old(self).failed_closes,
            final(self).stopped == old(self).stopped,
            final(self).close_stopped == old(self).close_stopped,
            final(self).cells@ == old(self).cells@.remove((cell@, epoch)),
            removed is Some <==> old(self).cells@.contains_key((cell@, epoch)),
            removed matches Some(place) ==> place == old(self).cells@[(cell@, epoch)] && place < old(
                self).states@.len() && final(self).dirty_tails@ == tails_after(
                old(self).dirty_tails@,
                cell@,
                old(self).states@[place as int],
            ),
            removed is None ==> final(self).dirty_tails == old(self).dirty_tails,
    {
        let key = CellKey::new(cell, epoch);
        let ghost before = *self;
        let removed = self.cells.remove(&key);
        proof {
            assert forall|other: (Seq<char>, u64)| #[trigger]
                self.cells@.contains_key(other) implies self.cells@[other] < self.states@.len() by {
                assert(before.cells@.contains_key(other));
            }
            assert forall|other: (Seq<char>, u64)|
                !(#[trigger] self.cells@.contains_key(other) && self.stopped_cells@.contains_key(
                    other,
                )) by {
                assert(self.cells@.contains_key(other) ==> before.cells@.contains_key(other));
            }
            self.lemma_places_stay_apart(before);
        }
        match removed {
            Some(place) => {
                assert(before.cells@.contains_key((cell@, epoch)));
                self.note_undrained_tail(cell, place);
                Some(place)
            },
            None => None,
        }
    }

    /// Take a cell out of the registry and keep its files for another process.
    pub fn close_for_reload(&mut self, cell: &str, epoch: u64) -> (removed: Option<usize>)
        requires
            old(self).wf(),
        ensures
            final(self).wf(),
            final(self).states == old(self).states,
            final(self).stopped_cells == old(self).stopped_cells,
            final(self).failed_closes == old(self).failed_closes,
            final(self).dirty_tails == old(self).dirty_tails,
            final(self).stopped == old(self).stopped,
            final(self).close_stopped == old(self).close_stopped,
            final(self).cells@ == old(self).cells@.remove((cell@, epoch)),
            removed == if old(self).cells@.contains_key((cell@, epoch)) {
                Some(old(self).cells@[(cell@, epoch)])
            } else {
                None
            },
    {
        let key = CellKey::new(cell, epoch);
        let ghost before = *self;
        let removed = self.cells.remove(&key);
        proof {
            assert forall|other: (Seq<char>, u64)| #[trigger]
                self.cells@.contains_key(other) implies self.cells@[other] < self.states@.len() by {
                assert(before.cells@.contains_key(other));
            }
            assert forall|other: (Seq<char>, u64)|
                !(#[trigger] self.cells@.contains_key(other) && self.stopped_cells@.contains_key(
                    other,
                )) by {
                assert(self.cells@.contains_key(other) ==> before.cells@.contains_key(other));
            }
            self.lemma_places_stay_apart(before);
        }
        removed
    }
}

/// The marked cells after `cell` has ended in `state`.
pub open spec fn tails_after(
    tails: Map<Seq<char>, ()>,
    cell: Seq<char>,
    state: CellState,
) -> Map<Seq<char>, ()> {
    if state.undrained() {
        tails.insert(cell, ())
    } else {
        tails
    }
}

/// A registry starts with no cell and open to everything.
pub proof fn law_registry_starts_empty(repl: LtxRepl, key: (Seq<char>, u64), cell: Seq<char>)
    requires
        call_ensures(LtxRepl::new, (), repl),
    ensures
        repl.states@.len() == 0,
        !repl.cells@.contains_key(key) && !repl.stopped_cells@.contains_key(key)
            && !repl.failed_closes@.contains_key(key),
        !repl.dirty_tails@.contains_key(cell),
        !repl.stopped && !repl.close_stopped,
{
}

/// An activation is admitted exactly where replication runs and no close of the
/// same cell and epoch is under way. Its installation is judged by the same two, and
/// enters the new counters behind all others: the cell is resident from then on,
/// every other cell keeps its place and its counters, and nothing else changes.
pub proof fn law_admitted_cell_becomes_resident(
    repl: &mut LtxRepl,
    cell: &str,
    epoch: u64,
    state: CellState,
    admitted: Result<(), AdmitError>,
    installed: Result<usize, AdmitError>,
    place: Option<usize>,
    other: (Seq<char>, u64),
)
    requires
        old(repl).wf(),
        call_ensures(LtxRepl::admit_activation, (old(repl), cell, epoch), admitted),
        call_ensures(LtxRepl::install, (repl, cell, epoch, state), installed),
        call_ensures(LtxRepl::resident, (final(repl), cell, epoch), place),
        other != (cell@, epoch),
    ensures
        admitted is Ok <==> !old(repl).stopped && !old(repl).stopped_cells@.contains_key(
            (cell@, epoch),
        ),
        installed is Ok <==> admitted is Ok,
        admitted == Err::<(), AdmitError>(AdmitError::Stopped) <==> old(repl).stopped,
        installed == Err::<usize, AdmitError>(AdmitError::CloseIncomplete) <==> old(repl).stopped_cells@.contains_key((cell@, epoch)),
        installed matches Ok(at) ==> {
            &&& place == Some(at)
            &&& at == old(repl).states@.len()
            &&& final(repl).states@.len() == at + 1
            &&& final(repl).states@[at as int] == state
            &&& final(repl).cells@.contains_key((cell@, epoch))
        },
        installed is Err ==> *final(repl) == *old(repl),
        final(repl).cells@.contains_key(other) <==> old(repl).cells@.contains_key(other),
        old(repl).cells@.contains_key(other) ==> final(repl).cells@[other] == old(repl).cells@[other],
        forall|i: int|
            0 <= i < old(repl).states@.len() ==> #[trigger] final(repl).states@[i] == old(repl).states@[i],
        final(repl).stopped_cells@ == old(repl).stopped_cells@,
        final(repl).failed_closes@ == old(repl).failed_closes@,
        final(repl).dirty_tails@ == old(repl).dirty_tails@,
{
}

/// The registry finds a cell exactly where it is resident, and lists every resident
/// cell and no other.
pub proof fn law_resident_cells_are_listed(
    repl: LtxRepl,
    cell: &str,
    epoch: u64,
    place: Option<usize>,
    places: Vec<usize>,
    at: int,
)
    requires
        repl.wf(),
        call_ensures(LtxRepl::resident, (&repl, cell, epoch), place),
        call_ensures(LtxRepl::resident_places, (&repl,), places),
    ensures
        place is Some <==> repl.cells@.contains_key((cell@, epoch)),
        place matches Some(place) ==> repl.cells@[(cell@, epoch)] == place && places@.contains(
            place,
        ),
        0 <= at < places@.len() ==> exists|key: (Seq<char>, u64)| #[trigger]
            repl.cells@.contains_key(key) && repl.cells@[key] == places@[at],
        places@.len() == repl.cells.entries@.len(),
{
    if 0 <= at < places@.len() {
        repl.cells.lemma_place(at);
        let key = repl.cells.entries@[at].0.key();
        assert(repl.cells@.contains_key(key) && repl.cells@[key] == places@[at]);
    }
}

/// Followers may drop what they hold exactly where the bucket covers all that was
/// shipped of each resident cell; one cell that it does not cover keeps them from it.
pub proof fn law_one_untiered_cell_keeps_the_followers(
    repl: LtxRepl,
    tiered: bool,
    key: (Seq<char>, u64),
)
    requires
        repl.wf(),
        call_ensures(LtxRepl::all_shipped_tiered, (&repl,), tiered),
    ensures
        tiered && repl.cells@.contains_key(key) ==> repl.states@[repl.cells@[key] as int].shipped_txid
            <= repl.states@[repl.cells@[key] as int].durable_txid,
        !tiered ==> exists|key: (Seq<char>, u64)| #[trigger]
            repl.cells@.contains_key(key) && repl.states@[repl.cells@[key] as int].shipped_txid
                > repl.states@[repl.cells@[key] as int].durable_txid,
{
}

/// A cell that leaves hands over its own database and no other cell leaves with it.
/// An eviction marks it exactly where it leaves rows outside its own prefix; a reload
/// marks nothing.
pub proof fn law_cell_leaves_alone(
    evicting: &mut LtxRepl,
    reloading: &mut LtxRepl,
    cell: &str,
    epoch: u64,
    evicted: Option<usize>,
    reloaded: Option<usize>,
    other: (Seq<char>, u64),
    name: Seq<char>,
)
    requires
        old(evicting).wf(),
        *old(reloading) == *old(evicting),
        call_ensures(LtxRepl::remove_local, (evicting, cell, epoch), evicted),
        call_ensures(LtxRepl::close_for_reload, (reloading, cell, epoch), reloaded),
        other != (cell@, epoch),
    ensures
        evicted is Some <==> old(evicting).cells@.contains_key((cell@, epoch)),
        reloaded == evicted,
        evicted matches Some(place) ==> place == old(evicting).cells@[(cell@, epoch)],
        !final(evicting).cells@.contains_key((cell@, epoch)),
        !final(reloading).cells@.contains_key((cell@, epoch)),
        final(evicting).cells@.contains_key(other) <==> old(evicting).cells@.contains_key(other),
        final(reloading).cells@.contains_key(other) <==> old(evicting).cells@.contains_key(other),
        old(evicting).cells@.contains_key(other) ==> final(evicting).cells@[other] == old(evicting).cells@[other] && final(reloading).cells@[other] == old(evicting).cells@[other],
        final(evicting).states@ == old(evicting).states@,
        final(reloading).states@ == old(evicting).states@,
        final(evicting).stopped_cells@ == old(evicting).stopped_cells@,
        final(reloading).stopped_cells@ == old(evicting).stopped_cells@,
        final(reloading).dirty_tails@ == old(evicting).dirty_tails@,
        name != cell@ ==> (final(evicting).dirty_tails@.contains_key(name) <==> old(evicting).dirty_tails@.contains_key(name)),
        old(evicting).dirty_tails@.contains_key(cell@) ==> final(evicting).dirty_tails@.contains_key(
            cell@,
        ),
        evicted is None ==> final(evicting).dirty_tails@ == old(evicting).dirty_tails@,
        evicted matches Some(place) ==> !old(evicting).dirty_tails@.contains_key(cell@) ==> {
            let state = old(evicting).states@[place as int];
            final(evicting).dirty_tails@.contains_key(cell@) <==> (state.durable_txid
                > state.percell_txid || state.shipped_txid > state.percell_txid) && (
            state.compaction matches Some(compaction) ==> state.durable_txid
                > compaction.compacted_txid || state.shipped_txid > compaction.compacted_txid)
        },
{
}

/// Cells are ordered by their names, and one cell's epochs by their numbers.
pub proof fn law_keys_go_by_cell_then_epoch(left: CellKey, right: CellKey, order: Order)
    requires
        call_ensures(<CellKey as SortKey>::order, (&left, &right), order),
    ensures
        order is Same <==> left.cell@ == right.cell@ && left.epoch == right.epoch,
        left.cell@ == right.cell@ ==> (order is Less <==> left.epoch < right.epoch),
        order is Less ==> CellKey::before(left.key(), right.key()),
        order is Greater ==> CellKey::before(right.key(), left.key()),
{
    CellKey::irreflexive(left.key());
    CellKey::irreflexive(right.key());
    String::irreflexive(left.cell@);
}

} // verus!
