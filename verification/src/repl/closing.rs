//! Giving cells back: releases, their retries, and the shutdown that takes
//! what is left.

use vstd::prelude::*;
use crate::repl::cell::CellState;
use crate::repl::registry;
use crate::repl::registry::{CellKey, CloseEnd, CloseStart, LtxRepl};
use crate::table::{SortKey, Table};

verus! {

/// What the registry is, for the purpose of closing.
pub struct Handles {
    pub states: Seq<CellState>,
    pub cells: Map<(Seq<char>, u64), usize>,
    pub stopped: Map<(Seq<char>, u64), usize>,
    pub failed: Map<(Seq<char>, u64), ()>,
    pub tails: Map<Seq<char>, ()>,
    pub starts_end: bool,
    pub closes_end: bool,
}

impl Handles {
    /// The place of the database that a release of `key` would close.
    pub open spec fn closable(self, key: (Seq<char>, u64)) -> Option<usize> {
        if self.cells.contains_key(key) {
            Some(self.cells[key])
        } else if self.stopped.contains_key(key) && self.failed.contains_key(key) {
            Some(self.stopped[key])
        } else {
            None
        }
    }

    /// What a release of `key` leads to.
    pub open spec fn release_start(self, key: (Seq<char>, u64)) -> CloseStart {
        match self.closable(key) {
            Some(place) => if self.closes_end {
                CloseStart::Deferred
            } else {
                CloseStart::Close(place)
            },
            None => if self.stopped.contains_key(key) {
                CloseStart::Incomplete
            } else {
                CloseStart::Done
            },
        }
    }

    /// After a release of `key` has started.
    pub open spec fn release_started(self, key: (Seq<char>, u64)) -> Handles {
        match self.closable(key) {
            Some(place) => Handles {
                cells: self.cells.remove(key),
                stopped: self.stopped.insert(key, place),
                failed: if self.closes_end {
                    self.failed.insert(key, ())
                } else if self.cells.contains_key(key) {
                    self.failed
                } else {
                    self.failed.remove(key)
                },
                tails: registry::tails_after(self.tails, key.0, self.states[place as int]),
                ..self
            },
            None => self,
        }
    }

    /// After the closing of the database at `place` has ended.
    pub open spec fn release_ended(self, key: (Seq<char>, u64), place: usize, end: CloseEnd) -> Handles {
        match end {
            CloseEnd::NotTaken => Handles { failed: self.failed.insert(key, ()), ..self },
            CloseEnd::Closed => if self.stopped.contains_key(key) && self.stopped[key] == place {
                Handles { stopped: self.stopped.remove(key), ..self }
            } else {
                self
            },
        }
    }

    /// After the shutdown has taken every cell out of service.
    pub open spec fn shut_down(self) -> Handles {
        Handles {
            cells: Map::empty(),
            stopped: self.stopped.union_prefer_right(self.cells),
            starts_end: true,
            closes_end: true,
            ..self
        }
    }

    /// After the shutdown has taken every database to close it.
    pub open spec fn swept(self) -> Handles {
        Handles {
            cells: Map::empty(),
            stopped: Map::empty(),
            failed: self.failed.remove_keys(self.cells.dom().union(self.stopped.dom())),
            ..self
        }
    }
}

impl LtxRepl {
    /// The registry, for the purpose of closing.
    pub open spec fn handles(self) -> Handles {
        Handles {
            states: self.states@,
            cells: self.cells@,
            stopped: self.stopped_cells@,
            failed: self.failed_closes@,
            tails: self.dirty_tails@,
            starts_end: self.stopped,
            closes_end: self.close_stopped,
        }
    }

    /// Start to give a cell back with its files in place. The cell stays on
    /// record until its database is known to be closed.
    pub fn close_in_place(&mut self, cell: &str, epoch: u64) -> (start: CloseStart)
        requires
            old(self).wf(),
        ensures
            final(self).wf(),
            start == old(self).handles().release_start((cell@, epoch)),
            final(self).handles() == old(self).handles().release_started((cell@, epoch)),
            start matches CloseStart::Close(place) ==> place < final(self).states@.len(),
    {
        let ghost before = *self;
        let ghost key_value = (cell@, epoch);
        let key = CellKey::new(cell, epoch);
        let place: usize = match self.cells.remove(&key) {
            Some(place) => {
                proof {
                    assert(before.cells@.contains_key(key_value));
                    assert forall|other: (Seq<char>, u64)| #[trigger]
                        self.cells@.contains_key(other) implies self.cells@[other]
                        < self.states@.len() by {
                        assert(before.cells@.contains_key(other));
                    }
                }
                place
            },
            None => {
                assert(self.cells@ =~= before.cells@);
                let place: usize = match self.stopped_cells.get(&key) {
                    None => return CloseStart::Done,
                    Some(place) => *place,
                };
                match self.failed_closes.remove(&key) {
                    None => {
                        assert(self.failed_closes@ =~= before.failed_closes@);
                        return CloseStart::Incomplete;
                    },
                    Some(_) => {},
                }
                assert(before.stopped_cells@.contains_key(key_value));
                place
            },
        };
        proof {
            assert forall|other: (Seq<char>, u64)|
                !(#[trigger] self.cells@.contains_key(other) && self.stopped_cells@.contains_key(
                    other,
                )) by {
                assert(self.cells@.contains_key(other) ==> before.cells@.contains_key(other));
            }
            self.lemma_places_stay_apart(before);
        }
        self.note_undrained_tail(cell, place);
        self.stopped_cells.insert(key, place);
        proof {
            assert(self.cells@ =~= before.cells@.remove(key_value));
            assert forall|other: (Seq<char>, u64)| #[trigger]
                self.stopped_cells@.contains_key(other) implies self.stopped_cells@[other]
                < self.states@.len() by {
                if other != key_value {
                    assert(before.stopped_cells@.contains_key(other));
                }
            }
            assert forall|other: (Seq<char>, u64)|
                !(#[trigger] self.cells@.contains_key(other) && self.stopped_cells@.contains_key(
                    other,
                )) by {
                if other != key_value {
                    assert(self.cells@.contains_key(other) == before.cells@.contains_key(other));
                }
            }
            self.lemma_places_stay_apart(before);
        }
        if self.close_stopped {
            self.failed_closes.insert(CellKey::new(cell, epoch), ());
            proof {
                assert(self.failed_closes@ =~= before.failed_closes@.insert(key_value, ()));
            }
            return CloseStart::Deferred;
        }
        CloseStart::Close(place)
    }

    /// The closing of the database at `place` has ended.
    pub fn finish_close(&mut self, cell: &str, epoch: u64, place: usize, end: CloseEnd)
        requires
            old(self).wf(),
        ensures
            final(self).wf(),
            final(self).handles() == old(self).handles().release_ended((cell@, epoch), place, end),
    {
        let ghost before = *self;
        let key = CellKey::new(cell, epoch);
        match end {
            CloseEnd::NotTaken => {
                self.failed_closes.insert(key, ());
            },
            CloseEnd::Closed => {
                let current = match self.stopped_cells.get(&key) {
                    Some(current) => *current == place,
                    None => false,
                };
                if current {
                    let _ = self.stopped_cells.remove(&key);
                    proof {
                        assert forall|other: (Seq<char>, u64)| #[trigger]
                            self.stopped_cells@.contains_key(other) implies self.stopped_cells@[other]
                            < self.states@.len() by {
                            assert(before.stopped_cells@.contains_key(other));
                        }
                    }
                }
            },
        }
        proof {
            self.lemma_places_stay_apart(before);
        }
    }

    /// Take every cell out of service at once, without waiting for any of
    /// their databases.
    pub fn shutdown_local_fallback(&mut self)
        requires
            old(self).wf(),
        ensures
            final(self).wf(),
            final(self).handles() == old(self).handles().shut_down(),
    {
        let ghost before = *self;
        self.stopped = true;
        self.close_stopped = true;
        let mut cells: Table<CellKey, usize> = Table::new();
        std::mem::swap(&mut cells, &mut self.cells);
        self.stopped_cells.absorb(cells);
        proof {
            assert forall|other: (Seq<char>, u64)| #[trigger]
                self.stopped_cells@.contains_key(other) implies self.stopped_cells@[other]
                < self.states@.len() by {
                assert(before.cells@.contains_key(other) || before.stopped_cells@.contains_key(
                    other,
                ));
            }
            self.lemma_places_stay_apart(before);
        }
    }

    /// Take every database that is left, to close it.
    pub fn start_close_local_replicas(&mut self) -> (taken: Table<CellKey, usize>)
        requires
            old(self).wf(),
        ensures
            final(self).wf(),
            taken.wf(),
            taken@ == old(self).cells@.union_prefer_right(old(self).stopped_cells@),
            final(self).handles() == old(self).handles().swept(),
    {
        let ghost before = *self;
        let mut taken: Table<CellKey, usize> = Table::new();
        std::mem::swap(&mut taken, &mut self.cells);
        let mut stopped: Table<CellKey, usize> = Table::new();
        std::mem::swap(&mut stopped, &mut self.stopped_cells);
        taken.absorb(stopped);
        let ghost all = taken@;
        let mut at: usize = 0;
        proof {
            assert(self.failed_closes@ =~= before.failed_closes@.remove_keys(
                keys_before(taken, 0),
            ));
        }
        while at < taken.entries.len()
            invariant
                at <= taken.entries@.len(),
                taken.wf(),
                taken@ == all,
                self.failed_closes.wf(),
                self.failed_closes@ == before.failed_closes@.remove_keys(
                    keys_before(taken, at as int),
                ),
                self.cells@ == Map::<(Seq<char>, u64), usize>::empty(),
                self.stopped_cells@ == Map::<(Seq<char>, u64), usize>::empty(),
                self.cells.wf(),
                self.stopped_cells.wf(),
                self.dirty_tails == before.dirty_tails,
                self.states == before.states,
                self.stopped == before.stopped,
                self.close_stopped == before.close_stopped,
            decreases taken.entries@.len() - at,
        {
            let _ = self.failed_closes.remove(&taken.entries[at].0);
            proof {
                assert(keys_before(taken, at + 1) =~= keys_before(taken, at as int).insert(
                    taken.entries@[at as int].0.key(),
                ));
                assert(self.failed_closes@ =~= before.failed_closes@.remove_keys(
                    keys_before(taken, at + 1),
                ));
            }
            at = at + 1;
        }
        proof {
            assert forall|key: (Seq<char>, u64)| #[trigger]
                keys_before(taken, at as int).contains(key) == all.contains_key(key) by {
                if keys_before(taken, at as int).contains(key) {
                    let i = choose|i: int|
                        0 <= i < at && (#[trigger] taken.entries@[i]).0.key() == key;
                    taken.lemma_place(i);
                }
                if all.contains_key(key) {
                    let place = taken.place(key);
                    assert(taken.entries@[place].0.key() == key);
                }
            }
            assert(keys_before(taken, at as int) =~= before.cells@.dom().union(
                before.stopped_cells@.dom(),
            ));
        }
        taken
    }
}

/// The keys of the first `count` entries.
spec fn keys_before(table: Table<CellKey, usize>, count: int) -> Set<(Seq<char>, u64)> {
    Set::new(
        |key: (Seq<char>, u64)|
            exists|i: int| 0 <= i < count && (#[trigger] table.entries@[i]).0.key() == key,
    )
}

/// A cell that was released can be activated again once its database is
/// closed.
pub proof fn law_closed_cell_leaves_no_record(handles: Handles, key: (Seq<char>, u64), place: usize)
    requires
        handles.release_start(key) == CloseStart::Close(place),
    ensures
        ({
            let after = handles.release_started(key).release_ended(key, place, CloseEnd::Closed);
            !after.cells.contains_key(key) && !after.stopped.contains_key(key)
        }),
{
}

/// A release whose close failed can be tried again, on the same database.
pub proof fn law_failed_close_can_be_retried(
    handles: Handles,
    key: (Seq<char>, u64),
    place: usize,
)
    requires
        handles.release_start(key) == CloseStart::Close(place),
    ensures
        handles.release_started(key).release_ended(key, place, CloseEnd::NotTaken).release_start(
            key,
        ) == CloseStart::Close(place),
{
}

/// Two releases of one cell never close its database twice: the second finds
/// the first one under way.
pub proof fn law_second_release_waits(handles: Handles, key: (Seq<char>, u64), place: usize)
    requires
        handles.release_start(key) == CloseStart::Close(place),
        handles.cells.contains_key(key) ==> !handles.failed.contains_key(key),
    ensures
        handles.release_started(key).release_start(key) == CloseStart::Incomplete,
{
}

/// No database is lost on the way: a release and the shutdown keep every key
/// on record until the shutdown takes it.
pub proof fn law_every_database_stays_on_record(handles: Handles, key: (Seq<char>, u64), other: (
    Seq<char>,
    u64,
))
    requires
        handles.cells.contains_key(key) || handles.stopped.contains_key(key),
    ensures
        handles.release_started(other).cells.contains_key(key) || handles.release_started(
            other,
        ).stopped.contains_key(key),
        handles.shut_down().stopped.contains_key(key),
        handles.cells.union_prefer_right(handles.stopped).contains_key(key),
{
}

/// A release that meets the shutdown leaves its database to it.
pub proof fn law_release_after_shutdown_is_deferred(handles: Handles, key: (Seq<char>, u64))
    ensures
        !(handles.shut_down().release_start(key) is Close),
        handles.shut_down().release_start(key) is Deferred ==> handles.shut_down().release_started(
            key,
        ).stopped.contains_key(key),
{
}

/// A release takes a resident cell out of service and hands its database over to be
/// closed; one whose close failed is handed over again, one under way is not, and
/// where there is nothing there is nothing to do. After the shutdown nothing is
/// handed over but kept for it. Whatever is released stays on record, and every
/// other cell is left alone.
pub proof fn law_release_hands_the_database_over(
    repl: &mut LtxRepl,
    cell: &str,
    epoch: u64,
    start: CloseStart,
    other: (Seq<char>, u64),
)
    requires
        old(repl).wf(),
        call_ensures(LtxRepl::close_in_place, (repl, cell, epoch), start),
        other != (cell@, epoch),
    ensures
        ({
            let key = (cell@, epoch);
            let resident = old(repl).cells@.contains_key(key);
            let closing = old(repl).stopped_cells@.contains_key(key);
            let retry = closing && old(repl).failed_closes@.contains_key(key);
            &&& start is Done <==> !resident && !closing
            &&& start is Incomplete <==> !resident && closing && !retry
            &&& start is Deferred <==> (resident || retry) && old(repl).close_stopped
            &&& start is Close <==> (resident || retry) && !old(repl).close_stopped
            &&& start matches CloseStart::Close(place) ==> place == if resident {
                old(repl).cells@[key]
            } else {
                old(repl).stopped_cells@[key]
            }
            &&& resident || closing ==> final(repl).stopped_cells@.contains_key(key)
                && !final(repl).cells@.contains_key(key)
            &&& resident ==> final(repl).stopped_cells@[key] == old(repl).cells@[key]
            &&& !resident && closing ==> final(repl).stopped_cells@[key] == old(repl).stopped_cells@[key]
            &&& start is Deferred ==> final(repl).failed_closes@.contains_key(key)
            &&& start is Close && !resident ==> !final(repl).failed_closes@.contains_key(key)
            &&& start is Done || start is Incomplete ==> final(repl).handles() == old(repl).handles()
        }),
        final(repl).cells@.contains_key(other) <==> old(repl).cells@.contains_key(other),
        old(repl).cells@.contains_key(other) ==> final(repl).cells@[other] == old(repl).cells@[other],
        final(repl).stopped_cells@.contains_key(other) <==> old(repl).stopped_cells@.contains_key(
            other,
        ),
        old(repl).stopped_cells@.contains_key(other) ==> final(repl).stopped_cells@[other] == old(repl).stopped_cells@[other],
        final(repl).failed_closes@.contains_key(other) <==> old(repl).failed_closes@.contains_key(
            other,
        ),
        final(repl).states@ == old(repl).states@,
        final(repl).stopped == old(repl).stopped,
        final(repl).close_stopped == old(repl).close_stopped,
{
    assert(final(repl).handles().cells == final(repl).cells@);
    assert(final(repl).handles().stopped == final(repl).stopped_cells@);
    assert(final(repl).handles().failed == final(repl).failed_closes@);
    assert(final(repl).handles().states == final(repl).states@);
    assert(final(repl).handles().starts_end == final(repl).stopped);
    assert(final(repl).handles().closes_end == final(repl).close_stopped);
}

/// A close that ended takes the cell off the record where the database was the one
/// on record; a close that never had its database may be tried again.
pub proof fn law_ended_close_clears_the_record(
    repl: &mut LtxRepl,
    cell: &str,
    epoch: u64,
    place: usize,
    end: CloseEnd,
    other: (Seq<char>, u64),
)
    requires
        old(repl).wf(),
        call_ensures(LtxRepl::finish_close, (repl, cell, epoch, place, end), ()),
        other != (cell@, epoch),
    ensures
        ({
            let key = (cell@, epoch);
            let current = old(repl).stopped_cells@.contains_key(key) && old(repl).stopped_cells@[key] == place;
            &&& end is Closed && current ==> !final(repl).stopped_cells@.contains_key(key)
            &&& end is NotTaken || !current ==> final(repl).stopped_cells@ == old(repl).stopped_cells@
            &&& end is NotTaken ==> final(repl).failed_closes@.contains_key(key)
            &&& end is Closed ==> final(repl).failed_closes@ == old(repl).failed_closes@
        }),
        final(repl).stopped_cells@.contains_key(other) <==> old(repl).stopped_cells@.contains_key(
            other,
        ),
        final(repl).failed_closes@.contains_key(other) <==> old(repl).failed_closes@.contains_key(
            other,
        ),
        final(repl).cells@ == old(repl).cells@,
        final(repl).states@ == old(repl).states@,
        final(repl).dirty_tails@ == old(repl).dirty_tails@,
        final(repl).stopped == old(repl).stopped,
        final(repl).close_stopped == old(repl).close_stopped,
{
    assert(final(repl).handles().cells == final(repl).cells@);
    assert(final(repl).handles().stopped == final(repl).stopped_cells@);
    assert(final(repl).handles().failed == final(repl).failed_closes@);
    assert(final(repl).handles().states == final(repl).states@);
    assert(final(repl).handles().tails == final(repl).dirty_tails@);
    assert(final(repl).handles().starts_end == final(repl).stopped);
    assert(final(repl).handles().closes_end == final(repl).close_stopped);
}

/// The shutdown leaves no cell in service, loses none, and lets nothing start or
/// close any more. The sweep behind it takes every database that was in service or
/// being closed, and leaves none on record.
pub proof fn law_shutdown_takes_every_database(
    stopping: &mut LtxRepl,
    sweeping: &mut LtxRepl,
    taken: Table<CellKey, usize>,
    key: (Seq<char>, u64),
)
    requires
        old(stopping).wf(),
        old(sweeping).wf(),
        call_ensures(LtxRepl::shutdown_local_fallback, (stopping,), ()),
        call_ensures(LtxRepl::start_close_local_replicas, (sweeping,), taken),
    ensures
        final(stopping).stopped && final(stopping).close_stopped,
        !final(stopping).cells@.contains_key(key),
        final(stopping).stopped_cells@.contains_key(key) <==> old(stopping).cells@.contains_key(key)
            || old(stopping).stopped_cells@.contains_key(key),
        old(stopping).cells@.contains_key(key) ==> final(stopping).stopped_cells@[key] == old(stopping).cells@[key],
        old(stopping).stopped_cells@.contains_key(key) ==> final(stopping).stopped_cells@[key]
            == old(stopping).stopped_cells@[key],
        final(stopping).failed_closes@ == old(stopping).failed_closes@,
        final(stopping).states@ == old(stopping).states@,
        final(stopping).dirty_tails@ == old(stopping).dirty_tails@,
        !final(sweeping).cells@.contains_key(key),
        !final(sweeping).stopped_cells@.contains_key(key),
        taken@.contains_key(key) <==> old(sweeping).cells@.contains_key(key) || old(sweeping).stopped_cells@.contains_key(key),
        old(sweeping).cells@.contains_key(key) ==> taken@[key] == old(sweeping).cells@[key],
        old(sweeping).stopped_cells@.contains_key(key) ==> taken@[key] == old(sweeping).stopped_cells@[key],
        final(sweeping).failed_closes@.contains_key(key) <==> old(sweeping).failed_closes@.contains_key(key) && !taken@.contains_key(key),
        final(sweeping).states@ == old(sweeping).states@,
        final(sweeping).dirty_tails@ == old(sweeping).dirty_tails@,
        final(sweeping).stopped == old(sweeping).stopped,
        final(sweeping).close_stopped == old(sweeping).close_stopped,
{
    assert(final(stopping).handles().cells == final(stopping).cells@);
    assert(final(stopping).handles().stopped == final(stopping).stopped_cells@);
    assert(final(stopping).handles().failed == final(stopping).failed_closes@);
    assert(final(stopping).handles().states == final(stopping).states@);
    assert(final(stopping).handles().tails == final(stopping).dirty_tails@);
    assert(final(stopping).handles().starts_end == final(stopping).stopped);
    assert(final(stopping).handles().closes_end == final(stopping).close_stopped);
    assert(final(sweeping).handles().cells == final(sweeping).cells@);
    assert(final(sweeping).handles().stopped == final(sweeping).stopped_cells@);
    assert(final(sweeping).handles().failed == final(sweeping).failed_closes@);
    assert(final(sweeping).handles().states == final(sweeping).states@);
    assert(final(sweeping).handles().tails == final(sweeping).dirty_tails@);
    assert(final(sweeping).handles().starts_end == final(sweeping).stopped);
    assert(final(sweeping).handles().closes_end == final(sweeping).close_stopped);
}

/// A released cell that leaves rows outside its own prefix is marked, and no other
/// mark comes or goes.
pub proof fn law_release_marks_an_undrained_tail(
    repl: &mut LtxRepl,
    cell: &str,
    epoch: u64,
    start: CloseStart,
    name: Seq<char>,
)
    requires
        old(repl).wf(),
        call_ensures(LtxRepl::close_in_place, (repl, cell, epoch), start),
    ensures
        name != cell@ ==> (final(repl).dirty_tails@.contains_key(name) <==> old(repl).dirty_tails@.contains_key(name)),
        old(repl).dirty_tails@.contains_key(cell@) ==> final(repl).dirty_tails@.contains_key(cell@),
        start matches CloseStart::Close(place) ==> !old(repl).dirty_tails@.contains_key(cell@) ==> {
            let state = old(repl).states@[place as int];
            final(repl).dirty_tails@.contains_key(cell@) <==> (state.durable_txid
                > state.percell_txid || state.shipped_txid > state.percell_txid) && (
            state.compaction matches Some(compaction) ==> state.durable_txid
                > compaction.compacted_txid || state.shipped_txid > compaction.compacted_txid)
        },
{
    assert(final(repl).handles().tails == final(repl).dirty_tails@);
    assert(final(repl).handles().stopped == final(repl).stopped_cells@);
}

} // verus!
