//! The output gate: one choke point that every egress passes.
//!
//! Nothing that reveals a cell's state may leave while the cell has a write
//! that is not proven durable. An output that wrote opens a barrier and waits
//! for a proof that covers its position; one that only read waits for the
//! newest barrier on its cell. The route that an output takes is a type
//! parameter: it is handed back and never looked at, so one rule holds
//! for every route.

use vstd::prelude::*;
use crate::repl::cell::ProofSource;
use crate::table::{SortKey, Table};
use crate::text;

verus! {

/// An output that is held back, by its request and its route.
#[derive(Clone, Copy, Debug)]
pub struct Held<C> {
    pub request: u64,
    pub channel: C,
}

/// Who opened a barrier.
#[derive(Debug)]
pub enum GateOwner<C, A> {
    /// An output that wrote.
    Output(Held<C>),
    /// An alarm whose consuming commit is not proven.
    Alarm(A),
}

/// A write that is not proven yet.
#[derive(Debug)]
pub struct Barrier<C, A> {
    pub owner: GateOwner<C, A>,
    pub cell: String,
    pub epoch: u64,
    /// The position that a proof has to cover.
    pub position: u64,
    /// Outputs that only read and wait with it, in order.
    pub followers: Vec<Held<C>>,
}

/// Where a cell stands.
#[derive(Clone, Copy, Debug, PartialEq, Eq, Structural)]
pub enum Phase {
    Resident { epoch: u64 },
    /// It comes, goes, or is not here.
    Elsewhere,
}

/// An output fails because its write, or one that it may reveal, is not proven.
#[derive(Clone, Copy, Debug, PartialEq, Eq, Structural)]
pub enum RequestError {
    DurabilityUnproven,
}

/// What is asked for.
#[derive(Debug)]
pub enum GateEffect<C> {
    /// Let the output leave, or fail it.
    Release { held: Held<C>, result: Result<(), RequestError> },
    /// Wait until the cell's log is proven up to a position.
    AwaitDurable { op: u64, cell: String, epoch: u64, position: u64 },
    /// Read whether this node still owns the cell at this epoch.
    VerifyOwnership { op: u64, cell: String, epoch: u64 },
}

/// One step of settling a barrier. They are run in order.
#[derive(Debug)]
pub enum SettleStep<C, A> {
    /// Release the output ([`State::release_held`]).
    Release { held: Held<C>, result: Result<(), RequestError> },
    /// Finish the alarm, as proven or not.
    Alarm { alarm: A, cell: String, epoch: u64, proven: bool },
    /// Reset the cell: it holds a write that was refused.
    Reset { cell: String, epoch: u64 },
}

/// What a proof, or the lack of one, leads to.
#[derive(Debug)]
pub enum ProofStep<C, A> {
    /// The barrier is gone already.
    Ignore,
    /// The proof counts only if the ownership holds.
    Ask(GateEffect<C>),
    /// The barrier is settled.
    Settle(Vec<SettleStep<C, A>>),
}

/// What is live and what is held.
pub struct State<C, A> {
    /// The cell on which each live request is active.
    pub active_requests: Table<u64, String>,
    pub cells: Table<String, Phase>,
    /// The open barriers, by the operation that proves each, oldest first.
    pub barriers: Table<u64, Barrier<C, A>>,
    /// Requests that are over but for an output that is held back.
    pub gate_pinned: Table<u64, ()>,
    pub next_op: u64,
}

/// The result that goes with a proof.
pub open spec fn result_of(proven: bool) -> Result<(), RequestError> {
    if proven {
        Ok(())
    } else {
        Err(RequestError::DurabilityUnproven)
    }
}

impl<C, A> State<C, A> {
    pub open spec fn wf(self) -> bool {
        &&& self.active_requests.wf()
        &&& self.cells.wf()
        &&& self.barriers.wf()
        &&& self.gate_pinned.wf()
        &&& forall|op: u64| #[trigger] self.barriers@.contains_key(op) ==> op < self.next_op
    }

    /// Everything but the barriers is as it was.
    pub open spec fn same_but_barriers(self, other: Self) -> bool {
        &&& self.active_requests == other.active_requests
        &&& self.cells == other.cells
        &&& self.gate_pinned == other.gate_pinned
    }

    /// Every barrier but the one at `at` is the same.
    pub open spec fn same_barriers_but_at(self, other: Self, at: u64) -> bool {
        forall|op: u64|
            #![trigger self.barriers@[op]]
            self.barriers@.contains_key(op) && op != at ==> self.barriers@[op]
                == other.barriers@[op]
    }

    /// The cell of a live request.
    pub open spec fn cell_of(self, request: u64) -> Option<Seq<char>> {
        if self.active_requests@.contains_key(request) {
            Some(self.active_requests@[request]@)
        } else {
            None
        }
    }

    /// The cell of a live request and the epoch at which it is resident.
    pub open spec fn residence_of(self, request: u64) -> Option<(Seq<char>, u64)> {
        match self.cell_of(request) {
            Some(cell) => if self.cells@.contains_key(cell) {
                match self.cells@[cell] {
                    Phase::Resident { epoch } => Some((cell, epoch)),
                    Phase::Elsewhere => None,
                }
            } else {
                None
            },
            None => None,
        }
    }

    /// Is `op` the newest barrier on the cell?
    pub open spec fn newest_on(self, cell: Seq<char>, op: u64) -> bool {
        &&& self.barriers@.contains_key(op)
        &&& self.barriers@[op].cell@ == cell
        &&& forall|other: u64|
            #![trigger self.barriers@.contains_key(other)]
            self.barriers@.contains_key(other) && self.barriers@[other].cell@ == cell ==> other <= op
    }

    /// Is there any barrier on the cell?
    pub open spec fn gated(self, cell: Seq<char>) -> bool {
        exists|op: u64| #[trigger] self.barriers@.contains_key(op) && self.barriers@[op].cell@ == cell
    }

    /// After `held` has joined the barrier `op`: the same barriers, with one
    /// more follower there.
    pub open spec fn joined(self, before: Self, op: u64, held: Held<C>) -> bool {
        &&& self.next_op == before.next_op
        &&& self.barriers@.dom() == before.barriers@.dom()
        &&& forall|other: u64|
            #![trigger self.barriers@[other]]
            before.barriers@.contains_key(other) && other != op ==> self.barriers@[other]
                == before.barriers@[other]
        &&& self.barriers@[op].followers@ == before.barriers@[op].followers@.push(held)
        &&& self.barriers@[op].owner == before.barriers@[op].owner
        &&& self.barriers@[op].cell == before.barriers@[op].cell
        &&& self.barriers@[op].epoch == before.barriers@[op].epoch
        &&& self.barriers@[op].position == before.barriers@[op].position
    }

    pub fn new() -> (state: Self)
        ensures
            state.wf(),
            state.active_requests@ == Map::<u64, String>::empty(),
            state.cells@ == Map::<Seq<char>, Phase>::empty(),
            state.barriers@ == Map::<u64, Barrier<C, A>>::empty(),
            state.gate_pinned@ == Map::<u64, ()>::empty(),
            state.next_op == 0,
    {
        State {
            active_requests: Table::new(),
            cells: Table::new(),
            barriers: Table::new(),
            gate_pinned: Table::new(),
            next_op: 0,
        }
    }

    /// An output has been held or let go. `position` is what it wrote, if it
    /// wrote.
    pub open spec fn passed(
        self,
        before: Self,
        held: Held<C>,
        position: Option<u64>,
        effect: Option<GateEffect<C>>,
    ) -> bool {
        &&& self.same_but_barriers(before)
        &&& match position {
            Some(position) => self.barrier_opened(before, held, position, effect),
            None => self.barrier_trailed(before, held, effect),
        }
    }

    /// Hold an output, or let it go. `position` is what the output wrote, if
    /// it wrote.
    pub fn output(&mut self, held: Held<C>, position: Option<u64>) -> (effect: Option<GateEffect<C>>)
        requires
            old(self).wf(),
            position is Some && old(self).residence_of(held.request) is Some ==> old(self).next_op
                < u64::MAX,
        ensures
            final(self).wf(),
            final(self).passed(*old(self), held, position, effect),
    {
        match position {
            Some(position) => Some(self.open_write_barrier(held, position)),
            None => self.trail_open_barrier(held),
        }
    }

    /// An output that wrote has been held: its barrier is open and its proof
    /// is awaited. Only a live request on a resident cell can be proven; any
    /// other fails.
    pub open spec fn barrier_opened(
        self,
        before: Self,
        held: Held<C>,
        position: u64,
        effect: Option<GateEffect<C>>,
    ) -> bool {
        match before.residence_of(held.request) {
            Some((cell, epoch)) => {
                let op = before.next_op;
                &&& self.next_op == op + 1
                &&& effect matches Some(GateEffect::AwaitDurable {
                    op: awaited,
                    cell: named,
                    epoch: at,
                    position: up_to,
                }) && awaited == op && named@ == cell && at == epoch && up_to == position
                &&& self.barriers@ == before.barriers@.insert(op, self.barriers@[op])
                &&& self.barriers@[op].owner == GateOwner::<C, A>::Output(held)
                &&& self.barriers@[op].cell@ == cell
                &&& self.barriers@[op].epoch == epoch
                &&& self.barriers@[op].position == position
                &&& self.barriers@[op].followers@ == Seq::<Held<C>>::empty()
            },
            None => {
                &&& self.next_op == before.next_op
                &&& self.barriers == before.barriers
                &&& effect == Some(
                    GateEffect::Release { held, result: Err(RequestError::DurabilityUnproven) },
                )
            },
        }
    }

    fn open_write_barrier(&mut self, held: Held<C>, position: u64) -> (effect: GateEffect<C>)
        requires
            old(self).wf(),
            old(self).residence_of(held.request) is Some ==> old(self).next_op < u64::MAX,
        ensures
            final(self).wf(),
            final(self).same_but_barriers(*old(self)),
            final(self).barrier_opened(*old(self), held, position, Some(effect)),
    {
        let ghost before = *self;
        let cell: String = match self.active_requests.get(&held.request) {
            Some(cell) => cell.as_str().to_owned(),
            None => return GateEffect::Release {
                held,
                result: Err(RequestError::DurabilityUnproven),
            },
        };
        let phase: Phase = match self.cells.get(&cell) {
            Some(phase) => *phase,
            None => Phase::Elsewhere,
        };
        match phase {
            Phase::Elsewhere => GateEffect::Release {
                held,
                result: Err(RequestError::DurabilityUnproven),
            },
            Phase::Resident { epoch } => {
                let op = self.next_op;
                self.next_op = op + 1;
                let named = cell.as_str().to_owned();
                let barrier = Barrier {
                    owner: GateOwner::Output(held),
                    cell,
                    epoch,
                    position,
                    followers: Vec::new(),
                };
                self.barriers.insert(op, barrier);
                proof {
                    assert forall|other: u64| #[trigger]
                        self.barriers@.contains_key(other) implies other < self.next_op by {
                        if other != op {
                            assert(before.barriers@.contains_key(other));
                        }
                    }
                }
                GateEffect::AwaitDurable { op, cell: named, epoch, position }
            },
        }
    }

    /// An output that only read waits with the newest barrier on its cell, or
    /// leaves where there is none. One without a live request fails.
    pub open spec fn barrier_trailed(
        self,
        before: Self,
        held: Held<C>,
        effect: Option<GateEffect<C>>,
    ) -> bool {
        match before.cell_of(held.request) {
            Some(cell) => if before.gated(cell) {
                &&& effect is None
                &&& exists|op: u64| #[trigger] before.newest_on(cell, op) && self.joined(before, op, held)
            } else {
                &&& self.next_op == before.next_op
                &&& self.barriers == before.barriers
                &&& effect == Some(GateEffect::Release { held, result: Ok(()) })
            },
            None => {
                &&& self.next_op == before.next_op
                &&& self.barriers == before.barriers
                &&& effect == Some(
                    GateEffect::Release { held, result: Err(RequestError::DurabilityUnproven) },
                )
            },
        }
    }

    fn trail_open_barrier(&mut self, held: Held<C>) -> (effect: Option<GateEffect<C>>)
        requires
            old(self).wf(),
        ensures
            final(self).wf(),
            final(self).same_but_barriers(*old(self)),
            final(self).barrier_trailed(*old(self), held, effect),
    {
        let ghost before = *self;
        let cell: String = match self.active_requests.get(&held.request) {
            Some(cell) => cell.as_str().to_owned(),
            None => return Some(
                GateEffect::Release { held, result: Err(RequestError::DurabilityUnproven) },
            ),
        };
        let newest = self.newest_barrier(cell.as_str());
        match newest {
            None => Some(GateEffect::Release { held, result: Ok(()) }),
            Some(op) => {
                if let Some(barrier) = self.barriers.remove(&op) {
                    let mut followers = barrier.followers;
                    followers.push(held);
                    let barrier = Barrier {
                        owner: barrier.owner,
                        cell: barrier.cell,
                        epoch: barrier.epoch,
                        position: barrier.position,
                        followers,
                    };
                    self.barriers.insert(op, barrier);
                    proof {
                        assert(self.barriers@.dom() =~= before.barriers@.dom());
                        assert forall|other: u64| #[trigger]
                            self.barriers@.contains_key(other) implies other < self.next_op by {
                            assert(before.barriers@.contains_key(other));
                        }
                        assert(before.newest_on(cell@, op) && self.joined(before, op, held));
                    }
                }
                None
            },
        }
    }

    fn newest_barrier(&self, cell: &str) -> (newest: Option<u64>)
        requires
            self.wf(),
        ensures
            match newest {
                Some(op) => self.newest_on(cell@, op),
                None => !self.gated(cell@),
            },
    {
        let mut at: usize = self.barriers.entries.len();
        while at > 0
            invariant
                at <= self.barriers.entries@.len(),
                self.wf(),
                forall|i: int|
                    at <= i < self.barriers.entries@.len() ==> (
                    #[trigger] self.barriers.entries@[i]).1.cell@ != cell@,
            decreases at,
        {
            at = at - 1;
            if text::same(self.barriers.entries[at].1.cell.as_str(), cell) {
                let op = self.barriers.entries[at].0;
                proof {
                    self.barriers.lemma_place(at as int);
                    assert forall|other: u64|
                        #![trigger self.barriers@.contains_key(other)]
                        self.barriers@.contains_key(other) && self.barriers@[other].cell@
                            == cell@ implies other <= op by {
                        let place = self.barriers.place(other);
                        assert(self.barriers.entries@[place].0.key() == other);
                        self.barriers.lemma_place(place);
                        if place < at {
                            assert(u64::before(
                                self.barriers.entries@[place].0.key(),
                                self.barriers.entries@[at as int].0.key(),
                            ));
                        }
                    }
                }
                return Some(op);
            }
        }
        proof {
            if self.gated(cell@) {
                let op = choose|op: u64| #[trigger]
                    self.barriers@.contains_key(op) && self.barriers@[op].cell@ == cell@;
                let place = self.barriers.place(op);
                assert(self.barriers.entries@[place].0.key() == op);
                self.barriers.lemma_place(place);
            }
        }
        None
    }

    /// The proof of a barrier has arrived: how far the log is proven, and by
    /// whom, or that it is not. Only a proof that covers the barrier's position
    /// counts, and one of the bucket only if this node still owns the cell.
    pub fn durable_reached(&mut self, op: u64, durable: Option<u64>, source: ProofSource) -> (step:
        ProofStep<C, A>)
        requires
            old(self).wf(),
        ensures
            final(self).wf(),
            final(self).same_but_barriers(*old(self)),
            final(self).next_op == old(self).next_op,
            if !old(self).barriers@.contains_key(op) {
                step is Ignore && final(self).barriers == old(self).barriers
            } else {
                let barrier = old(self).barriers@[op];
                let proven = covers(durable, barrier.position);
                if proven && source is Bucket {
                    &&& final(self).barriers == old(self).barriers
                    &&& step matches ProofStep::Ask(GateEffect::VerifyOwnership {
                        op: asked,
                        cell,
                        epoch,
                    }) && asked == op && cell@ == barrier.cell@ && epoch == barrier.epoch
                } else {
                    &&& final(self).barriers@ == old(self).barriers@.remove(op)
                    &&& step matches ProofStep::Settle(steps) && settles(steps@, barrier, proven)
                }
            },
    {
        let (position, epoch, cell): (u64, u64, String) = match self.barriers.get(&op) {
            None => return ProofStep::Ignore,
            Some(barrier) => (
                barrier.position,
                barrier.epoch,
                barrier.cell.as_str().to_owned(),
            ),
        };
        let proven = match durable {
            Some(durable) => durable >= position,
            None => false,
        };
        match source {
            ProofSource::Bucket => {
                if proven {
                    return ProofStep::Ask(GateEffect::VerifyOwnership { op, cell, epoch });
                }
            },
            ProofSource::Fleet => {},
        }
        self.settle_gate(op, proven)
    }

    /// The ownership behind a bucket's proof was read. A node that lost the
    /// cell refuses the write as if it were not proven.
    pub fn ownership_verified(&mut self, op: u64, owned: bool) -> (step: ProofStep<C, A>)
        requires
            old(self).wf(),
        ensures
            final(self).wf(),
            final(self).same_but_barriers(*old(self)),
            final(self).next_op == old(self).next_op,
            if !old(self).barriers@.contains_key(op) {
                step is Ignore && final(self).barriers@ == old(self).barriers@
            } else {
                &&& final(self).barriers@ == old(self).barriers@.remove(op)
                &&& step matches ProofStep::Settle(steps) && settles(
                    steps@,
                    old(self).barriers@[op],
                    owned,
                )
            },
    {
        self.settle_gate(op, owned)
    }

    fn settle_gate(&mut self, op: u64, proven: bool) -> (step: ProofStep<C, A>)
        requires
            old(self).wf(),
        ensures
            final(self).wf(),
            final(self).same_but_barriers(*old(self)),
            final(self).next_op == old(self).next_op,
            if !old(self).barriers@.contains_key(op) {
                step is Ignore && final(self).barriers@ == old(self).barriers@
            } else {
                &&& final(self).barriers@ == old(self).barriers@.remove(op)
                &&& step matches ProofStep::Settle(steps) && settles(
                    steps@,
                    old(self).barriers@[op],
                    proven,
                )
            },
    {
        let ghost before = *self;
        let removed = self.barriers.remove(&op);
        proof {
            assert forall|other: u64| #[trigger] self.barriers@.contains_key(other) implies other
                < self.next_op by {
                assert(before.barriers@.contains_key(other));
            }
        }
        let barrier = match removed {
            None => {
                assert(self.barriers@ =~= before.barriers@);
                return ProofStep::Ignore;
            },
            Some(barrier) => barrier,
        };
        let ghost all = barrier;
        let mut steps: Vec<SettleStep<C, A>> = Vec::new();
        match barrier.owner {
            GateOwner::Output(held) => {
                steps.push(SettleStep::Release { held, result: outcome(proven) });
            },
            GateOwner::Alarm(alarm) => {
                steps.push(
                    SettleStep::Alarm {
                        alarm,
                        cell: barrier.cell.as_str().to_owned(),
                        epoch: barrier.epoch,
                        proven,
                    },
                );
            },
        }
        let ghost first = steps@[0];
        let mut rest = barrier.followers;
        let mut turned: Vec<Held<C>> = Vec::new();
        let ghost line = all.followers@;
        while rest.len() > 0
            invariant
                rest@.len() <= line.len(),
                rest@ == line.take(rest@.len() as int),
                turned@ == line.skip(rest@.len() as int).reverse(),
            decreases rest@.len(),
        {
            let ghost count = rest@.len();
            if let Some(held) = rest.pop() {
                proof {
                    assert(held == line[count - 1]);
                    assert(rest@ =~= line.take(count - 1));
                    assert(line.skip(count - 1) =~= seq![line[count - 1]] + line.skip(
                        count as int,
                    ));
                }
                turned.push(held);
                assert(turned@ =~= line.skip(count - 1).reverse());
            }
        }
        assert(line.skip(0) =~= line);
        while turned.len() > 0
            invariant
                turned@.len() <= line.len(),
                turned@ == line.skip(line.len() - turned@.len()).reverse(),
                steps@.len() == 1 + line.len() - turned@.len(),
                steps@[0] == first,
                forall|i: int|
                    0 <= i < line.len() - turned@.len() ==> #[trigger] steps@[i + 1] == (
                    SettleStep::<C, A>::Release { held: line[i], result: result_of(proven) }),
            decreases turned@.len(),
        {
            let ghost done = line.len() - turned@.len();
            let ghost before_push = steps@;
            if let Some(held) = turned.pop() {
                proof {
                    assert(held == line.skip(done)[0]);
                    assert(turned@ =~= line.skip(done + 1).reverse());
                }
                steps.push(SettleStep::Release { held, result: outcome(proven) });
                proof {
                    assert forall|i: int| 0 <= i < done + 1 implies #[trigger] steps@[i + 1] == (
                    SettleStep::<C, A>::Release { held: line[i], result: result_of(proven) }) by {
                        if i < done {
                            assert(steps@[i + 1] == before_push[i + 1]);
                        }
                    }
                }
            }
        }
        if !proven {
            let ghost before_push = steps@;
            steps.push(SettleStep::Reset { cell: barrier.cell, epoch: barrier.epoch });
            proof {
                assert forall|i: int| 0 <= i < line.len() implies #[trigger] steps@[i + 1] == (
                SettleStep::<C, A>::Release { held: line[i], result: result_of(proven) }) by {
                    assert(steps@[i + 1] == before_push[i + 1]);
                }
            }
        }
        ProofStep::Settle(steps)
    }

    /// Release one output. The result says whether its request is over now,
    /// which is to be dealt with before the effect.
    pub fn release_held(&mut self, held: Held<C>, result: Result<(), RequestError>) -> (released: (
        bool,
        GateEffect<C>,
    ))
        requires
            old(self).wf(),
        ensures
            final(self).wf(),
            final(self).active_requests == old(self).active_requests,
            final(self).cells == old(self).cells,
            final(self).barriers == old(self).barriers,
            final(self).next_op == old(self).next_op,
            final(self).gate_pinned@ == old(self).gate_pinned@.remove(held.request),
            released.0 == old(self).gate_pinned@.contains_key(held.request),
            released.1 == (GateEffect::Release { held, result }),
    {
        let pinned = match self.gate_pinned.remove(&held.request) {
            Some(_) => true,
            None => false,
        };
        (pinned, GateEffect::Release { held, result })
    }
}

fn outcome(proven: bool) -> (result: Result<(), RequestError>)
    ensures
        result == result_of(proven),
{
    if proven {
        Ok(())
    } else {
        Err(RequestError::DurabilityUnproven)
    }
}

/// Does a proof up to `durable` cover `position`?
pub open spec fn covers(durable: Option<u64>, position: u64) -> bool {
    durable matches Some(durable) && durable >= position
}

/// Do the steps settle the barrier? Its owner goes first, its followers after
/// it in order, all with the same result; a write that was refused resets its
/// cell.
pub open spec fn settles<C, A>(
    steps: Seq<SettleStep<C, A>>,
    barrier: Barrier<C, A>,
    proven: bool,
) -> bool {
    let line = barrier.followers@;
    &&& steps.len() == 1 + line.len() + if proven {
        0nat
    } else {
        1nat
    }
    &&& match barrier.owner {
        GateOwner::Output(held) => steps[0] == (SettleStep::<C, A>::Release {
            held,
            result: result_of(proven),
        }),
        GateOwner::Alarm(alarm) => steps[0] matches SettleStep::Alarm {
            alarm: finished,
            cell,
            epoch,
            proven: told,
        } && finished == alarm && cell@ == barrier.cell@ && epoch == barrier.epoch && told == proven,
    }
    &&& forall|i: int|
        0 <= i < line.len() ==> #[trigger] steps[i + 1] == (SettleStep::<C, A>::Release {
            held: line[i],
            result: result_of(proven),
        })
    &&& !proven ==> (steps[1 + line.len() as int] matches SettleStep::Reset { cell, epoch } && cell@
        == barrier.cell@ && epoch == barrier.epoch)
}

/// A barrier that was not proven releases nothing as done.
pub proof fn law_unproven_write_is_not_acknowledged<C, A>(
    steps: Seq<SettleStep<C, A>>,
    barrier: Barrier<C, A>,
    at: int,
)
    requires
        settles(steps, barrier, false),
        0 <= at < steps.len(),
    ensures
        steps[at] matches SettleStep::Release { held, result } ==> result is Err,
        steps[at] matches SettleStep::Alarm { proven, .. } ==> !proven,
{
    if 0 < at <= barrier.followers@.len() {
        assert(steps[(at - 1) + 1] == (SettleStep::<C, A>::Release {
            held: barrier.followers@[at - 1],
            result: result_of(false),
        }));
    }
}

/// A proven barrier releases everyone that waits with it, on the route that it
/// came by, and resets nothing.
pub proof fn law_proven_write_releases_all<C, A>(
    steps: Seq<SettleStep<C, A>>,
    barrier: Barrier<C, A>,
    at: int,
)
    requires
        settles(steps, barrier, true),
    ensures
        0 <= at < barrier.followers@.len() ==> steps[at + 1] == (SettleStep::<C, A>::Release {
            held: barrier.followers@[at],
            result: Ok(()),
        }),
        barrier.owner matches GateOwner::Output(held) ==> steps[0] == (SettleStep::<C, A>::Release {
            held,
            result: Ok(()),
        }),
        0 <= at < steps.len() ==> !(steps[at] is Reset),
{
    if 0 < at <= barrier.followers@.len() {
        assert(steps[(at - 1) + 1] == (SettleStep::<C, A>::Release {
            held: barrier.followers@[at - 1],
            result: result_of(true),
        }));
    }
}

/// No output passes an open barrier on its cell: a reader is held where a
/// write is not proven, and a writer always is.
pub proof fn law_open_barrier_holds_every_output<C, A>(
    before: State<C, A>,
    after: State<C, A>,
    held: Held<C>,
    position: u64,
    effect: Option<GateEffect<C>>,
    cell: Seq<char>,
)
    requires
        before.cell_of(held.request) == Some(cell),
        before.gated(cell),
    ensures
        after.barrier_trailed(before, held, effect) ==> effect is None,
        after.barrier_opened(before, held, position, effect) ==> !(effect matches Some(
            GateEffect::Release { held, result },
        ) && result is Ok),
{
}

/// Are two effects the same, but that one names `left` where the other names
/// `right`?
pub open spec fn effects_agree<C>(
    one: Option<GateEffect<C>>,
    other: Option<GateEffect<C>>,
    left: Held<C>,
    right: Held<C>,
) -> bool {
    match (one, other) {
        (None, None) => true,
        (
            Some(GateEffect::Release { held, result }),
            Some(GateEffect::Release { held: other_held, result: other_result }),
        ) => held == left && other_held == right && result == other_result,
        (
            Some(GateEffect::AwaitDurable { op, cell, epoch, position }),
            Some(
                GateEffect::AwaitDurable {
                    op: other_op,
                    cell: other_cell,
                    epoch: other_epoch,
                    position: other_position,
                },
            ),
        ) => op == other_op && cell@ == other_cell@ && epoch == other_epoch && position
            == other_position,
        _ => false,
    }
}

/// Are two lines of followers the same, but that one may end with `left` where
/// the other ends with `right`?
pub open spec fn lines_agree<C>(
    one: Seq<Held<C>>,
    other: Seq<Held<C>>,
    left: Held<C>,
    right: Held<C>,
) -> bool {
    ||| one == other
    ||| one.len() > 0 && other.len() > 0 && one.drop_last() == other.drop_last() && one.last()
        == left && other.last() == right
}

/// Are two barriers the same, but that one may hold `left` where the other
/// holds `right`?
pub open spec fn barriers_agree<C, A>(
    one: Barrier<C, A>,
    other: Barrier<C, A>,
    left: Held<C>,
    right: Held<C>,
) -> bool {
    &&& one.cell@ == other.cell@
    &&& one.epoch == other.epoch
    &&& one.position == other.position
    &&& one.owner == other.owner || one.owner == GateOwner::<C, A>::Output(left) && other.owner
        == GateOwner::<C, A>::Output(right)
    &&& lines_agree(one.followers@, other.followers@, left, right)
}

/// The route of an output decides nothing. Of two outputs of one request that
/// differ in their routes only, each is held or let go as the other is, and
/// what is kept differs in the new output's route only, at one barrier at most.
pub proof fn law_route_decides_nothing<C, A>(
    before: State<C, A>,
    one: State<C, A>,
    other: State<C, A>,
    request: u64,
    one_route: C,
    other_route: C,
    position: Option<u64>,
    one_effect: Option<GateEffect<C>>,
    other_effect: Option<GateEffect<C>>,
)
    requires
        one.passed(before, Held { request, channel: one_route }, position, one_effect),
        other.passed(before, Held { request, channel: other_route }, position, other_effect),
    ensures
        ({
            let left = Held { request, channel: one_route };
            let right = Held { request, channel: other_route };
            &&& effects_agree(one_effect, other_effect, left, right)
            &&& one.same_but_barriers(other)
            &&& one.next_op == other.next_op
            &&& one.barriers@.dom() == other.barriers@.dom()
            &&& forall|op: u64| #[trigger]
                one.barriers@.contains_key(op) ==> barriers_agree(
                    one.barriers@[op],
                    other.barriers@[op],
                    left,
                    right,
                )
            &&& exists|at: u64| #[trigger] one.same_barriers_but_at(other, at)
        }),
{
    let left = Held { request, channel: one_route };
    let right = Held { request, channel: other_route };
    match position {
        Some(_) => {
            if before.residence_of(request) is Some {
                let new = before.next_op;
                assert(one.barriers@.dom() =~= other.barriers@.dom());
                assert forall|op: u64|
                    #![trigger one.barriers@[op]]
                    one.barriers@.contains_key(op) && op != new implies one.barriers@[op]
                    == other.barriers@[op] by {
                    assert(one.barriers@[op] == before.barriers@.insert(
                        new,
                        one.barriers@[new],
                    )[op]);
                    assert(other.barriers@[op] == before.barriers@.insert(
                        new,
                        other.barriers@[new],
                    )[op]);
                }
                assert(one.same_barriers_but_at(other, new));
            } else {
                assert(one.same_barriers_but_at(other, before.next_op));
            }
        },
        None => {
            if before.cell_of(request) is Some && before.gated(before.cell_of(request)->0) {
                let cell = before.cell_of(request)->0;
                let new = choose|op: u64| #[trigger]
                    before.newest_on(cell, op) && one.joined(before, op, left);
                let same = choose|op: u64| #[trigger]
                    before.newest_on(cell, op) && other.joined(before, op, right);
                assert(before.barriers@.contains_key(new) && before.barriers@.contains_key(same));
                assert(new == same);
                let line = before.barriers@[new].followers@;
                assert(line.push(left).drop_last() =~= line.push(right).drop_last());
                assert forall|op: u64|
                    #![trigger one.barriers@[op]]
                    one.barriers@.contains_key(op) && op != new implies one.barriers@[op]
                    == other.barriers@[op] by {
                    assert(before.barriers@.contains_key(op));
                    assert(other.barriers@[op] == before.barriers@[op]);
                }
                assert(one.same_barriers_but_at(other, new));
            } else {
                assert(one.same_barriers_but_at(other, before.next_op));
            }
        },
    }
}

/// An output that wrote is held until its own write is proven: where its request
/// is live on a resident cell, a new barrier waits for exactly its position at
/// the cell's epoch and nothing leaves. Anywhere else the output fails. No other
/// barrier is touched.
pub proof fn law_write_waits_for_its_own_proof<C, A>(
    state: &mut State<C, A>,
    held: Held<C>,
    position: u64,
    effect: Option<GateEffect<C>>,
)
    requires
        old(state).wf(),
        call_ensures(State::<C, A>::output, (state, held, Some(position)), effect),
    ensures
        ({
            let requests = old(state).active_requests@;
            let cells = old(state).cells@;
            let live = requests.contains_key(held.request) && cells.contains_key(
                requests[held.request]@,
            ) && cells[requests[held.request]@] is Resident;
            &&& live ==> {
                let cell = requests[held.request]@;
                let epoch = cells[cell]->epoch;
                &&& effect matches Some(
                    GateEffect::AwaitDurable { op, cell: named, epoch: at, position: up_to },
                ) && named@ == cell && at == epoch && up_to == position && !old(state).barriers@.contains_key(op) && final(state).barriers@.contains_key(op) && final(state).barriers@[op].owner == GateOwner::<C, A>::Output(held) && final(state).barriers@[op].cell@ == cell && final(state).barriers@[op].epoch == epoch
                    && final(state).barriers@[op].position == position && final(state).barriers@[op].followers@.len() == 0 && (forall|other: u64| #[trigger]
                    final(state).barriers@.contains_key(other) <==> other == op || old(state).barriers@.contains_key(other)) && (forall|other: u64| #[trigger]
                    old(state).barriers@.contains_key(other) ==> other < op && final(state).barriers@[other] == old(state).barriers@[other])
            }
            &&& !live ==> (effect matches Some(GateEffect::Release { held: told, result }) && told
                == held && result is Err) && final(state).barriers@ == old(state).barriers@
            &&& final(state).active_requests@ == requests
            &&& final(state).cells@ == cells
            &&& final(state).gate_pinned@ == old(state).gate_pinned@
        }),
{
}

/// An output that only read leaves at once exactly where no write on its cell is
/// open. Where one is, it waits with the newest, behind those that wait already;
/// where its request is gone, it fails.
pub proof fn law_read_waits_for_the_newest_write<C, A>(
    state: &mut State<C, A>,
    held: Held<C>,
    effect: Option<GateEffect<C>>,
)
    requires
        old(state).wf(),
        call_ensures(State::<C, A>::output, (state, held, None::<u64>), effect),
    ensures
        ({
            let requests = old(state).active_requests@;
            let open = old(state).barriers@;
            let live = requests.contains_key(held.request);
            let cell = requests[held.request]@;
            let gated = exists|op: u64| #[trigger] open.contains_key(op) && open[op].cell@ == cell;
            &&& !live ==> (effect matches Some(GateEffect::Release { held: told, result }) && told
                == held && result is Err) && final(state).barriers@ == open
            &&& live && !gated ==> (effect matches Some(
                GateEffect::Release { held: told, result },
            ) && told == held && result is Ok) && final(state).barriers@ == open
            &&& live && gated ==> effect is None && exists|op: u64|
                {
                    &&& #[trigger] open.contains_key(op)
                    &&& open[op].cell@ == cell
                    &&& forall|other: u64| #[trigger]
                        open.contains_key(other) && open[other].cell@ == cell ==> other <= op
                    &&& final(state).barriers@.contains_key(op)
                    &&& final(state).barriers@[op].followers@ == open[op].followers@.push(held)
                    &&& final(state).barriers@[op].owner == open[op].owner
                    &&& final(state).barriers@[op].cell@ == cell
                    &&& final(state).barriers@[op].epoch == open[op].epoch
                    &&& final(state).barriers@[op].position == open[op].position
                    &&& forall|other: u64| #[trigger]
                        open.contains_key(other) && other != op ==> final(state).barriers@.contains_key(other) && final(state).barriers@[other]
                            == open[other]
                }
            &&& final(state).active_requests@ == requests
            &&& final(state).cells@ == old(state).cells@
            &&& final(state).gate_pinned@ == old(state).gate_pinned@
        }),
{
    let requests = old(state).active_requests@;
    let open = old(state).barriers@;
    if requests.contains_key(held.request) {
        let cell = requests[held.request]@;
        if old(state).gated(cell) {
            let op = choose|op: u64| #[trigger]
                old(state).newest_on(cell, op) && final(state).joined(*old(state), op, held);
            assert(open.contains_key(op));
            assert(final(state).barriers@.dom().contains(op));
            assert forall|other: u64| #[trigger] open.contains_key(other) && other != op implies final(state).barriers@.contains_key(other) && final(state).barriers@[other] == open[other] by {
                assert(final(state).barriers@.dom().contains(other));
            }
        }
    }
}

/// A proof settles its barrier by what it covers. The fleet's settles it at once:
/// the owner, an output or an alarm, and everyone behind it are told that the
/// write is proven exactly when the proof reaches the barrier's position, and a
/// write that is not proven resets its cell. A proof of the bucket that reaches
/// the position settles nothing yet but has the ownership read. A barrier that is
/// gone is passed over.
pub proof fn law_proof_settles_what_it_covers<C, A>(
    state: &mut State<C, A>,
    op: u64,
    durable: Option<u64>,
    source: ProofSource,
    step: ProofStep<C, A>,
)
    requires
        old(state).wf(),
        call_ensures(State::<C, A>::durable_reached, (state, op, durable, source), step),
    ensures
        !old(state).barriers@.contains_key(op) ==> step is Ignore && final(state).barriers@ == old(state).barriers@,
        old(state).barriers@.contains_key(op) ==> {
            let barrier = old(state).barriers@[op];
            let reached = durable is Some && barrier.position <= durable->0;
            &&& reached && source is Bucket ==> (step matches ProofStep::Ask(
                GateEffect::VerifyOwnership { op: asked, cell, epoch },
            ) && asked == op && cell@ == barrier.cell@ && epoch == barrier.epoch) && final(state).barriers@ == old(state).barriers@
            &&& !(reached && source is Bucket) ==> step is Settle && final(state).barriers@ == old(state).barriers@.remove(op) && {
                let steps = step->Settle_0@;
                &&& steps.len() >= 1 + barrier.followers@.len()
                &&& barrier.owner matches GateOwner::Output(held) ==> (steps[0] matches
                    SettleStep::Release { held: told, result } && told == held && (result is Ok
                    <==> reached))
                &&& barrier.owner matches GateOwner::Alarm(alarm) ==> (steps[0] matches
                    SettleStep::Alarm { alarm: told, cell, epoch, proven } && told == alarm && cell@
                    == barrier.cell@ && epoch == barrier.epoch && (proven <==> reached))
                &&& forall|k: int|
                    0 <= k < barrier.followers@.len() ==> (#[trigger] steps[k + 1] matches
                        SettleStep::Release { held, result } && held == barrier.followers@[k] && (
                    result is Ok <==> reached))
                &&& reached ==> steps.len() == 1 + barrier.followers@.len()
                &&& !(reached) ==> steps.len() == 2 + barrier.followers@.len() && (steps.last()
                    matches SettleStep::Reset { cell, epoch } && cell@
                    == barrier.cell@ && epoch == barrier.epoch)
            }
        },
        final(state).active_requests@ == old(state).active_requests@,
        final(state).cells@ == old(state).cells@,
        final(state).gate_pinned@ == old(state).gate_pinned@,
{
}

/// What the bucket proved counts exactly when the node still owns the cell: then
/// the owner of the barrier and everyone behind it are told that the write is
/// proven, and otherwise that it is not, and the cell is reset.
pub proof fn law_ownership_decides_the_buckets_proof<C, A>(
    state: &mut State<C, A>,
    op: u64,
    owned: bool,
    step: ProofStep<C, A>,
)
    requires
        old(state).wf(),
        call_ensures(State::<C, A>::ownership_verified, (state, op, owned), step),
    ensures
        !old(state).barriers@.contains_key(op) ==> step is Ignore && final(state).barriers@ == old(state).barriers@,
        old(state).barriers@.contains_key(op) ==> {
            let barrier = old(state).barriers@[op];
            &&& final(state).barriers@ == old(state).barriers@.remove(op)
            &&& step is Settle && {
                let steps = step->Settle_0@;
                &&& steps.len() >= 1 + barrier.followers@.len()
                &&& barrier.owner matches GateOwner::Output(held) ==> (steps[0] matches
                    SettleStep::Release { held: told, result } && told == held && (result is Ok
                    <==> owned))
                &&& barrier.owner matches GateOwner::Alarm(alarm) ==> (steps[0] matches
                    SettleStep::Alarm { alarm: told, cell, epoch, proven } && told == alarm && cell@
                    == barrier.cell@ && epoch == barrier.epoch && (proven <==> owned))
                &&& forall|k: int|
                    0 <= k < barrier.followers@.len() ==> (#[trigger] steps[k + 1] matches
                        SettleStep::Release { held, result } && held == barrier.followers@[k] && (
                    result is Ok <==> owned))
                &&& owned ==> steps.len() == 1 + barrier.followers@.len()
                &&& !(owned) ==> steps.len() == 2 + barrier.followers@.len() && (steps.last()
                    matches SettleStep::Reset { cell, epoch } && cell@
                    == barrier.cell@ && epoch == barrier.epoch)
            }
        },
        final(state).active_requests@ == old(state).active_requests@,
        final(state).cells@ == old(state).cells@,
        final(state).gate_pinned@ == old(state).gate_pinned@,
{
}

/// A released output leaves with the result that it was given, and its request is
/// over exactly when only this output kept it.
pub proof fn law_release_passes_the_result_on<C, A>(
    state: &mut State<C, A>,
    held: Held<C>,
    result: Result<(), RequestError>,
    released: (bool, GateEffect<C>),
)
    requires
        old(state).wf(),
        call_ensures(State::<C, A>::release_held, (state, held, result), released),
    ensures
        released.1 matches GateEffect::Release { held: told, result: given } && told == held
            && given == result,
        released.0 <==> old(state).gate_pinned@.contains_key(held.request),
        !final(state).gate_pinned@.contains_key(held.request),
        forall|other: u64| #[trigger]
            final(state).gate_pinned@.contains_key(other) <==> other != held.request && old(state).gate_pinned@.contains_key(other),
        final(state).barriers@ == old(state).barriers@,
        final(state).active_requests@ == old(state).active_requests@,
        final(state).cells@ == old(state).cells@,
{
}

/// A gate starts with nothing live and nothing held.
pub proof fn law_gate_starts_open<C, A>(state: State<C, A>, key: u64, cell: Seq<char>)
    requires
        call_ensures(State::<C, A>::new, (), state),
    ensures
        state.wf(),
        !state.barriers@.contains_key(key),
        !state.active_requests@.contains_key(key),
        !state.gate_pinned@.contains_key(key),
        !state.cells@.contains_key(cell),
{
}

} // verus!
