//! The registration of a shipper and its bundle sink, and the tasks that a
//! node runs for them.

use vstd::prelude::*;

verus! {

/// Which registration is in force. Each has a generation of its own, so an
/// owner that goes away late cannot end a newer one.
#[derive(Clone, Copy, Debug, PartialEq, Eq, Structural)]
pub struct RegistrationState {
    pub next_generation: u64,
    pub current: Option<u64>,
}

impl RegistrationState {
    /// No generation in force is newer than the last one given out.
    pub open spec fn wf(self) -> bool {
        self.current matches Some(generation) ==> generation <= self.next_generation
    }

    pub fn new() -> (state: Self)
        ensures
            state.wf(),
            state.next_generation == 0,
            state.current is None,
    {
        RegistrationState { next_generation: 0, current: None }
    }

    /// Install a shipper, in place of any other. After the stop none is.
    pub fn register(&mut self, stopped: bool) -> (generation: Option<u64>)
        requires
            old(self).wf(),
            old(self).next_generation < u64::MAX,
        ensures
            final(self).wf(),
            generation is Some <==> !stopped,
            stopped ==> *final(self) == *old(self),
            generation matches Some(generation) ==> {
                &&& generation == old(self).next_generation + 1
                &&& final(self).next_generation == generation
                &&& final(self).current == Some(generation)
            },
    {
        if stopped {
            return None;
        }
        self.next_generation = self.next_generation + 1;
        self.current = Some(self.next_generation);
        Some(self.next_generation)
    }

    /// The state after the owner of `generation` has gone.
    pub open spec fn retired(self, generation: u64) -> Self {
        RegistrationState {
            current: if self.current == Some(generation) {
                None
            } else {
                self.current
            },
            ..self
        }
    }

    /// The owner of `generation` has gone.
    pub fn retire(&mut self, generation: u64)
        requires
            old(self).wf(),
        ensures
            final(self).wf(),
            *final(self) == old(self).retired(generation),
    {
        let same = match self.current {
            Some(current) => current == generation,
            None => false,
        };
        if same {
            self.current = None;
        }
    }

    /// The shutdown ends any registration.
    pub fn clear(&mut self)
        requires
            old(self).wf(),
        ensures
            final(self).wf(),
            final(self).current is None,
            final(self).next_generation == old(self).next_generation,
    {
        self.current = None;
    }
}

/// An owner whose registration was superseded ends nothing when it goes.
pub proof fn law_old_owner_ends_nothing(state: RegistrationState, older: u64, newer: u64)
    requires
        state.current == Some(newer),
        older < newer,
    ensures
        state.retired(older) == state,
{
}

/// A task that a group owns.
#[derive(Clone, Copy, Debug, PartialEq, Eq, Structural)]
pub struct OwnedTask {
    pub id: u64,
}

/// The tasks that have been admitted and are not known to be over.
#[derive(Debug)]
pub struct TaskGroup {
    pub next_id: u64,
    pub tasks: Vec<OwnedTask>,
    pub stopped: bool,
}

impl TaskGroup {
    /// No two tasks share an id, and none has one that is still to be given.
    pub open spec fn wf(self) -> bool {
        &&& forall|i: int, j: int|
            0 <= i < j < self.tasks@.len() ==> (#[trigger] self.tasks@[i]).id != (
            #[trigger] self.tasks@[j]).id
        &&& forall|i: int|
            0 <= i < self.tasks@.len() ==> (#[trigger] self.tasks@[i]).id < self.next_id
    }

    /// Is there a task with this id?
    pub open spec fn holds(self, id: u64) -> bool {
        exists|i: int| 0 <= i < self.tasks@.len() && (#[trigger] self.tasks@[i]).id == id
    }

    pub fn new() -> (group: Self)
        ensures
            group.wf(),
            group.tasks@ == Seq::<OwnedTask>::empty(),
            !group.stopped,
            group.next_id == 0,
    {
        TaskGroup { next_id: 0, tasks: Vec::new(), stopped: false }
    }

    /// Admit a task. After the stop none is.
    pub fn spawn_owned(&mut self) -> (id: Option<u64>)
        requires
            old(self).wf(),
            old(self).next_id < u64::MAX,
        ensures
            final(self).wf(),
            final(self).stopped == old(self).stopped,
            id is Some <==> !old(self).stopped,
            old(self).stopped ==> final(self).tasks@ == old(self).tasks@ && final(self).next_id
                == old(self).next_id,
            id matches Some(id) ==> {
                &&& id == old(self).next_id
                &&& final(self).next_id == id + 1
                &&& final(self).tasks@ == old(self).tasks@.push(OwnedTask { id })
            },
    {
        if self.stopped {
            return None;
        }
        let id = self.next_id;
        self.next_id = id + 1;
        self.tasks.push(OwnedTask { id });
        Some(id)
    }

    /// A task has ended. One that failed stays, so that the shutdown reports
    /// it.
    pub fn completed(&mut self, id: u64, failed: bool)
        requires
            old(self).wf(),
        ensures
            final(self).wf(),
            final(self).stopped == old(self).stopped,
            final(self).next_id == old(self).next_id,
            failed ==> final(self).tasks@ == old(self).tasks@,
            !failed ==> final(self).tasks@ == old(self).tasks@.filter(
                |task: OwnedTask| task.id != id,
            ),
    {
        if failed {
            return ;
        }
        let ghost before = self.tasks@;
        let ghost keep = |task: OwnedTask| task.id != id;
        let mut kept: Vec<OwnedTask> = Vec::new();
        let mut at: usize = 0;
        proof {
            reveal(Seq::filter);
            assert(before.take(0) =~= Seq::<OwnedTask>::empty());
        }
        while at < self.tasks.len()
            invariant
                at <= self.tasks@.len(),
                self.tasks@ == before,
                keep == (|task: OwnedTask| task.id != id),
                kept@ == before.take(at as int).filter(keep),
                forall|k: int|
                    0 <= k < kept@.len() ==> exists|i: int|
                        0 <= i < at && before[i] == #[trigger] kept@[k],
                forall|k: int, m: int|
                    0 <= k < m < kept@.len() ==> (#[trigger] kept@[k]).id != (
                    #[trigger] kept@[m]).id,
                forall|i: int, j: int|
                    0 <= i < j < before.len() ==> (#[trigger] before[i]).id != (
                    #[trigger] before[j]).id,
            decreases self.tasks@.len() - at,
        {
            proof {
                reveal(Seq::filter);
                assert(before.take(at + 1).drop_last() =~= before.take(at as int));
            }
            let task = self.tasks[at];
            if task.id != id {
                let ghost earlier = kept@;
                kept.push(task);
                proof {
                    assert forall|k: int| 0 <= k < kept@.len() implies exists|i: int|
                        0 <= i < at + 1 && before[i] == #[trigger] kept@[k] by {
                        if k < earlier.len() {
                            assert(kept@[k] == earlier[k]);
                            let i = choose|i: int| 0 <= i < at && before[i] == earlier[k];
                            assert(before[i] == kept@[k]);
                        } else {
                            assert(before[at as int] == kept@[k]);
                        }
                    }
                    assert forall|k: int, m: int| 0 <= k < m < kept@.len() implies (
                    #[trigger] kept@[k]).id != (#[trigger] kept@[m]).id by {
                        if m == earlier.len() {
                            let i = choose|i: int| 0 <= i < at && before[i] == earlier[k];
                            assert(before[i].id != before[at as int].id);
                        }
                    }
                }
            }
            at = at + 1;
        }
        assert(before.take(at as int) =~= before);
        self.tasks = kept;
        proof {
            assert forall|i: int| 0 <= i < self.tasks@.len() implies (
            #[trigger] self.tasks@[i]).id < self.next_id by {
                let k = choose|k: int| 0 <= k < at && before[k] == self.tasks@[i];
                assert(before[k].id < self.next_id);
            }
        }
    }

    /// The task to wait for next, the last of them. It is off the record while
    /// it is waited for.
    pub fn take_task(&mut self) -> (task: Option<OwnedTask>)
        requires
            old(self).wf(),
        ensures
            final(self).wf(),
            final(self).stopped == old(self).stopped,
            final(self).next_id == old(self).next_id,
            task is None <==> old(self).tasks@.len() == 0,
            task is None ==> final(self).tasks@ == old(self).tasks@,
            task matches Some(task) ==> {
                &&& task == old(self).tasks@.last()
                &&& final(self).tasks@ == old(self).tasks@.drop_last()
                &&& task.id < final(self).next_id
                &&& !final(self).holds(task.id)
            },
    {
        let ghost before = self.tasks@;
        match self.tasks.pop() {
            Some(task) => {
                proof {
                    assert(task == before[before.len() - 1]);
                    assert forall|i: int| 0 <= i < self.tasks@.len() implies (
                    #[trigger] self.tasks@[i]).id != task.id by {
                        assert(self.tasks@[i] == before[i]);
                    }
                }
                Some(task)
            },
            None => None,
        }
    }

    /// The wait for a task was given up: it is on the record again.
    pub fn put_back(&mut self, task: OwnedTask)
        requires
            old(self).wf(),
            task.id < old(self).next_id,
            !old(self).holds(task.id),
        ensures
            final(self).wf(),
            final(self).stopped == old(self).stopped,
            final(self).next_id == old(self).next_id,
            final(self).tasks@ == old(self).tasks@.push(task),
    {
        self.tasks.push(task);
    }

    /// Admit no further task.
    pub fn request_stop(&mut self)
        ensures
            final(self).stopped,
            final(self).tasks == old(self).tasks,
            final(self).next_id == old(self).next_id,
    {
        self.stopped = true;
    }

    pub fn is_empty(&self) -> (empty: bool)
        ensures
            empty == (self.tasks@.len() == 0),
    {
        self.tasks.len() == 0
    }
}

/// A wait that is given up loses no task, whatever was admitted meanwhile.
pub proof fn law_abandoned_wait_loses_no_task(
    before: TaskGroup,
    meanwhile: Seq<OwnedTask>,
    task: OwnedTask,
)
    requires
        before.holds(task.id),
        before.tasks@.last() == task,
    ensures
        forall|other: OwnedTask|
            before.tasks@.contains(other) ==> #[trigger] (before.tasks@.drop_last()
                + meanwhile).push(task).contains(other),
{
    let after = (before.tasks@.drop_last() + meanwhile).push(task);
    assert forall|other: OwnedTask| before.tasks@.contains(other) implies #[trigger] after.contains(
        other,
    ) by {
        let i = choose|i: int| 0 <= i < before.tasks@.len() && before.tasks@[i] == other;
        if i < before.tasks@.len() - 1 {
            assert(after[i] == other);
        } else {
            assert(after[after.len() - 1] == other);
        }
    }
}

/// A registration takes the place of any other under a generation that was never
/// given out before, but for one after the stop, which changes nothing.
pub proof fn law_registration_is_new(
    state: &mut RegistrationState,
    stopped: bool,
    generation: Option<u64>,
)
    requires
        old(state).wf(),
        call_ensures(RegistrationState::register, (state, stopped), generation),
    ensures
        generation is None <==> stopped,
        final(state).current == if stopped {
            old(state).current
        } else {
            generation
        },
        generation matches Some(generation) ==> generation > old(state).next_generation && final(state).next_generation >= generation && old(state).current != Some(generation),
        stopped ==> final(state).next_generation == old(state).next_generation,
{
}

/// An owner that goes ends its own registration and no other; the shutdown ends
/// whichever there is. No generation is given out twice for it.
pub proof fn law_owner_ends_its_own_registration(
    retiring: &mut RegistrationState,
    generation: u64,
    clearing: &mut RegistrationState,
    fresh: RegistrationState,
)
    requires
        call_ensures(RegistrationState::retire, (retiring, generation), ()),
        call_ensures(RegistrationState::clear, (clearing,), ()),
        call_ensures(RegistrationState::new, (), fresh),
    ensures
        old(retiring).current == Some(generation) ==> final(retiring).current is None,
        old(retiring).current != Some(generation) ==> final(retiring).current == old(retiring).current,
        final(retiring).next_generation == old(retiring).next_generation,
        final(clearing).current is None,
        final(clearing).next_generation == old(clearing).next_generation,
        fresh.current is None,
{
}

/// A task is admitted unless the stop was asked for, under an id that no other has,
/// and is on the record from then on.
pub proof fn law_admitted_task_is_on_record(group: &mut TaskGroup, id: Option<u64>, other: u64)
    requires
        old(group).wf(),
        call_ensures(TaskGroup::spawn_owned, (group,), id),
    ensures
        id is None <==> old(group).stopped,
        id matches Some(id) ==> !old(group).holds(id) && final(group).holds(id),
        old(group).holds(other) ==> final(group).holds(other),
        id is None ==> final(group).tasks@ == old(group).tasks@,
        final(group).holds(other) ==> old(group).holds(other) || id == Some(other),
        final(group).stopped == old(group).stopped,
{
    if let Some(id) = id {
        let last = final(group).tasks@.len() - 1;
        assert(final(group).tasks@[last].id == id);
        if old(group).holds(other) {
            let i = choose|i: int|
                0 <= i < old(group).tasks@.len() && (#[trigger] old(group).tasks@[i]).id == other;
            assert(final(group).tasks@[i].id == other);
        }
        if final(group).holds(other) && other != id {
            let i = choose|i: int|
                0 <= i < final(group).tasks@.len() && (#[trigger] final(group).tasks@[i]).id
                    == other;
            assert(old(group).tasks@[i].id == other);
        }
    }
}

/// A task that ended well is off the record, and no other goes with it; one that
/// failed stays there.
pub proof fn law_only_a_finished_task_leaves_the_record(
    group: &mut TaskGroup,
    id: u64,
    failed: bool,
    other: u64,
)
    requires
        call_ensures(TaskGroup::completed, (group, id, failed), ()),
    ensures
        failed ==> final(group).tasks@ == old(group).tasks@,
        !failed ==> !final(group).holds(id),
        other != id ==> (final(group).holds(other) <==> old(group).holds(other)),
{
    if !failed {
        let keep = |task: OwnedTask| task.id != id;
        let (before, after) = (old(group).tasks@, final(group).tasks@);
        broadcast use vstd::seq_lib::group_filter_ensures;
        if final(group).holds(id) {
            let i = choose|i: int| 0 <= i < after.len() && (#[trigger] after[i]).id == id;
            assert(keep(before.filter(keep)[i]));
        }
        if other != id {
            if old(group).holds(other) {
                let i = choose|i: int| 0 <= i < before.len() && (#[trigger] before[i]).id == other;
                assert(keep(before[i]));
                assert(before.filter(keep).contains(before[i]));
                let k = choose|k: int| 0 <= k < after.len() && after[k] == before[i];
                assert(after[k].id == other);
            }
            if final(group).holds(other) {
                let k = choose|k: int| 0 <= k < after.len() && (#[trigger] after[k]).id == other;
                crate::repl::ship::lemma_filter_is_among(before, keep, k);
                let i = choose|i: int| 0 <= i < before.len() && before[i] == after[k];
                assert(before[i].id == other);
            }
        }
    }
}

/// A task that is taken to be waited for and put back leaves the record as it was.
pub proof fn law_put_back_task_is_on_record_again(
    taking: &mut TaskGroup,
    task: OwnedTask,
    putting: &mut TaskGroup,
    empty: bool,
)
    requires
        call_ensures(TaskGroup::is_empty, (old(taking),), empty),
        call_ensures(TaskGroup::take_task, (taking,), Some(task)),
        *old(putting) == *final(taking),
        call_ensures(TaskGroup::put_back, (putting, task), ()),
    ensures
        !empty,
        old(taking).tasks@.contains(task),
        final(taking).tasks@.len() == old(taking).tasks@.len() - 1,
        final(putting).tasks@ == old(taking).tasks@,
{
    assert(final(putting).tasks@ =~= old(taking).tasks@);
    assert(old(taking).tasks@[old(taking).tasks@.len() - 1] == task);
}

/// After a stop no task is admitted, those on the record stay, and there is a task
/// to wait for exactly as long as there is one.
pub proof fn law_stopped_group_waits_for_its_tasks(
    stopping: &mut TaskGroup,
    spawning: &mut TaskGroup,
    id: Option<u64>,
    taking: &mut TaskGroup,
    task: Option<OwnedTask>,
    empty: bool,
)
    requires
        call_ensures(TaskGroup::request_stop, (stopping,), ()),
        *old(spawning) == *final(stopping),
        call_ensures(TaskGroup::spawn_owned, (spawning,), id),
        call_ensures(TaskGroup::take_task, (taking,), task),
        call_ensures(TaskGroup::is_empty, (old(taking),), empty),
    ensures
        id is None,
        final(stopping).tasks@ == old(stopping).tasks@,
        task is None <==> empty,
        empty <==> old(taking).tasks@.len() == 0,
{
}

/// A group starts empty and open. Whatever happens to its tasks, no id is given
/// out twice and only a stop stops it.
pub proof fn law_no_id_is_given_twice(
    fresh: TaskGroup,
    spawning: &mut TaskGroup,
    id: Option<u64>,
    completing: &mut TaskGroup,
    done: u64,
    failed: bool,
    taking: &mut TaskGroup,
    task: Option<OwnedTask>,
    putting: &mut TaskGroup,
    back: OwnedTask,
    stopping: &mut TaskGroup,
)
    requires
        call_ensures(TaskGroup::new, (), fresh),
        call_ensures(TaskGroup::spawn_owned, (spawning,), id),
        call_ensures(TaskGroup::completed, (completing, done, failed), ()),
        call_ensures(TaskGroup::take_task, (taking,), task),
        call_ensures(TaskGroup::put_back, (putting, back), ()),
        call_ensures(TaskGroup::request_stop, (stopping,), ()),
    ensures
        fresh.tasks@.len() == 0 && !fresh.stopped,
        id matches Some(id) ==> id >= old(spawning).next_id && final(spawning).next_id > id,
        final(spawning).next_id >= old(spawning).next_id,
        final(completing).next_id == old(completing).next_id,
        final(taking).next_id == old(taking).next_id,
        final(putting).next_id == old(putting).next_id,
        final(stopping).next_id == old(stopping).next_id,
        final(spawning).stopped == old(spawning).stopped,
        final(completing).stopped == old(completing).stopped,
        final(taking).stopped == old(taking).stopped,
        final(putting).stopped == old(putting).stopped,
        final(stopping).stopped,
{
}

} // verus!
