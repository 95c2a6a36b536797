//! Queues of workloads that wait for their dependencies, before starting or
//! before deletion, and the promotion of those whose conditions are met.
use vstd::prelude::*;
use crate::objects::{
    dependencies_fulfilled, AddCondition, DeletedWorkload, Dependent, ExecutionState, FulfilledBy,
    WorkloadSpec,
};
use crate::parameter_storage::ParameterStorage;

verus! {

pub type ReadyWorkloads = Vec<WorkloadSpec>;

pub type WaitingWorkloads = Vec<WorkloadSpec>;

pub type ReadyDeletedWorkloads = Vec<DeletedWorkload>;

pub type WaitingDeletedWorkloads = Vec<DeletedWorkload>;

/// The items that declare no dependency, in their original order.
pub open spec fn without_dependencies<T: Dependent>(items: Seq<T>) -> Seq<T> {
    items.filter(|w: T| !w.spec_has_dependencies())
}

/// The items that declare at least one dependency, in their original order.
pub open spec fn with_dependencies<T: Dependent>(items: Seq<T>) -> Seq<T> {
    items.filter(|w: T| w.spec_has_dependencies())
}

/// The queued items whose dependencies are all met in `states`, in queue order.
pub open spec fn ready_entries<T: Dependent>(
    queue: Seq<T>,
    states: Map<Seq<char>, ExecutionState>,
) -> Seq<T> {
    queue.filter(|w: T| w.spec_ready(states))
}

/// The queued items that still wait in `states`, in queue order.
pub open spec fn waiting_entries<T: Dependent>(
    queue: Seq<T>,
    states: Map<Seq<char>, ExecutionState>,
) -> Seq<T> {
    queue.filter(|w: T| !w.spec_ready(states))
}

/// No two items share a name.
pub open spec fn names_unique<T: Dependent>(queue: Seq<T>) -> bool {
    forall|i: int, j: int|
        0 <= i < j < queue.len() ==> #[trigger] queue[i].spec_name() != #[trigger] queue[j].spec_name()
}

/// The queue after registering `item`: an entry of the same name is dropped,
/// and `item` goes to the back.
pub open spec fn enqueue_one<T: Dependent>(queue: Seq<T>, item: T) -> Seq<T> {
    if exists|i: int| 0 <= i < queue.len() && queue[i].spec_name() == item.spec_name() {
        let i = choose|i: int| 0 <= i < queue.len() && queue[i].spec_name() == item.spec_name();
        queue.remove(i).push(item)
    } else {
        queue.push(item)
    }
}

/// The queue after registering each of `items` in turn; the last of a name wins.
pub open spec fn enqueue_all<T: Dependent>(queue: Seq<T>, items: Seq<T>) -> Seq<T>
    decreases items.len(),
{
    if items.len() == 0 {
        queue
    } else {
        enqueue_all(enqueue_one(queue, items[0]), items.skip(1))
    }
}

/// Filtering keeps only items of the sequence, so it keeps names apart.
proof fn lemma_filter_names_unique<T: Dependent>(s: Seq<T>, p: spec_fn(T) -> bool)
    requires
        names_unique(s),
    ensures
        names_unique(s.filter(p)),
        forall|i: int| 0 <= i < s.filter(p).len() ==> s.contains(#[trigger] s.filter(p)[i]),
    decreases s.len(),
{
    broadcast use Seq::lemma_filter_push;

    if s.len() > 0 {
        let rest = s.drop_last();
        let x = s.last();
        assert(rest.push(x) =~= s);
        lemma_filter_names_unique(rest, p);
        let f = rest.filter(p);
        assert forall|i: int| 0 <= i < f.len() implies s.contains(#[trigger] f[i]) by {
            let k = choose|k: int| 0 <= k < rest.len() && rest[k] == f[i];
            assert(s[k] == rest[k]);
        }
        if p(x) {
            let g = f.push(x);
            assert(s[s.len() - 1] == x);
            assert forall|i: int, j: int| 0 <= i < j < g.len() implies #[trigger] g[i].spec_name()
                != #[trigger] g[j].spec_name() by {
                if j == f.len() {
                    let k = choose|k: int| 0 <= k < rest.len() && rest[k] == f[i];
                    assert(s[k] == rest[k]);
                } else {
                    assert(g[i] == f[i] && g[j] == f[j]);
                }
            }
        }
    }
}

/// Splits `items` into those with no dependency and those with some, keeping order.
fn split_by_dependencies<T: Dependent>(items: Vec<T>) -> (r: (Vec<T>, Vec<T>))
    ensures
        r.0@ == without_dependencies(items@),
        r.1@ == with_dependencies(items@),
{
    let ghost all = items@;
    let mut rest = items;
    let mut ready: Vec<T> = Vec::new();
    let mut waiting: Vec<T> = Vec::new();
    let ghost mut k: int = 0;
    while rest.len() > 0
        invariant
            0 <= k,
            k + rest@.len() == all.len(),
            rest@ == all.skip(k),
            ready@ == without_dependencies(all.take(k)),
            waiting@ == with_dependencies(all.take(k)),
        decreases rest@.len(),
    {
        let ghost before = rest@;
        let item = rest.remove(0);
        proof {
            assert(before[0] == all.skip(k)[0]);
            assert(item == all[k]);
            assert(all.take(k + 1) =~= all.take(k).push(item));
            broadcast use Seq::lemma_filter_push;
            assert(rest@ =~= all.skip(k + 1));
        }
        if item.has_dependencies() {
            waiting.push(item);
        } else {
            ready.push(item);
        }
        proof {
            k = k + 1;
        }
    }
    assert(all.take(k) =~= all);
    (ready, waiting)
}

/// Position of the item named `name`, if there is one.
fn position_by_name<T: Dependent>(queue: &Vec<T>, name: &String) -> (r: Option<usize>)
    ensures
        match r {
            Some(i) => i < queue@.len() && queue@[i as int].spec_name() == name@,
            None => forall|j: int| 0 <= j < queue@.len() ==> queue@[j].spec_name() != name@,
        },
{
    let mut i: usize = 0;
    while i < queue.len()
        invariant
            i <= queue@.len(),
            forall|j: int| 0 <= j < i ==> queue@[j].spec_name() != name@,
        decreases queue@.len() - i,
    {
        if *queue[i].name() == *name {
            return Some(i);
        }
        i = i + 1;
    }
    None
}

/// Registers `item` in `queue`, dropping an entry of the same name.
fn enqueue<T: Dependent>(queue: &mut Vec<T>, item: T)
    requires
        names_unique(old(queue)@),
    ensures
        final(queue)@ == enqueue_one(old(queue)@, item),
        names_unique(final(queue)@),
{
    let pos = position_by_name(queue, item.name());
    let found = pos.is_some();
    let i: usize = match pos {
        Some(i) => i,
        None => 0,
    };
    let ghost q = queue@;
    if found {
        proof {
            assert(q[i as int].spec_name() == item.spec_name());
            let c = choose|c: int| 0 <= c < q.len() && q[c].spec_name() == item.spec_name();
            if c != i {
                assert(q[c].spec_name() != q[i as int].spec_name());
            }
        }
        queue.remove(i);
    }
    queue.push(item);
    proof {
        let r = queue@;
        assert forall|a: int, b: int| 0 <= a < b < r.len() implies #[trigger] r[a].spec_name()
            != #[trigger] r[b].spec_name() by {
            if b == r.len() - 1 {
                if found {
                    if a < i {
                        assert(r[a] == q[a]);
                    } else {
                        assert(r[a] == q[a + 1]);
                    }
                } else {
                    assert(r[a] == q[a]);
                }
            } else if found {
                if a >= i {
                    assert(r[a] == q[a + 1]);
                    assert(r[b] == q[b + 1]);
                } else if b >= i {
                    assert(r[a] == q[a]);
                    assert(r[b] == q[b + 1]);
                }
            }
        }
    }
}

/// Registers each of `items` in turn.
fn enqueue_each<T: Dependent>(queue: &mut Vec<T>, items: Vec<T>)
    requires
        names_unique(old(queue)@),
    ensures
        final(queue)@ == enqueue_all(old(queue)@, items@),
        names_unique(final(queue)@),
{
    let mut rest = items;
    while rest.len() > 0
        invariant
            names_unique(queue@),
            enqueue_all(queue@, rest@) == enqueue_all(old(queue)@, items@),
        decreases rest@.len(),
    {
        let ghost before = rest@;
        let item = rest.remove(0);
        assert(rest@ =~= before.skip(1));
        enqueue(queue, item);
    }
}

/// Removes from `queue` and returns every item whose dependencies are met in `store`.
fn take_ready<T: Dependent>(queue: &mut Vec<T>, store: &ParameterStorage) -> (r: Vec<T>)
    requires
        store.wf(),
        names_unique(old(queue)@),
    ensures
        r@ == ready_entries(old(queue)@, store@),
        final(queue)@ == waiting_entries(old(queue)@, store@),
        names_unique(final(queue)@),
{
    let ghost all = queue@;
    let mut rest: Vec<T> = Vec::new();
    std::mem::swap(queue, &mut rest);
    let mut ready: Vec<T> = Vec::new();
    let ghost mut k: int = 0;
    while rest.len() > 0
        invariant
            store.wf(),
            0 <= k,
            k + rest@.len() == all.len(),
            rest@ == all.skip(k),
            ready@ == ready_entries(all.take(k), store@),
            queue@ == waiting_entries(all.take(k), store@),
        decreases rest@.len(),
    {
        let ghost before = rest@;
        let item = rest.remove(0);
        proof {
            assert(before[0] == all.skip(k)[0]);
            assert(item == all[k]);
            assert(all.take(k + 1) =~= all.take(k).push(item));
            broadcast use Seq::lemma_filter_push;
            assert(rest@ =~= all.skip(k + 1));
        }
        if item.dependencies_fulfilled(store) {
            ready.push(item);
        } else {
            queue.push(item);
        }
        proof {
            k = k + 1;
        }
    }
    proof {
        assert(all.take(k) =~= all);
        lemma_filter_names_unique(all, |w: T| !w.spec_ready(store@));
    }
    ready
}

/// Holds the workloads that wait for their dependencies: one queue of
/// workloads to start, one of workloads to delete. Each name is queued at
/// most once per queue.
pub struct DependencyScheduler {
    start_queue: Vec<WorkloadSpec>,
    delete_queue: Vec<DeletedWorkload>,
}

impl DependencyScheduler {
    /// The workloads waiting to start, in queue order.
    pub closed spec fn start_queue(&self) -> Seq<WorkloadSpec> {
        self.start_queue@
    }

    /// The workloads waiting to be deleted, in queue order.
    pub closed spec fn delete_queue(&self) -> Seq<DeletedWorkload> {
        self.delete_queue@
    }

    /// No name is queued twice in the same queue.
    pub open spec fn wf(&self) -> bool {
        names_unique(self.start_queue()) && names_unique(self.delete_queue())
    }

    /// A scheduler with both queues empty.
    pub fn new() -> (r: Self)
        ensures
            r.wf(),
            r.start_queue() == Seq::<WorkloadSpec>::empty(),
            r.delete_queue() == Seq::<DeletedWorkload>::empty(),
    {
        DependencyScheduler { start_queue: Vec::new(), delete_queue: Vec::new() }
    }

    /// Splits new workloads into those that may start at once (no dependency)
    /// and those that must wait, each in input order.
    pub fn split_workloads_to_ready_and_waiting(new_workloads: Vec<WorkloadSpec>) -> (r: (
        ReadyWorkloads,
        WaitingWorkloads,
    ))
        ensures
            r.0@ == without_dependencies(new_workloads@),
            r.1@ == with_dependencies(new_workloads@),
    {
        split_by_dependencies(new_workloads)
    }

    /// Queues workloads to start once their dependencies are met; a workload
    /// replaces a queued one of the same name.
    pub fn put_on_waiting_queue(&mut self, workloads: WaitingWorkloads)
        requires
            old(self).wf(),
        ensures
            final(self).wf(),
            final(self).start_queue() == enqueue_all(old(self).start_queue(), workloads@),
            final(self).delete_queue() == old(self).delete_queue(),
    {
        enqueue_each(&mut self.start_queue, workloads);
    }

    /// Splits deleted workloads into those that may be deleted at once (no
    /// dependency) and those that must wait, each in input order.
    pub fn split_deleted_workloads_to_ready_and_waiting(
        deleted_workloads: Vec<DeletedWorkload>,
    ) -> (r: (ReadyDeletedWorkloads, WaitingDeletedWorkloads))
        ensures
            r.0@ == without_dependencies(deleted_workloads@),
            r.1@ == with_dependencies(deleted_workloads@),
    {
        split_by_dependencies(deleted_workloads)
    }

    /// Queues workloads to delete once their delete conditions are met; a
    /// workload replaces a queued one of the same name.
    pub fn put_on_delete_waiting_queue(&mut self, workloads: WaitingDeletedWorkloads)
        requires
            old(self).wf(),
        ensures
            final(self).wf(),
            final(self).delete_queue() == enqueue_all(old(self).delete_queue(), workloads@),
            final(self).start_queue() == old(self).start_queue(),
    {
        enqueue_each(&mut self.delete_queue, workloads);
    }

    /// Removes and returns every queued workload to start whose dependencies
    /// all have a recorded state that their condition accepts; the others stay.
    pub fn next_workloads_to_start(&mut self, workload_state_db: &ParameterStorage) -> (r:
        ReadyWorkloads)
        requires
            old(self).wf(),
            workload_state_db.wf(),
        ensures
            final(self).wf(),
            r@ == ready_entries(old(self).start_queue(), workload_state_db@),
            final(self).start_queue() == waiting_entries(
                old(self).start_queue(),
                workload_state_db@,
            ),
            final(self).delete_queue() == old(self).delete_queue(),
    {
        take_ready(&mut self.start_queue, workload_state_db)
    }

    /// Removes and returns every queued workload to delete whose dependencies
    /// all have a recorded state that their delete condition accepts; the
    /// others stay.
    pub fn next_workloads_to_delete(&mut self, workload_state_db: &ParameterStorage) -> (r:
        ReadyDeletedWorkloads)
        requires
            old(self).wf(),
            workload_state_db.wf(),
        ensures
            final(self).wf(),
            r@ == ready_entries(old(self).delete_queue(), workload_state_db@),
            final(self).delete_queue() == waiting_entries(
                old(self).delete_queue(),
                workload_state_db@,
            ),
            final(self).start_queue() == old(self).start_queue(),
    {
        take_ready(&mut self.delete_queue, workload_state_db)
    }
}

/// Splitting is a partition: every item lands in exactly one of the two
/// outputs, those without dependencies among the ready ones and the others
/// among the waiting ones, and both outputs hold only items of their kind.
pub proof fn lemma_split_is_partition<T: Dependent>(items: Seq<T>)
    ensures
        without_dependencies(items).len() + with_dependencies(items).len() == items.len(),
        forall|i: int|
            0 <= i < items.len() && !items[i].spec_has_dependencies() ==> without_dependencies(
                items,
            ).contains(#[trigger] items[i]),
        forall|i: int|
            0 <= i < items.len() && items[i].spec_has_dependencies() ==> with_dependencies(
                items,
            ).contains(#[trigger] items[i]),
        forall|i: int|
            0 <= i < without_dependencies(items).len()
                ==> !(#[trigger] without_dependencies(items)[i]).spec_has_dependencies(),
        forall|i: int|
            0 <= i < with_dependencies(items).len()
                ==> (#[trigger] with_dependencies(items)[i]).spec_has_dependencies(),
    decreases items.len(),
{
    broadcast use Seq::lemma_filter_push, Seq::lemma_filter_pred, Seq::lemma_filter_contains;

    if items.len() > 0 {
        let rest = items.drop_last();
        assert(rest.push(items.last()) =~= items);
        lemma_split_is_partition(rest);
    }
}

/// Filtering by a predicate that no item meets leaves nothing.
proof fn lemma_filter_none<A>(s: Seq<A>, p: spec_fn(A) -> bool)
    requires
        forall|i: int| 0 <= i < s.len() ==> !p(#[trigger] s[i]),
    ensures
        s.filter(p) == Seq::<A>::empty(),
    decreases s.len(),
{
    broadcast use Seq::lemma_filter_push;

    if s.len() > 0 {
        let rest = s.drop_last();
        assert(rest.push(s.last()) =~= s);
        lemma_filter_none(rest, p);
    }
}

/// Promoting twice against the same states: the second promotion returns
/// nothing, so none of the names that the first one returned comes again.
pub proof fn lemma_no_double_emission<T: Dependent>(
    queue: Seq<T>,
    states: Map<Seq<char>, ExecutionState>,
)
    ensures
        ready_entries(waiting_entries(queue, states), states) == Seq::<T>::empty(),
        forall|i: int, j: int|
            0 <= i < ready_entries(queue, states).len() && 0 <= j < ready_entries(
                waiting_entries(queue, states),
                states,
            ).len() ==> (#[trigger] ready_entries(queue, states)[i]).spec_name() != (
            #[trigger] ready_entries(waiting_entries(queue, states), states)[j]).spec_name(),
{
    broadcast use Seq::lemma_filter_pred;

    let rest = waiting_entries(queue, states);
    assert forall|i: int| 0 <= i < rest.len() implies !(#[trigger] rest[i]).spec_ready(states) by {
        assert((|w: T| !w.spec_ready(states))(rest[i]));
    }
    lemma_filter_none(rest, |w: T| w.spec_ready(states));
}

/// A queued workload that waits on `dependency` being running is not promoted
/// while the store has no state for `dependency`; once the store records it as
/// running, the next promotion returns the workload and leaves no entry of its
/// name in the queue.
pub proof fn lemma_promotion_once_dependency_runs(
    queue: Seq<WorkloadSpec>,
    states: Map<Seq<char>, ExecutionState>,
    workload: WorkloadSpec,
    dependency: Seq<char>,
)
    requires
        names_unique(queue),
        queue.contains(workload),
        workload.dependencies@.len() == 1,
        workload.dependencies@[0].0@ == dependency,
        workload.dependencies@[0].1 == AddCondition::AddCondRunning,
        !states.contains_key(dependency),
    ensures
        !ready_entries(queue, states).contains(workload),
        waiting_entries(queue, states).contains(workload),
        ready_entries(
            waiting_entries(queue, states),
            states.insert(dependency, ExecutionState::Running),
        ).contains(workload),
        forall|i: int|
            0 <= i < waiting_entries(
                waiting_entries(queue, states),
                states.insert(dependency, ExecutionState::Running),
            ).len() ==> (#[trigger] waiting_entries(
                waiting_entries(queue, states),
                states.insert(dependency, ExecutionState::Running),
            )[i]).spec_name() != workload.spec_name(),
{
    broadcast use Seq::lemma_filter_pred, Seq::lemma_filter_contains;

    let running = states.insert(dependency, ExecutionState::Running);
    let p_wait = |w: WorkloadSpec| !w.spec_ready(states);
    let p_ready2 = |w: WorkloadSpec| w.spec_ready(running);
    let p_wait2 = |w: WorkloadSpec| !w.spec_ready(running);
    assert(!workload.spec_ready(states)) by {
        assert(workload.dependencies@[0].0@ == dependency);
    }
    assert(workload.spec_ready(running));
    let k = choose|k: int| 0 <= k < queue.len() && queue[k] == workload;
    assert(p_wait(queue[k]));
    let rest = waiting_entries(queue, states);
    assert(rest.contains(queue[k]));
    let k2 = choose|k2: int| 0 <= k2 < rest.len() && rest[k2] == workload;
    assert(p_ready2(rest[k2]));
    assert(ready_entries(rest, running).contains(rest[k2]));
    if ready_entries(queue, states).contains(workload) {
        let j = choose|j: int|
            0 <= j < ready_entries(queue, states).len() && ready_entries(queue, states)[j]
                == workload;
        assert((|w: WorkloadSpec| w.spec_ready(states))(ready_entries(queue, states)[j]));
    }
    lemma_filter_names_unique(queue, p_wait);
    lemma_filter_names_unique(rest, p_wait2);
    let last = waiting_entries(rest, running);
    assert forall|i: int| 0 <= i < last.len() implies (#[trigger] last[i]).spec_name()
        != workload.spec_name() by {
        assert(p_wait2(last[i]));
        let a = choose|a: int| 0 <= a < rest.len() && rest[a] == last[i];
        if last[i].spec_name() == workload.spec_name() {
            if a != k2 {
                assert(rest[a].spec_name() != rest[k2].spec_name());
            }
        }
    }
}

/// A workload whose dependency `b` is not satisfied is not promoted, whatever
/// its other dependencies: meeting one of two conditions is not enough.
pub proof fn lemma_partial_satisfaction_blocks(
    queue: Seq<WorkloadSpec>,
    states: Map<Seq<char>, ExecutionState>,
    workload: WorkloadSpec,
    b: int,
)
    requires
        0 <= b < workload.dependencies@.len(),
        !(states.contains_key(workload.dependencies@[b].0@)
            && workload.dependencies@[b].1.spec_fulfilled_by(
            states[workload.dependencies@[b].0@],
        )),
    ensures
        !dependencies_fulfilled(workload.dependencies@, states),
        !ready_entries(queue, states).contains(workload),
{
    broadcast use Seq::lemma_filter_pred;

    let r = ready_entries(queue, states);
    if r.contains(workload) {
        let j = choose|j: int| 0 <= j < r.len() && r[j] == workload;
        assert((|w: WorkloadSpec| w.spec_ready(states))(r[j]));
    }
}

} // verus!
