//! Workload specifications, lifecycle states and dependency conditions.
use vstd::prelude::*;
use crate::parameter_storage::ParameterStorage;

verus! {

/// The last known lifecycle state of a workload.
#[derive(Clone, Copy, Debug, PartialEq, Eq, Structural)]
pub enum ExecutionState {
    AgentDisconnected,
    Pending,
    Running,
    Stopping,
    Succeeded,
    Failed,
    NotScheduled,
    Removed,
}

/// A predicate over the state of a dependency.
pub trait FulfilledBy {
    spec fn spec_fulfilled_by(&self, state: ExecutionState) -> bool;

    fn fulfilled_by(&self, state: &ExecutionState) -> (r: bool)
        ensures
            r == self.spec_fulfilled_by(*state),
    ;
}

/// Condition that a dependency must meet before a workload may start.
#[derive(Clone, Copy, Debug, PartialEq, Eq, Structural)]
pub enum AddCondition {
    AddCondRunning,
    AddCondSucceeded,
    AddCondFailed,
}

impl FulfilledBy for AddCondition {
    open spec fn spec_fulfilled_by(&self, state: ExecutionState) -> bool {
        match *self {
            AddCondition::AddCondRunning => state == ExecutionState::Running,
            AddCondition::AddCondSucceeded => state == ExecutionState::Succeeded,
            AddCondition::AddCondFailed => state == ExecutionState::Failed,
        }
    }

    fn fulfilled_by(&self, state: &ExecutionState) -> (r: bool) {
        match self {
            AddCondition::AddCondRunning => *state == ExecutionState::Running,
            AddCondition::AddCondSucceeded => *state == ExecutionState::Succeeded,
            AddCondition::AddCondFailed => *state == ExecutionState::Failed,
        }
    }
}

/// Condition that a dependency must meet before a workload may be deleted.
#[derive(Clone, Copy, Debug, PartialEq, Eq, Structural)]
pub enum DeleteCondition {
    DelCondRunning,
    DelCondNotPendingNorRunning,
}

impl FulfilledBy for DeleteCondition {
    open spec fn spec_fulfilled_by(&self, state: ExecutionState) -> bool {
        match *self {
            DeleteCondition::DelCondRunning => state == ExecutionState::Running,
            DeleteCondition::DelCondNotPendingNorRunning => state != ExecutionState::Pending
                && state != ExecutionState::Running,
        }
    }

    fn fulfilled_by(&self, state: &ExecutionState) -> (r: bool) {
        match self {
            DeleteCondition::DelCondRunning => *state == ExecutionState::Running,
            DeleteCondition::DelCondNotPendingNorRunning => *state != ExecutionState::Pending
                && *state != ExecutionState::Running,
        }
    }
}

/// The desired configuration of a workload. Only the name and the
/// dependencies matter for scheduling; the remaining fields are carried along.
#[derive(Clone, Debug)]
pub struct WorkloadSpec {
    pub name: String,
    pub dependencies: Vec<(String, AddCondition)>,
    pub runtime: String,
    pub runtime_config: String,
}

/// A workload that is to be removed, with the conditions that gate its removal.
#[derive(Clone, Debug)]
pub struct DeletedWorkload {
    pub name: String,
    pub dependencies: Vec<(String, DeleteCondition)>,
}

/// Every dependency has a recorded state, and its condition accepts that state.
/// A missing record never satisfies a condition.
pub open spec fn dependencies_fulfilled<C: FulfilledBy>(
    deps: Seq<(String, C)>,
    states: Map<Seq<char>, ExecutionState>,
) -> bool {
    forall|i: int|
        0 <= i < deps.len() ==> states.contains_key(#[trigger] deps[i].0@)
            && deps[i].1.spec_fulfilled_by(states[deps[i].0@])
}

/// Checks each dependency against the store, stopping at the first that is not met.
pub fn all_dependencies_fulfilled<C: FulfilledBy>(
    deps: &Vec<(String, C)>,
    store: &ParameterStorage,
) -> (r: bool)
    requires
        store.wf(),
    ensures
        r == dependencies_fulfilled(deps@, store@),
{
    let mut i: usize = 0;
    while i < deps.len()
        invariant
            store.wf(),
            i <= deps@.len(),
            dependencies_fulfilled(deps@.take(i as int), store@),
        decreases deps@.len() - i,
    {
        let (dependency_name, condition) = &deps[i];
        let fulfilled = match store.get_workload_state(dependency_name) {
            Some(state) => condition.fulfilled_by(&state),
            None => false,
        };
        if !fulfilled {
            assert(!(store@.contains_key(deps@[i as int].0@) && deps@[i as int].1.spec_fulfilled_by(
                store@[deps@[i as int].0@],
            )));
            return false;
        }
        assert(deps@.take(i + 1) =~= deps@.take(i as int).push(deps@[i as int]));
        i = i + 1;
    }
    assert(deps@.take(i as int) =~= deps@);
    true
}

/// What the scheduler needs of a queued item: its name, whether it has
/// dependencies at all, and whether they are all met.
pub trait Dependent: Sized {
    spec fn spec_name(&self) -> Seq<char>;

    spec fn spec_has_dependencies(&self) -> bool;

    spec fn spec_ready(&self, states: Map<Seq<char>, ExecutionState>) -> bool;

    fn name(&self) -> (r: &String)
        ensures
            r@ == self.spec_name(),
    ;

    fn has_dependencies(&self) -> (r: bool)
        ensures
            r == self.spec_has_dependencies(),
    ;

    fn dependencies_fulfilled(&self, store: &ParameterStorage) -> (r: bool)
        requires
            store.wf(),
        ensures
            r == self.spec_ready(store@),
    ;
}

impl Dependent for WorkloadSpec {
    open spec fn spec_name(&self) -> Seq<char> {
        self.name@
    }

    open spec fn spec_has_dependencies(&self) -> bool {
        self.dependencies@.len() > 0
    }

    open spec fn spec_ready(&self, states: Map<Seq<char>, ExecutionState>) -> bool {
        dependencies_fulfilled(self.dependencies@, states)
    }

    fn name(&self) -> (r: &String) {
        &self.name
    }

    fn has_dependencies(&self) -> (r: bool) {
        self.dependencies.len() > 0
    }

    fn dependencies_fulfilled(&self, store: &ParameterStorage) -> (r: bool) {
        all_dependencies_fulfilled(&self.dependencies, store)
    }
}

impl Dependent for DeletedWorkload {
    open spec fn spec_name(&self) -> Seq<char> {
        self.name@
    }

    open spec fn spec_has_dependencies(&self) -> bool {
        self.dependencies@.len() > 0
    }

    open spec fn spec_ready(&self, states: Map<Seq<char>, ExecutionState>) -> bool {
        dependencies_fulfilled(self.dependencies@, states)
    }

    fn name(&self) -> (r: &String) {
        &self.name
    }

    fn has_dependencies(&self) -> (r: bool) {
        self.dependencies.len() > 0
    }

    fn dependencies_fulfilled(&self, store: &ParameterStorage) -> (r: bool) {
        all_dependencies_fulfilled(&self.dependencies, store)
    }
}

} // verus!
