//! The store of the last known state of each workload, looked up by name.
use vstd::prelude::*;
use crate::objects::ExecutionState;

verus! {

/// Last known execution state of each workload, keyed by workload name.
pub struct ParameterStorage {
    entries: Vec<(String, ExecutionState)>,
    states: Ghost<Map<Seq<char>, ExecutionState>>,
}

impl View for ParameterStorage {
    type V = Map<Seq<char>, ExecutionState>;

    closed spec fn view(&self) -> Map<Seq<char>, ExecutionState> {
        self.states@
    }
}

impl ParameterStorage {
    /// Entries have distinct names and agree with the map of states.
    pub closed spec fn wf(&self) -> bool {
        &&& forall|i: int, j: int|
            0 <= i < j < self.entries@.len() ==> self.entries@[i].0@ != self.entries@[j].0@
        &&& forall|i: int|
            0 <= i < self.entries@.len() ==> #[trigger] self.states@.contains_key(
                self.entries@[i].0@,
            ) && self.states@[self.entries@[i].0@] == self.entries@[i].1
        &&& forall|k: Seq<char>|
            #[trigger] self.states@.contains_key(k) ==> exists|i: int|
                0 <= i < self.entries@.len() && self.entries@[i].0@ == k
    }

    /// An empty store: no workload has a recorded state.
    pub fn new() -> (r: Self)
        ensures
            r.wf(),
            r@ == Map::<Seq<char>, ExecutionState>::empty(),
    {
        ParameterStorage { entries: Vec::new(), states: Ghost(Map::empty()) }
    }

    /// Position of the entry for `name`, if there is one.
    fn position_of(&self, name: &String) -> (r: Option<usize>)
        requires
            self.wf(),
        ensures
            match r {
                Some(i) => i < self.entries@.len() && self.entries@[i as int].0@ == name@,
                None => !self@.contains_key(name@),
            },
    {
        let mut i: usize = 0;
        while i < self.entries.len()
            invariant
                i <= self.entries@.len(),
                forall|j: int| 0 <= j < i ==> self.entries@[j].0@ != name@,
            decreases self.entries@.len() - i,
        {
            if self.entries[i].0 == *name {
                return Some(i);
            }
            i = i + 1;
        }
        None
    }

    /// Records `state` as the current state of the workload `name`,
    /// replacing any earlier record.
    pub fn update_workload_state(&mut self, name: String, state: ExecutionState)
        requires
            old(self).wf(),
        ensures
            final(self).wf(),
            final(self)@ == old(self)@.insert(name@, state),
    {
        let pos = self.position_of(&name);
        let ghost key = name@;
        let ghost old_entries = self.entries@;
        let ghost old_states = self.states@;
        let ghost new_states = self.states@.insert(key, state);
        match pos {
            Some(i) => {
                self.entries.set(i, (name, state));
            },
            None => {
                self.entries.push((name, state));
            },
        }
        let ghost ents = self.entries@;
        proof {
            assert forall|k: Seq<char>| #[trigger] new_states.contains_key(k) implies exists|i: int|
                0 <= i < ents.len() && ents[i].0@ == k by {
                if k == key {
                    match pos {
                        Some(p) => assert(ents[p as int].0@ == k),
                        None => assert(ents[ents.len() - 1].0@ == k),
                    }
                } else {
                    assert(old_states.contains_key(k));
                    let j = choose|j: int| 0 <= j < old_entries.len() && old_entries[j].0@ == k;
                    assert(ents[j] == old_entries[j]);
                }
            }
            assert forall|a: int, b: int| 0 <= a < b < ents.len() implies ents[a].0@
                != ents[b].0@ by {
                if a < old_entries.len() && b < old_entries.len() {
                    assert(old_entries[a].0@ != old_entries[b].0@);
                }
            }
            assert forall|a: int| 0 <= a < ents.len() implies #[trigger] new_states.contains_key(
                ents[a].0@,
            ) && new_states[ents[a].0@] == ents[a].1 by {
                if ents[a].0@ == key {
                    assert(ents[a].1 == state);
                } else {
                    assert(a < old_entries.len());
                    assert(old_entries[a] == ents[a]);
                    assert(old_states.contains_key(old_entries[a].0@));
                }
            }
        }
        self.states = Ghost(new_states);
        let ghost ents = self.entries@;
        proof {
            assert forall|k: Seq<char>| #[trigger] new_states.contains_key(k) implies exists|i: int|
                0 <= i < ents.len() && ents[i].0@ == k by {
                if k == key {
                    match pos {
                        Some(p) => assert(ents[p as int].0@ == k),
                        None => assert(ents[ents.len() - 1].0@ == k),
                    }
                }
            }
        }
    }

    /// The recorded state of the workload `name`; `None` where none is recorded.
    pub fn get_workload_state(&self, name: &String) -> (r: Option<ExecutionState>)
        requires
            self.wf(),
        ensures
            r == (if self@.contains_key(name@) {
                Some(self@[name@])
            } else {
                None
            }),
    {
        match self.position_of(name) {
            Some(i) => Some(self.entries[i].1),
            None => None,
        }
    }
}

} // verus!
