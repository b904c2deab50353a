use std::collections::HashMap;
use vstd::prelude::*;

verus! {

broadcast use vstd::std_specs::hash::group_hash_axioms;

/// A map from handles to dense indices `0..count` in first-seen order:
/// every index below `count` belongs to exactly one handle.
pub open spec fn dense(m: Map<usize, usize>, count: nat) -> bool {
    &&& forall|h: usize| #[trigger] m.contains_key(h) ==> (m[h] as nat) < count
    &&& forall|h1: usize, h2: usize|
        #[trigger] m.contains_key(h1) && #[trigger] m.contains_key(h2) && m[h1] == m[h2] ==> h1 == h2
    &&& forall|i: nat| i < count ==> #[trigger] index_taken(m, i)
}

/// Some handle holds index `i`.
pub open spec fn index_taken(m: Map<usize, usize>, i: nat) -> bool {
    exists|h: usize| #[trigger] m.contains_key(h) && m[h] == i
}

/// Maps the program's opaque qubit and result handles to dense indices, and
/// stores the measurement outcomes recorded at result handles.
pub struct QirMemory {
    qubits: HashMap<usize, usize>,
    next_qubit: usize,
    results: HashMap<usize, usize>,
    next_result: usize,
    result_values: HashMap<usize, bool>,
}

impl QirMemory {
    /// Handle to qubit index.
    pub closed spec fn qubit_map(&self) -> Map<usize, usize> {
        self.qubits@
    }

    /// How many qubit indices have been handed out.
    pub closed spec fn qubit_count(&self) -> nat {
        self.next_qubit as nat
    }

    /// Handle to result-slot index.
    pub closed spec fn result_map(&self) -> Map<usize, usize> {
        self.results@
    }

    /// How many result slots have been handed out.
    pub closed spec fn result_count(&self) -> nat {
        self.next_result as nat
    }

    /// The outcomes recorded so far, by result handle.
    pub closed spec fn outcomes(&self) -> Map<usize, bool> {
        self.result_values@
    }

    pub open spec fn wf(&self) -> bool {
        &&& dense(self.qubit_map(), self.qubit_count())
        &&& dense(self.result_map(), self.result_count())
    }

    /// The outcome read back for `addr`: what was recorded there, else `false`.
    pub open spec fn outcome_of(&self, addr: usize) -> bool {
        if self.outcomes().contains_key(addr) {
            self.outcomes()[addr]
        } else {
            false
        }
    }

    /// An empty map: no handle seen, no outcome recorded.
    pub fn new() -> (r: Self)
        ensures
            r.wf(),
            r.qubit_map() == Map::<usize, usize>::empty(),
            r.qubit_count() == 0,
            r.result_map() == Map::<usize, usize>::empty(),
            r.result_count() == 0,
            r.outcomes() == Map::<usize, bool>::empty(),
    {
        QirMemory {
            qubits: HashMap::new(),
            next_qubit: 0,
            results: HashMap::new(),
            next_result: 0,
            result_values: HashMap::new(),
        }
    }

    /// The dense index of qubit handle `addr`, allocating the next unused one
    /// on first sight.
    pub fn get_qubit(&mut self, addr: usize) -> (r: usize)
        requires
            old(self).wf(),
            !old(self).qubit_map().contains_key(addr) ==> old(self).qubit_count() < usize::MAX,
        ensures
            final(self).wf(),
            old(self).qubit_map().contains_key(addr) ==> {
                &&& r == old(self).qubit_map()[addr]
                &&& final(self).qubit_map() == old(self).qubit_map()
                &&& final(self).qubit_count() == old(self).qubit_count()
            },
            !old(self).qubit_map().contains_key(addr) ==> {
                &&& r as nat == old(self).qubit_count()
                &&& final(self).qubit_map() == old(self).qubit_map().insert(addr, r)
                &&& final(self).qubit_count() == old(self).qubit_count() + 1
            },
            final(self).result_map() == old(self).result_map(),
            final(self).result_count() == old(self).result_count(),
            final(self).outcomes() == old(self).outcomes(),
    {
        match self.qubits.get(&addr) {
            Some(i) => *i,
            None => {
                let i = self.next_qubit;
                proof {
                    lemma_dense_insert(self.qubits@, self.next_qubit as nat, addr);
                }
                self.qubits.insert(addr, i);
                self.next_qubit = i + 1;
                i
            },
        }
    }

    /// The dense result-slot index of result handle `addr`, allocating the
    /// next unused one on first sight; independent of the qubit indices.
    pub fn get_result(&mut self, addr: usize) -> (r: usize)
        requires
            old(self).wf(),
            !old(self).result_map().contains_key(addr) ==> old(self).result_count() < usize::MAX,
        ensures
            final(self).wf(),
            old(self).result_map().contains_key(addr) ==> {
                &&& r == old(self).result_map()[addr]
                &&& final(self).result_map() == old(self).result_map()
                &&& final(self).result_count() == old(self).result_count()
            },
            !old(self).result_map().contains_key(addr) ==> {
                &&& r as nat == old(self).result_count()
                &&& final(self).result_map() == old(self).result_map().insert(addr, r)
                &&& final(self).result_count() == old(self).result_count() + 1
            },
            final(self).qubit_map() == old(self).qubit_map(),
            final(self).qubit_count() == old(self).qubit_count(),
            final(self).outcomes() == old(self).outcomes(),
    {
        match self.results.get(&addr) {
            Some(i) => *i,
            None => {
                let i = self.next_result;
                proof {
                    lemma_dense_insert(self.results@, self.next_result as nat, addr);
                }
                self.results.insert(addr, i);
                self.next_result = i + 1;
                i
            },
        }
    }

    /// Whether qubit handle `addr` already has an index.
    pub fn has_qubit(&self, addr: usize) -> (r: bool)
        ensures
            r == self.qubit_map().contains_key(addr),
    {
        self.qubits.contains_key(&addr)
    }

    /// How many qubit indices have been handed out.
    pub fn qubit_len(&self) -> (r: usize)
        ensures
            r == self.qubit_count(),
    {
        self.next_qubit
    }

    /// Records a measurement outcome at result handle `addr`.
    pub fn set_result_value(&mut self, addr: usize, value: bool)
        requires
            old(self).wf(),
        ensures
            final(self).wf(),
            final(self).outcomes() == old(self).outcomes().insert(addr, value),
            final(self).qubit_map() == old(self).qubit_map(),
            final(self).qubit_count() == old(self).qubit_count(),
            final(self).result_map() == old(self).result_map(),
            final(self).result_count() == old(self).result_count(),
    {
        self.result_values.insert(addr, value);
    }

    /// The outcome recorded at `addr`, or `false` when none was.
    pub fn get_result_value(&self, addr: usize) -> (r: bool)
        ensures
            r == self.outcome_of(addr),
    {
        match self.result_values.get(&addr) {
            Some(v) => *v,
            None => false,
        }
    }
}

/// Giving a fresh handle the next index keeps a map dense.
pub proof fn lemma_dense_insert(m: Map<usize, usize>, count: nat, h: usize)
    requires
        dense(m, count),
        !m.contains_key(h),
        count < usize::MAX,
    ensures
        dense(m.insert(h, count as usize), count + 1),
{
    let m2 = m.insert(h, count as usize);
    assert forall|i: nat| i < count + 1 implies #[trigger] index_taken(m2, i) by {
        if i < count {
            assert(index_taken(m, i));
            let k = choose|k: usize| #[trigger] m.contains_key(k) && m[k] == i;
            assert(m2.contains_key(k) && m2[k] == i);
        } else {
            assert(m2.contains_key(h) && m2[h] == i);
        }
    }
}

} // verus!
