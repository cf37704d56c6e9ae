//! Per-gate duration tables indexed by a slot number.
use vstd::prelude::*;

verus! {

/// The durations recorded for one gate name, one entry per slot.
#[derive(Debug, Clone)]
pub struct GateRow {
    name: String,
    times: Vec<Option<u64>>,
}

/// A table from (gate name, slot) to a duration.
///
/// A slot is a qubit for single-qubit gates and an ordered qubit pair,
/// flattened, for two-qubit gates.
#[derive(Debug, Clone)]
pub struct GateTimeTable {
    slots: usize,
    rows: Vec<GateRow>,
}

impl GateTimeTable {
    pub closed spec fn slot_count(&self) -> nat {
        self.slots as nat
    }

    pub closed spec fn wf(&self) -> bool {
        &&& forall|i: int| 0 <= i < self.rows@.len() ==> #[trigger] self.rows@[i].times@.len() == self.slots
        &&& forall|i: int, j: int|
            0 <= i < self.rows@.len() && 0 <= j < self.rows@.len() && #[trigger] self.rows@[i].name@
                == #[trigger] self.rows@[j].name@ ==> i == j
    }

    pub closed spec fn has_row(&self, gate: Seq<char>, i: int) -> bool {
        0 <= i < self.rows@.len() && self.rows@[i].name@ == gate
    }

    /// The duration stored for `gate` at `slot`, if any.
    pub closed spec fn time(&self, gate: Seq<char>, slot: int) -> Option<u64> {
        if exists|i: int| self.has_row(gate, i) {
            let i = choose|i: int| self.has_row(gate, i);
            if 0 <= slot < self.rows@[i].times@.len() {
                self.rows@[i].times@[slot]
            } else {
                None
            }
        } else {
            None
        }
    }

    proof fn lemma_time_at(&self, gate: Seq<char>, i: int, slot: int)
        requires
            self.wf(),
            self.has_row(gate, i),
        ensures
            self.time(gate, slot) == (if 0 <= slot < self.slots {
                self.rows@[i].times@[slot]
            } else {
                None
            }),
    {
        let k = choose|k: int| self.has_row(gate, k);
        assert(self.rows@[k].name@ == self.rows@[i].name@);
    }

    /// An empty table with `slots` slots per gate.
    pub fn new(slots: usize) -> (r: Self)
        ensures
            r.wf(),
            r.slot_count() == slots,
            forall|g: Seq<char>, s: int| #[trigger] r.time(g, s) is None,
    {
        GateTimeTable { slots, rows: Vec::new() }
    }

    /// The index of the row named `gate`, if there is one.
    fn find(&self, gate: &String) -> (r: Option<usize>)
        requires
            self.wf(),
        ensures
            match r {
                Some(i) => self.has_row(gate@, i as int),
                None => forall|i: int| !self.has_row(gate@, i),
            },
    {
        let mut i: usize = 0;
        while i < self.rows.len()
            invariant
                i <= self.rows@.len(),
                forall|k: int| 0 <= k < i ==> !self.has_row(gate@, k),
            decreases self.rows@.len() - i,
        {
            if self.rows[i].name == *gate {
                return Some(i);
            }
            i = i + 1;
        }
        None
    }

    /// The duration stored for `gate` at `slot`.
    pub fn get(&self, gate: &str, slot: usize) -> (r: Option<u64>)
        requires
            self.wf(),
        ensures
            r == self.time(gate@, slot as int),
    {
        let key = gate.to_owned();
        match self.find(&key) {
            Some(i) => {
                proof {
                    self.lemma_time_at(gate@, i as int, slot as int);
                }
                if slot < self.rows[i].times.len() {
                    self.rows[i].times[slot]
                } else {
                    None
                }
            },
            None => None,
        }
    }

    /// Records `time` for `gate` at `slot`, replacing any earlier value.
    pub fn set(&mut self, gate: &str, slot: usize, time: u64)
        requires
            old(self).wf(),
            slot < old(self).slot_count(),
        ensures
            final(self).wf(),
            final(self).slot_count() == old(self).slot_count(),
            forall|g: Seq<char>, s: int| #[trigger]
                final(self).time(g, s) == if g == gate@ && s == slot as int {
                    Some(time)
                } else {
                    old(self).time(g, s)
                },
    {
        let key = gate.to_owned();
        match self.find(&key) {
            Some(i) => {
                let ghost before = *self;
                let mut row = self.rows.remove(i);
                row.times.set(slot, Some(time));
                self.rows.insert(i, row);
                proof {
                    assert(self.rows@ =~= before.rows@.update(i as int, row));
                    assert forall|g: Seq<char>, s: int|
                        #[trigger] self.time(g, s) == if g == gate@ && s == slot as int {
                            Some(time)
                        } else {
                            before.time(g, s)
                        } by {
                        if exists|k: int| before.has_row(g, k) {
                            let k = choose|k: int| before.has_row(g, k);
                            before.lemma_time_at(g, k, s);
                            assert(self.has_row(g, k));
                            self.lemma_time_at(g, k, s);
                        } else {
                            if exists|k: int| self.has_row(g, k) {
                                let k = choose|k: int| self.has_row(g, k);
                                assert(before.has_row(g, k));
                            }
                        }
                    }
                }
            },
            None => {
                let ghost before = *self;
                let mut times: Vec<Option<u64>> = Vec::new();
                let mut j: usize = 0;
                while j < self.slots
                    invariant
                        j <= self.slots,
                        times@.len() == j,
                        forall|k: int| 0 <= k < j ==> times@[k] is None,
                    decreases self.slots - j,
                {
                    times.push(None);
                    j = j + 1;
                }
                times.set(slot, Some(time));
                let row = GateRow { name: key, times };
                self.rows.push(row);
                proof {
                    assert(self.rows@ =~= before.rows@.push(row));
                    assert forall|a: int, b: int|
                        0 <= a < self.rows@.len() && 0 <= b < self.rows@.len()
                            && #[trigger] self.rows@[a].name@ == #[trigger] self.rows@[b].name@
                        implies a == b by {
                        if a < before.rows@.len() && b == before.rows@.len() {
                            assert(!before.has_row(gate@, a));
                        }
                        if b < before.rows@.len() && a == before.rows@.len() {
                            assert(!before.has_row(gate@, b));
                        }
                    }
                    assert(self.wf());
                    assert forall|g: Seq<char>, s: int|
                        #[trigger] self.time(g, s) == if g == gate@ && s == slot as int {
                            Some(time)
                        } else {
                            before.time(g, s)
                        } by {
                        if g == gate@ {
                            self.lemma_time_at(g, before.rows@.len() as int, s);
                        } else if exists|k: int| before.has_row(g, k) {
                            let k = choose|k: int| before.has_row(g, k);
                            before.lemma_time_at(g, k, s);
                            self.lemma_time_at(g, k, s);
                        } else {
                            if exists|k: int| self.has_row(g, k) {
                                let k = choose|k: int| self.has_row(g, k);
                                assert(before.has_row(g, k));
                            }
                        }
                    }
                }
            },
        }
    }
}

} // verus!
