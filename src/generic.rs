//! A device snapshot with no hardware-specific rules or defaults.
use vstd::prelude::*;
use crate::connectivity::edges_valid;
use crate::error::DeviceError;
use crate::gate_times::GateTimeTable;
use crate::noise::{rates_view, with_damping, with_dephasing, DecoherenceRates, NoiseModel, RatesView};

verus! {

/// The character sequences of a list of names.
pub open spec fn names_view(v: Seq<String>) -> Seq<Seq<char>> {
    v.map_values(|s: String| s@)
}

/// A copy of a list of names.
pub fn copy_names(v: &Vec<String>) -> (r: Vec<String>)
    ensures
        names_view(r@) == names_view(v@),
{
    let mut r: Vec<String> = Vec::new();
    let mut i: usize = 0;
    while i < v.len()
        invariant
            i <= v@.len(),
            r@.len() == i,
            forall|k: int| 0 <= k < i ==> #[trigger] r@[k]@ == v@[k]@,
        decreases v@.len() - i,
    {
        r.push(v[i].clone());
        i = i + 1;
    }
    assert(names_view(r@) =~= names_view(v@));
    r
}

/// A copy of a list of edges.
pub fn copy_edges(v: &Vec<(usize, usize)>) -> (r: Vec<(usize, usize)>)
    ensures
        r@ == v@,
{
    let mut r: Vec<(usize, usize)> = Vec::new();
    let mut i: usize = 0;
    while i < v.len()
        invariant
            i <= v@.len(),
            r@ == v@.subrange(0, i as int),
        decreases v@.len() - i,
    {
        r.push(v[i]);
        i = i + 1;
        assert(r@ =~= v@.subrange(0, i as int));
    }
    assert(r@ =~= v@);
    r
}

/// The slot of the ordered pair `(control, target)` among `n * n` slots.
pub open spec fn pair_slot(n: nat, control: int, target: int) -> int {
    control * n + target
}

proof fn lemma_pair_slot(n: nat, c: int, t: int, c2: int, t2: int)
    requires
        0 <= c < n,
        0 <= t < n,
        0 <= c2 < n,
        0 <= t2 < n,
    ensures
        0 <= pair_slot(n, c, t) < n * n,
        pair_slot(n, c, t) == pair_slot(n, c2, t2) <==> c == c2 && t == t2,
{
    assert(0 <= c * n + t < n * n) by (nonlinear_arith)
        requires
            0 <= c < n,
            0 <= t < n,
    ;
    if c < c2 {
        assert(c * n + t < c2 * n + t2) by (nonlinear_arith)
            requires
                0 <= c < c2,
                0 <= t < n,
                0 <= t2,
        ;
    }
    if c2 < c {
        assert(c2 * n + t2 < c * n + t) by (nonlinear_arith)
            requires
                0 <= c2 < c,
                0 <= t2 < n,
                0 <= t,
        ;
    }
}

/// Gate times, connectivity and noise of a device, with qubit-range checks only.
///
/// Times and rates are the bit patterns of `f64` values.
#[derive(Debug, Clone)]
pub struct GenericDevice {
    number_qubits: usize,
    single_qubit_gate_names: Vec<String>,
    two_qubit_gate_names: Vec<String>,
    edges: Vec<(usize, usize)>,
    single_qubit_gates: GateTimeTable,
    two_qubit_gates: GateTimeTable,
    decoherence_rates: NoiseModel,
}

impl GenericDevice {
    pub closed spec fn qubit_count(&self) -> nat {
        self.number_qubits as nat
    }

    pub closed spec fn single_names(&self) -> Seq<Seq<char>> {
        names_view(self.single_qubit_gate_names@)
    }

    pub closed spec fn two_names(&self) -> Seq<Seq<char>> {
        names_view(self.two_qubit_gate_names@)
    }

    pub closed spec fn edge_list(&self) -> Seq<(usize, usize)> {
        self.edges@
    }

    /// The time of `gate` on `qubit`, if one is recorded.
    pub closed spec fn single_time(&self, gate: Seq<char>, qubit: int) -> Option<u64> {
        if 0 <= qubit < self.number_qubits {
            self.single_qubit_gates.time(gate, qubit)
        } else {
            None
        }
    }

    /// The time of `gate` from `control` to `target`, if one is recorded.
    pub closed spec fn two_time(&self, gate: Seq<char>, control: int, target: int) -> Option<u64> {
        if 0 <= control < self.number_qubits && 0 <= target < self.number_qubits {
            self.two_qubit_gates.time(gate, pair_slot(self.number_qubits as nat, control, target))
        } else {
            None
        }
    }

    /// The noise contributions of `qubit`, if any.
    pub closed spec fn rates(&self, qubit: int) -> Option<RatesView> {
        self.decoherence_rates.rates(qubit)
    }

    pub closed spec fn wf(&self) -> bool {
        &&& self.single_qubit_gates.wf()
        &&& self.single_qubit_gates.slot_count() == self.number_qubits
        &&& self.two_qubit_gates.wf()
        &&& self.two_qubit_gates.slot_count() == self.number_qubits * self.number_qubits
        &&& self.number_qubits * self.number_qubits <= usize::MAX
        &&& self.decoherence_rates.qubit_count() == self.number_qubits
        &&& edges_valid(self.number_qubits as nat, self.edges@)
    }

    /// What well-formedness tells a caller: valid edges, and entries only on
    /// qubits of the device.
    pub proof fn lemma_bounds(&self)
        requires
            self.wf(),
        ensures
            edges_valid(self.qubit_count(), self.edge_list()),
            self.qubit_count() * self.qubit_count() <= usize::MAX,
            forall|g: Seq<char>, q: int| #[trigger]
                self.single_time(g, q) is Some ==> 0 <= q < self.qubit_count(),
            forall|g: Seq<char>, c: int, t: int| #[trigger]
                self.two_time(g, c, t) is Some ==> 0 <= c < self.qubit_count() && 0 <= t
                    < self.qubit_count(),
            forall|q: int| #[trigger] self.rates(q) is Some ==> 0 <= q < self.qubit_count(),
    {
        self.decoherence_rates.lemma_range();
    }

    /// A device of `number_qubits` qubits declaring the given gates and edges,
    /// with no time and no noise recorded. The qubit pairs are numbered in
    /// `usize`, hence the bound on `number_qubits`.
    pub fn new(
        number_qubits: usize,
        single_qubit_gate_names: Vec<String>,
        two_qubit_gate_names: Vec<String>,
        edges: Vec<(usize, usize)>,
    ) -> (r: Self)
        requires
            number_qubits * number_qubits <= usize::MAX,
            edges_valid(number_qubits as nat, edges@),
        ensures
            r.wf(),
            r.qubit_count() == number_qubits,
            r.single_names() == names_view(single_qubit_gate_names@),
            r.two_names() == names_view(two_qubit_gate_names@),
            r.edge_list() == edges@,
            forall|g: Seq<char>, q: int| #[trigger] r.single_time(g, q) is None,
            forall|g: Seq<char>, c: int, t: int| #[trigger] r.two_time(g, c, t) is None,
            forall|q: int| #[trigger] r.rates(q) is None,
    {
        GenericDevice {
            number_qubits,
            single_qubit_gate_names,
            two_qubit_gate_names,
            edges,
            single_qubit_gates: GateTimeTable::new(number_qubits),
            two_qubit_gates: GateTimeTable::new(number_qubits * number_qubits),
            decoherence_rates: NoiseModel::new(number_qubits),
        }
    }

    pub fn number_qubits(&self) -> (r: usize)
        ensures
            r == self.qubit_count(),
    {
        self.number_qubits
    }

    pub fn single_qubit_gate_names(&self) -> (r: Vec<String>)
        ensures
            names_view(r@) == self.single_names(),
    {
        copy_names(&self.single_qubit_gate_names)
    }

    pub fn two_qubit_gate_names(&self) -> (r: Vec<String>)
        ensures
            names_view(r@) == self.two_names(),
    {
        copy_names(&self.two_qubit_gate_names)
    }

    /// No gate acting on more than two qubits is declared.
    pub fn multi_qubit_gate_names(&self) -> (r: Vec<String>)
        ensures
            r@.len() == 0,
    {
        Vec::new()
    }

    pub fn two_qubit_edges(&self) -> (r: Vec<(usize, usize)>)
        ensures
            r@ == self.edge_list(),
    {
        copy_edges(&self.edges)
    }

    pub fn single_qubit_gate_time(&self, gate: &str, qubit: usize) -> (r: Option<u64>)
        requires
            self.wf(),
        ensures
            r == self.single_time(gate@, qubit as int),
    {
        if qubit < self.number_qubits {
            self.single_qubit_gates.get(gate, qubit)
        } else {
            None
        }
    }

    pub fn two_qubit_gate_time(&self, gate: &str, control: usize, target: usize) -> (r: Option<u64>)
        requires
            self.wf(),
        ensures
            r == self.two_time(gate@, control as int, target as int),
    {
        if control < self.number_qubits && target < self.number_qubits {
            proof {
                lemma_pair_slot(self.number_qubits as nat, control as int, target as int, 0, 0);
            }
            self.two_qubit_gates.get(gate, control * self.number_qubits + target)
        } else {
            None
        }
    }

    /// No three-qubit gate is supported.
    pub fn three_qubit_gate_time(
        &self,
        gate: &str,
        control_0: usize,
        control_1: usize,
        target: usize,
    ) -> (r: Option<u64>)
        ensures
            r is None,
    {
        None
    }

    /// No multi-qubit gate is supported.
    pub fn multi_qubit_gate_time(&self, gate: &str, qubits: &Vec<usize>) -> (r: Option<u64>)
        ensures
            r is None,
    {
        None
    }

    pub fn qubit_decoherence_rates(&self, qubit: usize) -> (r: Option<DecoherenceRates>)
        ensures
            rates_view(r) == self.rates(qubit as int),
    {
        self.decoherence_rates.get(qubit)
    }

    /// Records the time of `gate` on `qubit`.
    pub fn set_single_qubit_gate_time(&mut self, gate: &str, qubit: usize, time: u64) -> (r: Result<
        (),
        DeviceError,
    >)
        requires
            old(self).wf(),
        ensures
            final(self).wf(),
            r is Err <==> qubit >= old(self).qubit_count(),
            r is Err ==> r == Err::<(), DeviceError>(
                DeviceError::QubitOutOfRange { qubit, number_qubits: old(self).qubit_count() as usize },
            ) && *final(self) == *old(self),
            final(self).qubit_count() == old(self).qubit_count(),
            final(self).single_names() == old(self).single_names(),
            final(self).two_names() == old(self).two_names(),
            final(self).edge_list() == old(self).edge_list(),
            forall|g: Seq<char>, q: int| #[trigger]
                final(self).single_time(g, q) == if r is Ok && g == gate@ && q == qubit {
                    Some(time)
                } else {
                    old(self).single_time(g, q)
                },
            forall|g: Seq<char>, c: int, t: int| #[trigger]
                final(self).two_time(g, c, t) == old(self).two_time(g, c, t),
            forall|q: int| #[trigger] final(self).rates(q) == old(self).rates(q),
    {
        if qubit >= self.number_qubits {
            return Err(DeviceError::QubitOutOfRange { qubit, number_qubits: self.number_qubits });
        }
        self.single_qubit_gates.set(gate, qubit, time);
        Ok(())
    }

    /// Records the time of `gate` from `control` to `target`; the reverse
    /// direction is a separate entry.
    pub fn set_two_qubit_gate_time(
        &mut self,
        gate: &str,
        control: usize,
        target: usize,
        time: u64,
    ) -> (r: Result<(), DeviceError>)
        requires
            old(self).wf(),
        ensures
            final(self).wf(),
            r is Err <==> control >= old(self).qubit_count() || target >= old(self).qubit_count(),
            r is Err ==> *final(self) == *old(self),
            control >= old(self).qubit_count() ==> r == Err::<(), DeviceError>(
                DeviceError::QubitOutOfRange {
                    qubit: control,
                    number_qubits: old(self).qubit_count() as usize,
                },
            ),
            control < old(self).qubit_count() <= target ==> r == Err::<(), DeviceError>(
                DeviceError::QubitOutOfRange {
                    qubit: target,
                    number_qubits: old(self).qubit_count() as usize,
                },
            ),
            final(self).qubit_count() == old(self).qubit_count(),
            final(self).single_names() == old(self).single_names(),
            final(self).two_names() == old(self).two_names(),
            final(self).edge_list() == old(self).edge_list(),
            forall|g: Seq<char>, q: int| #[trigger]
                final(self).single_time(g, q) == old(self).single_time(g, q),
            forall|g: Seq<char>, c: int, t: int| #[trigger]
                final(self).two_time(g, c, t) == if r is Ok && g == gate@ && c == control && t
                    == target {
                    Some(time)
                } else {
                    old(self).two_time(g, c, t)
                },
            forall|q: int| #[trigger] final(self).rates(q) == old(self).rates(q),
    {
        let n = self.number_qubits;
        if control >= n {
            return Err(DeviceError::QubitOutOfRange { qubit: control, number_qubits: n });
        }
        if target >= n {
            return Err(DeviceError::QubitOutOfRange { qubit: target, number_qubits: n });
        }
        proof {
            lemma_pair_slot(n as nat, control as int, target as int, 0, 0);
        }
        let ghost before = *self;
        self.two_qubit_gates.set(gate, control * n + target, time);
        proof {
            assert forall|g: Seq<char>, c: int, t: int| #[trigger]
                self.two_time(g, c, t) == if g == gate@ && c == control && t == target {
                    Some(time)
                } else {
                    before.two_time(g, c, t)
                } by {
                if 0 <= c < n && 0 <= t < n {
                    lemma_pair_slot(n as nat, c, t, control as int, target as int);
                }
            }
        }
        Ok(())
    }

    /// Replaces the decoherence matrix of `qubit`.
    pub fn set_qubit_decoherence_rates(&mut self, qubit: usize, rates: DecoherenceRates) -> (r:
        Result<(), DeviceError>)
        requires
            old(self).wf(),
        ensures
            final(self).wf(),
            r is Err <==> qubit >= old(self).qubit_count(),
            r is Err ==> r == Err::<(), DeviceError>(
                DeviceError::QubitOutOfRange { qubit, number_qubits: old(self).qubit_count() as usize },
            ) && *final(self) == *old(self),
            final(self).qubit_count() == old(self).qubit_count(),
            final(self).single_names() == old(self).single_names(),
            final(self).two_names() == old(self).two_names(),
            final(self).edge_list() == old(self).edge_list(),
            forall|g: Seq<char>, q: int| #[trigger]
                final(self).single_time(g, q) == old(self).single_time(g, q),
            forall|g: Seq<char>, c: int, t: int| #[trigger]
                final(self).two_time(g, c, t) == old(self).two_time(g, c, t),
            forall|q: int| #[trigger]
                final(self).rates(q) == if r is Ok && q == qubit {
                    Some(rates@)
                } else {
                    old(self).rates(q)
                },
    {
        if qubit >= self.number_qubits {
            return Err(DeviceError::QubitOutOfRange { qubit, number_qubits: self.number_qubits });
        }
        self.decoherence_rates.set(qubit, rates);
        Ok(())
    }

    /// Adds `damping` to entry (0,0) of the decoherence matrix of `qubit`.
    pub fn add_damping(&mut self, qubit: usize, damping: u64) -> (r: Result<(), DeviceError>)
        requires
            old(self).wf(),
        ensures
            final(self).wf(),
            r is Err <==> qubit >= old(self).qubit_count(),
            r is Err ==> r == Err::<(), DeviceError>(
                DeviceError::QubitOutOfRange { qubit, number_qubits: old(self).qubit_count() as usize },
            ) && *final(self) == *old(self),
            final(self).qubit_count() == old(self).qubit_count(),
            final(self).single_names() == old(self).single_names(),
            final(self).two_names() == old(self).two_names(),
            final(self).edge_list() == old(self).edge_list(),
            forall|g: Seq<char>, q: int| #[trigger]
                final(self).single_time(g, q) == old(self).single_time(g, q),
            forall|g: Seq<char>, c: int, t: int| #[trigger]
                final(self).two_time(g, c, t) == old(self).two_time(g, c, t),
            forall|q: int| #[trigger]
                final(self).rates(q) == if r is Ok && q == qubit {
                    Some(with_damping(old(self).rates(q), damping))
                } else {
                    old(self).rates(q)
                },
    {
        if qubit >= self.number_qubits {
            return Err(DeviceError::QubitOutOfRange { qubit, number_qubits: self.number_qubits });
        }
        self.decoherence_rates.add_damping(qubit, damping);
        Ok(())
    }

    /// Adds `dephasing` to entry (2,2) of the decoherence matrix of `qubit`.
    pub fn add_dephasing(&mut self, qubit: usize, dephasing: u64) -> (r: Result<(), DeviceError>)
        requires
            old(self).wf(),
        ensures
            final(self).wf(),
            r is Err <==> qubit >= old(self).qubit_count(),
            r is Err ==> r == Err::<(), DeviceError>(
                DeviceError::QubitOutOfRange { qubit, number_qubits: old(self).qubit_count() as usize },
            ) && *final(self) == *old(self),
            final(self).qubit_count() == old(self).qubit_count(),
            final(self).single_names() == old(self).single_names(),
            final(self).two_names() == old(self).two_names(),
            final(self).edge_list() == old(self).edge_list(),
            forall|g: Seq<char>, q: int| #[trigger]
                final(self).single_time(g, q) == old(self).single_time(g, q),
            forall|g: Seq<char>, c: int, t: int| #[trigger]
                final(self).two_time(g, c, t) == old(self).two_time(g, c, t),
            forall|q: int| #[trigger]
                final(self).rates(q) == if r is Ok && q == qubit {
                    Some(with_dephasing(old(self).rates(q), dephasing))
                } else {
                    old(self).rates(q)
                },
    {
        if qubit >= self.number_qubits {
            return Err(DeviceError::QubitOutOfRange { qubit, number_qubits: self.number_qubits });
        }
        self.decoherence_rates.add_dephasing(qubit, dephasing);
        Ok(())
    }
}

} // verus!
