//! The catalog of hardware variants and their shared capability rules.
use vstd::prelude::*;
use crate::connectivity::{
    all_to_all_edges, ascending, ascending_chain, complete_edges, connected, edges_valid,
    is_chain, is_closed_chain, is_edge, lemma_ascending_chain, lemma_chain_length,
};
use crate::error::DeviceError;
use crate::generic::{copy_edges, copy_names, names_view, GenericDevice};
use crate::noise::{rates_view, with_damping, with_dephasing, DecoherenceRates, RatesView};

verus! {

/// The bit pattern of `1.0`, the duration every supported gate starts with.
pub const UNIT_TIME: u64 = 0x3FF0_0000_0000_0000;

/// Single-qubit gates of the trapped-ion processors.
pub open spec fn ionq_single_names() -> Seq<Seq<char>> {
    seq!["RotateZ"@, "GPi"@, "GPi2"@]
}

/// Two-qubit gates of the trapped-ion processors.
pub open spec fn ionq_two_names() -> Seq<Seq<char>> {
    seq!["MolmerSorensenXX"@]
}

/// Single-qubit gates of the superconducting ring processor.
pub open spec fn oqc_single_names() -> Seq<Seq<char>> {
    seq!["RotateZ"@, "SqrtPauliX"@, "PauliX"@]
}

/// The couplings of the eight-qubit ring: each qubit to the next, and the last to the first.
pub open spec fn ring_edges() -> Seq<(usize, usize)> {
    seq![(0, 1), (1, 2), (2, 3), (3, 4), (4, 5), (5, 6), (6, 7), (7, 0)]
}

fn ionq_single_gate_names() -> (r: Vec<String>)
    ensures
        names_view(r@) == ionq_single_names(),
{
    let r = vec!["RotateZ".to_owned(), "GPi".to_owned(), "GPi2".to_owned()];
    assert(names_view(r@) =~= ionq_single_names());
    r
}

fn ionq_two_gate_names() -> (r: Vec<String>)
    ensures
        names_view(r@) == ionq_two_names(),
{
    let r = vec!["MolmerSorensenXX".to_owned()];
    assert(names_view(r@) =~= ionq_two_names());
    r
}

fn oqc_single_gate_names() -> (r: Vec<String>)
    ensures
        names_view(r@) == oqc_single_names(),
{
    let r = vec!["RotateZ".to_owned(), "SqrtPauliX".to_owned(), "PauliX".to_owned()];
    assert(names_view(r@) =~= oqc_single_names());
    r
}

fn no_gate_names() -> (r: Vec<String>)
    ensures
        names_view(r@) == Seq::<Seq<char>>::empty(),
{
    let r: Vec<String> = Vec::new();
    assert(names_view(r@) =~= Seq::<Seq<char>>::empty());
    r
}

fn ring_edge_list() -> (r: Vec<(usize, usize)>)
    ensures
        r@ == ring_edges(),
{
    let r: Vec<(usize, usize)> = vec![(0, 1), (1, 2), (2, 3), (3, 4), (4, 5), (5, 6), (6, 7), (7, 0)];
    assert(r@ =~= ring_edges());
    r
}

/// A generic state that stores two-qubit times on coupled pairs only.
pub open spec fn on_edges(s: GenericDevice) -> bool {
    &&& s.wf()
    &&& forall|g: Seq<char>, c: int, t: int| #[trigger]
        s.two_time(g, c, t) is Some ==> is_edge(s.edge_list(), c, t)
}

/// `after` has the qubit count, gate names and edges of `before`.
pub open spec fn same_shape(before: GenericDevice, after: GenericDevice) -> bool {
    &&& after.qubit_count() == before.qubit_count()
    &&& after.single_names() == before.single_names()
    &&& after.two_names() == before.two_names()
    &&& after.edge_list() == before.edge_list()
}

/// The error for a qubit index of a device of `n` qubits.
pub open spec fn out_of_range(qubit: usize, n: nat) -> Result<(), DeviceError> {
    Err(DeviceError::QubitOutOfRange { qubit, number_qubits: n as usize })
}

/// The outcome of setting the time of a single-qubit `gate` on `qubit`.
pub open spec fn single_time_update(
    before: GenericDevice,
    after: GenericDevice,
    gate: Seq<char>,
    qubit: usize,
    time: u64,
    r: Result<(), DeviceError>,
) -> bool {
    &&& r is Err <==> qubit >= before.qubit_count()
    &&& r is Err ==> r == out_of_range(qubit, before.qubit_count()) && after == before
    &&& same_shape(before, after)
    &&& forall|g: Seq<char>, q: int| #[trigger]
        after.single_time(g, q) == if r is Ok && g == gate && q == qubit {
            Some(time)
        } else {
            before.single_time(g, q)
        }
    &&& forall|g: Seq<char>, c: int, t: int| #[trigger]
        after.two_time(g, c, t) == before.two_time(g, c, t)
    &&& forall|q: int| #[trigger] after.rates(q) == before.rates(q)
}

/// The outcome of setting the time of a two-qubit `gate` from `control` to
/// `target`: both qubits must exist and be coupled.
pub open spec fn two_time_update(
    before: GenericDevice,
    after: GenericDevice,
    gate: Seq<char>,
    control: usize,
    target: usize,
    time: u64,
    r: Result<(), DeviceError>,
) -> bool {
    let n = before.qubit_count();
    &&& r is Err <==> control >= n || target >= n || !is_edge(
        before.edge_list(),
        control as int,
        target as int,
    )
    &&& r is Err ==> after == before
    &&& control >= n ==> r == out_of_range(control, n)
    &&& control < n <= target ==> r == out_of_range(target, n)
    &&& control < n && target < n && !is_edge(before.edge_list(), control as int, target as int)
        ==> r == Err::<(), DeviceError>(DeviceError::EdgeNotConnected { control, target })
    &&& same_shape(before, after)
    &&& forall|g: Seq<char>, q: int| #[trigger] after.single_time(g, q) == before.single_time(g, q)
    &&& forall|g: Seq<char>, c: int, t: int| #[trigger]
        after.two_time(g, c, t) == if r is Ok && g == gate && c == control && t == target {
            Some(time)
        } else {
            before.two_time(g, c, t)
        }
    &&& forall|q: int| #[trigger] after.rates(q) == before.rates(q)
}

/// The outcome of adding a noise contribution to `qubit`; `added` is the
/// new matrix of `qubit` on success.
pub open spec fn noise_update(
    before: GenericDevice,
    after: GenericDevice,
    qubit: usize,
    added: RatesView,
    r: Result<(), DeviceError>,
) -> bool {
    &&& r is Err <==> qubit >= before.qubit_count()
    &&& r is Err ==> r == out_of_range(qubit, before.qubit_count()) && after == before
    &&& same_shape(before, after)
    &&& forall|g: Seq<char>, q: int| #[trigger] after.single_time(g, q) == before.single_time(g, q)
    &&& forall|g: Seq<char>, c: int, t: int| #[trigger]
        after.two_time(g, c, t) == before.two_time(g, c, t)
    &&& forall|q: int| #[trigger]
        after.rates(q) == if r is Ok && q == qubit {
            Some(added)
        } else {
            before.rates(q)
        }
}

/// The state a variant starts in: time `UNIT_TIME` for each declared gate on
/// each qubit, or on each edge in both directions, and no noise.
pub open spec fn default_state(
    s: GenericDevice,
    n: nat,
    single: Seq<Seq<char>>,
    two: Seq<Seq<char>>,
    edges: Seq<(usize, usize)>,
) -> bool {
    &&& on_edges(s)
    &&& s.qubit_count() == n
    &&& s.single_names() == single
    &&& s.two_names() == two
    &&& s.edge_list() == edges
    &&& forall|g: Seq<char>, q: int| #[trigger]
        s.single_time(g, q) == if single.contains(g) && 0 <= q < n {
            Some(UNIT_TIME)
        } else {
            None
        }
    &&& forall|g: Seq<char>, c: int, t: int| #[trigger]
        s.two_time(g, c, t) == if two.contains(g) && is_edge(edges, c, t) {
            Some(UNIT_TIME)
        } else {
            None
        }
    &&& forall|q: int| #[trigger] s.rates(q) is None
}

/// The chains of a view of `Vec<Vec<usize>>`.
pub open spec fn chain_views(chains: Seq<Vec<usize>>) -> Seq<Seq<usize>> {
    chains.map_values(|c: Vec<usize>| c@)
}

/// A non-empty list of simple paths, none shorter than any other simple path.
pub open spec fn longest_paths(n: nat, edges: Seq<(usize, usize)>, chains: Seq<Seq<usize>>) -> bool {
    &&& chains.len() > 0
    &&& forall|i: int| 0 <= i < chains.len() ==> is_chain(n, edges, #[trigger] chains[i])
    &&& forall|i: int, c: Seq<usize>|
        #![trigger chains[i], is_chain(n, edges, c)]
        0 <= i < chains.len() && is_chain(n, edges, c) ==> c.len() <= chains[i].len()
}

/// A non-empty list of simple cycles, none shorter than any other simple cycle.
pub open spec fn longest_cycles(n: nat, edges: Seq<(usize, usize)>, chains: Seq<Seq<usize>>) -> bool {
    &&& chains.len() > 0
    &&& forall|i: int| 0 <= i < chains.len() ==> is_closed_chain(n, edges, #[trigger] chains[i])
    &&& forall|i: int, c: Seq<usize>|
        #![trigger chains[i], is_closed_chain(n, edges, c)]
        0 <= i < chains.len() && is_closed_chain(n, edges, c) ==> c.len() <= chains[i].len()
}

/// A chain through every qubit is as long as any chain.
proof fn lemma_full_chain_longest(n: nat, edges: Seq<(usize, usize)>, chain: Seq<usize>)
    requires
        is_chain(n, edges, chain),
        chain.len() == n,
    ensures
        longest_paths(n, edges, seq![chain]),
        is_closed_chain(n, edges, chain) ==> longest_cycles(n, edges, seq![chain]),
{
    assert forall|i: int, c: Seq<usize>|
        #![trigger seq![chain][i], is_chain(n, edges, c)]
        0 <= i < 1 && is_chain(n, edges, c) implies c.len() <= seq![chain][i].len() by {
        lemma_chain_length(n, edges, c);
    }
    assert forall|i: int, c: Seq<usize>|
        #![trigger seq![chain][i], is_closed_chain(n, edges, c)]
        0 <= i < 1 && is_closed_chain(n, edges, c) implies c.len() <= seq![chain][i].len() by {
        lemma_chain_length(n, edges, c);
    }
}

/// The one chain `0, 1, ..., n - 1`.
fn single_chain(n: usize) -> (r: Vec<Vec<usize>>)
    ensures
        chain_views(r@) == seq![ascending(n as nat)],
{
    let chain = ascending_chain(n);
    let r = vec![chain];
    assert(chain_views(r@) =~= seq![ascending(n as nat)]);
    r
}

/// Chains of the complete graph on `n` qubits: the qubits in ascending order.
fn all_to_all_chains(n: usize) -> (r: Vec<Vec<usize>>)
    requires
        n >= 2,
    ensures
        chain_views(r@) == seq![ascending(n as nat)],
        longest_paths(n as nat, complete_edges(n as nat), chain_views(r@)),
        longest_cycles(n as nat, complete_edges(n as nat), chain_views(r@)),
{
    let r = single_chain(n);
    proof {
        lemma_ascending_chain(n as nat);
        lemma_full_chain_longest(n as nat, complete_edges(n as nat), ascending(n as nat));
    }
    r
}

/// Chains of the eight-qubit ring: the qubits in ascending order.
fn ring_chains() -> (r: Vec<Vec<usize>>)
    ensures
        chain_views(r@) == seq![ascending(8)],
        longest_paths(8, ring_edges(), chain_views(r@)),
        longest_cycles(8, ring_edges(), chain_views(r@)),
{
    let r = single_chain(8);
    proof {
        let c = ascending(8);
        let e = ring_edges();
        assert forall|i: int| 0 <= i < c.len() - 1 implies is_edge(
            e,
            #[trigger] c[i] as int,
            c[i + 1] as int,
        ) by {
            assert(e[i] == (i as usize, (i + 1) as usize));
        }
        assert(e[7] == (7usize, 0usize));
        assert(is_edge(e, c.last() as int, c[0] as int));
        lemma_full_chain_longest(8, e, c);
    }
    r
}

/// A generic state of `n` qubits holding the defaults of a variant.
fn with_default_times(
    n: usize,
    single: Vec<String>,
    two: Vec<String>,
    edges: Vec<(usize, usize)>,
) -> (r: GenericDevice)
    requires
        n * n <= usize::MAX,
        edges_valid(n as nat, edges@),
    ensures
        default_state(r, n as nat, names_view(single@), names_view(two@), edges@),
{
    let ghost single_v = names_view(single@);
    let ghost two_v = names_view(two@);
    let ghost edge_v = edges@;
    let mut s = GenericDevice::new(n, copy_names(&single), copy_names(&two), copy_edges(&edges));
    let mut q: usize = 0;
    while q < n
        invariant
            s.wf(),
            q <= n,
            s.qubit_count() == n,
            s.single_names() == single_v,
            s.two_names() == two_v,
            s.edge_list() == edge_v,
            single_v == names_view(single@),
            forall|g: Seq<char>, p: int| #[trigger]
                s.single_time(g, p) == if single_v.contains(g) && 0 <= p < q {
                    Some(UNIT_TIME)
                } else {
                    None
                },
            forall|g: Seq<char>, c: int, t: int| #[trigger] s.two_time(g, c, t) is None,
            forall|p: int| #[trigger] s.rates(p) is None,
        decreases n - q,
    {
        let mut j: usize = 0;
        while j < single.len()
            invariant
                s.wf(),
                q < n,
                j <= single@.len(),
                s.qubit_count() == n,
                s.single_names() == single_v,
                s.two_names() == two_v,
                s.edge_list() == edge_v,
                single_v == names_view(single@),
                forall|g: Seq<char>, p: int| #[trigger]
                    s.single_time(g, p) == if single_v.contains(g) && 0 <= p < q || p == q
                        && single_v.subrange(0, j as int).contains(g) {
                        Some(UNIT_TIME)
                    } else {
                        None
                    },
                forall|g: Seq<char>, c: int, t: int| #[trigger] s.two_time(g, c, t) is None,
                forall|p: int| #[trigger] s.rates(p) is None,
            decreases single@.len() - j,
        {
            let _ = s.set_single_qubit_gate_time(single[j].as_str(), q, UNIT_TIME);
            proof {
                lemma_prefix_contains(single_v, j as int);
                assert(single_v[j as int] == single[j as int]@);
            }
            j = j + 1;
        }
        proof {
            assert(single_v.subrange(0, single@.len() as int) =~= single_v);
        }
        q = q + 1;
    }
    let mut e: usize = 0;
    while e < edges.len()
        invariant
            s.wf(),
            e <= edges@.len(),
            s.qubit_count() == n,
            s.single_names() == single_v,
            s.two_names() == two_v,
            s.edge_list() == edge_v,
            edge_v == edges@,
            edges_valid(n as nat, edge_v),
            two_v == names_view(two@),
            forall|g: Seq<char>, p: int| #[trigger]
                s.single_time(g, p) == if single_v.contains(g) && 0 <= p < n {
                    Some(UNIT_TIME)
                } else {
                    None
                },
            forall|g: Seq<char>, c: int, t: int| #[trigger]
                s.two_time(g, c, t) == if two_v.contains(g) && is_edge(edge_v.subrange(0, e as int), c, t) {
                    Some(UNIT_TIME)
                } else {
                    None
                },
            forall|p: int| #[trigger] s.rates(p) is None,
        decreases edges@.len() - e,
    {
        let (a, b) = edges[e];
        let ghost done = edge_v.subrange(0, e as int);
        proof {
            assert(edge_v[e as int] == (a, b));
            lemma_edge_prefix(edge_v, e as int);
        }
        let mut j: usize = 0;
        while j < two.len()
            invariant
                s.wf(),
                e < edges@.len(),
                j <= two@.len(),
                edge_v[e as int] == (a, b),
                a < n && b < n,
                s.qubit_count() == n,
                s.single_names() == single_v,
                s.two_names() == two_v,
                s.edge_list() == edge_v,
                two_v == names_view(two@),
                forall|g: Seq<char>, p: int| #[trigger]
                    s.single_time(g, p) == if single_v.contains(g) && 0 <= p < n {
                        Some(UNIT_TIME)
                    } else {
                        None
                    },
                forall|g: Seq<char>, c: int, t: int| #[trigger]
                    s.two_time(g, c, t) == if two_v.contains(g) && is_edge(done, c, t) || two_v.subrange(0, j as int).contains(g) && ((c == a && t == b) || (c == b && t == a)) {
                        Some(UNIT_TIME)
                    } else {
                        None
                    },
                forall|p: int| #[trigger] s.rates(p) is None,
            decreases two@.len() - j,
        {
            let _ = s.set_two_qubit_gate_time(two[j].as_str(), a, b, UNIT_TIME);
            let _ = s.set_two_qubit_gate_time(two[j].as_str(), b, a, UNIT_TIME);
            proof {
                lemma_prefix_contains(two_v, j as int);
                assert(two_v[j as int] == two[j as int]@);
            }
            j = j + 1;
        }
        proof {
            assert(two_v.subrange(0, two@.len() as int) =~= two_v);
        }
        e = e + 1;
    }
    proof {
        assert(edge_v.subrange(0, edges@.len() as int) =~= edge_v);
        assert forall|g: Seq<char>, c: int, t: int| #[trigger]
            s.two_time(g, c, t) is Some implies is_edge(s.edge_list(), c, t) by {}
    }
    s
}

fn set_single_time(s: &mut GenericDevice, gate: &str, qubit: usize, time: u64) -> (r: Result<(), DeviceError>)
    requires
        on_edges(*old(s)),
    ensures
        on_edges(*final(s)),
        single_time_update(*old(s), *final(s), gate@, qubit, time, r),
{
    s.set_single_qubit_gate_time(gate, qubit, time)
}

fn set_two_time(s: &mut GenericDevice, gate: &str, control: usize, target: usize, time: u64) -> (r: Result<(), DeviceError>)
    requires
        on_edges(*old(s)),
    ensures
        on_edges(*final(s)),
        two_time_update(*old(s), *final(s), gate@, control, target, time, r),
{
    let n = s.number_qubits();
    if control >= n {
        return Err(DeviceError::QubitOutOfRange { qubit: control, number_qubits: n });
    }
    if target >= n {
        return Err(DeviceError::QubitOutOfRange { qubit: target, number_qubits: n });
    }
    let edges = s.two_qubit_edges();
    if !connected(&edges, control, target) {
        return Err(DeviceError::EdgeNotConnected { control, target });
    }
    s.set_two_qubit_gate_time(gate, control, target, time)
}

fn add_damping_to(s: &mut GenericDevice, qubit: usize, damping: u64) -> (r: Result<(), DeviceError>)
    requires
        on_edges(*old(s)),
    ensures
        on_edges(*final(s)),
        noise_update(*old(s), *final(s), qubit, with_damping(old(s).rates(qubit as int), damping), r),
{
    s.add_damping(qubit, damping)
}

fn add_dephasing_to(s: &mut GenericDevice, qubit: usize, dephasing: u64) -> (r: Result<(), DeviceError>)
    requires
        on_edges(*old(s)),
    ensures
        on_edges(*final(s)),
        noise_update(*old(s), *final(s), qubit, with_dephasing(old(s).rates(qubit as int), dephasing), r),
{
    s.add_dephasing(qubit, dephasing)
}

/// The 11-qubit trapped-ion processor, every qubit coupled to every other.
#[derive(Debug, Clone)]
pub struct IonQHarmonyDevice {
    state: GenericDevice,
}

impl IonQHarmonyDevice {
    /// The capabilities of the device as a generic state.
    pub closed spec fn state(&self) -> GenericDevice {
        self.state
    }

    pub open spec fn wf(&self) -> bool {
        &&& on_edges(self.state())
        &&& self.state().qubit_count() == 11
        &&& self.state().single_names() == ionq_single_names()
        &&& self.state().two_names() == ionq_two_names()
        &&& self.state().edge_list() == complete_edges(11)
    }

    /// The device with every supported gate at `UNIT_TIME` and no noise.
    pub fn new() -> (r: Self)
        ensures
            r.wf(),
            default_state(r.state(), 11, ionq_single_names(), ionq_two_names(), complete_edges(11)),
    {
        let edges = all_to_all_edges(11);
        IonQHarmonyDevice { state: with_default_times(11, ionq_single_gate_names(), ionq_two_gate_names(), edges) }
    }

    /// The identifier of the device.
    pub fn name(&self) -> (r: &'static str)
        ensures
            r@ == "arn:aws:braket:us-east-1::device/qpu/ionq/Harmony"@,
    {
        "arn:aws:braket:us-east-1::device/qpu/ionq/Harmony"
    }

    /// The region the device runs in.
    pub fn region(&self) -> (r: &'static str)
        ensures
            r@ == "us-east-1"@,
    {
        "us-east-1"
    }

    pub fn number_qubits(&self) -> (r: usize)
        ensures
            r == 11,
    {
        11
    }

    /// The supported single-qubit gates, whatever times are recorded.
    pub fn single_qubit_gate_names(&self) -> (r: Vec<String>)
        ensures
            names_view(r@) == ionq_single_names(),
    {
        ionq_single_gate_names()
    }

    /// The supported two-qubit gates, whatever times are recorded.
    pub fn two_qubit_gate_names(&self) -> (r: Vec<String>)
        ensures
            names_view(r@) == ionq_two_names(),
    {
        ionq_two_gate_names()
    }

    /// No gate on more than two qubits is supported.
    pub fn multi_qubit_gate_names(&self) -> (r: Vec<String>)
        ensures
            r@.len() == 0,
    {
        Vec::new()
    }

    /// The couplings of the device.
    pub fn two_qubit_edges(&self) -> (r: Vec<(usize, usize)>)
        ensures
            r@ == complete_edges(11),
    {
        all_to_all_edges(11)
    }

    pub fn single_qubit_gate_time(&self, gate: &str, qubit: usize) -> (r: Option<u64>)
        requires
            self.wf(),
        ensures
            r == self.state().single_time(gate@, qubit as int),
    {
        self.state.single_qubit_gate_time(gate, qubit)
    }

    /// The time from `control` to `target`; the reverse direction is a
    /// separate entry.
    pub fn two_qubit_gate_time(&self, gate: &str, control: usize, target: usize) -> (r: Option<u64>)
        requires
            self.wf(),
        ensures
            r == self.state().two_time(gate@, control as int, target as int),
    {
        self.state.two_qubit_gate_time(gate, control, target)
    }

    /// No three-qubit gate is supported.
    pub fn three_qubit_gate_time(
        &self,
        gate: &str,
        control_0: usize,
        control_1: usize,
        target: usize,
    ) -> (r: Option<u64>)
        ensures
            r is None,
    {
        None
    }

    /// No multi-qubit gate is supported.
    pub fn multi_qubit_gate_time(&self, gate: &str, qubits: &[usize]) -> (r: Option<u64>)
        ensures
            r is None,
    {
        None
    }

    /// The decoherence matrix of `qubit`, absent until noise is added.
    pub fn qubit_decoherence_rates(&self, qubit: usize) -> (r: Option<DecoherenceRates>)
        ensures
            rates_view(r) == self.state().rates(qubit as int),
    {
        self.state.qubit_decoherence_rates(qubit)
    }

    pub fn set_single_qubit_gate_time(&mut self, gate: &str, qubit: usize, gate_time: u64) -> (r:
        Result<(), DeviceError>)
        requires
            old(self).wf(),
        ensures
            final(self).wf(),
            single_time_update(old(self).state(), final(self).state(), gate@, qubit, gate_time, r),
    {
        set_single_time(&mut self.state, gate, qubit, gate_time)
    }

    pub fn set_two_qubit_gate_time(
        &mut self,
        gate: &str,
        control: usize,
        target: usize,
        gate_time: u64,
    ) -> (r: Result<(), DeviceError>)
        requires
            old(self).wf(),
        ensures
            final(self).wf(),
            two_time_update(old(self).state(), final(self).state(), gate@, control, target, gate_time, r),
    {
        set_two_time(&mut self.state, gate, control, target, gate_time)
    }

    pub fn add_damping(&mut self, qubit: usize, damping: u64) -> (r: Result<(), DeviceError>)
        requires
            old(self).wf(),
        ensures
            final(self).wf(),
            noise_update(
                old(self).state(),
                final(self).state(),
                qubit,
                with_damping(old(self).state().rates(qubit as int), damping),
                r,
            ),
    {
        add_damping_to(&mut self.state, qubit, damping)
    }

    pub fn add_dephasing(&mut self, qubit: usize, dephasing: u64) -> (r: Result<(), DeviceError>)
        requires
            old(self).wf(),
        ensures
            final(self).wf(),
            noise_update(
                old(self).state(),
                final(self).state(),
                qubit,
                with_dephasing(old(self).state().rates(qubit as int), dephasing),
                r,
            ),
    {
        add_dephasing_to(&mut self.state, qubit, dephasing)
    }

    /// The longest simple paths: the qubits in ascending order.
    pub fn longest_chains(&self) -> (r: Vec<Vec<usize>>)
        ensures
            chain_views(r@) == seq![ascending(11)],
            longest_paths(11, complete_edges(11), chain_views(r@)),
    {
        all_to_all_chains(11)
    }

    /// The longest simple cycles: the qubits in ascending order, closed.
    pub fn longest_closed_chains(&self) -> (r: Vec<Vec<usize>>)
        ensures
            chain_views(r@) == seq![ascending(11)],
            longest_cycles(11, complete_edges(11), chain_views(r@)),
    {
        all_to_all_chains(11)
    }
}

impl Default for IonQHarmonyDevice {
    fn default() -> (r: Self)
        ensures
            r.wf(),
            default_state(r.state(), 11, ionq_single_names(), ionq_two_names(), complete_edges(11)),
    {
        Self::new()
    }
}

impl From<IonQHarmonyDevice> for AWSDevice {
    fn from(device: IonQHarmonyDevice) -> (r: AWSDevice) {
        AWSDevice::IonQHarmonyDevice(device)
    }
}

impl vstd::std_specs::convert::FromSpecImpl<IonQHarmonyDevice> for AWSDevice {
    open spec fn obeys_from_spec() -> bool {
        true
    }

    open spec fn from_spec(device: IonQHarmonyDevice) -> AWSDevice {
        AWSDevice::IonQHarmonyDevice(device)
    }
}

/// The 25-qubit trapped-ion processor, every qubit coupled to every other.
#[derive(Debug, Clone)]
pub struct IonQAria1Device {
    state: GenericDevice,
}

impl IonQAria1Device {
    /// The capabilities of the device as a generic state.
    pub closed spec fn state(&self) -> GenericDevice {
        self.state
    }

    pub open spec fn wf(&self) -> bool {
        &&& on_edges(self.state())
        &&& self.state().qubit_count() == 25
        &&& self.state().single_names() == ionq_single_names()
        &&& self.state().two_names() == ionq_two_names()
        &&& self.state().edge_list() == complete_edges(25)
    }

    /// The device with every supported gate at `UNIT_TIME` and no noise.
    pub fn new() -> (r: Self)
        ensures
            r.wf(),
            default_state(r.state(), 25, ionq_single_names(), ionq_two_names(), complete_edges(25)),
    {
        let edges = all_to_all_edges(25);
        IonQAria1Device { state: with_default_times(25, ionq_single_gate_names(), ionq_two_gate_names(), edges) }
    }

    /// The identifier of the device.
    pub fn name(&self) -> (r: &'static str)
        ensures
            r@ == "arn:aws:braket:us-east-1::device/qpu/ionq/Aria-1"@,
    {
        "arn:aws:braket:us-east-1::device/qpu/ionq/Aria-1"
    }

    /// The region the device runs in.
    pub fn region(&self) -> (r: &'static str)
        ensures
            r@ == "us-east-1"@,
    {
        "us-east-1"
    }

    pub fn number_qubits(&self) -> (r: usize)
        ensures
            r == 25,
    {
        25
    }

    /// The supported single-qubit gates, whatever times are recorded.
    pub fn single_qubit_gate_names(&self) -> (r: Vec<String>)
        ensures
            names_view(r@) == ionq_single_names(),
    {
        ionq_single_gate_names()
    }

    /// The supported two-qubit gates, whatever times are recorded.
    pub fn two_qubit_gate_names(&self) -> (r: Vec<String>)
        ensures
            names_view(r@) == ionq_two_names(),
    {
        ionq_two_gate_names()
    }

    /// No gate on more than two qubits is supported.
    pub fn multi_qubit_gate_names(&self) -> (r: Vec<String>)
        ensures
            r@.len() == 0,
    {
        Vec::new()
    }

    /// The couplings of the device.
    pub fn two_qubit_edges(&self) -> (r: Vec<(usize, usize)>)
        ensures
            r@ == complete_edges(25),
    {
        all_to_all_edges(25)
    }

    pub fn single_qubit_gate_time(&self, gate: &str, qubit: usize) -> (r: Option<u64>)
        requires
            self.wf(),
        ensures
            r == self.state().single_time(gate@, qubit as int),
    {
        self.state.single_qubit_gate_time(gate, qubit)
    }

    /// The time from `control` to `target`; the reverse direction is a
    /// separate entry.
    pub fn two_qubit_gate_time(&self, gate: &str, control: usize, target: usize) -> (r: Option<u64>)
        requires
            self.wf(),
        ensures
            r == self.state().two_time(gate@, control as int, target as int),
    {
        self.state.two_qubit_gate_time(gate, control, target)
    }

    /// No three-qubit gate is supported.
    pub fn three_qubit_gate_time(
        &self,
        gate: &str,
        control_0: usize,
        control_1: usize,
        target: usize,
    ) -> (r: Option<u64>)
        ensures
            r is None,
    {
        None
    }

    /// No multi-qubit gate is supported.
    pub fn multi_qubit_gate_time(&self, gate: &str, qubits: &[usize]) -> (r: Option<u64>)
        ensures
            r is None,
    {
        None
    }

    /// The decoherence matrix of `qubit`, absent until noise is added.
    pub fn qubit_decoherence_rates(&self, qubit: usize) -> (r: Option<DecoherenceRates>)
        ensures
            rates_view(r) == self.state().rates(qubit as int),
    {
        self.state.qubit_decoherence_rates(qubit)
    }

    pub fn set_single_qubit_gate_time(&mut self, gate: &str, qubit: usize, gate_time: u64) -> (r:
        Result<(), DeviceError>)
        requires
            old(self).wf(),
        ensures
            final(self).wf(),
            single_time_update(old(self).state(), final(self).state(), gate@, qubit, gate_time, r),
    {
        set_single_time(&mut self.state, gate, qubit, gate_time)
    }

    pub fn set_two_qubit_gate_time(
        &mut self,
        gate: &str,
        control: usize,
        target: usize,
        gate_time: u64,
    ) -> (r: Result<(), DeviceError>)
        requires
            old(self).wf(),
        ensures
            final(self).wf(),
            two_time_update(old(self).state(), final(self).state(), gate@, control, target, gate_time, r),
    {
        set_two_time(&mut self.state, gate, control, target, gate_time)
    }

    pub fn add_damping(&mut self, qubit: usize, damping: u64) -> (r: Result<(), DeviceError>)
        requires
            old(self).wf(),
        ensures
            final(self).wf(),
            noise_update(
                old(self).state(),
                final(self).state(),
                qubit,
                with_damping(old(self).state().rates(qubit as int), damping),
                r,
            ),
    {
        add_damping_to(&mut self.state, qubit, damping)
    }

    pub fn add_dephasing(&mut self, qubit: usize, dephasing: u64) -> (r: Result<(), DeviceError>)
        requires
            old(self).wf(),
        ensures
            final(self).wf(),
            noise_update(
                old(self).state(),
                final(self).state(),
                qubit,
                with_dephasing(old(self).state().rates(qubit as int), dephasing),
                r,
            ),
    {
        add_dephasing_to(&mut self.state, qubit, dephasing)
    }

    /// The longest simple paths: the qubits in ascending order.
    pub fn longest_chains(&self) -> (r: Vec<Vec<usize>>)
        ensures
            chain_views(r@) == seq![ascending(25)],
            longest_paths(25, complete_edges(25), chain_views(r@)),
    {
        all_to_all_chains(25)
    }

    /// The longest simple cycles: the qubits in ascending order, closed.
    pub fn longest_closed_chains(&self) -> (r: Vec<Vec<usize>>)
        ensures
            chain_views(r@) == seq![ascending(25)],
            longest_cycles(25, complete_edges(25), chain_views(r@)),
    {
        all_to_all_chains(25)
    }
}

impl Default for IonQAria1Device {
    fn default() -> (r: Self)
        ensures
            r.wf(),
            default_state(r.state(), 25, ionq_single_names(), ionq_two_names(), complete_edges(25)),
    {
        Self::new()
    }
}

impl From<IonQAria1Device> for AWSDevice {
    fn from(device: IonQAria1Device) -> (r: AWSDevice) {
        AWSDevice::IonQAria1Device(device)
    }
}

impl vstd::std_specs::convert::FromSpecImpl<IonQAria1Device> for AWSDevice {
    open spec fn obeys_from_spec() -> bool {
        true
    }

    open spec fn from_spec(device: IonQAria1Device) -> AWSDevice {
        AWSDevice::IonQAria1Device(device)
    }
}

/// The 8-qubit superconducting processor whose qubits form a ring.
#[derive(Debug, Clone)]
pub struct OQCLucyDevice {
    state: GenericDevice,
}

impl OQCLucyDevice {
    /// The capabilities of the device as a generic state.
    pub closed spec fn state(&self) -> GenericDevice {
        self.state
    }

    pub open spec fn wf(&self) -> bool {
        &&& on_edges(self.state())
        &&& self.state().qubit_count() == 8
        &&& self.state().single_names() == oqc_single_names()
        &&& self.state().two_names() == Seq::<Seq<char>>::empty()
        &&& self.state().edge_list() == ring_edges()
    }

    /// The device with every supported gate at `UNIT_TIME` and no noise.
    pub fn new() -> (r: Self)
        ensures
            r.wf(),
            default_state(r.state(), 8, oqc_single_names(), Seq::<Seq<char>>::empty(), ring_edges()),
    {
        let edges = ring_edge_list();
        OQCLucyDevice { state: with_default_times(8, oqc_single_gate_names(), no_gate_names(), edges) }
    }

    /// The identifier of the device.
    pub fn name(&self) -> (r: &'static str)
        ensures
            r@ == "arn:aws:braket:eu-west-2::device/qpu/oqc/Lucy"@,
    {
        "arn:aws:braket:eu-west-2::device/qpu/oqc/Lucy"
    }

    /// The region the device runs in.
    pub fn region(&self) -> (r: &'static str)
        ensures
            r@ == "eu-west-2"@,
    {
        "eu-west-2"
    }

    pub fn number_qubits(&self) -> (r: usize)
        ensures
            r == 8,
    {
        8
    }

    /// The supported single-qubit gates, whatever times are recorded.
    pub fn single_qubit_gate_names(&self) -> (r: Vec<String>)
        ensures
            names_view(r@) == oqc_single_names(),
    {
        oqc_single_gate_names()
    }

    /// The supported two-qubit gates, whatever times are recorded.
    pub fn two_qubit_gate_names(&self) -> (r: Vec<String>)
        ensures
            names_view(r@) == Seq::<Seq<char>>::empty(),
    {
        no_gate_names()
    }

    /// No gate on more than two qubits is supported.
    pub fn multi_qubit_gate_names(&self) -> (r: Vec<String>)
        ensures
            r@.len() == 0,
    {
        Vec::new()
    }

    /// The couplings of the device.
    pub fn two_qubit_edges(&self) -> (r: Vec<(usize, usize)>)
        ensures
            r@ == ring_edges(),
    {
        ring_edge_list()
    }

    pub fn single_qubit_gate_time(&self, gate: &str, qubit: usize) -> (r: Option<u64>)
        requires
            self.wf(),
        ensures
            r == self.state().single_time(gate@, qubit as int),
    {
        self.state.single_qubit_gate_time(gate, qubit)
    }

    /// The time from `control` to `target`; the reverse direction is a
    /// separate entry.
    pub fn two_qubit_gate_time(&self, gate: &str, control: usize, target: usize) -> (r: Option<u64>)
        requires
            self.wf(),
        ensures
            r == self.state().two_time(gate@, control as int, target as int),
    {
        self.state.two_qubit_gate_time(gate, control, target)
    }

    /// No three-qubit gate is supported.
    pub fn three_qubit_gate_time(
        &self,
        gate: &str,
        control_0: usize,
        control_1: usize,
        target: usize,
    ) -> (r: Option<u64>)
        ensures
            r is None,
    {
        None
    }

    /// No multi-qubit gate is supported.
    pub fn multi_qubit_gate_time(&self, gate: &str, qubits: &[usize]) -> (r: Option<u64>)
        ensures
            r is None,
    {
        None
    }

    /// The decoherence matrix of `qubit`, absent until noise is added.
    pub fn qubit_decoherence_rates(&self, qubit: usize) -> (r: Option<DecoherenceRates>)
        ensures
            rates_view(r) == self.state().rates(qubit as int),
    {
        self.state.qubit_decoherence_rates(qubit)
    }

    pub fn set_single_qubit_gate_time(&mut self, gate: &str, qubit: usize, gate_time: u64) -> (r:
        Result<(), DeviceError>)
        requires
            old(self).wf(),
        ensures
            final(self).wf(),
            single_time_update(old(self).state(), final(self).state(), gate@, qubit, gate_time, r),
    {
        set_single_time(&mut self.state, gate, qubit, gate_time)
    }

    pub fn set_two_qubit_gate_time(
        &mut self,
        gate: &str,
        control: usize,
        target: usize,
        gate_time: u64,
    ) -> (r: Result<(), DeviceError>)
        requires
            old(self).wf(),
        ensures
            final(self).wf(),
            two_time_update(old(self).state(), final(self).state(), gate@, control, target, gate_time, r),
    {
        set_two_time(&mut self.state, gate, control, target, gate_time)
    }

    pub fn add_damping(&mut self, qubit: usize, damping: u64) -> (r: Result<(), DeviceError>)
        requires
            old(self).wf(),
        ensures
            final(self).wf(),
            noise_update(
                old(self).state(),
                final(self).state(),
                qubit,
                with_damping(old(self).state().rates(qubit as int), damping),
                r,
            ),
    {
        add_damping_to(&mut self.state, qubit, damping)
    }

    pub fn add_dephasing(&mut self, qubit: usize, dephasing: u64) -> (r: Result<(), DeviceError>)
        requires
            old(self).wf(),
        ensures
            final(self).wf(),
            noise_update(
                old(self).state(),
                final(self).state(),
                qubit,
                with_dephasing(old(self).state().rates(qubit as int), dephasing),
                r,
            ),
    {
        add_dephasing_to(&mut self.state, qubit, dephasing)
    }

    /// The longest simple paths: the qubits in ascending order.
    pub fn longest_chains(&self) -> (r: Vec<Vec<usize>>)
        ensures
            chain_views(r@) == seq![ascending(8)],
            longest_paths(8, ring_edges(), chain_views(r@)),
    {
        ring_chains()
    }

    /// The longest simple cycles: the qubits in ascending order, closed.
    pub fn longest_closed_chains(&self) -> (r: Vec<Vec<usize>>)
        ensures
            chain_views(r@) == seq![ascending(8)],
            longest_cycles(8, ring_edges(), chain_views(r@)),
    {
        ring_chains()
    }
}

impl Default for OQCLucyDevice {
    fn default() -> (r: Self)
        ensures
            r.wf(),
            default_state(r.state(), 8, oqc_single_names(), Seq::<Seq<char>>::empty(), ring_edges()),
    {
        Self::new()
    }
}

impl From<OQCLucyDevice> for AWSDevice {
    fn from(device: OQCLucyDevice) -> (r: AWSDevice) {
        AWSDevice::OQCLucyDevice(device)
    }
}

impl vstd::std_specs::convert::FromSpecImpl<OQCLucyDevice> for AWSDevice {
    open spec fn obeys_from_spec() -> bool {
        true
    }

    open spec fn from_spec(device: OQCLucyDevice) -> AWSDevice {
        AWSDevice::OQCLucyDevice(device)
    }
}

/// The closed catalog of hardware variants.
#[derive(Debug, Clone)]
pub enum AWSDevice {
    IonQHarmonyDevice(IonQHarmonyDevice),
    IonQAria1Device(IonQAria1Device),
    OQCLucyDevice(OQCLucyDevice),
}

/// `g` holds what `d` declares: its qubit count, gate names and edges, the
/// times of its declared gates, and its noise.
pub open spec fn reduction_of(d: GenericDevice, g: GenericDevice) -> bool {
    &&& g.wf()
    &&& same_shape(d, g)
    &&& forall|gate: Seq<char>, q: int| #[trigger]
        g.single_time(gate, q) == if d.single_names().contains(gate) {
            d.single_time(gate, q)
        } else {
            None
        }
    &&& forall|gate: Seq<char>, c: int, t: int| #[trigger]
        g.two_time(gate, c, t) == if d.two_names().contains(gate) {
            d.two_time(gate, c, t)
        } else {
            None
        }
    &&& forall|q: int| #[trigger] g.rates(q) == d.rates(q)
}

/// The reduction's own refusal of a copied entry into a snapshot of `n` qubits.
fn conversion_failure(e: DeviceError, n: usize) -> (r: DeviceError)
    ensures
        r is ConversionFailure,
{
    match e {
        DeviceError::QubitOutOfRange { qubit, number_qubits } => DeviceError::ConversionFailure {
            qubit,
            number_qubits,
        },
        DeviceError::EdgeNotConnected { control, target: _ } => DeviceError::ConversionFailure {
            qubit: control,
            number_qubits: n,
        },
        DeviceError::ConversionFailure { qubit, number_qubits } => DeviceError::ConversionFailure {
            qubit,
            number_qubits,
        },
    }
}

proof fn lemma_prefix_contains<A>(s: Seq<A>, j: int)
    requires
        0 <= j < s.len(),
    ensures
        forall|x: A| #[trigger]
            s.subrange(0, j + 1).contains(x) <==> s.subrange(0, j).contains(x) || x == s[j],
        forall|x: A| #[trigger] s.subrange(0, j).contains(x) ==> s.contains(x),
{
    assert forall|x: A| #[trigger]
        s.subrange(0, j + 1).contains(x) <==> s.subrange(0, j).contains(x) || x == s[j] by {
        if s.subrange(0, j + 1).contains(x) {
            let k = choose|k: int| 0 <= k < j + 1 && #[trigger] s.subrange(0, j + 1)[k] == x;
            if k < j {
                assert(s.subrange(0, j)[k] == x);
            }
        }
        if s.subrange(0, j).contains(x) {
            let k = choose|k: int| 0 <= k < j && #[trigger] s.subrange(0, j)[k] == x;
            assert(s.subrange(0, j + 1)[k] == x);
        }
        if x == s[j] {
            assert(s.subrange(0, j + 1)[j] == x);
        }
    }
    assert forall|x: A| #[trigger] s.subrange(0, j).contains(x) implies s.contains(x) by {
        let k = choose|k: int| 0 <= k < j && #[trigger] s.subrange(0, j)[k] == x;
        assert(s[k] == x);
    }
}

proof fn lemma_edge_prefix(edges: Seq<(usize, usize)>, e: int)
    requires
        0 <= e < edges.len(),
    ensures
        forall|c: int, t: int| #[trigger]
            is_edge(edges.subrange(0, e + 1), c, t) <==> (is_edge(edges.subrange(0, e), c, t) || (c
                == edges[e].0 && t == edges[e].1) || (c == edges[e].1 && t == edges[e].0)),
{
    let done = edges.subrange(0, e);
    let next = edges.subrange(0, e + 1);
    assert forall|c: int, t: int| #[trigger]
        is_edge(next, c, t) <==> (is_edge(done, c, t) || (c == edges[e].0 && t == edges[e].1) || (c
            == edges[e].1 && t == edges[e].0)) by {
        if is_edge(next, c, t) {
            let k = choose|k: int|
                0 <= k < next.len() && ((#[trigger] next[k] == (c as usize, t as usize) && c
                    == next[k].0 && t == next[k].1) || (next[k] == (t as usize, c as usize) && t
                    == next[k].0 && c == next[k].1));
            if k < e {
                assert(done[k] == next[k]);
            }
        }
        if is_edge(done, c, t) {
            let k = choose|k: int|
                0 <= k < done.len() && ((#[trigger] done[k] == (c as usize, t as usize) && c
                    == done[k].0 && t == done[k].1) || (done[k] == (t as usize, c as usize) && t
                    == done[k].0 && c == done[k].1));
            assert(next[k] == done[k]);
        }
        if (c == edges[e].0 && t == edges[e].1) || (c == edges[e].1 && t == edges[e].0) {
            assert(next[e] == edges[e]);
        }
    }
}

impl AWSDevice {
    /// The capabilities of the device as a generic state.
    pub open spec fn state(&self) -> GenericDevice {
        match self {
            AWSDevice::IonQHarmonyDevice(x) => x.state(),
            AWSDevice::IonQAria1Device(x) => x.state(),
            AWSDevice::OQCLucyDevice(x) => x.state(),
        }
    }

    pub open spec fn wf(&self) -> bool {
        match self {
            AWSDevice::IonQHarmonyDevice(x) => x.wf(),
            AWSDevice::IonQAria1Device(x) => x.wf(),
            AWSDevice::OQCLucyDevice(x) => x.wf(),
        }
    }

    /// The identifier of the device.
    pub fn name(self) -> (r: &'static str)
        ensures
            r@ == match self {
                AWSDevice::IonQHarmonyDevice(_) => "arn:aws:braket:us-east-1::device/qpu/ionq/Harmony"@,
                AWSDevice::IonQAria1Device(_) => "arn:aws:braket:us-east-1::device/qpu/ionq/Aria-1"@,
                AWSDevice::OQCLucyDevice(_) => "arn:aws:braket:eu-west-2::device/qpu/oqc/Lucy"@,
            },
    {
        match self {
            AWSDevice::IonQHarmonyDevice(x) => x.name(),
            AWSDevice::IonQAria1Device(x) => x.name(),
            AWSDevice::OQCLucyDevice(x) => x.name(),
        }
    }

    /// The region the device runs in.
    pub fn region(self) -> (r: &'static str)
        ensures
            r@ == match self {
                AWSDevice::IonQHarmonyDevice(_) => "us-east-1"@,
                AWSDevice::IonQAria1Device(_) => "us-east-1"@,
                AWSDevice::OQCLucyDevice(_) => "eu-west-2"@,
            },
    {
        match self {
            AWSDevice::IonQHarmonyDevice(x) => x.region(),
            AWSDevice::IonQAria1Device(x) => x.region(),
            AWSDevice::OQCLucyDevice(x) => x.region(),
        }
    }

    pub fn number_qubits(&self) -> (r: usize)
        requires
            self.wf(),
        ensures
            r == self.state().qubit_count(),
    {
        match self {
            AWSDevice::IonQHarmonyDevice(x) => x.number_qubits(),
            AWSDevice::IonQAria1Device(x) => x.number_qubits(),
            AWSDevice::OQCLucyDevice(x) => x.number_qubits(),
        }
    }

    /// The supported single-qubit gates, whatever times are recorded.
    pub fn single_qubit_gate_names(&self) -> (r: Vec<String>)
        requires
            self.wf(),
        ensures
            names_view(r@) == self.state().single_names(),
    {
        match self {
            AWSDevice::IonQHarmonyDevice(x) => x.single_qubit_gate_names(),
            AWSDevice::IonQAria1Device(x) => x.single_qubit_gate_names(),
            AWSDevice::OQCLucyDevice(x) => x.single_qubit_gate_names(),
        }
    }

    /// The supported two-qubit gates, whatever times are recorded.
    pub fn two_qubit_gate_names(&self) -> (r: Vec<String>)
        requires
            self.wf(),
        ensures
            names_view(r@) == self.state().two_names(),
    {
        match self {
            AWSDevice::IonQHarmonyDevice(x) => x.two_qubit_gate_names(),
            AWSDevice::IonQAria1Device(x) => x.two_qubit_gate_names(),
            AWSDevice::OQCLucyDevice(x) => x.two_qubit_gate_names(),
        }
    }

    /// No gate on more than two qubits is supported.
    pub fn multi_qubit_gate_names(&self) -> (r: Vec<String>)
        ensures
            r@.len() == 0,
    {
        Vec::new()
    }

    /// The couplings of the device.
    pub fn two_qubit_edges(&self) -> (r: Vec<(usize, usize)>)
        requires
            self.wf(),
        ensures
            r@ == self.state().edge_list(),
    {
        match self {
            AWSDevice::IonQHarmonyDevice(x) => x.two_qubit_edges(),
            AWSDevice::IonQAria1Device(x) => x.two_qubit_edges(),
            AWSDevice::OQCLucyDevice(x) => x.two_qubit_edges(),
        }
    }

    pub fn single_qubit_gate_time(&self, gate: &str, qubit: usize) -> (r: Option<u64>)
        requires
            self.wf(),
        ensures
            r == self.state().single_time(gate@, qubit as int),
    {
        match self {
            AWSDevice::IonQHarmonyDevice(x) => x.single_qubit_gate_time(gate, qubit),
            AWSDevice::IonQAria1Device(x) => x.single_qubit_gate_time(gate, qubit),
            AWSDevice::OQCLucyDevice(x) => x.single_qubit_gate_time(gate, qubit),
        }
    }

    /// The time from `control` to `target`; the reverse direction is a
    /// separate entry.
    pub fn two_qubit_gate_time(&self, gate: &str, control: usize, target: usize) -> (r: Option<u64>)
        requires
            self.wf(),
        ensures
            r == self.state().two_time(gate@, control as int, target as int),
    {
        match self {
            AWSDevice::IonQHarmonyDevice(x) => x.two_qubit_gate_time(gate, control, target),
            AWSDevice::IonQAria1Device(x) => x.two_qubit_gate_time(gate, control, target),
            AWSDevice::OQCLucyDevice(x) => x.two_qubit_gate_time(gate, control, target),
        }
    }

    /// No three-qubit gate is supported.
    pub fn three_qubit_gate_time(
        &self,
        gate: &str,
        control_0: usize,
        control_1: usize,
        target: usize,
    ) -> (r: Option<u64>)
        ensures
            r is None,
    {
        match self {
            AWSDevice::IonQHarmonyDevice(x) => x.three_qubit_gate_time(gate, control_0, control_1, target),
            AWSDevice::IonQAria1Device(x) => x.three_qubit_gate_time(gate, control_0, control_1, target),
            AWSDevice::OQCLucyDevice(x) => x.three_qubit_gate_time(gate, control_0, control_1, target),
        }
    }

    /// No multi-qubit gate is supported.
    pub fn multi_qubit_gate_time(&self, gate: &str, qubits: &[usize]) -> (r: Option<u64>)
        ensures
            r is None,
    {
        match self {
            AWSDevice::IonQHarmonyDevice(x) => x.multi_qubit_gate_time(gate, qubits),
            AWSDevice::IonQAria1Device(x) => x.multi_qubit_gate_time(gate, qubits),
            AWSDevice::OQCLucyDevice(x) => x.multi_qubit_gate_time(gate, qubits),
        }
    }

    /// The decoherence matrix of `qubit`, absent until noise is added.
    pub fn qubit_decoherence_rates(&self, qubit: usize) -> (r: Option<DecoherenceRates>)
        ensures
            rates_view(r) == self.state().rates(qubit as int),
    {
        match self {
            AWSDevice::IonQHarmonyDevice(x) => x.qubit_decoherence_rates(qubit),
            AWSDevice::IonQAria1Device(x) => x.qubit_decoherence_rates(qubit),
            AWSDevice::OQCLucyDevice(x) => x.qubit_decoherence_rates(qubit),
        }
    }

    /// The longest simple paths of the device's coupling graph.
    pub fn longest_chains(&self) -> (r: Vec<Vec<usize>>)
        requires
            self.wf(),
        ensures
            longest_paths(self.state().qubit_count(), self.state().edge_list(), chain_views(r@)),
    {
        match self {
            AWSDevice::IonQHarmonyDevice(x) => x.longest_chains(),
            AWSDevice::IonQAria1Device(x) => x.longest_chains(),
            AWSDevice::OQCLucyDevice(x) => x.longest_chains(),
        }
    }

    /// The longest simple cycles of the device's coupling graph.
    pub fn longest_closed_chains(&self) -> (r: Vec<Vec<usize>>)
        requires
            self.wf(),
        ensures
            longest_cycles(self.state().qubit_count(), self.state().edge_list(), chain_views(r@)),
    {
        match self {
            AWSDevice::IonQHarmonyDevice(x) => x.longest_closed_chains(),
            AWSDevice::IonQAria1Device(x) => x.longest_closed_chains(),
            AWSDevice::OQCLucyDevice(x) => x.longest_closed_chains(),
        }
    }

    pub fn set_single_qubit_gate_time(&mut self, gate: &str, qubit: usize, gate_time: u64) -> (r:
        Result<(), DeviceError>)
        requires
            old(self).wf(),
        ensures
            final(self).wf(),
            single_time_update(old(self).state(), final(self).state(), gate@, qubit, gate_time, r),
    {
        match self {
            AWSDevice::IonQHarmonyDevice(x) => x.set_single_qubit_gate_time(gate, qubit, gate_time),
            AWSDevice::IonQAria1Device(x) => x.set_single_qubit_gate_time(gate, qubit, gate_time),
            AWSDevice::OQCLucyDevice(x) => x.set_single_qubit_gate_time(gate, qubit, gate_time),
        }
    }

    pub fn set_two_qubit_gate_time(
        &mut self,
        gate: &str,
        control: usize,
        target: usize,
        gate_time: u64,
    ) -> (r: Result<(), DeviceError>)
        requires
            old(self).wf(),
        ensures
            final(self).wf(),
            two_time_update(old(self).state(), final(self).state(), gate@, control, target, gate_time, r),
    {
        match self {
            AWSDevice::IonQHarmonyDevice(x) => x.set_two_qubit_gate_time(gate, control, target, gate_time),
            AWSDevice::IonQAria1Device(x) => x.set_two_qubit_gate_time(gate, control, target, gate_time),
            AWSDevice::OQCLucyDevice(x) => x.set_two_qubit_gate_time(gate, control, target, gate_time),
        }
    }

    pub fn add_damping(&mut self, qubit: usize, damping: u64) -> (r: Result<(), DeviceError>)
        requires
            old(self).wf(),
        ensures
            final(self).wf(),
            noise_update(
                old(self).state(),
                final(self).state(),
                qubit,
                with_damping(old(self).state().rates(qubit as int), damping),
                r,
            ),
    {
        match self {
            AWSDevice::IonQHarmonyDevice(x) => x.add_damping(qubit, damping),
            AWSDevice::IonQAria1Device(x) => x.add_damping(qubit, damping),
            AWSDevice::OQCLucyDevice(x) => x.add_damping(qubit, damping),
        }
    }

    pub fn add_dephasing(&mut self, qubit: usize, dephasing: u64) -> (r: Result<(), DeviceError>)
        requires
            old(self).wf(),
        ensures
            final(self).wf(),
            noise_update(
                old(self).state(),
                final(self).state(),
                qubit,
                with_dephasing(old(self).state().rates(qubit as int), dephasing),
                r,
            ),
    {
        match self {
            AWSDevice::IonQHarmonyDevice(x) => x.add_dephasing(qubit, dephasing),
            AWSDevice::IonQAria1Device(x) => x.add_dephasing(qubit, dephasing),
            AWSDevice::OQCLucyDevice(x) => x.add_dephasing(qubit, dephasing),
        }
    }

    /// The variant-independent snapshot of the device: every query of the
    /// device is sampled and copied, both directions of every edge apart.
    pub fn to_generic_device(&self) -> (r: Result<GenericDevice, DeviceError>)
        requires
            self.wf(),
        ensures
            r matches Ok(g) && reduction_of(self.state(), g),
    {
        let ghost d = self.state();
        proof {
            d.lemma_bounds();
        }
        let n = self.number_qubits();
        let single = self.single_qubit_gate_names();
        let two = self.two_qubit_gate_names();
        let edges = self.two_qubit_edges();
        let mut g = GenericDevice::new(n, copy_names(&single), copy_names(&two), copy_edges(&edges));
        let ghost single_v = names_view(single@);
        let ghost two_v = names_view(two@);
        let mut j: usize = 0;
        while j < single.len()
            invariant
                g.wf(),
                j <= single@.len(),
                single_v == names_view(single@),
                single_v == d.single_names(),
                same_shape(d, g),
                n == d.qubit_count(),
                self.wf(),
                d == self.state(),
                forall|gate: Seq<char>, q: int| #[trigger]
                    g.single_time(gate, q) == if single_v.subrange(0, j as int).contains(gate) {
                        d.single_time(gate, q)
                    } else {
                        None
                    },
                forall|gate: Seq<char>, c: int, t: int| #[trigger] g.two_time(gate, c, t) is None,
                forall|q: int| #[trigger] g.rates(q) is None,
            decreases single@.len() - j,
        {
            let mut q: usize = 0;
            while q < n
                invariant
                    g.wf(),
                    j < single@.len(),
                    q <= n,
                    single_v == names_view(single@),
                    single_v == d.single_names(),
                    same_shape(d, g),
                    n == d.qubit_count(),
                    self.wf(),
                    d == self.state(),
                    forall|gate: Seq<char>, p: int| #[trigger]
                        g.single_time(gate, p) == if single_v.subrange(0, j as int).contains(gate) || (
                        gate == single_v[j as int] && 0 <= p < q) {
                            d.single_time(gate, p)
                        } else {
                            None
                        },
                    forall|gate: Seq<char>, c: int, t: int| #[trigger] g.two_time(gate, c, t) is None,
                    forall|p: int| #[trigger] g.rates(p) is None,
                decreases n - q,
            {
                if let Some(x) = self.single_qubit_gate_time(single[j].as_str(), q) {
                    if let Err(e) = g.set_single_qubit_gate_time(single[j].as_str(), q, x) {
                        return Err(conversion_failure(e, n));
                    }
                }
                q = q + 1;
            }
            proof {
                lemma_prefix_contains(single_v, j as int);
                d.lemma_bounds();
            }
            j = j + 1;
        }
        proof {
            assert(single_v.subrange(0, single@.len() as int) =~= single_v);
        }
        let mut j: usize = 0;
        while j < two.len()
            invariant
                g.wf(),
                j <= two@.len(),
                two_v == names_view(two@),
                two_v == d.two_names(),
                single_v == d.single_names(),
                edges@ == d.edge_list(),
                same_shape(d, g),
                n == d.qubit_count(),
                self.wf(),
                d == self.state(),
                on_edges(d),
                forall|gate: Seq<char>, q: int| #[trigger]
                    g.single_time(gate, q) == if single_v.contains(gate) {
                        d.single_time(gate, q)
                    } else {
                        None
                    },
                forall|gate: Seq<char>, c: int, t: int| #[trigger]
                    g.two_time(gate, c, t) == if two_v.subrange(0, j as int).contains(gate) {
                        d.two_time(gate, c, t)
                    } else {
                        None
                    },
                forall|q: int| #[trigger] g.rates(q) is None,
            decreases two@.len() - j,
        {
            let mut e: usize = 0;
            while e < edges.len()
                invariant
                    g.wf(),
                    j < two@.len(),
                    e <= edges@.len(),
                    two_v == names_view(two@),
                    two_v == d.two_names(),
                    single_v == d.single_names(),
                    edges@ == d.edge_list(),
                    same_shape(d, g),
                    n == d.qubit_count(),
                    self.wf(),
                    d == self.state(),
                    on_edges(d),
                    forall|gate: Seq<char>, q: int| #[trigger]
                        g.single_time(gate, q) == if single_v.contains(gate) {
                            d.single_time(gate, q)
                        } else {
                            None
                        },
                    forall|gate: Seq<char>, c: int, t: int| #[trigger]
                        g.two_time(gate, c, t) == if two_v.subrange(0, j as int).contains(gate) || (
                        gate == two_v[j as int] && is_edge(edges@.subrange(0, e as int), c, t)) {
                            d.two_time(gate, c, t)
                        } else {
                            None
                        },
                    forall|q: int| #[trigger] g.rates(q) is None,
                decreases edges@.len() - e,
            {
                let (a, b) = edges[e];
                proof {
                    d.lemma_bounds();
                    assert(edges@[e as int] == (a, b));
                }
                if let Some(x) = self.two_qubit_gate_time(two[j].as_str(), a, b) {
                    if let Err(err) = g.set_two_qubit_gate_time(two[j].as_str(), a, b, x) {
                        return Err(conversion_failure(err, n));
                    }
                }
                if let Some(x) = self.two_qubit_gate_time(two[j].as_str(), b, a) {
                    if let Err(err) = g.set_two_qubit_gate_time(two[j].as_str(), b, a, x) {
                        return Err(conversion_failure(err, n));
                    }
                }
                proof {
                    lemma_edge_prefix(edges@, e as int);
                }
                e = e + 1;
            }
            proof {
                assert(edges@.subrange(0, edges@.len() as int) =~= edges@);
                lemma_prefix_contains(two_v, j as int);
            }
            j = j + 1;
        }
        proof {
            assert(two_v.subrange(0, two@.len() as int) =~= two_v);
        }
        let mut q: usize = 0;
        while q < n
            invariant
                g.wf(),
                q <= n,
                same_shape(d, g),
                n == d.qubit_count(),
                self.wf(),
                d == self.state(),
                forall|gate: Seq<char>, p: int| #[trigger]
                    g.single_time(gate, p) == if single_v.contains(gate) {
                        d.single_time(gate, p)
                    } else {
                        None
                    },
                forall|gate: Seq<char>, c: int, t: int| #[trigger]
                    g.two_time(gate, c, t) == if two_v.contains(gate) {
                        d.two_time(gate, c, t)
                    } else {
                        None
                    },
                forall|p: int| #[trigger]
                    g.rates(p) == if 0 <= p < q {
                        d.rates(p)
                    } else {
                        None
                    },
            decreases n - q,
        {
            if let Some(x) = self.qubit_decoherence_rates(q) {
                if let Err(err) = g.set_qubit_decoherence_rates(q, x) {
                    return Err(conversion_failure(err, n));
                }
            }
            q = q + 1;
        }
        proof {
            d.lemma_bounds();
        }
        Ok(g)
    }
}

/// A snapshot taken by `to_generic_device` has the qubit count of the
/// device, the same sets of gate names, every time of a supported gate,
/// every decoherence matrix, and the same couplings as unordered pairs.
pub proof fn lemma_reduction_preserves(d: AWSDevice, g: GenericDevice)
    requires
        d.wf(),
        reduction_of(d.state(), g),
    ensures
        g.qubit_count() == d.state().qubit_count(),
        g.single_names().to_set() == d.state().single_names().to_set(),
        g.two_names().to_set() == d.state().two_names().to_set(),
        forall|gate: Seq<char>, q: int|
            d.state().single_names().contains(gate) && #[trigger] d.state().single_time(gate, q) is Some
                ==> g.single_time(gate, q) == d.state().single_time(gate, q),
        forall|gate: Seq<char>, c: int, t: int|
            d.state().two_names().contains(gate) && #[trigger] d.state().two_time(gate, c, t) is Some
                ==> g.two_time(gate, c, t) == d.state().two_time(gate, c, t),
        forall|q: int| #[trigger] g.rates(q) == d.state().rates(q),
        forall|c: int, t: int| #[trigger]
            is_edge(g.edge_list(), c, t) <==> is_edge(d.state().edge_list(), c, t),
{
}

} // verus!
