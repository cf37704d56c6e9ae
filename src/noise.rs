//! Per-qubit accumulation of decoherence contributions.
use vstd::prelude::*;

verus! {

/// The contributions recorded for one qubit, in the order they were added.
pub ghost struct RatesView {
    pub damping: Seq<u64>,
    pub dephasing: Seq<u64>,
}

/// The decoherence-rate matrix of one qubit, kept as its contributions.
///
/// The 3x3 matrix has at (0,0) the sum, from zero in order, of `damping`,
/// at (2,2) the same sum of `dephasing`, and zero elsewhere. Each value is
/// the bit pattern of an `f64`.
#[derive(Debug, Clone)]
pub struct DecoherenceRates {
    pub damping: Vec<u64>,
    pub dephasing: Vec<u64>,
}

impl View for DecoherenceRates {
    type V = RatesView;

    open spec fn view(&self) -> RatesView {
        RatesView { damping: self.damping@, dephasing: self.dephasing@ }
    }
}

/// The view of an optional matrix.
pub open spec fn rates_view(o: Option<DecoherenceRates>) -> Option<RatesView> {
    match o {
        Some(m) => Some(m@),
        None => None,
    }
}

/// The contributions after one more damping rate.
pub open spec fn with_damping(prev: Option<RatesView>, rate: u64) -> RatesView {
    match prev {
        Some(v) => RatesView { damping: v.damping.push(rate), dephasing: v.dephasing },
        None => RatesView { damping: seq![rate], dephasing: Seq::empty() },
    }
}

/// The contributions after one more dephasing rate.
pub open spec fn with_dephasing(prev: Option<RatesView>, rate: u64) -> RatesView {
    match prev {
        Some(v) => RatesView { damping: v.damping, dephasing: v.dephasing.push(rate) },
        None => RatesView { damping: Seq::empty(), dephasing: seq![rate] },
    }
}

fn copy_values(v: &Vec<u64>) -> (r: Vec<u64>)
    ensures
        r@ == v@,
{
    let mut r: Vec<u64> = Vec::new();
    let mut i: usize = 0;
    while i < v.len()
        invariant
            i <= v@.len(),
            r@ == v@.subrange(0, i as int),
        decreases v@.len() - i,
    {
        r.push(v[i]);
        i = i + 1;
        assert(r@ =~= v@.subrange(0, i as int));
    }
    assert(r@ =~= v@);
    r
}

impl DecoherenceRates {
    /// A copy with the same contributions.
    pub fn duplicate(&self) -> (r: Self)
        ensures
            r@ == self@,
    {
        DecoherenceRates { damping: copy_values(&self.damping), dephasing: copy_values(&self.dephasing) }
    }
}

fn duplicate_opt(o: &Option<DecoherenceRates>) -> (r: Option<DecoherenceRates>)
    ensures
        rates_view(r) == rates_view(*o),
{
    match o {
        Some(m) => Some(m.duplicate()),
        None => None,
    }
}

/// The decoherence matrices of the qubits of one device; absent until the
/// first contribution.
#[derive(Debug, Clone)]
pub struct NoiseModel {
    rates: Vec<Option<DecoherenceRates>>,
}

impl NoiseModel {
    pub closed spec fn qubit_count(&self) -> nat {
        self.rates@.len()
    }

    /// The contributions recorded for `qubit`, if any.
    pub closed spec fn rates(&self, qubit: int) -> Option<RatesView> {
        if 0 <= qubit < self.rates@.len() {
            rates_view(self.rates@[qubit])
        } else {
            None
        }
    }

    /// Only qubits of the model carry noise.
    pub proof fn lemma_range(&self)
        ensures
            forall|q: int| #[trigger] self.rates(q) is Some ==> 0 <= q < self.qubit_count(),
    {
    }

    /// A model for `number_qubits` qubits with no noise declared.
    pub fn new(number_qubits: usize) -> (r: Self)
        ensures
            r.qubit_count() == number_qubits,
            forall|q: int| #[trigger] r.rates(q) is None,
    {
        let mut rates: Vec<Option<DecoherenceRates>> = Vec::new();
        let mut i: usize = 0;
        while i < number_qubits
            invariant
                i <= number_qubits,
                rates@.len() == i,
                forall|k: int| 0 <= k < i ==> rates@[k] is None,
            decreases number_qubits - i,
        {
            rates.push(None);
            i = i + 1;
        }
        NoiseModel { rates }
    }

    /// A copy of the matrix of `qubit`.
    pub fn get(&self, qubit: usize) -> (r: Option<DecoherenceRates>)
        ensures
            rates_view(r) == self.rates(qubit as int),
    {
        if qubit < self.rates.len() {
            duplicate_opt(&self.rates[qubit])
        } else {
            None
        }
    }

    /// Replaces the matrix of `qubit`.
    pub fn set(&mut self, qubit: usize, value: DecoherenceRates)
        requires
            qubit < old(self).qubit_count(),
        ensures
            final(self).qubit_count() == old(self).qubit_count(),
            forall|q: int| #[trigger]
                final(self).rates(q) == if q == qubit as int {
                    Some(value@)
                } else {
                    old(self).rates(q)
                },
    {
        self.rates.set(qubit, Some(value));
    }

    /// Adds a damping rate to the matrix of `qubit`, creating it if absent.
    pub fn add_damping(&mut self, qubit: usize, rate: u64)
        requires
            qubit < old(self).qubit_count(),
        ensures
            final(self).qubit_count() == old(self).qubit_count(),
            forall|q: int| #[trigger]
                final(self).rates(q) == if q == qubit as int {
                    Some(with_damping(old(self).rates(q), rate))
                } else {
                    old(self).rates(q)
                },
    {
        let ghost prev = self.rates(qubit as int);
        let next = match duplicate_opt(&self.rates[qubit]) {
            Some(m) => {
                let mut m = m;
                m.damping.push(rate);
                m
            },
            None => DecoherenceRates { damping: vec![rate], dephasing: Vec::new() },
        };
        assert(next@.damping =~= with_damping(prev, rate).damping);
        assert(next@.dephasing =~= with_damping(prev, rate).dephasing);
        self.rates.set(qubit, Some(next));
    }

    /// Adds a dephasing rate to the matrix of `qubit`, creating it if absent.
    pub fn add_dephasing(&mut self, qubit: usize, rate: u64)
        requires
            qubit < old(self).qubit_count(),
        ensures
            final(self).qubit_count() == old(self).qubit_count(),
            forall|q: int| #[trigger]
                final(self).rates(q) == if q == qubit as int {
                    Some(with_dephasing(old(self).rates(q), rate))
                } else {
                    old(self).rates(q)
                },
    {
        let ghost prev = self.rates(qubit as int);
        let next = match duplicate_opt(&self.rates[qubit]) {
            Some(m) => {
                let mut m = m;
                m.dephasing.push(rate);
                m
            },
            None => DecoherenceRates { damping: Vec::new(), dephasing: vec![rate] },
        };
        assert(next@.dephasing =~= with_dephasing(prev, rate).dephasing);
        assert(next@.damping =~= with_dephasing(prev, rate).damping);
        self.rates.set(qubit, Some(next));
    }
}

} // verus!
