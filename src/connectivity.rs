//! The undirected coupling graph of a device and its chains.
use vstd::prelude::*;
use vstd::set_lib::{lemma_int_range, lemma_len_subset, set_int_range};
use itertools::Itertools;

verus! {

/// The pairs `(i, j)` with `first <= i < j < n`, ordered by `i`, then by `j`.
pub open spec fn pairs_from(first: nat, n: nat) -> Seq<(usize, usize)>
    decreases n - first,
{
    if first >= n {
        Seq::empty()
    } else {
        Seq::new((n - first - 1) as nat, |k: int| (first as usize, (first + 1 + k) as usize))
            + pairs_from(first + 1, n)
    }
}

/// Every pair of distinct qubits below `n`, each once, in lexicographic order.
pub open spec fn complete_edges(n: nat) -> Seq<(usize, usize)> {
    pairs_from(0, n)
}

/// The qubits `a` and `b` are coupled by some edge, in either direction.
pub open spec fn is_edge(edges: Seq<(usize, usize)>, a: int, b: int) -> bool {
    exists|i: int|
        0 <= i < edges.len() && ((#[trigger] edges[i] == (a as usize, b as usize) && a == edges[i].0
            && b == edges[i].1) || (edges[i] == (b as usize, a as usize) && b == edges[i].0 && a
            == edges[i].1))
}

/// Every edge joins two distinct qubits below `n`.
pub open spec fn edges_valid(n: nat, edges: Seq<(usize, usize)>) -> bool {
    forall|i: int|
        0 <= i < edges.len() ==> #[trigger] edges[i].0 < n && edges[i].1 < n && edges[i].0
            != edges[i].1
}

/// A simple path: distinct qubits below `n`, each coupled to the next.
pub open spec fn is_chain(n: nat, edges: Seq<(usize, usize)>, chain: Seq<usize>) -> bool {
    &&& chain.no_duplicates()
    &&& forall|i: int| 0 <= i < chain.len() ==> #[trigger] chain[i] < n
    &&& forall|i: int|
        0 <= i < chain.len() - 1 ==> is_edge(edges, #[trigger] chain[i] as int, chain[i + 1] as int)
}

/// A simple cycle: a chain whose last qubit is coupled to its first.
pub open spec fn is_closed_chain(n: nat, edges: Seq<(usize, usize)>, chain: Seq<usize>) -> bool {
    &&& is_chain(n, edges, chain)
    &&& chain.len() > 0
    &&& is_edge(edges, chain.last() as int, chain[0] as int)
}

/// The qubits `0, 1, ..., n - 1` in order.
pub open spec fn ascending(n: nat) -> Seq<usize> {
    Seq::new(n, |i: int| i as usize)
}

proof fn lemma_pairs_from(first: nat, n: nat, a: usize, b: usize)
    requires
        n <= usize::MAX,
    ensures
        pairs_from(first, n).contains((a, b)) <==> first <= a < b < n,
    decreases n - first,
{
    let p = pairs_from(first, n);
    if first < n {
        let row = Seq::new((n - first - 1) as nat, |k: int| (first as usize, (first + 1 + k) as usize));
        lemma_pairs_from(first + 1, n, a, b);
        if first <= a < b < n {
            if a == first {
                assert(p[b - first - 1] == (a as usize, b as usize));
            } else {
                let rest = pairs_from(first + 1, n);
                let j = choose|j: int| 0 <= j < rest.len() && rest[j] == (a as usize, b as usize);
                assert(p[row.len() + j] == rest[j]);
            }
        }
        if p.contains((a, b)) {
            let j = choose|j: int| 0 <= j < p.len() && p[j] == (a as usize, b as usize);
            if j >= row.len() {
                assert(pairs_from(first + 1, n)[j - row.len()] == p[j]);
            }
        }
    }
}

/// An edge of the complete graph on `n` qubits joins any two distinct qubits.
pub proof fn lemma_complete_edges(n: nat, a: int, b: int)
    requires
        n <= usize::MAX,
    ensures
        is_edge(complete_edges(n), a, b) <==> 0 <= a < n && 0 <= b < n && a != b,
        edges_valid(n, complete_edges(n)),
{
    let e = complete_edges(n);
    if 0 <= a < n && 0 <= b < n && a != b {
        lemma_pairs_from(0, n, a as usize, b as usize);
        lemma_pairs_from(0, n, b as usize, a as usize);
        if a < b {
            let j = choose|j: int| 0 <= j < e.len() && e[j] == (a as usize, b as usize);
            assert(e[j] == (a as usize, b as usize));
        } else {
            let j = choose|j: int| 0 <= j < e.len() && e[j] == (b as usize, a as usize);
            assert(e[j] == (b as usize, a as usize));
        }
    }
    if is_edge(e, a, b) {
        let j = choose|j: int|
            0 <= j < e.len() && ((#[trigger] e[j] == (a as usize, b as usize) && a == e[j].0 && b
                == e[j].1) || (e[j] == (b as usize, a as usize) && b == e[j].0 && a == e[j].1));
        assert(e.contains(e[j]));
        lemma_pairs_from(0, n, e[j].0, e[j].1);
    }
    assert forall|i: int| 0 <= i < e.len() implies #[trigger] e[i].0 < n && e[i].1 < n && e[i].0
        != e[i].1 by {
        assert(e.contains(e[i]));
        lemma_pairs_from(0, n, e[i].0, e[i].1);
    }
}

/// A chain never holds more qubits than the device has.
pub proof fn lemma_chain_length(n: nat, edges: Seq<(usize, usize)>, chain: Seq<usize>)
    requires
        is_chain(n, edges, chain),
    ensures
        chain.len() <= n,
{
    let ints = chain.map_values(|q: usize| q as int);
    assert forall|i: int, j: int| 0 <= i < ints.len() && 0 <= j < ints.len() && i != j implies ints[i]
        != ints[j] by {
        assert(chain[i] != chain[j]);
    }
    assert(ints.no_duplicates());
    ints.unique_seq_to_set();
    lemma_int_range(0, n as int);
    assert forall|x: int| ints.to_set().contains(x) implies set_int_range(0, n as int).contains(x) by {
        let i = choose|i: int| 0 <= i < ints.len() && ints[i] == x;
        assert(chain[i] < n);
    }
    lemma_len_subset(ints.to_set(), set_int_range(0, n as int));
}

/// The qubits in ascending order form a chain of the complete graph, closed
/// once there are at least two qubits.
pub proof fn lemma_ascending_chain(n: nat)
    requires
        n <= usize::MAX,
    ensures
        is_chain(n, complete_edges(n), ascending(n)),
        n >= 2 ==> is_closed_chain(n, complete_edges(n), ascending(n)),
{
    let c = ascending(n);
    assert forall|i: int| 0 <= i < c.len() - 1 implies is_edge(
        complete_edges(n),
        #[trigger] c[i] as int,
        c[i + 1] as int,
    ) by {
        lemma_complete_edges(n, i, i + 1);
    }
    if n >= 2 {
        lemma_complete_edges(n, n - 1, 0);
    }
}

/// Relies on `itertools::Itertools::combinations`: on `0..n` with `k = 2` it
/// yields each pair `[i, j]` with `i < j` once, in lexicographic order.
#[verifier::external_body]
fn combinations_of_two(n: usize) -> (r: Vec<(usize, usize)>)
    ensures
        r@ == complete_edges(n as nat),
{
    (0..n).combinations(2).map(|x| (x[0], x[1])).collect()
}

/// Every pair of distinct qubits below `n`, lowest first.
pub fn all_to_all_edges(n: usize) -> (r: Vec<(usize, usize)>)
    ensures
        r@ == complete_edges(n as nat),
        edges_valid(n as nat, r@),
        forall|a: int, b: int| #[trigger] is_edge(r@, a, b) <==> 0 <= a < n && 0 <= b < n && a != b,
{
    let r = combinations_of_two(n);
    proof {
        lemma_complete_edges(n as nat, 0, 0);
        assert forall|a: int, b: int| #[trigger] is_edge(r@, a, b) <==> 0 <= a < n && 0 <= b < n && a
            != b by {
            lemma_complete_edges(n as nat, a, b);
        }
    }
    r
}

/// Whether `a` and `b` are coupled by one of `edges`, in either direction.
pub fn connected(edges: &Vec<(usize, usize)>, a: usize, b: usize) -> (r: bool)
    ensures
        r == is_edge(edges@, a as int, b as int),
{
    let mut i: usize = 0;
    while i < edges.len()
        invariant
            i <= edges@.len(),
            forall|k: int|
                0 <= k < i ==> !((#[trigger] edges@[k] == (a, b)) || edges@[k] == (b, a)),
        decreases edges@.len() - i,
    {
        let (x, y) = edges[i];
        if (x == a && y == b) || (x == b && y == a) {
            assert(edges@[i as int] == (a, b) || edges@[i as int] == (b, a));
            return true;
        }
        i = i + 1;
    }
    false
}

/// The qubits `0, 1, ..., n - 1` in order.
pub fn ascending_chain(n: usize) -> (r: Vec<usize>)
    ensures
        r@ == ascending(n as nat),
{
    let mut r: Vec<usize> = Vec::new();
    let mut i: usize = 0;
    while i < n
        invariant
            i <= n,
            r@ == ascending(i as nat),
        decreases n - i,
    {
        r.push(i);
        i = i + 1;
        assert(r@ =~= ascending(i as nat));
    }
    r
}

} // verus!
