//! Declarative definition of multi-conductor sharded scenarios.
//!
//! A scenario describes, by location alone, which nodes take part, which
//! agents each node holds, the arc and the ops of each agent, and which peers
//! each node knows of. Locations are "coarse": signed integers of a smaller
//! space than the full `u32` location space, which [`rectify_index`] maps into
//! unsigned ones.
use std::collections::hash_map::RandomState;
use std::collections::{BTreeSet, HashSet};
use vstd::std_specs::hash::{builds_valid_hashers, obeys_key_model};
use vstd::prelude::*;

verus! {

broadcast use {vstd::std_specs::hash::group_hash_axioms, vstd::laws_cmp::group_laws_cmp};

/// A location in the coarse location space.
pub type CoarseLoc = i32;

/// Simulated latencies between nodes, in milliseconds: `m[a][b]` from node
/// `a` to node `b`, `u32::MAX` for a partition. `None` when every latency is 0.
pub type LatencyMatrix<const N: usize> = Option<[[u32; N]; N]>;

/// The instantaneous state of a sharded network of `N` nodes.
pub struct ScenarioDef<const N: usize> {
    /// The nodes taking part.
    pub nodes: [ScenarioDefNode; N],
    /// Which other nodes each node knows of, by index into `nodes`.
    pub peer_matrix: PeerMatrix<N>,
    /// The latencies to simulate between nodes.
    pub _latency_matrix: LatencyMatrix<N>,
    /// The size of the coarse location space.
    pub resolution: u32,
}

impl<const N: usize> ScenarioDef<N> {
    /// A scenario with no simulated latency, in a coarse space of
    /// `u8::MAX` locations.
    pub fn new(nodes: [ScenarioDefNode; N], peer_matrix: PeerMatrix<N>) -> (r: Self)
        ensures
            r.nodes == nodes,
            r.peer_matrix == peer_matrix,
            r._latency_matrix is None,
            r.resolution == 255,
    {
        Self::new_with_latency(nodes, peer_matrix, None)
    }

    fn new_with_latency(nodes: [ScenarioDefNode; N], peer_matrix: PeerMatrix<N>, _latency_matrix: LatencyMatrix<N>) -> (r: Self)
        ensures
            r.nodes == nodes,
            r.peer_matrix == peer_matrix,
            r._latency_matrix == _latency_matrix,
            r.resolution == 255,
    {
        Self { resolution: u8::MAX as u32, nodes, peer_matrix, _latency_matrix }
    }
}

/// A node of a scenario: the agents it holds.
pub struct ScenarioDefNode {
    pub agents: HashSet<ScenarioDefAgent>,
}

impl ScenarioDefNode {
    /// A node holding `agents`, each once. Which agents count as equal is up
    /// to the derived `Eq` and `Hash` of [`ScenarioDefAgent`]: where they obey
    /// the set's key model, the set holds exactly the given agents.
    pub fn new(agents: Vec<ScenarioDefAgent>) -> (r: Self)
        ensures
            obeys_key_model::<ScenarioDefAgent>() && builds_valid_hashers::<RandomState>() ==> r.agents@
                == Set::new(|a: ScenarioDefAgent| agents@.contains(a)),
    {
        let ghost given = agents@;
        let ghost lawful = obeys_key_model::<ScenarioDefAgent>() && builds_valid_hashers::<RandomState>();
        let mut set: HashSet<ScenarioDefAgent> = HashSet::new();
        let mut rest = agents;
        let n = rest.len();
        let mut i: usize = 0;
        while i < n
            invariant
                i <= n,
                n == given.len(),
                lawful == (obeys_key_model::<ScenarioDefAgent>() && builds_valid_hashers::<RandomState>()),
                rest@ == given.take(n - i),
                lawful ==> set@ == Set::new(|a: ScenarioDefAgent| given.skip(n - i).contains(a)),
            decreases n - i,
        {
            let a = rest.pop().unwrap();
            proof {
                assert(a == given[n - i - 1]);
                assert(rest@ =~= given.take(n - i - 1));
            }
            let ghost old_set = set@;
            let ghost ga = a;
            set.insert(a);
            proof {
                let a = ga;
                if lawful {
                    assert(set@ == old_set.insert(a));
                }
                let before = given.skip(n - i);
                let after = given.skip(n - i - 1);
                assert(after =~= seq![a] + before);
                if lawful {
                    assert forall|x: ScenarioDefAgent| set@.contains(x) == after.contains(x) by {
                        if after.contains(x) {
                            let k = choose|k: int| 0 <= k < after.len() && #[trigger] after[k] == x;
                            if k > 0 {
                                assert(before[k - 1] == x);
                            }
                        }
                        if before.contains(x) {
                            let k = choose|k: int| 0 <= k < before.len() && #[trigger] before[k] == x;
                            assert(after[k + 1] == x);
                        }
                        if x == a {
                            assert(after[0] == x);
                        }
                    }
                    assert(set@ =~= Set::new(|x: ScenarioDefAgent| after.contains(x)));
                }
            }
            i += 1;
        }
        assert(given.skip(0) =~= given);
        Self { agents: set }
    }
}

/// An agent of a node: its storage arc and the ops it holds.
#[derive(PartialEq, Eq, Hash)]
pub struct ScenarioDefAgent {
    arc: (CoarseLoc, CoarseLoc),
    pub ops: BTreeSet<CoarseLoc>,
}

/// The locations of `s`, as a set.
pub open spec fn loc_set(s: Seq<CoarseLoc>) -> Set<CoarseLoc> {
    Set::new(|x: CoarseLoc| s.contains(x))
}

impl ScenarioDefAgent {
    /// An agent whose arc runs from `arc.0` to `arc.1` and which holds `ops`.
    pub fn new(arc: (CoarseLoc, CoarseLoc), ops: &[CoarseLoc]) -> (r: Self)
        ensures
            r.arc_ends() == arc,
            r.ops_set() == loc_set(ops@),
    {
        let mut set: BTreeSet<CoarseLoc> = BTreeSet::new();
        let mut i: usize = 0;
        while i < ops.len()
            invariant
                0 <= i <= ops@.len(),
                set@ == loc_set(ops@.take(i as int)),
            decreases ops@.len() - i,
        {
            set.insert(ops[i]);
            proof {
                assert(ops@.take(i + 1) =~= ops@.take(i as int).push(ops@[i as int]));
                assert forall|x: CoarseLoc| set@.contains(x) == ops@.take(i + 1).contains(x) by {
                    if ops@.take(i + 1).contains(x) {
                        let k = choose|k: int| 0 <= k < i + 1 && #[trigger] ops@.take(i + 1)[k] == x;
                        if k < i {
                            assert(ops@.take(i as int)[k] == x);
                        }
                    }
                    if ops@.take(i as int).contains(x) {
                        let k = choose|k: int| 0 <= k < i && #[trigger] ops@.take(i as int)[k] == x;
                        assert(ops@.take(i + 1)[k] == x);
                    }
                    if x == ops@[i as int] {
                        assert(ops@.take(i + 1)[i as int] == x);
                    }
                }
                assert(set@ =~= loc_set(ops@.take(i + 1)));
            }
            i += 1;
        }
        assert(ops@.take(ops@.len() as int) =~= ops@);
        Self { arc, ops: set }
    }

    /// The ops that the agent holds.
    pub closed spec fn ops_set(&self) -> Set<CoarseLoc> {
        self.ops@
    }

    /// The two ends of the agent's arc, in the coarse space.
    pub closed spec fn arc_ends(&self) -> (CoarseLoc, CoarseLoc) {
        self.arc
    }

    /// The first and the last location of the agent's arc in the unsigned
    /// space of `resolution` locations.
    pub fn arc(&self, resolution: u32) -> (r: (u32, u32))
        requires
            rectifiable(resolution, self.arc_ends().0 as int),
            rectifiable(resolution, self.arc_ends().1 + 1),
            self.arc_ends().1 != -1,
        ensures
            r.0 == rectified(resolution, self.arc_ends().0 as int),
            r.1 == rectified(resolution, self.arc_ends().1 + 1) - 1,
    {
        let start = rectify_index(resolution, self.arc.0);
        let end = rectify_index(resolution, self.arc.1 + 1) - 1;
        (start, end)
    }
}

/// Which other nodes each of `N` nodes knows of.
pub enum PeerMatrix<const N: usize> {
    /// Every node knows every other node.
    Full,
    /// The node at each index knows the nodes whose indices its set holds;
    /// there is one set for each of the `N` nodes.
    Sparse(Vec<HashSet<usize>>),
}

impl<const N: usize> PeerMatrix<N> {
    /// Full connectivity.
    pub fn full() -> (r: Self)
        ensures
            r is Full,
    {
        Self::Full
    }

    /// The node at index `i` knows the nodes listed in `matrix[i]`.
    pub fn sparse(matrix: [&[usize]; N]) -> (r: Self)
        ensures
            r matches PeerMatrix::Sparse(sets) && sets@.len() == N && forall|i: int|
                0 <= i < N ==> #[trigger] sets@[i]@ == Set::new(|x: usize| matrix@[i]@.contains(x)),
    {
        let mut sets: Vec<HashSet<usize>> = Vec::new();
        let mut i: usize = 0;
        while i < N
            invariant
                0 <= i <= N,
                sets@.len() == i,
                forall|k: int| 0 <= k < i ==> #[trigger] sets@[k]@ == Set::new(|x: usize| matrix@[k]@.contains(x)),
            decreases N - i,
        {
            let row: &[usize] = matrix[i];
            let mut set: HashSet<usize> = HashSet::new();
            let mut j: usize = 0;
            while j < row.len()
                invariant
                    0 <= j <= row@.len(),
                    set@ == Set::new(|x: usize| row@.take(j as int).contains(x)),
                decreases row@.len() - j,
            {
                set.insert(row[j]);
                proof {
                    assert forall|x: usize| set@.contains(x) == row@.take(j + 1).contains(x) by {
                        if row@.take(j + 1).contains(x) {
                            let k = choose|k: int| 0 <= k < j + 1 && #[trigger] row@.take(j + 1)[k] == x;
                            if k < j {
                                assert(row@.take(j as int)[k] == x);
                            }
                        }
                        if row@.take(j as int).contains(x) {
                            let k = choose|k: int| 0 <= k < j && #[trigger] row@.take(j as int)[k] == x;
                            assert(row@.take(j + 1)[k] == x);
                        }
                        if x == row@[j as int] {
                            assert(row@.take(j + 1)[j as int] == x);
                        }
                    }
                    assert(set@ =~= Set::new(|x: usize| row@.take(j + 1).contains(x)));
                }
                j += 1;
            }
            assert(row@.take(row@.len() as int) =~= row@);
            sets.push(set);
            i += 1;
        }
        Self::Sparse(sets)
    }
}

/// Whether `i` lies strictly between `-num` and `num`, with `num` a positive `i32`.
pub open spec fn rectifiable(num: u32, i: int) -> bool {
    &&& num <= i32::MAX
    &&& -(num as int) < i < num
}

/// `i` mapped into `0..num`: negative values count back from `num`.
pub open spec fn rectified(num: u32, i: int) -> int {
    if i < 0 {
        num + i
    } else {
        i
    }
}

/// Maps the signed coarse location `i` into the unsigned space of `num`
/// locations: negative values count back from `num`.
pub fn rectify_index(num: u32, i: i32) -> (r: u32)
    requires
        rectifiable(num, i as int),
    ensures
        r == rectified(num, i as int),
{
    let num = num as i32;
    if i < 0 {
        (num + i) as u32
    } else {
        i as u32
    }
}

} // verus!
