//! The node store: a mapping from 64-bit position fingerprints to node
//! statistics. Two move sequences that reach positions with the same
//! fingerprint share one entry, which is what merges transpositions.

use vstd::prelude::*;
use std::collections::HashMap;
use crate::Action;
use crate::SCALE;

verus! {

broadcast use vstd::std_specs::hash::group_hash_axioms;

/// A game-tree vertex's knowledge level. Every position starts as
/// `Unexplored` the moment it becomes reachable; a game-over position
/// becomes `Terminal` on its first visit, any other becomes `Leaf`; a
/// `Leaf` whose visit count has passed the expansion threshold becomes a
/// `Branch` with one edge per legal move.
///
/// The payloads are: the mover-to-act at the position; the accumulated
/// fixed-point value from that mover's perspective (for `Terminal` the
/// fixed outcome); the visit count; and, for `Branch`, the ordered edge
/// list of (action, child fingerprint) pairs.
pub enum Node<A: Action> {
    Unexplored,
    Terminal(u32, u64),
    Leaf(u32, u64, u32),
    Branch(u32, u64, u32, Vec<(A, u64)>),
}

/// The mathematical value of a [`Node`]: the same four variants, with the
/// edge list abstracted to a sequence.
pub enum NodeV<A> {
    Unexplored,
    Terminal { player: u32, value: u64 },
    Leaf { player: u32, value: u64, visits: u32 },
    Branch { player: u32, value: u64, visits: u32, edges: Seq<(A, u64)> },
}

impl<A: Action> View for Node<A> {
    type V = NodeV<A>;

    open spec fn view(&self) -> NodeV<A> {
        match *self {
            Node::Unexplored => NodeV::Unexplored,
            Node::Terminal(p, q) => NodeV::Terminal { player: p, value: q },
            Node::Leaf(p, q, n) => NodeV::Leaf { player: p, value: q, visits: n },
            Node::Branch(p, q, n, ref e) => NodeV::Branch {
                player: p,
                value: q,
                visits: n,
                edges: e@,
            },
        }
    }
}

/// What the store answers for a fingerprint: the entry if one is present,
/// and `Unexplored` otherwise. An absent entry and a stored `Unexplored`
/// are equivalent by design.
pub open spec fn spec_get<A>(m: Map<u64, NodeV<A>>, key: u64) -> NodeV<A> {
    if m.contains_key(key) {
        m[key]
    } else {
        NodeV::Unexplored
    }
}

/// Well-formedness of one node, independent of any search parameter: a
/// terminal holds one of the three fixed outcomes; leaves and branches
/// have been visited at least once and their accumulated value never
/// exceeds `visits * SCALE`, so the mean value stays within `[0, 1]`; a
/// branch has at least one edge.
pub open spec fn node_wf_core<A>(n: NodeV<A>) -> bool {
    match n {
        NodeV::Unexplored => true,
        NodeV::Terminal { player, value } => {
            value == 0 || value == SCALE / 2 || value == SCALE
        },
        NodeV::Leaf { player, value, visits } => {
            &&& 1 <= visits
            &&& value as nat <= visits as nat * (SCALE as nat)
        },
        NodeV::Branch { player, value, visits, edges } => {
            &&& 1 <= visits
            &&& value as nat <= visits as nat * (SCALE as nat)
            &&& edges.len() >= 1
        },
    }
}

/// Well-formedness of one node, relative to the expansion threshold `th`:
/// on top of [`node_wf_core`], a leaf is expanded on the visit after its
/// count passes `th`, so its count never exceeds `th + 1`.
pub open spec fn node_wf<A>(n: NodeV<A>, th: nat) -> bool {
    &&& node_wf_core(n)
    &&& match n {
        NodeV::Leaf { visits, .. } => visits as nat <= th + 1,
        _ => true,
    }
}

/// Every answer the store can give is a well-formed node, independent of
/// any search parameter.
pub open spec fn store_ok<A>(m: Map<u64, NodeV<A>>) -> bool {
    forall|k: u64| node_wf_core(#[trigger] spec_get(m, k))
}

/// Well-formedness of the whole store: every answer it can give is a
/// well-formed node.
pub open spec fn store_wf<A>(m: Map<u64, NodeV<A>>, th: nat) -> bool {
    forall|k: u64| node_wf(#[trigger] spec_get(m, k), th)
}

/// Threshold-relative well-formedness implies the parameter-free kind.
pub proof fn lemma_store_wf_ok<A>(m: Map<u64, NodeV<A>>, th: nat)
    requires
        store_wf(m, th),
    ensures
        store_ok(m),
{
    assert forall|k: u64| node_wf_core(#[trigger] spec_get(m, k)) by {
        assert(node_wf(spec_get(m, k), th));
    }
}

/// How one node may change over the lifetime of a search: a node never
/// regresses to an earlier variant, its mover never changes, its visit
/// count never decreases, a branch's edge list never changes, a terminal
/// is immutable, and a leaf only ever becomes a branch once its visit
/// count has passed the expansion threshold `th`.
pub open spec fn node_evolves<A>(a: NodeV<A>, b: NodeV<A>, th: nat) -> bool {
    match (a, b) {
        (NodeV::Unexplored, _) => true,
        (
            NodeV::Leaf { player: p1, visits: n1, .. },
            NodeV::Leaf { player: p2, visits: n2, .. },
        ) => p2 == p1 && n1 <= n2,
        (
            NodeV::Leaf { player: p1, visits: n1, .. },
            NodeV::Branch { player: p2, visits: n2, .. },
        ) => p2 == p1 && n1 <= n2 && n2 as nat > th,
        (
            NodeV::Branch { player: p1, visits: n1, edges: e1, .. },
            NodeV::Branch { player: p2, visits: n2, edges: e2, .. },
        ) => p2 == p1 && n1 <= n2 && e2 == e1,
        (
            NodeV::Terminal { player: p1, value: q1 },
            NodeV::Terminal { player: p2, value: q2 },
        ) => p2 == p1 && q2 == q1,
        _ => false,
    }
}

/// Pointwise extension of [`node_evolves`] to whole stores.
pub open spec fn evolves<A>(m1: Map<u64, NodeV<A>>, m2: Map<u64, NodeV<A>>, th: nat) -> bool {
    forall|k: u64| node_evolves(#[trigger] spec_get(m1, k), spec_get(m2, k), th)
}

/// A store evolves from itself: nothing in [`node_evolves`] forces a
/// change.
pub proof fn lemma_evolves_refl<A>(m: Map<u64, NodeV<A>>, th: nat)
    ensures
        evolves(m, m, th),
{
}

/// Evolution is transitive, so the statistics-monotonicity and
/// no-regression guarantees compose across any number of search
/// iterations.
pub proof fn lemma_evolves_trans<A>(
    m1: Map<u64, NodeV<A>>,
    m2: Map<u64, NodeV<A>>,
    m3: Map<u64, NodeV<A>>,
    th: nat,
)
    requires
        evolves(m1, m2, th),
        evolves(m2, m3, th),
    ensures
        evolves(m1, m3, th),
{
    assert forall|k: u64|
        node_evolves(#[trigger] spec_get(m1, k), spec_get(m3, k), th) by {
        assert(node_evolves(spec_get(m1, k), spec_get(m2, k), th));
        assert(node_evolves(spec_get(m2, k), spec_get(m3, k), th));
    }
}

/// The visit count a node reports: zero until it carries statistics.
pub open spec fn visits_of<A>(n: NodeV<A>) -> nat {
    match n {
        NodeV::Leaf { visits, .. } => visits as nat,
        NodeV::Branch { visits, .. } => visits as nat,
        _ => 0,
    }
}

/// The accumulated value a node reports: zero until it carries
/// statistics.
pub open spec fn value_of<A>(n: NodeV<A>) -> nat {
    match n {
        NodeV::Leaf { value, .. } => value as nat,
        NodeV::Branch { value, .. } => value as nat,
        _ => 0,
    }
}

/// Statistics monotonicity, first half: across any legal evolution of
/// the store, no fingerprint's visit count ever decreases.
pub proof fn lemma_visits_monotonic<A>(
    m1: Map<u64, NodeV<A>>,
    m2: Map<u64, NodeV<A>>,
    th: nat,
    k: u64,
)
    requires
        evolves(m1, m2, th),
    ensures
        visits_of(spec_get(m1, k)) <= visits_of(spec_get(m2, k)),
{
    assert(node_evolves(spec_get(m1, k), spec_get(m2, k), th));
}

/// Statistics monotonicity, second half: in a well-formed store every
/// node's accumulated value is at most `visits * SCALE`, so its mean
/// value lies within `[0, 1]`.
pub proof fn lemma_mean_in_range<A>(m: Map<u64, NodeV<A>>, th: nat, k: u64)
    requires
        store_wf(m, th),
    ensures
        value_of(spec_get(m, k)) <= visits_of(spec_get(m, k)) * (SCALE as nat),
{
    assert(node_wf(spec_get(m, k), th));
}

/// The expansion threshold is respected: whenever a fingerprint that
/// held a leaf holds a branch later, the visit count it carried when it
/// was converted had passed the threshold, so the branch's count exceeds
/// `th`; and while it remains a leaf its count never exceeds `th + 1`,
/// because the visit after the threshold is passed converts it.
pub proof fn lemma_expansion_threshold<A>(
    m1: Map<u64, NodeV<A>>,
    m2: Map<u64, NodeV<A>>,
    th: nat,
    k: u64,
)
    requires
        evolves(m1, m2, th),
        store_wf(m2, th),
    ensures
        match (spec_get(m1, k), spec_get(m2, k)) {
            (NodeV::Leaf { .. }, NodeV::Branch { .. }) => visits_of(spec_get(m2, k)) > th,
            _ => true,
        },
        match spec_get(m2, k) {
            NodeV::Leaf { .. } => visits_of(spec_get(m2, k)) <= th + 1,
            _ => true,
        },
{
    assert(node_evolves(spec_get(m1, k), spec_get(m2, k), th));
    assert(node_wf(spec_get(m2, k), th));
}

/// Transposition merging: the store keys nodes by fingerprint alone, so
/// two action sequences that produce positions with equal fingerprints
/// read and update one shared entry — there is no second set of
/// statistics to diverge.
pub proof fn lemma_transposition_merging<A>(m: Map<u64, NodeV<A>>, k1: u64, k2: u64)
    requires
        k1 == k2,
    ensures
        spec_get(m, k1) == spec_get(m, k2),
{
}

/// The node store. All linkage between positions is by fingerprint
/// lookup; no node owns another.
pub struct Tree<A: Action> {
    table: HashMap<u64, Node<A>>,
}

impl<A: Action> View for Tree<A> {
    type V = Map<u64, NodeV<A>>;

    closed spec fn view(&self) -> Map<u64, NodeV<A>> {
        self.table@.map_values(|n: Node<A>| n@)
    }
}

fn copy_edges<A: Action>(e: &Vec<(A, u64)>) -> (r: Vec<(A, u64)>)
    ensures
        r@ == e@,
{
    let mut r: Vec<(A, u64)> = Vec::new();
    let mut i: usize = 0;
    while i < e.len()
        invariant
            i <= e.len(),
            r@ == e@.subrange(0, i as int),
        decreases e.len() - i,
    {
        r.push(e[i]);
        i = i + 1;
        proof {
            assert(r@ =~= e@.subrange(0, i as int));
        }
    }
    proof {
        assert(r@ =~= e@);
    }
    r
}

fn copy_node<A: Action>(n: &Node<A>) -> (r: Node<A>)
    ensures
        r@ == n@,
{
    match n {
        Node::Unexplored => Node::Unexplored,
        Node::Terminal(p, q) => Node::Terminal(*p, *q),
        Node::Leaf(p, q, c) => Node::Leaf(*p, *q, *c),
        Node::Branch(p, q, c, e) => Node::Branch(*p, *q, *c, copy_edges(e)),
    }
}

impl<A: Action> Tree<A> {
    /// An empty store.
    pub fn new() -> (t: Tree<A>)
        ensures
            t@ == Map::<u64, NodeV<A>>::empty(),
    {
        let t = Tree { table: HashMap::new() };
        proof {
            assert(t@ =~= Map::<u64, NodeV<A>>::empty());
        }
        t
    }

    /// Returns the stored node for `key`, or `Unexplored` if the
    /// fingerprint has no entry yet.
    pub fn get(&self, key: u64) -> (n: Node<A>)
        ensures
            n@ == spec_get(self@, key),
    {
        match self.table.get(&key) {
            Option::Some(node) => copy_node(node),
            Option::None => Node::Unexplored,
        }
    }

    /// Whether the fingerprint has an entry. An absent entry reads as
    /// `Unexplored`, so this only tells explicit entries apart from
    /// implicit ones.
    pub fn contains(&self, key: u64) -> (b: bool)
        ensures
            b == self@.contains_key(key),
    {
        self.table.contains_key(&key)
    }

    /// Inserts or overwrites the entry for `key`.
    pub fn set(&mut self, key: u64, val: Node<A>)
        ensures
            final(self)@ == old(self)@.insert(key, val@),
    {
        self.table.insert(key, val);
        proof {
            assert(self@ =~= old(self)@.insert(key, val@));
        }
    }
}

} // verus!
