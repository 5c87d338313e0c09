//! The search driver: the UCT selection policy, playout evaluation, the
//! selection/expansion/evaluation/backpropagation walk, and the top-level
//! loop that repeats the walk until the time budget elapses and then
//! extracts the recommended action from the root.

use vstd::prelude::*;
use crate::Action;
use crate::GameState;
use crate::MCTS;
use crate::SCALE;
use crate::numeric::LN2_SCALED;
use crate::numeric::log2_floor;
use crate::numeric::log2_floor_spec;
use crate::numeric::isqrt;
use crate::numeric::sqrt_floor;
use crate::tree::Node;
use crate::tree::NodeV;
use crate::tree::Tree;
use crate::tree::spec_get;
use crate::tree::node_wf_core;
use crate::tree::node_wf;
use crate::tree::node_evolves;
use crate::tree::evolves;
use crate::tree::store_ok;
use crate::tree::store_wf;
use crate::tree::lemma_store_wf_ok;
use crate::tree::lemma_evolves_trans;
use crate::clock::now_instant;
use crate::clock::instant_elapsed;
use crate::clock::duration_as_nanos;
use crate::rng::rng_from_entropy;
use crate::rng::rng_below;
use rand_xorshift::XorShiftRng;

verus! {

/// A fatal contract violation observed during a search. These indicate a
/// broken game implementation or an unusable configuration, not a
/// recoverable runtime condition; the search aborts rather than guess.
#[derive(Clone, Copy, Debug, PartialEq, Eq, Structural)]
pub enum SearchError {
    /// A position that is not game-over reported zero legal actions.
    NoActions,
    /// The time budget expired before the root position could be
    /// expanded, so no action can be recommended.
    RootNotExpanded,
    /// A walk or a playout ran past the engine's generous step bound,
    /// which only a cyclic or unbounded game can reach.
    OutOfBounds,
    /// A successor position's fingerprint disagreed with the one recorded
    /// when its edge was created: the game's `hash` or `make` is
    /// non-deterministic or buggy. Never corrected automatically.
    HashMismatch,
}

/// A value seen from the perspective of mover `p`, when it was reported
/// from the perspective of mover `q`: equal movers share the value,
/// different movers see complementary values. The flip is applied exactly
/// once per fold.
pub open spec fn fold_spec(p: u32, q: u32, v: u64) -> u64
    recommends
        v <= SCALE,
{
    if p == q {
        v
    } else {
        (SCALE - v) as u64
    }
}

/// Perspective-flip symmetry: when the reporting mover differs from the
/// querying mover the folded value and the reported value sum to `SCALE`
/// (they are complementary probabilities), when they agree the value is
/// unchanged, and folding twice restores the original value.
pub proof fn lemma_perspective_flip(p: u32, q: u32, v: u64)
    requires
        v <= SCALE,
    ensures
        p == q ==> fold_spec(p, q, v) == v,
        p != q ==> fold_spec(p, q, v) + v == SCALE,
        fold_spec(p, q, fold_spec(p, q, v)) == v,
{
}

/// Folds a value reported from mover `q`'s perspective into mover `p`'s.
fn fold_value(p: u32, q: u32, v: u64) -> (r: u64)
    requires
        v <= SCALE,
    ensures
        r == fold_spec(p, q, v),
        r <= SCALE,
{
    if p == q {
        v
    } else {
        SCALE - v
    }
}

/// Adds one completed evaluation of value `v` to the statistics `(q, n)`:
/// the visit count grows by exactly one and the value sum by exactly `v`,
/// saturating only at the (unreachable in practice) counter limit, and
/// the mean value stays within `[0, 1]`.
fn record_visit(q: u64, n: u32, v: u64) -> (r: (u64, u32))
    requires
        q as nat <= n as nat * (SCALE as nat),
        v <= SCALE,
        n >= 1,
    ensures
        n < u32::MAX ==> r.0 == q + v && r.1 == n + 1,
        n == u32::MAX ==> r.0 == q && r.1 == n,
        r.0 as nat <= r.1 as nat * (SCALE as nat),
        n <= r.1,
        1 <= r.1,
{
    if n < u32::MAX {
        proof {
            assert(q as nat + v as nat <= (n as nat + 1) * (SCALE as nat)) by (nonlinear_arith)
                requires
                    q as nat <= n as nat * (SCALE as nat),
                    v <= SCALE,
            ;
            assert(n as nat * (SCALE as nat) <= 0xFFFF_FFFFnat * 1_000_000nat) by (nonlinear_arith)
                requires n as nat <= 0xFFFF_FFFFnat, SCALE == 1_000_000,
            ;
        }
        (q + v, n + 1)
    } else {
        (q, n)
    }
}

/// The (truncated) mean value of statistics `(q, n)`.
pub open spec fn mean_spec(q: u64, n: u32) -> int
    recommends
        n >= 1,
{
    q as int / n as int
}

/// The mean value of a child with statistics `(q, n)` and stored mover
/// `p`, seen from `player`'s perspective.
pub open spec fn oriented_mean_spec(p: u32, q: u64, n: u32, player: u32) -> int {
    if p == player {
        mean_spec(q, n)
    } else {
        SCALE - mean_spec(q, n)
    }
}

/// The fixed-point exploration bonus of the UCT formula,
/// `c * sqrt(ln(np) / n)` with every factor scaled by `SCALE`: the
/// natural logarithm is approximated through the integer base-2
/// logarithm, and the square root is the integer square root. The
/// base-2 floor makes the bonus a step function of the parent count,
/// understating the true logarithm by up to `ln 2` between powers of
/// two; arithmetic here is integer-only, and the selection properties
/// (win short-circuit, unexplored dominance, first-maximum tie-break)
/// do not depend on the approximation.
pub open spec fn uct_explore_spec(np: u32, n: u32, c: u64) -> int {
    c * sqrt_floor(
        (log2_floor_spec(np as nat) * (LN2_SCALED as nat) * (SCALE as nat)) / (n as nat),
    ) / (SCALE as int)
}

/// The fixed-point UCT score of a child with statistics `(p, q, n)` under
/// a parent with visit count `np` and mover `player`: the child's mean
/// value seen from `player`'s perspective plus the exploration bonus.
pub open spec fn uct_score_spec(p: u32, q: u64, n: u32, player: u32, np: u32, c: u64) -> int {
    oriented_mean_spec(p, q, n, player) + uct_explore_spec(np, n, c)
}

/// The stored `(mover, value sum, visit count)` of a leaf or branch node.
pub open spec fn stats_of<A>(nv: NodeV<A>) -> (u32, u64, u32) {
    match nv {
        NodeV::Leaf { player, value, visits } => (player, value, visits),
        NodeV::Branch { player, value, visits, .. } => (player, value, visits),
        _ => (0, 0, 0),
    }
}

/// Whether a child node is a terminal that represents a forced win for
/// `player`: a winning outcome stored for `player` itself, or a losing
/// outcome stored for the opposing mover.
pub open spec fn is_win<A>(nv: NodeV<A>, player: u32) -> bool {
    match nv {
        NodeV::Terminal { player: p, value: q } => {
            (p == player && q > SCALE / 2) || (p != player && q < SCALE / 2)
        },
        _ => false,
    }
}

/// Whether a node is still unexplored.
pub open spec fn is_unexplored<A>(nv: NodeV<A>) -> bool {
    match nv {
        NodeV::Unexplored => true,
        _ => false,
    }
}

/// Whether a node carries statistics that the UCT formula can score.
pub open spec fn is_scored<A>(nv: NodeV<A>) -> bool {
    match nv {
        NodeV::Leaf { .. } => true,
        NodeV::Branch { .. } => true,
        _ => false,
    }
}

/// The UCT score of a scored node.
pub open spec fn score_of<A>(nv: NodeV<A>, player: u32, np: u32, c: u64) -> int {
    uct_score_spec(stats_of(nv).0, stats_of(nv).1, stats_of(nv).2, player, np, c)
}

/// The node a branch edge leads to.
pub open spec fn edge_node<A>(m: Map<u64, NodeV<A>>, es: Seq<(A, u64)>, i: int) -> NodeV<A> {
    spec_get(m, es[i].1)
}

/// Computes the fixed-point UCT score of a child, exactly as
/// [`uct_score_spec`] states it.
fn uct_score(p: u32, q: u64, n: u32, player: u32, np: u32, c: u64) -> (s: u128)
    requires
        n >= 1,
        np >= 1,
        q as nat <= n as nat * (SCALE as nat),
    ensures
        s as int == uct_score_spec(p, q, n, player, np, c),
{
    let mean: u64 = q / (n as u64);
    proof {
        assert(q as nat / n as nat <= SCALE as nat) by (nonlinear_arith)
            requires
                q as nat <= n as nat * (SCALE as nat),
                n >= 1,
        ;
    }
    let v: u64 = if p == player {
        mean
    } else {
        SCALE - mean
    };
    let lg: u32 = log2_floor(np);
    let ln_s: u64 = (lg as u64) * LN2_SCALED;
    let t: u64 = (ln_s * SCALE) / (n as u64);
    let s_root: u64 = isqrt(t);
    proof {
        assert((c as nat) * (s_root as nat) < 0x1_0000_0000_0000_0000_0000_0000) by (nonlinear_arith)
            requires
                c as nat <= 0xFFFF_FFFF_FFFF_FFFFnat,
                s_root as nat <= 0xFFFF_FFFFnat,
        ;
    }
    let e: u128 = (c as u128) * (s_root as u128) / (SCALE as u128);
    (v as u128) + e
}

/// What the UCT policy promises of its choice `r` among the edges `es`
/// of a branch with mover `player`, visit count `np` and exploration
/// constant `c`, given the store `m`: a child that is a forced win for
/// `player` is selected immediately, the first such child in edge order;
/// otherwise an unexplored child dominates every explored one, the last
/// such child in edge order; otherwise the first leaf or branch child
/// attaining the maximum UCT score is selected; and if no child can be
/// scored at all, the first edge is returned.
pub open spec fn chosen_by_uct<A>(
    m: Map<u64, NodeV<A>>,
    es: Seq<(A, u64)>,
    player: u32,
    np: u32,
    c: u64,
    r: (A, u64),
) -> bool {
    if exists|i: int| 0 <= i < es.len() && is_win(#[trigger] edge_node(m, es, i), player) {
        exists|i: int|
            #![trigger edge_node(m, es, i)]
            {
                &&& 0 <= i < es.len()
                &&& is_win(edge_node(m, es, i), player)
                &&& r == es[i]
                &&& forall|j: int| 0 <= j < i ==> !is_win(#[trigger] edge_node(m, es, j), player)
            }
    } else if exists|i: int| 0 <= i < es.len() && is_unexplored(#[trigger] edge_node(m, es, i)) {
        exists|i: int|
            #![trigger edge_node(m, es, i)]
            {
                &&& 0 <= i < es.len()
                &&& is_unexplored(edge_node(m, es, i))
                &&& r == es[i]
                &&& forall|j: int|
                    i < j < es.len() ==> !is_unexplored(#[trigger] edge_node(m, es, j))
            }
    } else if exists|i: int| 0 <= i < es.len() && is_scored(#[trigger] edge_node(m, es, i)) {
        exists|i: int|
            #![trigger edge_node(m, es, i)]
            {
                &&& 0 <= i < es.len()
                &&& is_scored(edge_node(m, es, i))
                &&& r == es[i]
                &&& forall|j: int|
                    0 <= j < es.len() && is_scored(#[trigger] edge_node(m, es, j))
                        ==> score_of(edge_node(m, es, j), player, np, c) <= score_of(
                            edge_node(m, es, i),
                            player,
                            np,
                            c,
                        )
                &&& forall|j: int|
                    0 <= j < i && is_scored(#[trigger] edge_node(m, es, j)) ==> score_of(
                        edge_node(m, es, j),
                        player,
                        np,
                        c,
                    ) < score_of(edge_node(m, es, i), player, np, c)
            }
    } else {
        r == es[0]
    }
}

/// Given the visit count `np` of the parent, the list of
/// (action, child fingerprint) pairs and the mover-to-act `player` at the
/// parent, chooses exactly one child edge to descend, as
/// [`chosen_by_uct`] states. Ties between equal UCT scores resolve to the
/// first edge in iteration order.
fn uct_policy<A: Action>(
    tree: &Tree<A>,
    params: &MCTS,
    np: u32,
    edges: &Vec<(A, u64)>,
    player: u32,
) -> (r: (A, u64))
    requires
        store_ok(tree@),
        np >= 1,
        edges@.len() >= 1,
    ensures
        chosen_by_uct(tree@, edges@, player, np, params.exploration, r),
{
    let ghost m = tree@;
    let ghost es = edges@;
    let c = params.exploration;
    let mut best_edge: (A, u64) = edges[0];
    let mut best_score: u128 = 0;
    let mut saw_inf: bool = false;
    let mut saw_scored: bool = false;
    let mut i: usize = 0;
    while i < edges.len()
        invariant
            m == tree@,
            es == edges@,
            c == params.exploration,
            store_ok(m),
            np >= 1,
            es.len() >= 1,
            i <= es.len(),
            forall|j: int| 0 <= j < i ==> !is_win(#[trigger] edge_node(m, es, j), player),
            saw_inf ==> exists|j: int|
                #![trigger edge_node(m, es, j)]
                {
                    &&& 0 <= j < i
                    &&& is_unexplored(edge_node(m, es, j))
                    &&& best_edge == es[j]
                    &&& forall|k: int| j < k < i ==> !is_unexplored(#[trigger] edge_node(m, es, k))
                },
            !saw_inf ==> forall|j: int|
                0 <= j < i ==> !is_unexplored(#[trigger] edge_node(m, es, j)),
            !saw_inf && saw_scored ==> exists|j: int|
                #![trigger edge_node(m, es, j)]
                {
                    &&& 0 <= j < i
                    &&& is_scored(edge_node(m, es, j))
                    &&& best_edge == es[j]
                    &&& best_score as int == score_of(edge_node(m, es, j), player, np, c)
                    &&& forall|k: int|
                        0 <= k < i && is_scored(#[trigger] edge_node(m, es, k)) ==> score_of(
                            edge_node(m, es, k),
                            player,
                            np,
                            c,
                        ) <= best_score as int
                    &&& forall|k: int|
                        0 <= k < j && is_scored(#[trigger] edge_node(m, es, k)) ==> score_of(
                            edge_node(m, es, k),
                            player,
                            np,
                            c,
                        ) < best_score as int
                },
            !saw_inf && !saw_scored ==> best_edge == es[0] && forall|j: int|
                0 <= j < i ==> !is_scored(#[trigger] edge_node(m, es, j)),
        decreases edges.len() - i,
    {
        let (a, u) = edges[i];
        let node = tree.get(u);
        proof {
            assert(node@ == edge_node(m, es, i as int));
            assert(node_wf_core(spec_get(m, u)));
        }
        match node {
            Node::Terminal(p, q) => {
                if (p == player && q > SCALE / 2) || (p != player && q < SCALE / 2) {
                    proof {
                        assert(is_win(edge_node(m, es, i as int), player));
                    }
                    return (a, u);
                }
            },
            Node::Unexplored => {
                best_edge = (a, u);
                saw_inf = true;
                proof {
                    assert(is_unexplored(edge_node(m, es, i as int)));
                    assert(best_edge == es[i as int]);
                }
            },
            Node::Leaf(p, q, n) | Node::Branch(p, q, n, _) => {
                if !saw_inf {
                    let s = uct_score(p, q, n, player, np, c);
                    if !saw_scored || s > best_score {
                        best_edge = (a, u);
                        best_score = s;
                        saw_scored = true;
                    }
                    proof {
                        assert(is_scored(edge_node(m, es, i as int)));
                    }
                }
            },
        }
        i = i + 1;
    }
    best_edge
}

/// The oriented numerator of a scored node's mean value from `player`'s
/// perspective: the value sum itself when the stored mover is `player`,
/// and its complement `visits * SCALE - value` otherwise. Together with
/// the visit count as denominator this represents the mean exactly, with
/// no truncation.
pub open spec fn onum_spec<A>(nv: NodeV<A>, player: u32) -> int {
    if stats_of(nv).0 == player {
        stats_of(nv).1 as int
    } else {
        stats_of(nv).2 as int * SCALE - stats_of(nv).1
    }
}

/// The denominator of a scored node's mean value: its visit count.
pub open spec fn oden_spec<A>(nv: NodeV<A>) -> int {
    stats_of(nv).2 as int
}

/// Exact comparison of two scored nodes' oriented mean values from
/// `player`'s perspective, by cross-multiplication.
pub open spec fn mean_lt<A>(a: NodeV<A>, b: NodeV<A>, player: u32) -> bool {
    onum_spec(a, player) * oden_spec(b) < onum_spec(b, player) * oden_spec(a)
}

/// What the recommendation promises of the action `r` extracted from a
/// root branch with edges `es` and mover `player`: a child that is a
/// forced win for `player` is recommended immediately, the first such
/// child in edge order; otherwise the first leaf or branch child whose
/// mover-relative mean value is maximal; and if no child carries
/// statistics, the first edge's action.
pub open spec fn chosen_best<A>(
    m: Map<u64, NodeV<A>>,
    es: Seq<(A, u64)>,
    player: u32,
    r: A,
) -> bool {
    if exists|i: int| 0 <= i < es.len() && is_win(#[trigger] edge_node(m, es, i), player) {
        exists|i: int|
            #![trigger edge_node(m, es, i)]
            {
                &&& 0 <= i < es.len()
                &&& is_win(edge_node(m, es, i), player)
                &&& r == es[i].0
                &&& forall|j: int| 0 <= j < i ==> !is_win(#[trigger] edge_node(m, es, j), player)
            }
    } else if exists|i: int| 0 <= i < es.len() && is_scored(#[trigger] edge_node(m, es, i)) {
        exists|i: int|
            #![trigger edge_node(m, es, i)]
            {
                &&& 0 <= i < es.len()
                &&& is_scored(edge_node(m, es, i))
                &&& r == es[i].0
                &&& forall|j: int|
                    0 <= j < es.len() && is_scored(#[trigger] edge_node(m, es, j)) ==> !mean_lt(
                        edge_node(m, es, i),
                        edge_node(m, es, j),
                        player,
                    )
                &&& forall|j: int|
                    0 <= j < i && is_scored(#[trigger] edge_node(m, es, j)) ==> mean_lt(
                        edge_node(m, es, j),
                        edge_node(m, es, i),
                        player,
                    )
            }
    } else {
        r == es[0].0
    }
}

/// Whether a node is a branch.
pub open spec fn is_branch<A>(nv: NodeV<A>) -> bool {
    match nv {
        NodeV::Branch { .. } => true,
        _ => false,
    }
}

/// The edge list of a branch node.
pub open spec fn edges_of<A>(nv: NodeV<A>) -> Seq<(A, u64)> {
    match nv {
        NodeV::Branch { edges, .. } => edges,
        _ => Seq::empty(),
    }
}

/// Exact comparison of two oriented means given as numerator/denominator
/// pairs: whether `a_num / a_den > b_num / b_den`, decided by
/// cross-multiplication with no truncation.
fn mean_greater(a_num: u64, a_den: u32, b_num: u64, b_den: u32) -> (r: bool)
    ensures
        r == (a_num as int * b_den as int > b_num as int * a_den as int),
{
    proof {
        mul_fits(a_num as nat, b_den as nat);
        mul_fits(b_num as nat, a_den as nat);
    }
    (a_num as u128) * (b_den as u128) > (b_num as u128) * (a_den as u128)
}

/// Ordering fractions with positive denominators by cross-multiplication
/// is transitive across a non-strict and a strict step.
proof fn lemma_frac_trans(n1: int, d1: int, n2: int, d2: int, n3: int, d3: int)
    requires
        d1 > 0,
        d2 > 0,
        d3 > 0,
        n1 * d2 <= n2 * d1,
        n2 * d3 < n3 * d2,
    ensures
        n1 * d3 < n3 * d1,
{
    assert(n1 * d3 < n3 * d1) by (nonlinear_arith)
        requires
            d1 > 0,
            d2 > 0,
            d3 > 0,
            n1 * d2 <= n2 * d1,
            n2 * d3 < n3 * d2,
    ;
}

/// Whether a child node is a terminal forced win for `player`, decided
/// exactly as [`is_win`] states.
fn node_is_win<A: Action>(child: &Node<A>, player: u32) -> (r: bool)
    ensures
        r == is_win(child@, player),
{
    match child {
        Node::Terminal(p, q) => (*p == player && *q > SCALE / 2) || (*p != player && *q < SCALE / 2),
        _ => false,
    }
}

/// The statistics of a leaf or branch child, or `None` for the other
/// variants.
fn node_stats<A: Action>(child: &Node<A>) -> (r: Option<(u32, u64, u32)>)
    ensures
        match r {
            Some(s) => is_scored(child@) && s == stats_of(child@),
            None => !is_scored(child@),
        },
{
    match child {
        Node::Leaf(p, q, n) => Some((*p, *q, *n)),
        Node::Branch(p, q, n, _) => Some((*p, *q, *n)),
        _ => None,
    }
}

/// Scans a root branch's edges and picks the recommendation, as
/// [`chosen_best`] states.
#[verifier::rlimit(50)]
fn best_among<A: Action>(tree: &Tree<A>, e: &Vec<(A, u64)>, player: u32) -> (r: A)
    requires
        store_ok(tree@),
        e@.len() >= 1,
    ensures
        chosen_best(tree@, e@, player, r),
{
    let ghost m = tree@;
    let ghost es = e@;
    let mut best_a: A = e[0].0;
    let mut bnum: u64 = 0;
    let mut bden: u32 = 1;
    let mut saw: bool = false;
    let ghost mut bi: int = 0;
    let mut i: usize = 0;
    while i < e.len()
        invariant
            m == tree@,
            es == e@,
            store_ok(m),
            es.len() >= 1,
            i <= es.len(),
            forall|j: int| 0 <= j < i ==> !is_win(#[trigger] edge_node(m, es, j), player),
            saw ==> {
                &&& 0 <= bi < i
                &&& is_scored(edge_node(m, es, bi))
                &&& best_a == es[bi].0
                &&& bnum as int == onum_spec(edge_node(m, es, bi), player)
                &&& bden as int == oden_spec(edge_node(m, es, bi))
                &&& bden >= 1
                &&& forall|k: int|
                    0 <= k < i && is_scored(#[trigger] edge_node(m, es, k)) ==> !mean_lt(
                        edge_node(m, es, bi),
                        edge_node(m, es, k),
                        player,
                    )
                &&& forall|k: int|
                    0 <= k < bi && is_scored(#[trigger] edge_node(m, es, k)) ==> mean_lt(
                        edge_node(m, es, k),
                        edge_node(m, es, bi),
                        player,
                    )
            },
            !saw ==> best_a == es[0].0 && forall|j: int|
                0 <= j < i ==> !is_scored(#[trigger] edge_node(m, es, j)),
        decreases e.len() - i,
    {
        let (a, u) = e[i];
        let child = tree.get(u);
        proof {
            assert(child@ == edge_node(m, es, i as int));
            assert(node_wf_core(spec_get(m, u)));
        }
        if node_is_win(&child, player) {
            return a;
        }
        match node_stats(&child) {
            Some((p, q, n)) => {
                let a_num: u64 = if p == player {
                    q
                } else {
                    n as u64 * SCALE - q
                };
                proof {
                    assert(a_num as int == onum_spec(edge_node(m, es, i as int), player));
                    assert(n as int == oden_spec(edge_node(m, es, i as int)));
                }
                if !saw || mean_greater(a_num, n, bnum, bden) {
                    proof {
                        if saw {
                            assert forall|k: int|
                                0 <= k < i && is_scored(#[trigger] edge_node(m, es, k))
                                    implies mean_lt(
                                    edge_node(m, es, k),
                                    edge_node(m, es, i as int),
                                    player,
                                ) by {
                                assert(node_wf_core(spec_get(m, es[k].1)));
                                lemma_frac_trans(
                                    onum_spec(edge_node(m, es, k), player),
                                    oden_spec(edge_node(m, es, k)),
                                    onum_spec(edge_node(m, es, bi), player),
                                    oden_spec(edge_node(m, es, bi)),
                                    onum_spec(edge_node(m, es, i as int), player),
                                    oden_spec(edge_node(m, es, i as int)),
                                );
                            }
                        }
                        bi = i as int;
                    }
                    best_a = a;
                    bnum = a_num;
                    bden = n;
                    saw = true;
                }
            },
            None => {},
        }
        i = i + 1;
    }
    best_a
}

/// Extracts the recommended action from the root of a finished search,
/// as [`chosen_best`] states: a known winning reply if there is one, and
/// otherwise the child with the highest mover-relative mean value, ties
/// resolved to the first edge in iteration order.
fn best<A: Action>(tree: &Tree<A>, root: u64) -> (r: A)
    requires
        store_ok(tree@),
        is_branch(spec_get(tree@, root)),
    ensures
        chosen_best(
            tree@,
            edges_of(spec_get(tree@, root)),
            stats_of(spec_get(tree@, root)).0,
            r,
        ),
{
    let node = tree.get(root);
    match node {
        Node::Branch(player, _rq, _rn, e) => {
            proof {
                assert(node_wf_core(spec_get(tree@, root)));
            }
            best_among(tree, &e, player)
        },
        _ => vstd::pervasive::unreached(),
    }
}

/// Bound on the steps of one tree walk and of one playout: only a cyclic
/// or unbounded game can reach it.
pub const MAX_STEPS: usize = 1_000_000;

/// Bound on the number of search iterations one call may issue: far
/// beyond what any wall clock allows.
pub const MAX_ITERS: u64 = 0x4000_0000_0000_0000;

/// One level of the walk's descent path: the branch node that was left,
/// its statistics as they were read, and the mover of the child the walk
/// descended to (used to fold the returned value into this node's
/// perspective).
struct Frame<A: Action> {
    hash: u64,
    mover: u32,
    value: u64,
    visits: u32,
    edges: Vec<(A, u64)>,
    child_mover: u32,
}

/// What holds of every frame on the descent path, relative to the store
/// `m0` as it was when the walk started: the recorded statistics are
/// well-formed and the recorded branch is a legal evolution of the node
/// the start-of-walk store held under that fingerprint.
spec fn frame_ok<A: Action>(m0: Map<u64, NodeV<A>>, f: Frame<A>, th: nat) -> bool {
    &&& 1 <= f.visits
    &&& f.value as nat <= f.visits as nat * (SCALE as nat)
    &&& f.edges@.len() >= 1
    &&& node_evolves(
        spec_get(m0, f.hash),
        NodeV::Branch {
            player: f.mover,
            value: f.value,
            visits: f.visits,
            edges: f.edges@,
        },
        th,
    )
}

/// [`node_evolves`] composes.
proof fn lemma_node_evolves_trans<A>(a: NodeV<A>, b: NodeV<A>, c: NodeV<A>, th: nat)
    requires
        node_evolves(a, b, th),
        node_evolves(b, c, th),
    ensures
        node_evolves(a, c, th),
{
}

/// Overwriting one entry with a well-formed node that legally evolves
/// from what the reference store `m0` held there preserves store
/// well-formedness and whole-store evolution from `m0`.
proof fn lemma_update_node<A>(
    m0: Map<u64, NodeV<A>>,
    pre: Map<u64, NodeV<A>>,
    post: Map<u64, NodeV<A>>,
    key: u64,
    nv: NodeV<A>,
    th: nat,
)
    requires
        store_wf(pre, th),
        evolves(m0, pre, th),
        post == pre.insert(key, nv),
        node_wf(nv, th),
        node_evolves(spec_get(m0, key), nv, th),
    ensures
        store_wf(post, th),
        evolves(m0, post, th),
{
    assert forall|kk: u64| node_wf(#[trigger] spec_get(post, kk), th) by {
        if kk != key {
            assert(node_wf(spec_get(pre, kk), th));
            assert(spec_get(post, kk) == spec_get(pre, kk));
        }
    }
    assert forall|kk: u64| node_evolves(#[trigger] spec_get(m0, kk), spec_get(post, kk), th) by {
        if kk != key {
            assert(node_evolves(spec_get(m0, kk), spec_get(pre, kk), th));
            assert(spec_get(post, kk) == spec_get(pre, kk));
        }
    }
}

/// Materializes one edge per legal action in `actions`, in order,
/// inserting every child fingerprint that is new to the store as
/// `Unexplored`. What the store answers for any fingerprint is unchanged,
/// because an absent entry already read as `Unexplored`. Fails exactly
/// when the action list is empty.
fn expand<A: Action, S: GameState<A>>(
    state: &S,
    actions: &Vec<A>,
    tree: &mut Tree<A>,
) -> (r: Result<Vec<(A, u64)>, SearchError>)
    ensures
        forall|k: u64| spec_get(final(tree)@, k) == spec_get(old(tree)@, k),
        match r {
            Ok(e) => {
                &&& e@.len() == actions@.len()
                &&& e@.len() >= 1
                &&& forall|i: int| 0 <= i < actions@.len() ==> (#[trigger] e@[i]).0 == actions@[i]
            },
            Err(err) => err == SearchError::NoActions && actions@.len() == 0,
        },
{
    let ghost m0 = tree@;
    if actions.len() == 0 {
        return Result::Err(SearchError::NoActions);
    }
    let mut v: Vec<(A, u64)> = Vec::new();
    let mut i: usize = 0;
    while i < actions.len()
        invariant
            v@.len() == i as int,
            i <= actions@.len(),
            forall|j: int| 0 <= j < i ==> (#[trigger] v@[j]).0 == actions@[j],
            forall|k: u64| spec_get(tree@, k) == spec_get(m0, k),
        decreases actions.len() - i,
    {
        let a = actions[i];
        let next = state.make(a);
        let h = next.hash();
        v.push((a, h));
        if !tree.contains(h) {
            let ghost pre = tree@;
            tree.set(h, Node::Unexplored);
            proof {
                assert forall|k: u64| spec_get(tree@, k) == spec_get(m0, k) by {
                    if k == h {
                        assert(spec_get(pre, h) == NodeV::<A>::Unexplored);
                    } else {
                        assert(spec_get(tree@, k) == spec_get(pre, k));
                    }
                }
            }
        }
        i = i + 1;
    }
    Result::Ok(v)
}

/// Draws a uniformly random legal action and applies it. The successor
/// and the drawn action are the game's and the generator's results, so
/// no contract can pin them; what can be said is the failure mode: the
/// one error this step can surface is a position that reported no legal
/// action.
fn rmake<A: Action, S: GameState<A>>(state: &S, rng: &mut XorShiftRng) -> (r: Result<
    S,
    SearchError,
>)
    ensures
        r matches Err(e) ==> e == SearchError::NoActions,
{
    let actions = state.actions();
    if actions.len() == 0 {
        return Result::Err(SearchError::NoActions);
    }
    let i = rng_below(rng, actions.len());
    let a = actions[i];
    Result::Ok(state.make(a))
}

/// Random playout: repeatedly applies uniformly random legal actions
/// until a terminal position is reached, then maps the terminal outcome
/// to the original mover's perspective (flipped when the terminal mover
/// differs, so the flip is applied at most once). Whatever the random
/// draws were, the estimate is one of the three exact outcome values.
fn rollout<A: Action, S: GameState<A>>(state: &S) -> (r: Result<u64, SearchError>)
    ensures
        r matches Ok(v) ==> v <= SCALE,
        r matches Ok(v) ==> v == 0 || v == SCALE / 2 || v == SCALE,
        r matches Err(e) ==> e == SearchError::NoActions || e == SearchError::OutOfBounds,
{
    let mut rng = rng_from_entropy();
    let p = state.player();
    let mut sim: S = match rmake(state, &mut rng) {
        Result::Ok(s) => s,
        Result::Err(err) => {
            return Result::Err(err);
        },
    };
    let mut steps: usize = 0;
    while steps < MAX_STEPS
        invariant
            steps <= MAX_STEPS,
        decreases MAX_STEPS - steps,
    {
        steps = steps + 1;
        match sim.gameover() {
            Option::Some(result) => {
                let v = result.value();
                return Result::Ok(fold_value(p, sim.player(), v));
            },
            Option::None => {
                match rmake(&sim, &mut rng) {
                    Result::Ok(s2) => {
                        sim = s2;
                    },
                    Result::Err(err) => {
                        return Result::Err(err);
                    },
                }
            },
        }
    }
    Result::Err(SearchError::OutOfBounds)
}

/// A win-probability estimate for a non-terminal position, in
/// `[0, SCALE]`: the position's own estimator when custom evaluation is
/// enabled (clamped into range, since the estimator is outside the
/// engine's control, and always successful), and a random playout
/// otherwise (one of the three exact outcome values when it succeeds).
fn evaluate<A: Action, S: GameState<A>>(state: &S, params: &MCTS) -> (r: Result<u64, SearchError>)
    ensures
        r matches Ok(v) ==> v <= SCALE,
        params.use_custom_evaluation ==> r matches Ok(_),
        !params.use_custom_evaluation ==> (r matches Ok(v) ==> v == 0 || v == SCALE / 2 || v
            == SCALE),
        r matches Err(e) ==> e == SearchError::NoActions || e == SearchError::OutOfBounds,
{
    if params.use_custom_evaluation {
        let v = state.custom_evaluation();
        if v > SCALE {
            Result::Ok(SCALE)
        } else {
            Result::Ok(v)
        }
    } else {
        rollout(state)
    }
}

/// Products of a 64-bit and a 32-bit quantity fit a 128-bit integer.
proof fn mul_fits(a: nat, b: nat)
    requires
        a <= 0xFFFF_FFFF_FFFF_FFFF,
        b <= 0xFFFF_FFFF,
    ensures
        a * b < 0x1_0000_0000_0000_0000_0000_0000,
{
    assert(a * b < 0x1_0000_0000_0000_0000_0000_0000) by (nonlinear_arith)
        requires
            a <= 0xFFFF_FFFF_FFFF_FFFF,
            b <= 0xFFFF_FFFF,
    ;
}

/// Whether a walk that starts on this node settles in its first step
/// without descending: terminals and unexplored nodes always do, and a
/// leaf does when its visit count has not passed the expansion threshold.
spec fn settles_first<A>(s0: NodeV<A>, th: nat) -> bool {
    match s0 {
        NodeV::Terminal { .. } => true,
        NodeV::Unexplored => true,
        NodeV::Leaf { visits, .. } => visits as nat <= th,
        NodeV::Branch { .. } => false,
    }
}

/// Whether the walk starts on a leaf whose visit count has passed the
/// expansion threshold: the one start that is converted to a branch and
/// re-dispatched in the same walk.
spec fn leaf_above<A>(s0: NodeV<A>, th: nat) -> bool {
    match s0 {
        NodeV::Leaf { visits, .. } => visits as nat > th,
        _ => false,
    }
}

/// When the walk started on a branch, the first frame of its descent
/// path records exactly that branch's fingerprint and statistics.
spec fn root_frame_matches<A: Action>(s0: NodeV<A>, f: Frame<A>, hash: u64) -> bool {
    match s0 {
        NodeV::Branch { player, value, visits, edges } => {
            &&& f.hash == hash
            &&& f.mover == player
            &&& f.value == value
            &&& f.visits == visits
            &&& f.edges@ == edges
        },
        _ => true,
    }
}

/// The shape a node has right after its first visit: a terminal holding
/// the walk's returned value, or a once-visited leaf holding it. The
/// stored mover is whatever the game reported for the position.
pub open spec fn first_visit_shape<A>(nv: NodeV<A>, v: u64) -> bool {
    match nv {
        NodeV::Terminal { value, .. } => value == v,
        NodeV::Leaf { value, visits, .. } => value == v && visits == 1,
        _ => false,
    }
}

/// The backpropagated update of a branch start node: its value sum grew
/// by exactly the walk's returned value (already folded into the
/// branch's own perspective), its visit count by exactly one, and its
/// mover and edge list are untouched.
pub open spec fn branch_done<A>(s0: NodeV<A>, m1: Map<u64, NodeV<A>>, hash: u64, v: u64) -> bool {
    match s0 {
        NodeV::Branch { player: p0, value: q0, visits: n0, edges: e0 } => n0 < u32::MAX
            ==> spec_get(m1, hash) == (NodeV::<A>::Branch {
            player: p0,
            value: (q0 + v) as u64,
            visits: (n0 + 1) as u32,
            edges: e0,
        }),
        _ => true,
    }
}

/// What one walk from `hash` guarantees about its start node, by the
/// variant the store `m0` held there when the walk began; `m1` is the
/// store the walk leaves behind and `r` its result.
///
/// A terminal start node is read-only: the walk returns its stored value
/// and touches nothing. An unexplored start node becomes a terminal or a
/// once-visited leaf holding the returned value, and no other entry
/// changes. A leaf below the expansion threshold gains exactly the
/// returned evaluation and one visit, with no other entry changed — it
/// is never expanded early; a leaf past the threshold is converted, so
/// a successful walk always leaves a branch there. A branch start node
/// ends updated by
/// [`branch_done`]: the returned value folded in once and one more
/// visit. The saturated counter limit, which no real search reaches, is
/// the one excluded case.
pub open spec fn walk_start_spec<A>(
    m0: Map<u64, NodeV<A>>,
    m1: Map<u64, NodeV<A>>,
    hash: u64,
    th: nat,
    r: Result<u64, SearchError>,
) -> bool {
    match spec_get(m0, hash) {
        NodeV::Terminal { player: p0, value: q0 } => m1 == m0 && r == Result::<
            u64,
            SearchError,
        >::Ok(q0),
        NodeV::Unexplored => r matches Ok(v) ==> {
            &&& first_visit_shape(spec_get(m1, hash), v)
            &&& forall|k: u64| k != hash ==> spec_get(m1, k) == spec_get(m0, k)
        },
        NodeV::Leaf { player: p0, value: q0, visits: n0 } => {
            &&& (n0 as nat <= th && n0 < u32::MAX) ==> (r matches Ok(v) ==> {
                &&& spec_get(m1, hash) == (NodeV::<A>::Leaf {
                    player: p0,
                    value: (q0 + v) as u64,
                    visits: (n0 + 1) as u32,
                })
                &&& forall|k: u64| k != hash ==> spec_get(m1, k) == spec_get(m0, k)
            })
            &&& n0 as nat > th ==> (r matches Ok(v) ==> is_branch(spec_get(m1, hash)))
        },
        NodeV::Branch { .. } => r matches Ok(v) ==> branch_done(spec_get(m0, hash), m1, hash, v),
    }
}

/// One search iteration: a state machine over the four node variants,
/// walked iteratively from `hash`. Branch nodes choose a child edge by
/// the UCT policy and descend; a leaf past the expansion threshold is
/// expanded into a branch and re-dispatched in the same iteration; a
/// leaf below the threshold is evaluated; a terminal returns its fixed
/// value unchanged; an unexplored node becomes terminal or leaf on its
/// first visit. On the way back up, each branch on the path folds the
/// value into its own perspective and records one visit. Whatever the
/// clock, the playouts and the game implementation did, the store stays
/// well-formed, only evolves as [`node_evolves`] allows, and treats the
/// start node exactly as [`walk_start_spec`] states.
#[verifier::rlimit(50)]
pub fn go<A: Action, S: GameState<A>>(
    state: &S,
    tree: &mut Tree<A>,
    params: &MCTS,
    hash: u64,
) -> (r: Result<u64, SearchError>)
    requires
        store_wf(old(tree)@, params.expansion as nat),
    ensures
        store_wf(final(tree)@, params.expansion as nat),
        evolves(old(tree)@, final(tree)@, params.expansion as nat),
        r matches Ok(v) ==> v <= SCALE,
        walk_start_spec(old(tree)@, final(tree)@, hash, params.expansion as nat, r),
{
    let ghost th = params.expansion as nat;
    let ghost m0 = tree@;
    let ghost s0 = spec_get(m0, hash);
    let mut frames: Vec<Frame<A>> = Vec::new();
    let mut cur_hash: u64 = hash;
    let mut owned: Option<S> = Option::None;
    let mut steps: usize = 0;
    let mut outcome: Result<u64, SearchError> = Result::Err(SearchError::OutOfBounds);
    loop
        invariant_except_break
            th == params.expansion as nat,
            s0 == spec_get(m0, hash),
            store_wf(tree@, th),
            evolves(m0, tree@, th),
            steps <= MAX_STEPS,
            forall|j: int| 0 <= j < frames@.len() ==> frame_ok(m0, #[trigger] frames@[j], th),
            settles_first(s0, th) ==> steps == 0 && tree@ == m0 && cur_hash == hash
                && frames@.len() == 0,
            is_branch(s0) && frames@.len() == 0 ==> steps == 0 && tree@ == m0 && cur_hash
                == hash,
            is_branch(s0) && frames@.len() >= 1 ==> root_frame_matches(s0, frames@[0], hash),
            leaf_above(s0, th) ==> (steps == 0 && tree@ == m0 && cur_hash == hash
                && frames@.len() == 0) || is_branch(spec_get(tree@, hash)),
        ensures
            store_wf(tree@, th),
            evolves(m0, tree@, th),
            forall|j: int| 0 <= j < frames@.len() ==> frame_ok(m0, #[trigger] frames@[j], th),
            outcome matches Ok(v) ==> v <= SCALE,
            settles_first(s0, th) ==> frames@.len() == 0 && walk_start_spec(
                m0,
                tree@,
                hash,
                th,
                outcome,
            ),
            is_branch(s0) ==> frames@.len() >= 1 && root_frame_matches(s0, frames@[0], hash),
            leaf_above(s0, th) ==> (outcome matches Ok(v) ==> is_branch(spec_get(tree@, hash))),
        decreases MAX_STEPS - steps,
    {
        if steps >= MAX_STEPS {
            outcome = Result::Err(SearchError::OutOfBounds);
            break;
        }
        steps = steps + 1;
        let node = tree.get(cur_hash);
        proof {
            assert(node@ == spec_get(tree@, cur_hash));
            assert(node_wf(spec_get(tree@, cur_hash), th));
            assert(node_evolves(spec_get(m0, cur_hash), spec_get(tree@, cur_hash), th));
        }
        match node {
            Node::Branch(p, q, n, e) => {
                proof {
                    lemma_store_wf_ok(tree@, th);
                }
                let edge = uct_policy(tree, params, n, &e, p);
                let a = edge.0;
                let child = edge.1;
                let next = match &owned {
                    Option::Some(s) => s.make(a),
                    Option::None => state.make(a),
                };
                let nh = next.hash();
                let cp = next.player();
                let f = Frame { hash: cur_hash, mover: p, value: q, visits: n, edges: e, child_mover: cp };
                proof {
                    assert(frame_ok(m0, f, th));
                }
                frames.push(f);
                owned = Option::Some(next);
                cur_hash = child;
                if nh != child {
                    outcome = Result::Err(SearchError::HashMismatch);
                    break;
                }
            },
            Node::Leaf(p, q, n) => {
                if n > params.expansion {
                    let ghost pre_x = tree@;
                    let er = match &owned {
                        Option::Some(s) => {
                            let acts = s.actions();
                            expand(s, &acts, tree)
                        },
                        Option::None => {
                            let acts = state.actions();
                            expand(state, &acts, tree)
                        },
                    };
                    proof {
                        assert forall|kk: u64|
                            node_wf(#[trigger] spec_get(tree@, kk), th) by {
                            assert(spec_get(tree@, kk) == spec_get(pre_x, kk));
                            assert(node_wf(spec_get(pre_x, kk), th));
                        }
                        assert forall|kk: u64|
                            node_evolves(#[trigger] spec_get(m0, kk), spec_get(tree@, kk), th) by {
                            assert(spec_get(tree@, kk) == spec_get(pre_x, kk));
                            assert(node_evolves(spec_get(m0, kk), spec_get(pre_x, kk), th));
                        }
                    }
                    match er {
                        Result::Ok(e2) => {
                            let ghost pre = tree@;
                            let nb = Node::Branch(p, q, n, e2);
                            let ghost nv = nb@;
                            tree.set(cur_hash, nb);
                            proof {
                                assert(spec_get(pre, cur_hash) == NodeV::<A>::Leaf {
                                    player: p,
                                    value: q,
                                    visits: n,
                                });
                                assert(node_evolves(spec_get(pre, cur_hash), nv, th));
                                lemma_node_evolves_trans(
                                    spec_get(m0, cur_hash),
                                    spec_get(pre, cur_hash),
                                    nv,
                                    th,
                                );
                                lemma_update_node(m0, pre, tree@, cur_hash, nv, th);
                            }
                        },
                        Result::Err(err) => {
                            outcome = Result::Err(err);
                            break;
                        },
                    }
                } else {
                    let ev = match &owned {
                        Option::Some(s) => evaluate(s, params),
                        Option::None => evaluate(state, params),
                    };
                    match ev {
                        Result::Ok(v) => {
                            let rv = record_visit(q, n, v);
                            let ghost pre = tree@;
                            let nb = Node::Leaf(p, rv.0, rv.1);
                            let ghost nv = nb@;
                            tree.set(cur_hash, nb);
                            proof {
                                assert(node_evolves(spec_get(pre, cur_hash), nv, th));
                                lemma_node_evolves_trans(
                                    spec_get(m0, cur_hash),
                                    spec_get(pre, cur_hash),
                                    nv,
                                    th,
                                );
                                lemma_update_node(m0, pre, tree@, cur_hash, nv, th);
                            }
                            outcome = Result::Ok(v);
                            break;
                        },
                        Result::Err(err) => {
                            outcome = Result::Err(err);
                            break;
                        },
                    }
                }
            },
            Node::Terminal(_tp, qv) => {
                outcome = Result::Ok(qv);
                break;
            },
            Node::Unexplored => {
                let pl = match &owned {
                    Option::Some(s) => s.player(),
                    Option::None => state.player(),
                };
                let over = match &owned {
                    Option::Some(s) => s.gameover(),
                    Option::None => state.gameover(),
                };
                match over {
                    Option::Some(res) => {
                        let v = res.value();
                        let ghost pre = tree@;
                        let nb = Node::Terminal(pl, v);
                        let ghost nv = nb@;
                        tree.set(cur_hash, nb);
                        proof {
                            assert(node_evolves(spec_get(pre, cur_hash), nv, th));
                            lemma_node_evolves_trans(
                                spec_get(m0, cur_hash),
                                spec_get(pre, cur_hash),
                                nv,
                                th,
                            );
                            lemma_update_node(m0, pre, tree@, cur_hash, nv, th);
                        }
                        outcome = Result::Ok(v);
                        break;
                    },
                    Option::None => {
                        let ev = match &owned {
                            Option::Some(s) => evaluate(s, params),
                            Option::None => evaluate(state, params),
                        };
                        match ev {
                            Result::Ok(v) => {
                                let ghost pre = tree@;
                                let nb = Node::Leaf(pl, v, 1);
                                let ghost nv = nb@;
                                tree.set(cur_hash, nb);
                                proof {
                                    assert(node_evolves(spec_get(pre, cur_hash), nv, th));
                                    lemma_node_evolves_trans(
                                        spec_get(m0, cur_hash),
                                        spec_get(pre, cur_hash),
                                        nv,
                                        th,
                                    );
                                    lemma_update_node(m0, pre, tree@, cur_hash, nv, th);
                                }
                                outcome = Result::Ok(v);
                                break;
                            },
                            Result::Err(err) => {
                                outcome = Result::Err(err);
                                break;
                            },
                        }
                    },
                }
            },
        }
    }
    let mut v: u64 = match outcome {
        Result::Ok(v0) => v0,
        Result::Err(err) => {
            return Result::Err(err);
        },
    };
    while frames.len() > 0
        invariant
            th == params.expansion as nat,
            s0 == spec_get(m0, hash),
            v <= SCALE,
            store_wf(tree@, th),
            evolves(m0, tree@, th),
            forall|j: int| 0 <= j < frames@.len() ==> frame_ok(m0, #[trigger] frames@[j], th),
            settles_first(s0, th) ==> frames@.len() == 0 && walk_start_spec(
                m0,
                tree@,
                hash,
                th,
                Result::Ok(v),
            ),
            is_branch(s0) && frames@.len() >= 1 ==> root_frame_matches(s0, frames@[0], hash),
            is_branch(s0) && frames@.len() == 0 ==> branch_done(s0, tree@, hash, v),
            leaf_above(s0, th) ==> is_branch(spec_get(tree@, hash)),
        decreases frames.len(),
    {
        let f = frames.pop().unwrap();
        proof {
            assert(frame_ok(m0, f, th));
        }
        let Frame { hash: fh, mover: fp, value: fq, visits: fn_visits, edges: fe, child_mover: fcp } = f;
        let vh = fold_value(fp, fcp, v);
        let rv = record_visit(fq, fn_visits, vh);
        let ghost pre = tree@;
        let ghost fe_view = fe@;
        let nb = Node::Branch(fp, rv.0, rv.1, fe);
        let ghost nv = nb@;
        tree.set(fh, nb);
        proof {
            let ghost mid = NodeV::<A>::Branch {
                player: fp,
                value: fq,
                visits: fn_visits,
                edges: fe_view,
            };
            assert(node_evolves(mid, nv, th));
            lemma_node_evolves_trans(spec_get(m0, fh), mid, nv, th);
            lemma_update_node(m0, pre, tree@, fh, nv, th);
        }
        v = vh;
    }
    Result::Ok(v)
}

/// Concludes a finished search from the store it built and the root
/// fingerprint: when the root is a branch, extracting the
/// recommendation always succeeds and obeys [`chosen_best`]; when the
/// budget expired before the root could become a branch, no answer is
/// owed and the search reports `RootNotExpanded` — if and only if.
fn conclude<A: Action>(tree: &Tree<A>, root: u64) -> (r: Result<A, SearchError>)
    requires
        store_ok(tree@),
    ensures
        is_branch(spec_get(tree@, root)) ==> (r matches Ok(a) && chosen_best(
            tree@,
            edges_of(spec_get(tree@, root)),
            stats_of(spec_get(tree@, root)).0,
            a,
        )),
        !is_branch(spec_get(tree@, root)) ==> r == Result::<A, SearchError>::Err(
            SearchError::RootNotExpanded,
        ),
{
    let node = tree.get(root);
    match node {
        Node::Branch(_, _, _, _) => Result::Ok(best(tree, root)),
        _ => Result::Err(SearchError::RootNotExpanded),
    }
}

/// What every successful search result satisfies: the returned action
/// was extracted, as [`chosen_best`] states, from the root branch of a
/// well-formed store — the one the finished search left behind. The
/// store itself depends on the wall clock and the random playouts, so it
/// is bound existentially; the extraction rule is not. On its own the
/// existential binds little — most actions stand in some store; the
/// per-store decision is pinned where the finished search is concluded,
/// against the store it actually built.
pub open spec fn search_result_valid<A>(r: Result<A, SearchError>) -> bool {
    match r {
        Result::Ok(a) => exists|m: Map<u64, NodeV<A>>, root: u64|
            {
                &&& store_ok(m)
                &&& is_branch(#[trigger] spec_get(m, root))
                &&& chosen_best(m, edges_of(spec_get(m, root)), stats_of(spec_get(m, root)).0, a)
            },
        Result::Err(_) => true,
    }
}

/// Initializes an empty store, seeds the root as `Unexplored`, repeats
/// the recursive step from the root until the configured time budget
/// elapses (checked between iterations; an in-flight step always
/// completes), then extracts the recommended action from the root. Fails
/// with `RootNotExpanded` when the budget expired before the root became
/// a branch, and aborts with the walk's error on a contract violation.
fn driver<A: Action, S: GameState<A>>(state: S, params: &MCTS) -> (r: Result<A, SearchError>)
    ensures
        search_result_valid(r),
{
    let mut tree: Tree<A> = Tree::new();
    let root = state.hash();
    tree.set(root, Node::Unexplored);
    let ghost th = params.expansion as nat;
    let ghost m_init = tree@;
    proof {
        assert forall|k: u64| node_wf(#[trigger] spec_get(tree@, k), th) by {}
        crate::tree::lemma_evolves_refl(m_init, th);
    }
    let start = now_instant();
    let mut iters: u64 = 0;
    while iters < MAX_ITERS
        invariant
            th == params.expansion as nat,
            store_wf(tree@, th),
            evolves(m_init, tree@, th),
            iters <= MAX_ITERS,
        decreases MAX_ITERS - iters,
    {
        let el_d = instant_elapsed(&start);
        let el = duration_as_nanos(&el_d);
        let budget = duration_as_nanos(&params.time);
        if !(el < budget) {
            break;
        }
        iters = iters + 1;
        let ghost m_pre = tree@;
        match go(&state, &mut tree, params, root) {
            Result::Ok(_) => {},
            Result::Err(err) => {
                return Result::Err(err);
            },
        }
        proof {
            lemma_evolves_trans(m_init, m_pre, tree@, th);
        }
    }
    proof {
        lemma_store_wf_ok(tree@, th);
    }
    let result = conclude(&tree, root);
    proof {
        match result {
            Result::Ok(a) => {
                assert(is_branch(spec_get(tree@, root)));
                assert(chosen_best(
                    tree@,
                    edges_of(spec_get(tree@, root)),
                    stats_of(spec_get(tree@, root)).0,
                    a,
                ));
            },
            Result::Err(_) => {},
        }
    }
    result
}

impl MCTS {
    /// Call this method to begin searching the given game state. Returns
    /// the recommended action, or the contract violation that aborted
    /// the search. Which action comes back depends on the wall clock and
    /// the random playouts; what holds whatever they did is
    /// [`search_result_valid`]: a returned action is the
    /// [`chosen_best`] extraction from the root branch of the
    /// well-formed store the search built, and the walk that built it
    /// obeyed [`chosen_by_uct`] and [`walk_start_spec`] at every step.
    pub fn search<A: Action, S: GameState<A>>(self, state: S) -> (r: Result<A, SearchError>)
        ensures
            search_result_valid(r),
    {
        driver(state, &self)
    }
}

} // verus!
