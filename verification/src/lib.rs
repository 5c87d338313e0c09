//! A generic Monte Carlo Tree Search (MCTS) engine for two-player,
//! perfect-information games.
//!
//! The caller supplies the rules of the game through the [`GameState`]
//! trait; the engine searches the game's decision tree under a wall-clock
//! time budget and returns the best action found from the given position.
//!
//! Win-probability estimates are carried as fixed-point integers: a value
//! `v` stands for the probability `v / SCALE`, so `0` is a sure loss,
//! `SCALE` a sure win and `SCALE / 2` a draw.

use vstd::prelude::*;
use std::time::Duration;

mod builder;
mod clock;
mod numeric;
mod rng;
mod search;
mod tree;

pub use search::SearchError;
pub use search::fold_spec;
pub use search::lemma_perspective_flip;
pub use search::mean_spec;
pub use search::oriented_mean_spec;
pub use search::uct_explore_spec;
pub use search::uct_score_spec;
pub use search::stats_of;
pub use search::is_win;
pub use search::is_unexplored;
pub use search::is_scored;
pub use search::score_of;
pub use search::edge_node;
pub use search::chosen_by_uct;
pub use search::onum_spec;
pub use search::oden_spec;
pub use search::mean_lt;
pub use search::chosen_best;
pub use search::is_branch;
pub use search::edges_of;
pub use search::MAX_STEPS;
pub use search::MAX_ITERS;
pub use search::first_visit_shape;
pub use search::branch_done;
pub use search::walk_start_spec;
pub use search::search_result_valid;
pub use search::go;

pub use clock::nanos_of;
pub use numeric::LN2_SCALED;
pub use numeric::log2_floor_spec;
pub use numeric::log2_floor;
pub use numeric::sqrt_ok;
pub use numeric::sqrt_floor;
pub use numeric::isqrt;

pub use tree::Node;
pub use tree::NodeV;
pub use tree::Tree;
pub use tree::spec_get;
pub use tree::node_wf_core;
pub use tree::node_wf;
pub use tree::store_ok;
pub use tree::store_wf;
pub use tree::lemma_store_wf_ok;
pub use tree::node_evolves;
pub use tree::evolves;
pub use tree::visits_of;
pub use tree::value_of;
pub use tree::lemma_visits_monotonic;
pub use tree::lemma_mean_in_range;
pub use tree::lemma_expansion_threshold;
pub use tree::lemma_evolves_refl;
pub use tree::lemma_evolves_trans;
pub use tree::lemma_transposition_merging;

verus! {

/// Denominator of all fixed-point win-probability values: a stored value
/// `v` represents the probability `v / SCALE`.
pub const SCALE: u64 = 1_000_000;

/// This trait describes an allowed move for a game state. This type is
/// passed to the `make` function to produce the next game state. Keep it
/// small and cheap to copy (e.g. an enum or an integer).
pub trait Action: Copy {

}

/// The result of a finished game, from the perspective of the side whose
/// turn it is at the terminal position.
#[derive(Clone, Copy, Debug, PartialEq, Eq, Structural)]
pub enum GameResult {
    Win,
    Lose,
    Draw,
}

/// The fixed-point value of a game result: a win counts `SCALE`, a loss
/// `0` and a draw `SCALE / 2`.
pub open spec fn result_value(r: GameResult) -> u64 {
    match r {
        GameResult::Win => SCALE,
        GameResult::Lose => 0,
        GameResult::Draw => SCALE / 2,
    }
}

/// This trait describes the current state of the game from which to
/// begin searching for the best move. The engine only ever reads a
/// position through these methods; the game's rules live entirely on the
/// other side of them.
pub trait GameState<A: Action> where Self: core::marker::Sized {
    /// All legal actions from the current game state. A position that is
    /// not game-over must offer at least one action; reporting none is a
    /// contract violation that aborts a search with
    /// `SearchError::NoActions`.
    fn actions(&self) -> Vec<A>;

    /// The successor game state for the given action; must not mutate
    /// the receiver.
    fn make(&self, action: A) -> Self;

    /// A fingerprint for the current game state, sufficiently unique to
    /// avoid collisions between distinct reachable positions. Positions
    /// with equal fingerprints share one node in the search tree.
    fn hash(&self) -> u64;

    /// Whether the game is over, and if so its result from the
    /// perspective of the side to play; `None` while play continues.
    fn gameover(&self) -> Option<GameResult>;

    /// The side to play for the current game state (e.g. white 1,
    /// black 2).
    fn player(&self) -> u32;

    /// Optional: a custom estimate of the side-to-play's win probability
    /// in fixed-point form (`0` to `SCALE`), used instead of a random
    /// playout when enabled through `with_custom_evaluation`. Estimates
    /// above `SCALE` are clamped to `SCALE` before they enter the
    /// statistics.
    fn custom_evaluation(&self) -> u64 {
        500_000
    }
}

/// Search parameters, set through a builder pattern so only the desired
/// parameters change from their defaults.
#[derive(Clone, Copy, Debug)]
pub struct MCTS {
    /// The wall-clock time the search is allowed to run before stopping.
    pub time: Duration,

    /// The exploration constant of the UCT formula in fixed-point form
    /// (`SCALE` stands for `1.0`): larger values favour exploration over
    /// exploitation.
    pub exploration: u64,

    /// The number of times a leaf node is visited before it expands into
    /// a branch node. A high number gives a smaller game tree but more
    /// confidence about which node to expand next.
    pub expansion: u32,

    /// Whether the custom evaluation method is used instead of a random
    /// playout.
    pub use_custom_evaluation: bool,
}

impl GameResult {
    /// Maps a terminal outcome to its fixed-point value: `Win` is exactly
    /// `SCALE`, `Lose` exactly `0` and `Draw` exactly `SCALE / 2`.
    pub fn value(&self) -> (v: u64)
        ensures
            v == result_value(*self),
            v <= SCALE,
    {
        match *self {
            GameResult::Win => SCALE,
            GameResult::Lose => 0,
            GameResult::Draw => SCALE / 2,
        }
    }
}

} // verus!
