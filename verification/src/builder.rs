//! Builder-style construction of the search parameters.

use vstd::prelude::*;
use std::time::Duration;
use crate::MCTS;
use crate::clock::duration_new;
use crate::clock::nanos_of;

verus! {

impl MCTS {
    /// Call this method to instantiate a new search with default
    /// parameters: a one second budget, an exploration constant of the
    /// square root of two, an expansion threshold of ten visits, and
    /// random-playout evaluation.
    pub fn new() -> (r: Self)
        ensures
            nanos_of(r.time) == 1_000_000_000,
            r.exploration == 1_414_214,
            r.expansion == 10,
            r.use_custom_evaluation == false,
    {
        MCTS {
            time: duration_new(1, 0),
            exploration: 1_414_214,
            expansion: 10,
            use_custom_evaluation: false,
        }
    }

    /// Sets the time parameter.
    pub fn with_time(self, time: Duration) -> (r: Self)
        ensures
            r.time == time,
            r.exploration == self.exploration,
            r.expansion == self.expansion,
            r.use_custom_evaluation == self.use_custom_evaluation,
    {
        MCTS { time, ..self }
    }

    /// Sets the exploration parameter, in fixed-point form (`SCALE`
    /// stands for `1.0`). A positive value is required.
    pub fn with_exploration(self, exploration: u64) -> (r: Self)
        requires
            exploration > 0,
        ensures
            r.exploration == exploration,
            r.time == self.time,
            r.expansion == self.expansion,
            r.use_custom_evaluation == self.use_custom_evaluation,
    {
        MCTS { exploration, ..self }
    }

    /// Sets the expansion parameter. A value greater than zero is
    /// required.
    pub fn with_expansion_minimum(self, expansion: u32) -> (r: Self)
        requires
            expansion > 0,
        ensures
            r.expansion == expansion,
            r.time == self.time,
            r.exploration == self.exploration,
            r.use_custom_evaluation == self.use_custom_evaluation,
    {
        MCTS { expansion, ..self }
    }

    /// Enables the custom evaluation method.
    pub fn with_custom_evaluation(self) -> (r: Self)
        ensures
            r.use_custom_evaluation == true,
            r.time == self.time,
            r.exploration == self.exploration,
            r.expansion == self.expansion,
    {
        MCTS { use_custom_evaluation: true, ..self }
    }
}

} // verus!
