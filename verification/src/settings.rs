//! Simulation configuration: population targets, behaviour weights,
//! and the pause/predator switches.

use vstd::prelude::*;
use crate::index::WORLD_BOUND;
use crate::fx::lemma_mul_range;

verus! {

/// Mathematical value of a configuration.
pub ghost struct GSettings {
    pub paused: bool,
    pub predator: bool,
    pub population: int,
    pub spacing_goal: int,
    pub separation_weight: int,
    pub cohesion_weight: int,
    pub alignment_weight: int,
    pub target_speed: int,
    pub speed_weight: int,
}

/// Configuration read by every step.  Scalar weights are fixed-point
/// (thousandths); `population` is a plain count of prey wanted, and a
/// negative value is treated as zero.
#[derive(Clone, Copy, Debug)]
pub struct Settings {
    pub paused: bool,
    pub predator: bool,
    pub population: i64,
    pub spacing_goal: i64,
    pub separation_weight: i64,
    pub cohesion_weight: i64,
    pub alignment_weight: i64,
    pub target_speed: i64,
    pub speed_weight: i64,
}

impl View for Settings {
    type V = GSettings;

    open spec fn view(&self) -> GSettings {
        GSettings {
            paused: self.paused,
            predator: self.predator,
            population: self.population as int,
            spacing_goal: self.spacing_goal as int,
            separation_weight: self.separation_weight as int,
            cohesion_weight: self.cohesion_weight as int,
            alignment_weight: self.alignment_weight as int,
            target_speed: self.target_speed as int,
            speed_weight: self.speed_weight as int,
        }
    }
}

/// Weights small enough that every force stays within machine range,
/// and a population target that fits in memory.  Far beyond any value
/// the behaviour weights take in practice.
pub open spec fn settings_ok(s: GSettings) -> bool {
    &&& -(WORLD_BOUND as int) <= s.spacing_goal <= WORLD_BOUND as int
    &&& -(WORLD_BOUND as int) <= s.separation_weight <= WORLD_BOUND as int
    &&& -(WORLD_BOUND as int) <= s.cohesion_weight <= WORLD_BOUND as int
    &&& -(WORLD_BOUND as int) <= s.alignment_weight <= WORLD_BOUND as int
    &&& -(WORLD_BOUND as int) <= s.target_speed <= WORLD_BOUND as int
    &&& -(WORLD_BOUND as int) <= s.speed_weight <= WORLD_BOUND as int
    &&& -1_000_000_000 <= s.population <= 100_000_000
}

/// A viewport no larger than the world the index accepts.
pub open spec fn viewport_ok(w: int, h: int) -> bool {
    0 <= w <= WORLD_BOUND as int && 0 <= h <= WORLD_BOUND as int
}

/// The default prey count for a viewport: six boids per ten thousand
/// square units.
pub open spec fn default_population(w: int, h: int) -> int {
    (w * h * 6) / 10_000_000_000
}

impl Settings {
    /// The starting configuration for a viewport of the given
    /// fixed-point size: paused, with a predator, and mid-range weights.
    pub fn default_for(width: i64, height: i64) -> (r: Settings)
        requires
            viewport_ok(width as int, height as int),
        ensures
            r@.paused,
            r@.predator,
            r@.population == default_population(width as int, height as int),
            r@.spacing_goal == 40_000,
            r@.separation_weight == 5_000,
            r@.cohesion_weight == 5_000,
            r@.alignment_weight == 5_000,
            r@.target_speed == 5_000,
            r@.speed_weight == 5_000,
            settings_ok(r@),
    {
        proof {
            lemma_mul_range(width as int, height as int, WORLD_BOUND as int, WORLD_BOUND as int);
        }
        let area: u64 = (width as u64) * (height as u64);
        let pop: u64 = area * 6 / 10_000_000_000;
        Settings {
            paused: true,
            predator: true,
            population: pop as i64,
            spacing_goal: 40_000,
            separation_weight: 5_000,
            cohesion_weight: 5_000,
            alignment_weight: 5_000,
            target_speed: 5_000,
            speed_weight: 5_000,
        }
    }
}

} // verus!
