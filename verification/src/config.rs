//! Tunable simulation parameters: a plain record the host may mutate
//! between ticks. Every setter rejects an out-of-range value and keeps the
//! last valid one, so a well-formed configuration stays well-formed; the
//! core only reads a configuration during a tick.

use vstd::prelude::*;
use crate::agents::MAX_COORD;

verus! {

/// Weights are per-mille: 1000 means a factor of one.
pub const WEIGHT_SCALE: i64 = 1000;

/// Largest accepted steering weight (a factor of one thousand).
pub const MAX_WEIGHT: i64 = 1_000_000;

/// Largest accepted speed, in milli-units per second.
pub const MAX_SPEED: i64 = 10_000_000;

/// The smoothing fraction is per-mille of the remaining angular difference;
/// 1000 snaps to the target in one step.
pub const SMOOTH_SCALE: i64 = 1000;

/// Tunable weights, speed, smoothing and grid geometry.
#[derive(Clone, Copy, PartialEq, Eq, Structural, Debug)]
pub struct SimulationConfig {
    /// Separation weight, per-mille.
    pub separation_weight: i64,
    /// Alignment weight, per-mille.
    pub alignment_weight: i64,
    /// Cohesion weight, per-mille.
    pub cohesion_weight: i64,
    /// Speed, milli-units per second.
    pub speed: i64,
    /// Smoothing fraction, per-mille of the remaining angular difference.
    pub turn_smoothing: i64,
    /// Grid cell edge, milli-units.
    pub cell_size: i64,
    /// Optional exact neighborhood radius, milli-units; `None` keeps the
    /// whole 3x3 cell block as the neighborhood.
    pub view_radius: Option<i64>,
}

impl SimulationConfig {
    /// All parameters in range: weights and speed non-negative, smoothing
    /// in `(0, SMOOTH_SCALE]`, a positive cell size, and a view radius (if
    /// any) within the coordinate budget.
    pub open spec fn wf(self) -> bool {
        &&& 0 <= self.separation_weight <= MAX_WEIGHT
        &&& 0 <= self.alignment_weight <= MAX_WEIGHT
        &&& 0 <= self.cohesion_weight <= MAX_WEIGHT
        &&& 0 <= self.speed <= MAX_SPEED
        &&& 0 < self.turn_smoothing <= SMOOTH_SCALE
        &&& 1 <= self.cell_size <= MAX_COORD
        &&& match self.view_radius {
            Some(r) => 0 <= r <= MAX_COORD,
            None => true,
        }
    }

    /// Build a configuration, rejecting any out-of-range parameter.
    pub fn new(
        separation_weight: i64,
        alignment_weight: i64,
        cohesion_weight: i64,
        speed: i64,
        turn_smoothing: i64,
        cell_size: i64,
        view_radius: Option<i64>,
    ) -> (r: Option<SimulationConfig>)
        ensures
            ({
                let c = SimulationConfig {
                    separation_weight,
                    alignment_weight,
                    cohesion_weight,
                    speed,
                    turn_smoothing,
                    cell_size,
                    view_radius,
                };
                if c.wf() {
                    r == Some(c)
                } else {
                    r is None
                }
            }),
    {
        let c = SimulationConfig {
            separation_weight,
            alignment_weight,
            cohesion_weight,
            speed,
            turn_smoothing,
            cell_size,
            view_radius,
        };
        let radius_ok = match view_radius {
            Some(r) => 0 <= r && r <= MAX_COORD,
            None => true,
        };
        if 0 <= separation_weight && separation_weight <= MAX_WEIGHT && 0 <= alignment_weight
            && alignment_weight <= MAX_WEIGHT && 0 <= cohesion_weight && cohesion_weight
            <= MAX_WEIGHT && 0 <= speed && speed <= MAX_SPEED && 0 < turn_smoothing
            && turn_smoothing <= SMOOTH_SCALE && 1 <= cell_size && cell_size <= MAX_COORD
            && radius_ok {
            Some(c)
        } else {
            None
        }
    }

    /// Update the three steering weights; a negative or oversized weight is
    /// rejected and the previous weights stay. Returns whether the update
    /// was accepted.
    pub fn set_weights(&mut self, separation: i64, alignment: i64, cohesion: i64) -> (ok: bool)
        ensures
            ok == (0 <= separation <= MAX_WEIGHT && 0 <= alignment <= MAX_WEIGHT && 0 <= cohesion
                <= MAX_WEIGHT),
            ok ==> *final(self) == (SimulationConfig {
                separation_weight: separation,
                alignment_weight: alignment,
                cohesion_weight: cohesion,
                ..*old(self)
            }),
            !ok ==> *final(self) == *old(self),
            old(self).wf() ==> final(self).wf(),
    {
        if 0 <= separation && separation <= MAX_WEIGHT && 0 <= alignment && alignment <= MAX_WEIGHT
            && 0 <= cohesion && cohesion <= MAX_WEIGHT {
            self.separation_weight = separation;
            self.alignment_weight = alignment;
            self.cohesion_weight = cohesion;
            true
        } else {
            false
        }
    }

    /// Update the speed; a negative or oversized value is rejected.
    pub fn set_speed(&mut self, speed: i64) -> (ok: bool)
        ensures
            ok == (0 <= speed <= MAX_SPEED),
            ok ==> *final(self) == (SimulationConfig { speed, ..*old(self) }),
            !ok ==> *final(self) == *old(self),
            old(self).wf() ==> final(self).wf(),
    {
        if 0 <= speed && speed <= MAX_SPEED {
            self.speed = speed;
            true
        } else {
            false
        }
    }

    /// Update the smoothing fraction; it must lie in `(0, SMOOTH_SCALE]`.
    pub fn set_turn_smoothing(&mut self, smoothing: i64) -> (ok: bool)
        ensures
            ok == (0 < smoothing <= SMOOTH_SCALE),
            ok ==> *final(self) == (SimulationConfig { turn_smoothing: smoothing, ..*old(self) }),
            !ok ==> *final(self) == *old(self),
            old(self).wf() ==> final(self).wf(),
    {
        if 0 < smoothing && smoothing <= SMOOTH_SCALE {
            self.turn_smoothing = smoothing;
            true
        } else {
            false
        }
    }

    /// Update the grid cell size; a non-positive or oversized value is
    /// rejected and the last valid size stays.
    pub fn set_cell_size(&mut self, cell_size: i64) -> (ok: bool)
        ensures
            ok == (1 <= cell_size <= MAX_COORD),
            ok ==> *final(self) == (SimulationConfig { cell_size, ..*old(self) }),
            !ok ==> *final(self) == *old(self),
            old(self).wf() ==> final(self).wf(),
    {
        if 1 <= cell_size && cell_size <= MAX_COORD {
            self.cell_size = cell_size;
            true
        } else {
            false
        }
    }

    /// Update or clear the exact view radius; a negative or oversized
    /// radius is rejected.
    pub fn set_view_radius(&mut self, view_radius: Option<i64>) -> (ok: bool)
        ensures
            ok == match view_radius {
                Some(r) => 0 <= r <= MAX_COORD,
                None => true,
            },
            ok ==> *final(self) == (SimulationConfig { view_radius, ..*old(self) }),
            !ok ==> *final(self) == *old(self),
            old(self).wf() ==> final(self).wf(),
    {
        let ok = match view_radius {
            Some(r) => 0 <= r && r <= MAX_COORD,
            None => true,
        };
        if ok {
            self.view_radius = view_radius;
        }
        ok
    }
}

impl Default for SimulationConfig {
    /// The stock configuration: separation 1.5, alignment 1.0, cohesion
    /// 0.5, 160 units per second, smoothing fraction 0.05, cells of 25
    /// units with an exact view radius of 25 units.
    fn default() -> (c: SimulationConfig)
        ensures
            c.wf(),
            c == (SimulationConfig {
                separation_weight: 1500int as i64,
                alignment_weight: 1000int as i64,
                cohesion_weight: 500int as i64,
                speed: 160_000int as i64,
                turn_smoothing: 50int as i64,
                cell_size: 25_000int as i64,
                view_radius: Some(25_000int as i64),
            }),
    {
        SimulationConfig {
            separation_weight: 1500,
            alignment_weight: 1000,
            cohesion_weight: 500,
            speed: 160_000,
            turn_smoothing: 50,
            cell_size: 25_000,
            view_radius: Some(25_000),
        }
    }
}

} // verus!
