//! The run's tunables, fixed at startup and passed to every rule that needs
//! them.
use vstd::prelude::*;
use crate::geometry::{MAX_COORD, MAX_SPEED};

verus! {

/// The denominator of every rate and chance: a rate of `RATE_ONE` is one
/// whole unit per unit, a chance of `RATE_ONE` is certainty.
pub const RATE_ONE: u64 = 1000000000;

/// Largest energy an entity may hold.
pub const MAX_ENERGY: u64 = 1099511627776;

/// The tunables of one kind of infection.
#[derive(Clone, Copy, PartialEq, Eq, Structural, Debug)]
pub struct VirusParams {
    /// Chance, out of `RATE_ONE`, that a body of the first generation is born
    /// with the infection.
    pub first_generation_infection_chance: u64,
    /// Share, out of `RATE_ONE`, of the stat that the infection takes away
    /// for good when it is caught.
    pub decrease: u64,
    /// Energy spent on healing each tick.
    pub energy_spent_for_healing: u64,
    /// Healing progress at which the infection is cured.
    pub heal_energy: u64,
}

impl VirusParams {
    /// Chances and shares are at most one, energies in range.
    pub open spec fn wf(&self) -> bool {
        &&& self.first_generation_infection_chance <= RATE_ONE
        &&& self.decrease <= RATE_ONE
        &&& self.energy_spent_for_healing <= MAX_ENERGY
        &&& self.heal_energy <= MAX_ENERGY
    }
}

/// The tunables of a run. Costs are rates out of `RATE_ONE`.
#[derive(Clone, Copy, PartialEq, Eq, Structural, Debug)]
pub struct Config {
    /// A body with less energy than this dies.
    pub min_energy: u64,
    /// Energy spent each tick per unit of energy held.
    pub mass_cost: u64,
    /// Energy spent each tick per skill held (whole units).
    pub skill_cost: u64,
    /// Energy spent each tick per squared unit of vision distance.
    pub vision_cost: u64,
    /// Energy spent each tick of movement per unit of `speed^2 * energy`.
    pub movement_cost: u64,
    /// Lifespan lost each tick of movement per unit of `speed^2 * energy`.
    pub lifespan_cost: u64,
    /// The lifespan a body is born with, in ticks.
    pub lifespan: u64,
    /// Largest deviation, out of `RATE_ONE`, of an inherited value from its
    /// baseline.
    pub deviation: u64,
    /// Chance, out of `RATE_ONE`, that a birth changes the skill set.
    pub skills_change_chance: u64,
    pub average_speed: u64,
    pub average_vision_distance: u64,
    pub average_energy: u64,
    pub average_division_threshold: u64,
    pub speed_virus: VirusParams,
    pub vision_virus: VirusParams,
    /// Ticks a corpse lasts.
    pub cross_lifespan: u64,
    /// Energy per unit of size of a grass plant.
    pub grass_energy: u64,
    /// Energy per unit of size of a banana plant.
    pub banana_energy: u64,
}

impl Config {
    /// Whether rates and chances are at most one and the baselines leave
    /// room for the largest deviation.
    pub fn is_valid(&self) -> (r: bool)
        ensures
            r == self.wf(),
    {
        let v = |p: &VirusParams| -> (r: bool)
            ensures
                r == p.wf(),
        {
            p.first_generation_infection_chance <= RATE_ONE && p.decrease <= RATE_ONE && p.energy_spent_for_healing
                <= MAX_ENERGY && p.heal_energy <= MAX_ENERGY
        };
        self.min_energy <= MAX_ENERGY && self.mass_cost <= RATE_ONE && self.skill_cost <= MAX_ENERGY && self.vision_cost
            <= RATE_ONE && self.movement_cost <= RATE_ONE && self.lifespan_cost <= RATE_ONE && self.lifespan <= MAX_ENERGY
            && self.deviation <= RATE_ONE && self.skills_change_chance <= RATE_ONE && self.average_speed <= MAX_SPEED / 2
            && self.average_vision_distance as u128 * 2 <= MAX_COORD as u128 && self.average_energy <= MAX_ENERGY / 2
            && self.average_division_threshold <= MAX_ENERGY / 2 && v(&self.speed_virus) && v(&self.vision_virus)
            && self.grass_energy <= 1048576 && self.banana_energy <= 1048576
    }

    /// Rates and chances are at most one, and the baselines leave room for
    /// the largest deviation.
    pub open spec fn wf(&self) -> bool {
        &&& self.min_energy <= MAX_ENERGY
        &&& self.mass_cost <= RATE_ONE
        &&& self.skill_cost <= MAX_ENERGY
        &&& self.vision_cost <= RATE_ONE
        &&& self.movement_cost <= RATE_ONE
        &&& self.lifespan_cost <= RATE_ONE
        &&& self.lifespan <= MAX_ENERGY
        &&& self.deviation <= RATE_ONE
        &&& self.skills_change_chance <= RATE_ONE
        &&& 2 * self.average_speed <= MAX_SPEED
        &&& 2 * self.average_vision_distance <= MAX_COORD
        &&& 2 * self.average_energy <= MAX_ENERGY
        &&& 2 * self.average_division_threshold <= MAX_ENERGY
        &&& self.speed_virus.wf()
        &&& self.vision_virus.wf()
        &&& self.grass_energy <= 1048576
        &&& self.banana_energy <= 1048576
    }
}

} // verus!
