//! Passing world conditions that change how plants grow.
use vstd::prelude::*;
use rand::rngs::StdRng;
use crate::config::RATE_ONE;
use crate::random::draw_below;

verus! {

/// A passing condition of the world.
#[derive(Clone, Copy, PartialEq, Eq, Structural, Debug, Hash)]
pub enum Condition {
    FewerPlants,
    MorePlants,
}

/// Shortest lifetime of a condition, in ticks.
pub const CONDITION_MIN_LIFETIME: u64 = 30;

/// Lifetimes of a condition are below this, in ticks.
pub const CONDITION_MAX_LIFETIME: u64 = 60;

/// A condition in force since tick `start`, for `lifetime` ticks.
#[derive(Clone, Copy, PartialEq, Eq, Structural, Debug)]
pub struct ActiveCondition {
    pub condition: Condition,
    pub start: u64,
    pub lifetime: u64,
}

/// The condition in force after one update at tick `now`, given the chance
/// outcomes: a condition that has outlived its lifetime ends; with none in
/// force, one starts when `roll < chance`, picked by `pick` and lasting
/// `lifetime` ticks.
pub open spec fn next_condition(
    c: Option<ActiveCondition>,
    now: int,
    chance: int,
    roll: int,
    pick: bool,
    lifetime: int,
) -> Option<ActiveCondition> {
    match c {
        Some(a) => if now - a.start > a.lifetime { None } else { Some(a) },
        None => if roll < chance {
            Some(
                ActiveCondition {
                    condition: if pick { Condition::MorePlants } else { Condition::FewerPlants },
                    start: now as u64,
                    lifetime: lifetime as u64,
                },
            )
        } else {
            None
        },
    }
}

/// One update of the condition at tick `now`, from given chance outcomes.
pub fn next_condition_from(
    condition: Option<ActiveCondition>,
    now: u64,
    chance: u64,
    roll: u64,
    pick: bool,
    lifetime: u64,
) -> (r: Option<ActiveCondition>)
    ensures
        r == next_condition(condition, now as int, chance as int, roll as int, pick, lifetime as int),
{
    match condition {
        Some(a) => {
            if now as i128 - a.start as i128 > a.lifetime as i128 {
                None
            } else {
                Some(a)
            }
        },
        None => {
            if roll < chance {
                Some(
                    ActiveCondition {
                        condition: if pick { Condition::MorePlants } else { Condition::FewerPlants },
                        start: now,
                        lifetime,
                    },
                )
            } else {
                None
            }
        },
    }
}

/// One update of the condition at tick `now`: a condition that has outlived
/// its lifetime ends; with none in force, one starts with chance `chance`
/// (out of `RATE_ONE`), lasting between `CONDITION_MIN_LIFETIME` and
/// `CONDITION_MAX_LIFETIME` ticks.
pub fn update_condition(condition: &mut Option<ActiveCondition>, now: u64, chance: u64, rng: &mut StdRng)
    ensures
        *old(condition) matches Some(a) ==> *final(condition) == if now - a.start > a.lifetime {
            None
        } else {
            Some(a)
        },
        *old(condition) is None ==> (*final(condition) matches Some(a) ==> a.start == now && CONDITION_MIN_LIFETIME
            <= a.lifetime < CONDITION_MAX_LIFETIME),
        *old(condition) is None && chance == 0 ==> *final(condition) is None,
{
    let roll = draw_below(rng, RATE_ONE);
    let pick = draw_below(rng, 2) == 1;
    let lifetime = CONDITION_MIN_LIFETIME + draw_below(rng, CONDITION_MAX_LIFETIME - CONDITION_MIN_LIFETIME);
    *condition = next_condition_from(*condition, now, chance, roll, pick, lifetime);
}

/// The plants that die and the plants that grow in one tick: `plants_n`
/// times `die_chance` (out of `RATE_ONE`, rounded down) die, twice as many
/// under `FewerPlants`; `per_step` grow, twice as many under `MorePlants`.
pub open spec fn turnover(plants_n: int, die_chance: int, per_step: int, c: Option<ActiveCondition>) -> (int, int) {
    let dying = plants_n * die_chance / (RATE_ONE as int);
    let fewer = c matches Some(a) && a.condition == Condition::FewerPlants;
    let more = c matches Some(a) && a.condition == Condition::MorePlants;
    (if fewer { 2 * dying } else { dying }, if more { 2 * per_step } else { per_step })
}

/// The plants that die and the plants that grow in one tick.
pub fn plant_turnover(plants_n: u64, die_chance: u64, per_step: u64, condition: Option<ActiveCondition>) -> (r: (u64, u64))
    requires
        die_chance <= RATE_ONE,
        plants_n <= u64::MAX / 2,
        per_step <= u64::MAX / 2,
    ensures
        r.0 == turnover(plants_n as int, die_chance as int, per_step as int, condition).0,
        r.1 == turnover(plants_n as int, die_chance as int, per_step as int, condition).1,
{
    proof {
        assert(plants_n * die_chance <= plants_n * RATE_ONE) by (nonlinear_arith)
            requires
                die_chance <= RATE_ONE,
        ;
        assert(plants_n * die_chance / (RATE_ONE as int) <= plants_n) by (nonlinear_arith)
            requires
                0 <= plants_n * die_chance <= plants_n * RATE_ONE,
        ;
        assert(plants_n * die_chance <= u64::MAX * RATE_ONE) by (nonlinear_arith)
            requires
                die_chance <= RATE_ONE,
                plants_n <= u64::MAX,
        ;
    }
    let dying = ((plants_n as u128 * die_chance as u128) / (RATE_ONE as u128)) as u64;
    let (fewer, more) = match condition {
        Some(a) => (a.condition == Condition::FewerPlants, a.condition == Condition::MorePlants),
        None => (false, false),
    };
    let d = if fewer { 2 * dying } else { dying };
    let g = if more { 2 * per_step } else { per_step };
    (d, g)
}

/// The indices of every skill and of every infection.
pub fn enum_consts() -> (r: (Vec<usize>, Vec<usize>))
    ensures
        r.0@ == seq![0usize, 1, 2, 3, 4, 5, 6, 7],
        r.1@ == seq![0usize, 1],
{
    let mut skills: Vec<usize> = Vec::new();
    let mut k: usize = 0;
    while k < 8
        invariant
            k <= 8,
            skills@.len() == k,
            forall|m: int| 0 <= m < k ==> skills@[m] == m,
        decreases 8 - k,
    {
        skills.push(k);
        k = k + 1;
    }
    let viruses: Vec<usize> = vec![0, 1];
    proof {
        assert(skills@ =~= seq![0usize, 1, 2, 3, 4, 5, 6, 7]);
    }
    (skills, viruses)
}

} // verus!
