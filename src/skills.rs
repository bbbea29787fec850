//! The skill checks: each gate passes unless the body holds its skill and the
//! target fails the skill's test.
use vstd::prelude::*;
use crate::body::{Body, Infections, Pursuer, Skill, Virus, pursuers_wf};
use crate::config::{Config, MAX_ENERGY};
use crate::food::{Cross, Plant, plant_energy};
use crate::geometry::{Pos, MAX_SPEED, dist_sq, distance_sq, travel_ticks, travel_time};
use crate::metabolism::spent_energy;

verus! {

/// The speed at which a body at `speed` gains on a target moving at
/// `target_speed`; zero when it does not gain.
pub open spec fn closing_speed(speed: int, target_speed: int) -> int {
    if speed > target_speed { speed - target_speed } else { 0 }
}

/// The body, gaining at `closing` on a target at squared distance `d_sq`,
/// still has more than the minimum viable energy on arrival.
pub open spec fn alive_when_arrived(cfg: Config, b: Body, d_sq: int, closing: int) -> bool {
    !b.skills.has(Skill::AliveWhenArrived) || (closing > 0 && b.energy
        > spent_energy(cfg, b, travel_time(d_sq, closing)) + cfg.min_energy)
}

/// The trip to a target at squared distance `d_sq`, gaining at `closing`,
/// costs less than the target's `payoff`.
pub open spec fn profitable_when_arrived(cfg: Config, b: Body, d_sq: int, closing: int, payoff: int) -> bool {
    !b.skills.has(Skill::ProfitableWhenArrived) || (closing > 0 && spent_energy(
        cfg,
        b,
        travel_time(d_sq, closing),
    ) < payoff)
}

/// The body reaches a stationary target at `target` strictly before every
/// other recorded pursuer; a pursuer that does not move never arrives.
pub open spec fn arrives_first_at_rest(b: Body, target: Pos, f: Seq<Pursuer>) -> bool {
    !b.skills.has(Skill::WillArriveFirst) || (b.speed > 0 && forall|k: int|
        0 <= k < f.len() ==> (#[trigger] f[k]).id == b.id || f[k].speed == 0 || travel_time(
            dist_sq(b.pos, target),
            b.speed as int,
        ) < travel_time(dist_sq(f[k].pos, target), f[k].speed as int))
}

/// The body catches a target at `target` moving at `target_speed` strictly
/// before every other recorded pursuer; one that does not gain on the target
/// counts as arriving first, so the check fails.
pub open spec fn arrives_first_moving(b: Body, target: Pos, target_speed: int, f: Seq<Pursuer>) -> bool {
    !b.skills.has(Skill::WillArriveFirst) || (closing_speed(b.speed as int, target_speed) > 0 && forall|k: int|
        0 <= k < f.len() ==> (#[trigger] f[k]).id == b.id || (closing_speed(f[k].speed as int, target_speed) > 0
            && travel_time(dist_sq(b.pos, target), closing_speed(b.speed as int, target_speed))
            < travel_time(dist_sq(f[k].pos, target), closing_speed(f[k].speed as int, target_speed))))
}

/// No other pursuer of the target shares the body's lineage.
pub open spec fn no_relative_competes(b: Body, f: Seq<Pursuer>) -> bool {
    !b.skills.has(Skill::DoNotCompeteWithRelatives) || forall|k: int|
        0 <= k < f.len() ==> (#[trigger] f[k]).id == b.id || f[k].body_type != b.body_type
}

/// The target carries no infection the body lacks.
pub open spec fn no_new_viruses(b: Body, target: Infections) -> bool {
    !b.skills.has(Skill::AvoidNewViruses) || target.subset_of(b.viruses)
}

/// A corpse of the body's own lineage is eaten only with the skill for it.
pub open spec fn may_eat_cross_of_type(b: Body, body_type: u16) -> bool {
    b.body_type != body_type || b.skills.has(Skill::EatCrossesOfMyType)
}

/// An infected corpse is avoided with the skill for it.
pub open spec fn no_infected_cross(b: Body, c: Infections) -> bool {
    !b.skills.has(Skill::AvoidInfectedCrosses) || forall|v: Virus| !c.has(v)
}

impl Body {
    fn alive_when_arrived_at(&self, cfg: &Config, d_sq: u64, closing: u64) -> (r: bool)
        requires
            cfg.wf(),
            self.wf(),
        ensures
            r == alive_when_arrived(*cfg, *self, d_sq as int, closing as int),
    {
        if !self.skills.contains(Skill::AliveWhenArrived) {
            return true;
        }
        if closing == 0 {
            return false;
        }
        let t = travel_ticks(d_sq, closing);
        let spent = self.get_spent_energy(cfg, t);
        (self.energy as u128) > spent + cfg.min_energy as u128
    }

    fn profitable_when_arrived_at(&self, cfg: &Config, d_sq: u64, closing: u64, payoff: u64) -> (r: bool)
        requires
            cfg.wf(),
            self.wf(),
        ensures
            r == profitable_when_arrived(*cfg, *self, d_sq as int, closing as int, payoff as int),
    {
        if !self.skills.contains(Skill::ProfitableWhenArrived) {
            return true;
        }
        if closing == 0 {
            return false;
        }
        let t = travel_ticks(d_sq, closing);
        let spent = self.get_spent_energy(cfg, t);
        spent < payoff as u128
    }

    fn closing_on(&self, target_speed: u64) -> (r: u64)
        ensures
            r == closing_speed(self.speed as int, target_speed as int),
    {
        if self.speed > target_speed { self.speed - target_speed } else { 0 }
    }

    /// AliveWhenArrived against a corpse.
    pub fn handle_alive_when_arrived_cross(&self, cfg: &Config, cross: &Cross) -> (r: bool)
        requires
            cfg.wf(),
            self.wf(),
            cross.wf(),
        ensures
            r == alive_when_arrived(*cfg, *self, dist_sq(self.pos, cross.pos), self.speed as int),
    {
        self.alive_when_arrived_at(cfg, distance_sq(self.pos, cross.pos), self.speed)
    }

    /// AliveWhenArrived against a plant.
    pub fn handle_alive_when_arrived_plant(&self, cfg: &Config, plant: &Plant) -> (r: bool)
        requires
            cfg.wf(),
            self.wf(),
            plant.wf(),
        ensures
            r == alive_when_arrived(*cfg, *self, dist_sq(self.pos, plant.pos), self.speed as int),
    {
        self.alive_when_arrived_at(cfg, distance_sq(self.pos, plant.pos), self.speed)
    }

    /// AliveWhenArrived against another body, caught at the speed gained on
    /// it; fails when the body does not gain on it.
    pub fn handle_alive_when_arrived_body(&self, cfg: &Config, other_body: &Body) -> (r: bool)
        requires
            cfg.wf(),
            self.wf(),
            other_body.wf(),
        ensures
            r == alive_when_arrived(
                *cfg,
                *self,
                dist_sq(self.pos, other_body.pos),
                closing_speed(self.speed as int, other_body.speed as int),
            ),
    {
        let closing = self.closing_on(other_body.speed);
        self.alive_when_arrived_at(cfg, distance_sq(self.pos, other_body.pos), closing)
    }

    /// ProfitableWhenArrived against a corpse.
    pub fn handle_profitable_when_arrived_cross(&self, cfg: &Config, cross: &Cross) -> (r: bool)
        requires
            cfg.wf(),
            self.wf(),
            cross.wf(),
        ensures
            r == profitable_when_arrived(*cfg, *self, dist_sq(self.pos, cross.pos), self.speed as int, cross.energy as int),
    {
        self.profitable_when_arrived_at(cfg, distance_sq(self.pos, cross.pos), self.speed, cross.energy)
    }

    /// ProfitableWhenArrived against a plant.
    pub fn handle_profitable_when_arrived_plant(&self, cfg: &Config, plant: &Plant) -> (r: bool)
        requires
            cfg.wf(),
            self.wf(),
            plant.wf(),
        ensures
            r == profitable_when_arrived(
                *cfg,
                *self,
                dist_sq(self.pos, plant.pos),
                self.speed as int,
                plant_energy(*cfg, plant.kind, plant.size as int),
            ),
    {
        let payoff = plant.get_contained_energy(cfg);
        self.profitable_when_arrived_at(cfg, distance_sq(self.pos, plant.pos), self.speed, payoff)
    }

    /// ProfitableWhenArrived against another body; fails when the body does
    /// not gain on it.
    pub fn handle_profitable_when_arrived_body(&self, cfg: &Config, other_body: &Body) -> (r: bool)
        requires
            cfg.wf(),
            self.wf(),
            other_body.wf(),
        ensures
            r == profitable_when_arrived(
                *cfg,
                *self,
                dist_sq(self.pos, other_body.pos),
                closing_speed(self.speed as int, other_body.speed as int),
                other_body.energy as int,
            ),
    {
        let closing = self.closing_on(other_body.speed);
        self.profitable_when_arrived_at(cfg, distance_sq(self.pos, other_body.pos), closing, other_body.energy)
    }

    /// AvoidNewViruses against a corpse.
    pub fn handle_avoid_new_viruses_cross(&self, cross: &Cross) -> (r: bool)
        ensures
            r == no_new_viruses(*self, cross.viruses),
    {
        self.avoids_new(&cross.viruses)
    }

    /// AvoidNewViruses against another body.
    pub fn handle_avoid_new_viruses_body(&self, other_body: &Body) -> (r: bool)
        ensures
            r == no_new_viruses(*self, other_body.viruses),
    {
        self.avoids_new(&other_body.viruses)
    }

    fn avoids_new(&self, target: &Infections) -> (r: bool)
        ensures
            r == no_new_viruses(*self, *target),
    {
        if !self.skills.contains(Skill::AvoidNewViruses) {
            return true;
        }
        let r = (!target.contains_key(Virus::SpeedVirus) || self.viruses.contains_key(Virus::SpeedVirus))
            && (!target.contains_key(Virus::VisionVirus) || self.viruses.contains_key(Virus::VisionVirus));
        proof {
            if r {
                assert forall|v: Virus| target.has(v) implies self.viruses.has(v) by {
                    match v {
                        Virus::SpeedVirus => {},
                        Virus::VisionVirus => {},
                    }
                }
            }
        }
        r
    }

    /// AvoidInfectedCrosses against a corpse.
    pub fn handle_avoid_infected_crosses(&self, cross: &Cross) -> (r: bool)
        ensures
            r == no_infected_cross(*self, cross.viruses),
    {
        !self.skills.contains(Skill::AvoidInfectedCrosses) || cross.viruses.is_empty()
    }

    /// DoNotCompeteWithRelatives against the pursuers of a target.
    pub fn handle_do_not_compete_with_relatives(&self, followed_by: &Vec<Pursuer>) -> (r: bool)
        ensures
            r == no_relative_competes(*self, followed_by@),
    {
        if !self.skills.contains(Skill::DoNotCompeteWithRelatives) {
            return true;
        }
        let mut k: usize = 0;
        while k < followed_by.len()
            invariant
                k <= followed_by@.len(),
                self.skills.has(Skill::DoNotCompeteWithRelatives),
                forall|m: int| 0 <= m < k ==> (#[trigger] followed_by@[m]).id == self.id || followed_by@[m].body_type != self.body_type,
            decreases followed_by@.len() - k,
        {
            let p = &followed_by[k];
            if p.id != self.id && p.body_type == self.body_type {
                return false;
            }
            k = k + 1;
        }
        true
    }

    /// EatCrossesOfMyType against a corpse.
    pub fn handle_eat_crosses_of_my_type(&self, cross: &Cross) -> (r: bool)
        ensures
            r == may_eat_cross_of_type(*self, cross.body_type),
    {
        self.body_type != cross.body_type || self.skills.contains(Skill::EatCrossesOfMyType)
    }

    fn will_arrive_first_at_rest(&self, target: Pos, followed_by: &Vec<Pursuer>) -> (r: bool)
        requires
            self.wf(),
            target.in_range(),
            pursuers_wf(followed_by@),
        ensures
            r == arrives_first_at_rest(*self, target, followed_by@),
    {
        if !self.skills.contains(Skill::WillArriveFirst) {
            return true;
        }
        if self.speed == 0 {
            return false;
        }
        let mine = travel_ticks(distance_sq(self.pos, target), self.speed);
        let mut k: usize = 0;
        while k < followed_by.len()
            invariant
                k <= followed_by@.len(),
                self.wf(),
                target.in_range(),
                pursuers_wf(followed_by@),
                self.speed > 0,
                self.skills.has(Skill::WillArriveFirst),
                mine == travel_time(dist_sq(self.pos, target), self.speed as int),
                forall|m: int| 0 <= m < k ==> (#[trigger] followed_by@[m]).id == self.id || followed_by@[m].speed == 0
                    || mine < travel_time(dist_sq(followed_by@[m].pos, target), followed_by@[m].speed as int),
            decreases followed_by@.len() - k,
        {
            let p = &followed_by[k];
            assert(p.pos.in_range() && p.speed <= MAX_SPEED);
            if p.id != self.id && p.speed != 0 {
                let theirs = travel_ticks(distance_sq(p.pos, target), p.speed);
                if mine >= theirs {
                    return false;
                }
            }
            k = k + 1;
        }
        true
    }

    /// WillArriveFirst against a corpse.
    pub fn handle_will_arrive_first_cross(&self, cross: &Cross) -> (r: bool)
        requires
            self.wf(),
            cross.wf(),
        ensures
            r == arrives_first_at_rest(*self, cross.pos, cross.followed_by@),
    {
        self.will_arrive_first_at_rest(cross.pos, &cross.followed_by)
    }

    /// WillArriveFirst against a plant.
    pub fn handle_will_arrive_first_plant(&self, plant: &Plant) -> (r: bool)
        requires
            self.wf(),
            plant.wf(),
        ensures
            r == arrives_first_at_rest(*self, plant.pos, plant.followed_by@),
    {
        self.will_arrive_first_at_rest(plant.pos, &plant.followed_by)
    }

    /// WillArriveFirst against another body, each pursuer gaining on it at
    /// its own closing speed.
    pub fn handle_will_arrive_first_body(&self, other_body: &Body) -> (r: bool)
        requires
            self.wf(),
            other_body.wf(),
        ensures
            r == arrives_first_moving(*self, other_body.pos, other_body.speed as int, other_body.followed_by@),
    {
        if !self.skills.contains(Skill::WillArriveFirst) {
            return true;
        }
        let closing = self.closing_on(other_body.speed);
        if closing == 0 {
            return false;
        }
        let target = other_body.pos;
        let f = &other_body.followed_by;
        let mine = travel_ticks(distance_sq(self.pos, target), closing);
        let mut k: usize = 0;
        while k < f.len()
            invariant
                k <= f@.len(),
                self.wf(),
                target == other_body.pos,
                f@ == other_body.followed_by@,
                target.in_range(),
                pursuers_wf(f@),
                closing > 0,
                closing == closing_speed(self.speed as int, other_body.speed as int),
                self.skills.has(Skill::WillArriveFirst),
                mine == travel_time(dist_sq(self.pos, target), closing as int),
                forall|m: int| 0 <= m < k ==> (#[trigger] f@[m]).id == self.id || (closing_speed(f@[m].speed as int, other_body.speed as int) > 0
                    && mine < travel_time(dist_sq(f@[m].pos, target), closing_speed(f@[m].speed as int, other_body.speed as int))),
            decreases f@.len() - k,
        {
            let p = &f[k];
            assert(p.pos.in_range() && p.speed <= MAX_SPEED);
            if p.id != self.id {
                if p.speed <= other_body.speed {
                    proof {
                        assert(f@[k as int] == *p);
                        assert(closing_speed(f@[k as int].speed as int, other_body.speed as int) == 0);
                    }
                    return false;
                }
                let theirs = travel_ticks(distance_sq(p.pos, target), p.speed - other_body.speed);
                if mine >= theirs {
                    proof {
                        assert(f@[k as int] == *p);
                        assert(closing_speed(f@[k as int].speed as int, other_body.speed as int) == p.speed - other_body.speed);
                    }
                    return false;
                }
            }
            k = k + 1;
        }
        true
    }
}

} // verus!
