//! Births: first-generation bodies and the offspring of a division.
use vstd::prelude::*;
use rand::rngs::StdRng;
use crate::body::{Body, EatingStrategy, Infections, SkillSet, Skill, Status, Virus};
use crate::config::{Config, MAX_ENERGY, RATE_ONE};
use crate::geometry::{Pos, MAX_COORD, MAX_SPEED};
use crate::metabolism::{params, reduced};
use crate::random::draw_below;

verus! {

/// The chance outcomes a birth needs. Offsets are taken into
/// `[0, 2 * band]`, rolls and chances are out of `RATE_ONE`.
#[derive(Clone, Copy, PartialEq, Eq, Structural, Debug)]
pub struct BirthDraws {
    pub speed: u64,
    pub vision: u64,
    pub energy: u64,
    pub division: u64,
    pub skill_change: u64,
    pub skill_add: bool,
    pub skill_pick: u64,
    pub speed_virus_roll: u64,
    pub speed_virus_progress: u64,
    pub vision_virus_roll: u64,
    pub vision_virus_progress: u64,
}

/// Half the width of the deviation band around `base`.
pub open spec fn band(base: int, deviation: int) -> int {
    base * deviation / (RATE_ONE as int)
}

/// `base` moved within its deviation band by `offset` (taken into
/// `[0, 2 * band]`, where `band` is the mid-point), capped at `max`.
pub open spec fn deviated(base: int, deviation: int, offset: int, max: int) -> int {
    let b = band(base, deviation);
    let off = if offset > 2 * b { 2 * b } else { offset };
    let v = base - b + off;
    if v > max { max } else { v }
}

/// `v` lies within the deviation band around `base`.
pub open spec fn in_band(v: int, base: int, deviation: int) -> bool {
    base - band(base, deviation) <= v <= base + band(base, deviation)
}

/// The skill set of a child: with the chance `skills_change_chance`, the
/// `skill_pick`-th absent skill (in declaration order) is added, or the
/// `skill_pick`-th held skill removed.
pub open spec fn inherited_skills(cfg: Config, s: SkillSet, d: BirthDraws) -> Set<Skill> {
    if d.skill_change < cfg.skills_change_chance {
        match s.nth_from(!d.skill_add, d.skill_pick as int, 0) {
            None => s@,
            Some(k) => if d.skill_add { s@.insert(k) } else { s@.remove(k) },
        }
    } else {
        s@
    }
}

/// `b` is `a`, or `a` with one skill added or removed.
pub open spec fn at_most_one_change(a: Set<Skill>, b: Set<Skill>) -> bool {
    b == a || exists|k: Skill| b == a.insert(k) || b == a.remove(k)
}

proof fn lemma_inherited_one_change(cfg: Config, s: SkillSet, d: BirthDraws)
    ensures
        at_most_one_change(s@, inherited_skills(cfg, s, d)),
{
    if d.skill_change < cfg.skills_change_chance {
        match s.nth_from(!d.skill_add, d.skill_pick as int, 0) {
            None => {},
            Some(k) => {
                if d.skill_add {
                    assert(inherited_skills(cfg, s, d) == s@.insert(k));
                } else {
                    assert(inherited_skills(cfg, s, d) == s@.remove(k));
                }
            },
        }
    }
}

/// The infection a first-generation body is born with, from its roll and
/// its drawn progress.
pub open spec fn first_infection(chance: int, heal: int, roll: int, progress: int) -> Option<u64> {
    if roll < chance {
        Some(if progress < heal { progress as u64 } else { 0u64 })
    } else {
        None
    }
}

/// A stat after the penalty of one infection, if carried.
pub open spec fn penalised(x: int, carried: bool, decrease: int) -> int {
    if carried { reduced(x, decrease) } else { x }
}

fn deviate(base: u64, deviation: u64, offset: u64, max: u64) -> (v: u64)
    requires
        base <= max,
        max <= MAX_ENERGY,
        deviation <= RATE_ONE,
    ensures
        v == deviated(base as int, deviation as int, offset as int, max as int),
        in_band(v as int, base as int, deviation as int),
        v <= max,
{
    proof {
        assert(0 <= base * deviation <= base * RATE_ONE) by (nonlinear_arith)
            requires
                deviation <= RATE_ONE,
        ;
        assert(base * deviation / (RATE_ONE as int) <= base) by (nonlinear_arith)
            requires
                0 <= base * deviation <= base * RATE_ONE,
        ;
    }
    let b = ((base as u128 * deviation as u128) / (RATE_ONE as u128)) as u64;
    let off = if offset > 2 * b { 2 * b } else { offset };
    let v = base - b + off;
    if v > max { max } else { v }
}

fn draw_offset(rng: &mut StdRng, base: u64, deviation: u64) -> (off: u64)
    requires
        base <= MAX_ENERGY,
        deviation <= RATE_ONE,
    ensures
        off <= 2 * band(base as int, deviation as int),
{
    proof {
        assert(0 <= base * deviation <= base * RATE_ONE) by (nonlinear_arith)
            requires
                deviation <= RATE_ONE,
        ;
        assert(base * deviation / (RATE_ONE as int) <= base) by (nonlinear_arith)
            requires
                0 <= base * deviation <= base * RATE_ONE,
        ;
    }
    let b = ((base as u128 * deviation as u128) / (RATE_ONE as u128)) as u64;
    draw_below(rng, 2 * b + 1)
}

impl Body {
    /// A body born at tick `now` with identity `id`, from the given chance
    /// outcomes. A given `energy` is that of the parent, and the body gets
    /// half of it (rounded down). Where a value is `None` the configured
    /// average is used.
    /// Speed and vision are drawn around the baselines. A first-generation
    /// body (`viruses` is `None`) then takes the penalty of every infection
    /// it is born with; inherited infections carry no new penalty, so a
    /// child's speed and vision stay in the band of the parent's undamaged
    /// baselines.
    pub fn born(
        cfg: &Config,
        id: u64,
        now: u64,
        pos: Pos,
        energy: Option<u64>,
        eating_strategy: EatingStrategy,
        division_threshold: Option<u64>,
        skills: Option<SkillSet>,
        color: u32,
        body_type: u16,
        viruses: Option<Infections>,
        initial_speed: Option<u64>,
        initial_vision_distance: Option<u64>,
        d: &BirthDraws,
    ) -> (r: Body)
        requires
            cfg.wf(),
            pos.in_range(),
            energy matches Some(e) ==> e <= MAX_ENERGY,
            division_threshold matches Some(t) ==> t <= MAX_ENERGY,
            initial_speed matches Some(s) ==> s <= MAX_SPEED,
            initial_vision_distance matches Some(v) ==> v <= MAX_COORD,
            viruses matches Some(v) ==> v.wf(),
        ensures
            r.wf(),
            r.id == id && r.born == now && r.pos == pos,
            r.eating_strategy == eating_strategy && r.color == color && r.body_type == body_type,
            r.status == Status::Idle,
            r.lifespan == cfg.lifespan,
            r.followed_by@.len() == 0,
            r.initial_speed == deviated(
                (match initial_speed { Some(s) => s, None => cfg.average_speed }) as int,
                cfg.deviation as int,
                d.speed as int,
                MAX_SPEED as int,
            ),
            r.initial_vision_distance == deviated(
                (match initial_vision_distance { Some(v) => v, None => cfg.average_vision_distance }) as int,
                cfg.deviation as int,
                d.vision as int,
                MAX_COORD as int,
            ),
            r.energy == match energy {
                Some(e) => (e / 2) as int,
                None => deviated(cfg.average_energy as int, cfg.deviation as int, d.energy as int, MAX_ENERGY as int),
            },
            r.division_threshold == deviated(
                (match division_threshold { Some(t) => t, None => cfg.average_division_threshold }) as int,
                cfg.deviation as int,
                d.division as int,
                MAX_ENERGY as int,
            ),
            r.skills@ == match skills {
                Some(s) => inherited_skills(*cfg, s, *d),
                None => Set::<Skill>::empty(),
            },
            r.viruses == match viruses {
                Some(v) => v,
                None => Infections {
                    speed_virus: first_infection(
                        cfg.speed_virus.first_generation_infection_chance as int,
                        cfg.speed_virus.heal_energy as int,
                        d.speed_virus_roll as int,
                        d.speed_virus_progress as int,
                    ),
                    vision_virus: first_infection(
                        cfg.vision_virus.first_generation_infection_chance as int,
                        cfg.vision_virus.heal_energy as int,
                        d.vision_virus_roll as int,
                        d.vision_virus_progress as int,
                    ),
                },
            },
            viruses is Some ==> r.speed == r.initial_speed && r.vision_distance == r.initial_vision_distance,
            viruses is None ==> r.speed == penalised(r.initial_speed as int, r.viruses.has(Virus::SpeedVirus), cfg.speed_virus.decrease as int),
            viruses is None ==> r.vision_distance == penalised(
                r.initial_vision_distance as int,
                r.viruses.has(Virus::VisionVirus),
                cfg.vision_virus.decrease as int,
            ),
    {
        let base_speed = match initial_speed {
            Some(s) => s,
            None => cfg.average_speed,
        };
        let speed = deviate(base_speed, cfg.deviation, d.speed, MAX_SPEED);
        let base_vision = match initial_vision_distance {
            Some(v) => v,
            None => cfg.average_vision_distance,
        };
        let vision = deviate(base_vision, cfg.deviation, d.vision, MAX_COORD as u64);
        let e = match energy {
            Some(e) => e / 2,
            None => deviate(cfg.average_energy, cfg.deviation, d.energy, MAX_ENERGY),
        };
        let base_division = match division_threshold {
            Some(t) => t,
            None => cfg.average_division_threshold,
        };
        let division = deviate(base_division, cfg.deviation, d.division, MAX_ENERGY);
        let new_skills = match skills {
            Some(s) => {
                let mut s2 = s;
                if d.skill_change < cfg.skills_change_chance {
                    match s.pick(!d.skill_add, d.skill_pick) {
                        None => {},
                        Some(k) => {
                            if d.skill_add {
                                s2.insert(k);
                            } else {
                                s2.remove(k);
                            }
                        },
                    }
                }
                proof {
                    assert(s2@ =~= inherited_skills(*cfg, s, *d));
                }
                s2
            },
            None => {
                let s2 = SkillSet::new();
                proof {
                    assert(s2@ =~= Set::<Skill>::empty());
                }
                s2
            },
        };
        let infections = match viruses {
            Some(v) => v,
            None => {
                let sp = if d.speed_virus_roll < cfg.speed_virus.first_generation_infection_chance {
                    Some(if d.speed_virus_progress < cfg.speed_virus.heal_energy { d.speed_virus_progress } else { 0 })
                } else {
                    None
                };
                let vi = if d.vision_virus_roll < cfg.vision_virus.first_generation_infection_chance {
                    Some(if d.vision_virus_progress < cfg.vision_virus.heal_energy { d.vision_virus_progress } else { 0 })
                } else {
                    None
                };
                Infections { speed_virus: sp, vision_virus: vi }
            },
        };
        let mut body = Body {
            id,
            born: now,
            pos,
            energy: e,
            speed,
            vision_distance: vision,
            eating_strategy,
            division_threshold: division,
            skills: new_skills,
            viruses: infections,
            color,
            status: Status::Idle,
            body_type,
            lifespan: cfg.lifespan,
            initial_speed: speed,
            initial_vision_distance: vision,
            followed_by: Vec::new(),
        };
        proof {
            assert forall|v: Virus| (#[trigger] body.viruses.progress(v) matches Some(p) ==> p <= MAX_ENERGY) by {
                if viruses is Some {
                    assert(viruses.unwrap().progress(v) matches Some(p) ==> p <= MAX_ENERGY);
                }
            }
        }
        if viruses.is_none() {
            if body.viruses.contains_key(Virus::SpeedVirus) {
                body.apply_virus(cfg, Virus::SpeedVirus);
            }
            if body.viruses.contains_key(Virus::VisionVirus) {
                body.apply_virus(cfg, Virus::VisionVirus);
            }
        }
        body
    }

    /// A body born at tick `now` with identity `id`, its chance outcomes
    /// drawn from `rng`. A given `energy` is that of the parent, and the
    /// body gets half of it (rounded down). Where a value is `None` the
    /// configured average is used; speed, vision and division threshold fall
    /// in the deviation band of their baselines.
    pub fn new(
        cfg: &Config,
        id: u64,
        now: u64,
        pos: Pos,
        energy: Option<u64>,
        eating_strategy: EatingStrategy,
        division_threshold: Option<u64>,
        skills: Option<SkillSet>,
        color: u32,
        body_type: u16,
        viruses: Option<Infections>,
        initial_speed: Option<u64>,
        initial_vision_distance: Option<u64>,
        rng: &mut StdRng,
    ) -> (r: Body)
        requires
            cfg.wf(),
            pos.in_range(),
            energy matches Some(e) ==> e <= MAX_ENERGY,
            division_threshold matches Some(t) ==> t <= MAX_ENERGY,
            initial_speed matches Some(s) ==> s <= MAX_SPEED,
            initial_vision_distance matches Some(v) ==> v <= MAX_COORD,
            viruses matches Some(v) ==> v.wf(),
        ensures
            r.wf(),
            r.id == id && r.born == now && r.pos == pos,
            r.eating_strategy == eating_strategy && r.color == color && r.body_type == body_type,
            r.status == Status::Idle,
            r.followed_by@.len() == 0,
            r.lifespan == cfg.lifespan,
            energy matches Some(e) ==> r.energy == e / 2,
            viruses matches Some(v) ==> r.viruses == v,
            skills is None ==> r.skills@ == Set::<Skill>::empty(),
            skills matches Some(k) ==> at_most_one_change(k@, r.skills@),
            viruses is None ==> forall|v: Virus| #[trigger] r.viruses.progress(v) matches Some(p)
                ==> p < params(*cfg, v).heal_energy || p == 0,
            viruses is Some ==> r.speed == r.initial_speed && r.vision_distance == r.initial_vision_distance,
            viruses is None ==> r.speed == penalised(r.initial_speed as int, r.viruses.has(Virus::SpeedVirus), cfg.speed_virus.decrease as int),
            viruses is None ==> r.vision_distance == penalised(
                r.initial_vision_distance as int,
                r.viruses.has(Virus::VisionVirus),
                cfg.vision_virus.decrease as int,
            ),
            in_band(
                r.initial_speed as int,
                (match initial_speed { Some(s) => s, None => cfg.average_speed }) as int,
                cfg.deviation as int,
            ),
            in_band(
                r.initial_vision_distance as int,
                (match initial_vision_distance { Some(v) => v, None => cfg.average_vision_distance }) as int,
                cfg.deviation as int,
            ),
            in_band(
                r.division_threshold as int,
                (match division_threshold { Some(t) => t, None => cfg.average_division_threshold }) as int,
                cfg.deviation as int,
            ),
    {
        let base_speed = match initial_speed {
            Some(s) => s,
            None => cfg.average_speed,
        };
        let base_vision = match initial_vision_distance {
            Some(v) => v,
            None => cfg.average_vision_distance,
        };
        let base_division = match division_threshold {
            Some(t) => t,
            None => cfg.average_division_threshold,
        };
        let speed = draw_offset(rng, base_speed, cfg.deviation);
        let vision = draw_offset(rng, base_vision, cfg.deviation);
        let e = draw_offset(rng, cfg.average_energy, cfg.deviation);
        let division = draw_offset(rng, base_division, cfg.deviation);
        let skill_change = draw_below(rng, RATE_ONE);
        let skill_add = draw_below(rng, 2) == 1;
        let candidates = match skills {
            Some(s) => s.count_matching(!skill_add),
            None => 0,
        };
        let skill_pick = if candidates > 0 { draw_below(rng, candidates) } else { 0 };
        let speed_virus_roll = draw_below(rng, RATE_ONE);
        let speed_virus_progress = if cfg.speed_virus.heal_energy > 0 {
            draw_below(rng, cfg.speed_virus.heal_energy)
        } else {
            0
        };
        let vision_virus_roll = draw_below(rng, RATE_ONE);
        let vision_virus_progress = if cfg.vision_virus.heal_energy > 0 {
            draw_below(rng, cfg.vision_virus.heal_energy)
        } else {
            0
        };
        let d = BirthDraws {
            speed,
            vision,
            energy: e,
            division,
            skill_change,
            skill_add,
            skill_pick,
            speed_virus_roll,
            speed_virus_progress,
            vision_virus_roll,
            vision_virus_progress,
        };
        let r = Body::born(
            cfg,
            id,
            now,
            pos,
            energy,
            eating_strategy,
            division_threshold,
            skills,
            color,
            body_type,
            viruses,
            initial_speed,
            initial_vision_distance,
            &d,
        );
        proof {
            if let Some(k) = skills {
                lemma_inherited_one_change(*cfg, k, d);
            }
            assert forall|v: Virus| viruses is None implies (#[trigger] r.viruses.progress(v) matches Some(p) ==> p < params(*cfg, v).heal_energy || p == 0) by {
                match v {
                    Virus::SpeedVirus => {},
                    Virus::VisionVirus => {},
                }
            }
            lemma_deviated_in_band(base_speed as int, cfg.deviation as int, speed as int, MAX_SPEED as int);
            lemma_deviated_in_band(base_vision as int, cfg.deviation as int, vision as int, MAX_COORD as int);
            lemma_deviated_in_band(base_division as int, cfg.deviation as int, division as int, MAX_ENERGY as int);
        }
        r
    }
}

/// `c` is a child of `parent` born at tick `now` with identity `id` and
/// energy `energy`: the parent's place, strategy, lineage, colour and
/// infections (progress as it is), idle, unpursued, with the configured
/// lifespan, at most one skill changed, and speed and vision in the
/// deviation band of the parent's undamaged baselines.
pub open spec fn child_of(cfg: Config, parent: Body, c: Body, id: u64, now: u64, energy: int) -> bool {
    &&& c.wf()
    &&& c.id == id && c.born == now && c.energy == energy
    &&& c.pos == parent.pos && c.body_type == parent.body_type && c.color == parent.color
    &&& c.eating_strategy == parent.eating_strategy
    &&& c.viruses == parent.viruses
    &&& c.status == Status::Idle && c.followed_by@.len() == 0 && c.lifespan == cfg.lifespan
    &&& at_most_one_change(parent.skills@, c.skills@)
    &&& c.speed == c.initial_speed && c.vision_distance == c.initial_vision_distance
    &&& in_band(c.initial_speed as int, parent.initial_speed as int, cfg.deviation as int)
    &&& in_band(c.initial_vision_distance as int, parent.initial_vision_distance as int, cfg.deviation as int)
}

impl Body {
    /// Whether the body has enough energy to divide.
    pub open spec fn divides(&self) -> bool {
        self.energy > self.division_threshold
    }

    /// The two children of a division at tick `now`, with identities `id`
    /// and `id + 1`: half the parent's energy each (rounded down), its
    /// strategy, threshold, skills, colour,
    /// lineage and infections, and speed and vision drawn around its
    /// undamaged baselines.
    pub fn offspring(&self, cfg: &Config, id: u64, now: u64, rng: &mut StdRng) -> (r: (Body, Body))
        requires
            cfg.wf(),
            self.wf(),
            id < u64::MAX,
        ensures
            child_of(*cfg, *self, r.0, id, now, (self.energy / 2) as int),
            child_of(*cfg, *self, r.1, (id + 1) as u64, now, (self.energy / 2) as int),
            r.0.energy + r.1.energy == self.energy - self.energy % 2,
    {
        let a = Body::new(
            cfg,
            id,
            now,
            self.pos,
            Some(self.energy),
            self.eating_strategy,
            Some(self.division_threshold),
            Some(self.skills),
            self.color,
            self.body_type,
            Some(self.viruses),
            Some(self.initial_speed),
            Some(self.initial_vision_distance),
            rng,
        );
        let b = Body::new(
            cfg,
            id + 1,
            now,
            self.pos,
            Some(self.energy),
            self.eating_strategy,
            Some(self.division_threshold),
            Some(self.skills),
            self.color,
            self.body_type,
            Some(self.viruses),
            Some(self.initial_speed),
            Some(self.initial_vision_distance),
            rng,
        );
        (a, b)
    }

    /// Division: when the energy exceeds the division threshold, the two
    /// children (see `offspring`) that replace the body; otherwise `None`.
    pub fn handle_procreation(&self, cfg: &Config, id: u64, now: u64, rng: &mut StdRng) -> (r: Option<(Body, Body)>)
        requires
            cfg.wf(),
            self.wf(),
            id < u64::MAX,
        ensures
            r is Some <==> self.divides(),
            r matches Some(c) ==> child_of(*cfg, *self, c.0, id, now, (self.energy / 2) as int)
                && child_of(*cfg, *self, c.1, (id + 1) as u64, now, (self.energy / 2) as int)
                && c.0.energy + c.1.energy == self.energy - self.energy % 2,
    {
        if self.energy > self.division_threshold {
            Some(self.offspring(cfg, id, now, rng))
        } else {
            None
        }
    }
}

proof fn lemma_deviated_in_band(base: int, deviation: int, offset: int, max: int)
    requires
        0 <= base <= max,
        0 <= deviation <= RATE_ONE,
        0 <= offset,
    ensures
        in_band(deviated(base, deviation, offset, max), base, deviation),
{
    assert(0 <= base * deviation <= base * RATE_ONE) by (nonlinear_arith)
        requires
            0 <= deviation <= RATE_ONE,
            0 <= base,
    ;
    assert(0 <= base * deviation / (RATE_ONE as int) <= base) by (nonlinear_arith)
        requires
            0 <= base * deviation <= base * RATE_ONE,
    ;
}

} // verus!
