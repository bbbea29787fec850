//! What a body spends and loses each tick: healing, upkeep and lifespan, and
//! the stat penalties of infections.
use vstd::prelude::*;
use crate::body::{Body, Infections, Status, Virus};
use crate::config::{Config, VirusParams, MAX_ENERGY, RATE_ONE};
use crate::geometry::{MAX_COORD, MAX_SPEED};

verus! {

/// The tunables of an infection.
pub open spec fn params(cfg: Config, v: Virus) -> VirusParams {
    match v {
        Virus::SpeedVirus => cfg.speed_virus,
        Virus::VisionVirus => cfg.vision_virus,
    }
}

/// The tunables of an infection.
pub fn virus_params(cfg: &Config, v: Virus) -> (p: VirusParams)
    ensures
        p == params(*cfg, v),
{
    match v {
        Virus::SpeedVirus => cfg.speed_virus,
        Virus::VisionVirus => cfg.vision_virus,
    }
}

/// A stat after losing the share `decrease` (out of `RATE_ONE`) of it.
pub open spec fn reduced(x: int, decrease: int) -> int {
    x - x * decrease / (RATE_ONE as int)
}

/// Energy spent each tick whatever the body does: for its mass, its skills
/// and its vision.
pub open spec fn base_upkeep(cfg: Config, b: Body) -> int {
    (cfg.mass_cost * b.energy + cfg.vision_cost * b.vision_distance * b.vision_distance) / (RATE_ONE as int)
        + cfg.skill_cost * b.skills.count()
}

/// Energy spent on one tick of movement at `speed` with `energy`.
pub open spec fn movement_upkeep(cfg: Config, speed: int, energy: int) -> int {
    cfg.movement_cost * speed * speed * energy / (RATE_ONE as int)
}

/// Energy a body expects to spend over `t` ticks of travel.
pub open spec fn spent_energy(cfg: Config, b: Body, t: int) -> int {
    t * movement_upkeep(cfg, b.speed as int, b.energy as int) + base_upkeep(cfg, b)
}

/// The energy left after one tick of upkeep; at most zero means exhausted.
pub open spec fn after_upkeep(cfg: Config, b: Body) -> int {
    let e1 = b.energy - base_upkeep(cfg, b);
    if e1 <= 0 || b.status == Status::Idle {
        e1
    } else {
        e1 - movement_upkeep(cfg, b.speed as int, e1)
    }
}

/// The energy left after one tick of healing every infection carried.
pub open spec fn after_healing(cfg: Config, i: Infections, energy: int) -> int {
    let drain = (if i.has(Virus::SpeedVirus) { cfg.speed_virus.energy_spent_for_healing as int } else { 0 })
        + (if i.has(Virus::VisionVirus) { cfg.vision_virus.energy_spent_for_healing as int } else { 0 });
    if energy - drain < 0 { 0 } else { energy - drain }
}

/// The progress of an infection after one tick of healing: `None` once it is
/// cured.
pub open spec fn healed(cfg: Config, i: Infections, v: Virus) -> Option<u64> {
    match i.progress(v) {
        None => None,
        Some(p) => {
            let q = p + params(cfg, v).energy_spent_for_healing;
            if q >= params(cfg, v).heal_energy {
                None
            } else {
                Some(q as u64)
            }
        },
    }
}

proof fn lemma_product_bound(a: int, b: int, ma: int, mb: int)
    requires
        0 <= a <= ma,
        0 <= b <= mb,
    ensures
        0 <= a * b <= ma * mb,
{
    assert(0 <= a * b <= ma * mb) by (nonlinear_arith)
        requires
            0 <= a <= ma,
            0 <= b <= mb,
    ;
}

/// Energy spent on one tick of movement at `speed` with `energy`.
pub fn movement_cost(cfg: &Config, speed: u64, energy: u64) -> (r: u128)
    requires
        cfg.wf(),
        speed <= MAX_SPEED,
        energy <= MAX_ENERGY,
    ensures
        r == movement_upkeep(*cfg, speed as int, energy as int),
        r <= MAX_SPEED * MAX_SPEED * MAX_ENERGY,
{
    let c = cfg.movement_cost as u128;
    let s = speed as u128;
    let e = energy as u128;
    proof {
        lemma_product_bound(c as int, s as int, RATE_ONE as int, MAX_SPEED as int);
        lemma_product_bound(c * s, s as int, RATE_ONE * MAX_SPEED, MAX_SPEED as int);
        lemma_product_bound(c * s * s, e as int, RATE_ONE * MAX_SPEED * MAX_SPEED, MAX_ENERGY as int);
        let x = c * s * s * e;
        assert(x / (RATE_ONE as int) <= MAX_SPEED * MAX_SPEED * MAX_ENERGY) by (nonlinear_arith)
            requires
                0 <= x <= RATE_ONE * MAX_SPEED * MAX_SPEED * MAX_ENERGY,
        ;
    }
    c * s * s * e / (RATE_ONE as u128)
}

impl Body {
    /// Energy spent each tick whatever the body does.
    pub fn base_cost(&self, cfg: &Config) -> (r: u128)
        requires
            cfg.wf(),
            self.wf(),
        ensures
            r == base_upkeep(*cfg, *self),
            r <= 4 * MAX_ENERGY * MAX_ENERGY,
    {
        let n = self.skills.len();
        proof {
            lemma_product_bound(cfg.mass_cost as int, self.energy as int, RATE_ONE as int, MAX_ENERGY as int);
        }
        let m = cfg.mass_cost as u128 * self.energy as u128;
        let v = self.vision_distance as u128;
        proof {
            lemma_product_bound(cfg.vision_cost as int, v as int, RATE_ONE as int, MAX_COORD as int);
            lemma_product_bound(cfg.vision_cost * v, v as int, RATE_ONE * MAX_COORD, MAX_COORD as int);
            lemma_product_bound(cfg.skill_cost as int, n as int, MAX_ENERGY as int, 8);
            let x = m + cfg.vision_cost * v * v;
            assert(x / (RATE_ONE as int) <= x) by (nonlinear_arith)
                requires
                    x >= 0,
            ;
        }
        (m + cfg.vision_cost as u128 * v * v) / (RATE_ONE as u128) + cfg.skill_cost as u128 * n as u128
    }

    /// Energy the body expects to spend over `time` ticks of travel.
    pub fn get_spent_energy(&self, cfg: &Config, time: u64) -> (r: u128)
        requires
            cfg.wf(),
            self.wf(),
            time <= 4294967296,
        ensures
            r == spent_energy(*cfg, *self, time as int),
            r <= 4294967296 * MAX_SPEED * MAX_SPEED * MAX_ENERGY + 4 * MAX_ENERGY * MAX_ENERGY,
    {
        let mv = movement_cost(cfg, self.speed, self.energy);
        let base = self.base_cost(cfg);
        proof {
            lemma_product_bound(time as int, mv as int, 4294967296, MAX_SPEED * MAX_SPEED * MAX_ENERGY);
        }
        time as u128 * mv + base
    }

    /// The permanent stat penalty of catching an infection.
    pub fn apply_virus(&mut self, cfg: &Config, virus: Virus)
        requires
            cfg.wf(),
            old(self).wf(),
        ensures
            final(self).wf(),
            virus == Virus::SpeedVirus ==> final(self).speed == reduced(old(self).speed as int, cfg.speed_virus.decrease as int)
                && final(self).vision_distance == old(self).vision_distance,
            virus == Virus::VisionVirus ==> final(self).vision_distance == reduced(old(self).vision_distance as int, cfg.vision_virus.decrease as int)
                && final(self).speed == old(self).speed,
            *final(self) == (Body { speed: final(self).speed, vision_distance: final(self).vision_distance, ..*old(self) }),
    {
        match virus {
            Virus::SpeedVirus => {
                let x = self.speed;
                let d = cfg.speed_virus.decrease;
                proof {
                    lemma_product_bound(x as int, d as int, MAX_SPEED as int, RATE_ONE as int);
                    assert(x * d / (RATE_ONE as int) <= x) by (nonlinear_arith)
                        requires
                            0 <= d <= RATE_ONE,
                            x >= 0,
                    ;
                }
                self.speed = x - ((x as u128 * d as u128) / (RATE_ONE as u128)) as u64;
            },
            Virus::VisionVirus => {
                let x = self.vision_distance;
                let d = cfg.vision_virus.decrease;
                proof {
                    lemma_product_bound(x as int, d as int, MAX_COORD as int, RATE_ONE as int);
                    assert(x * d / (RATE_ONE as int) <= x) by (nonlinear_arith)
                        requires
                            0 <= d <= RATE_ONE,
                            x >= 0,
                    ;
                }
                self.vision_distance = x - ((x as u128 * d as u128) / (RATE_ONE as u128)) as u64;
            },
        }
    }

    /// Catches every infection of `viruses` not carried yet, with no healing
    /// progress, and takes its stat penalty at once.
    pub fn get_viruses(&mut self, cfg: &Config, viruses: &Infections)
        requires
            cfg.wf(),
            old(self).wf(),
        ensures
            final(self).wf(),
            forall|v: Virus| #[trigger] final(self).viruses.progress(v) == if old(self).viruses.has(v) {
                old(self).viruses.progress(v)
            } else if viruses.has(v) {
                Some(0u64)
            } else {
                None
            },
            final(self).speed == if viruses.has(Virus::SpeedVirus) && !old(self).viruses.has(Virus::SpeedVirus) {
                reduced(old(self).speed as int, cfg.speed_virus.decrease as int)
            } else {
                old(self).speed as int
            },
            final(self).vision_distance == if viruses.has(Virus::VisionVirus) && !old(self).viruses.has(Virus::VisionVirus) {
                reduced(old(self).vision_distance as int, cfg.vision_virus.decrease as int)
            } else {
                old(self).vision_distance as int
            },
            *final(self) == (Body {
                speed: final(self).speed,
                vision_distance: final(self).vision_distance,
                viruses: final(self).viruses,
                ..*old(self)
            }),
    {
        if viruses.contains_key(Virus::SpeedVirus) && !self.viruses.contains_key(Virus::SpeedVirus) {
            self.viruses.set(Virus::SpeedVirus, Some(0));
            self.apply_virus(cfg, Virus::SpeedVirus);
        }
        if viruses.contains_key(Virus::VisionVirus) && !self.viruses.contains_key(Virus::VisionVirus) {
            self.viruses.set(Virus::VisionVirus, Some(0));
            self.apply_virus(cfg, Virus::VisionVirus);
        }
        proof {
            assert forall|v: Virus| (#[trigger] self.viruses.progress(v) matches Some(p) ==> p <= MAX_ENERGY) by {
                assert(old(self).viruses.progress(v) matches Some(p) ==> p <= MAX_ENERGY);
            }
        }
    }

    /// One tick of healing: each infection carried costs its healing energy
    /// (energy floored at zero) and adds it to its progress; an infection is
    /// dropped once its progress reaches its cure threshold. The stat
    /// penalties stay.
    pub fn handle_viruses(&mut self, cfg: &Config)
        requires
            cfg.wf(),
            old(self).wf(),
        ensures
            final(self).wf(),
            final(self).energy == after_healing(*cfg, old(self).viruses, old(self).energy as int),
            forall|v: Virus| #[trigger] final(self).viruses.progress(v) == healed(*cfg, old(self).viruses, v),
            forall|v: Virus| #[trigger] final(self).viruses.progress(v) matches Some(q)
                ==> old(self).viruses.progress(v) matches Some(p) && p <= q,
            *final(self) == (Body { energy: final(self).energy, viruses: final(self).viruses, ..*old(self) }),
    {
        let ghost v0 = self.viruses;
        let ghost e0 = self.energy;
        self.heal_one(cfg, Virus::SpeedVirus);
        self.heal_one(cfg, Virus::VisionVirus);
        proof {
            assert(self.viruses.progress(Virus::SpeedVirus) == healed(*cfg, v0, Virus::SpeedVirus));
            assert(self.viruses.progress(Virus::VisionVirus) == healed(*cfg, v0, Virus::VisionVirus));
            assert forall|v: Virus| #[trigger] self.viruses.progress(v) == healed(*cfg, v0, v) by {
                match v {
                    Virus::SpeedVirus => {},
                    Virus::VisionVirus => {},
                }
            }
            assert forall|v: Virus| (#[trigger] self.viruses.progress(v) matches Some(q)
                ==> v0.progress(v) matches Some(p) && p <= q) by {
                match v {
                    Virus::SpeedVirus => {},
                    Virus::VisionVirus => {},
                }
            }
        }
    }

    fn heal_one(&mut self, cfg: &Config, v: Virus)
        requires
            cfg.wf(),
            old(self).wf(),
        ensures
            final(self).wf(),
            final(self).viruses.progress(v) == healed(*cfg, old(self).viruses, v),
            forall|w: Virus| w != v ==> #[trigger] final(self).viruses.progress(w) == old(self).viruses.progress(w),
            final(self).energy == if old(self).viruses.has(v) {
                let e = old(self).energy - params(*cfg, v).energy_spent_for_healing;
                if e < 0 { 0 } else { e }
            } else {
                old(self).energy as int
            },
            *final(self) == (Body { energy: final(self).energy, viruses: final(self).viruses, ..*old(self) }),
    {
        let p = virus_params(cfg, v);
        match self.viruses.get(v) {
            None => {},
            Some(progress) => {
                let cost = p.energy_spent_for_healing;
                self.energy = if self.energy > cost { self.energy - cost } else { 0 };
                let q = progress + cost;
                if q >= p.heal_energy {
                    self.viruses.set(v, None);
                } else {
                    self.viruses.set(v, Some(q));
                }
                proof {
                    assert forall|w: Virus| (#[trigger] self.viruses.progress(w) matches Some(x) ==> x <= MAX_ENERGY) by {
                        assert(old(self).viruses.progress(w) matches Some(y) ==> y <= MAX_ENERGY);
                    }
                }
            },
        }
    }

    /// While the body is not idle, its lifespan shrinks by
    /// `lifespan_cost * speed^2 * energy` (floored at zero).
    pub fn handle_lifespan(&mut self, cfg: &Config)
        requires
            cfg.wf(),
            old(self).wf(),
        ensures
            final(self).wf(),
            final(self).lifespan == if old(self).status == Status::Idle {
                old(self).lifespan as int
            } else {
                let l = old(self).lifespan - cfg.lifespan_cost * old(self).speed * old(self).speed * old(self).energy
                    / (RATE_ONE as int);
                if l < 0 { 0 } else { l }
            },
            *final(self) == (Body { lifespan: final(self).lifespan, ..*old(self) }),
    {
        if self.status != Status::Idle {
            let c = cfg.lifespan_cost as u128;
            let s = self.speed as u128;
            let e = self.energy as u128;
            proof {
                lemma_product_bound(c as int, s as int, RATE_ONE as int, MAX_SPEED as int);
                lemma_product_bound(c * s, s as int, RATE_ONE * MAX_SPEED, MAX_SPEED as int);
                lemma_product_bound(c * s * s, e as int, RATE_ONE * MAX_SPEED * MAX_SPEED, MAX_ENERGY as int);
            }
            let loss = c * s * s * e / (RATE_ONE as u128);
            self.lifespan = if (self.lifespan as u128) > loss { (self.lifespan as u128 - loss) as u64 } else { 0 };
        }
    }

    /// One tick of upkeep: the base cost always, then the cost of movement
    /// on what is left unless idle. Returns whether the body has run out of
    /// energy; its energy is then zero.
    pub fn handle_energy(&mut self, cfg: &Config) -> (exhausted: bool)
        requires
            cfg.wf(),
            old(self).wf(),
        ensures
            final(self).wf(),
            exhausted == (after_upkeep(*cfg, *old(self)) <= 0),
            final(self).energy == if exhausted { 0 } else { after_upkeep(*cfg, *old(self)) },
            *final(self) == (Body { energy: final(self).energy, ..*old(self) }),
    {
        let base = self.base_cost(cfg);
        if base >= self.energy as u128 {
            self.energy = 0;
            return true;
        }
        let e1 = (self.energy as u128 - base) as u64;
        if self.status == Status::Idle {
            self.energy = e1;
            return false;
        }
        let mv = movement_cost(cfg, self.speed, e1);
        if mv >= e1 as u128 {
            self.energy = 0;
            true
        } else {
            self.energy = (e1 as u128 - mv) as u64;
            false
        }
    }
}

} // verus!
