//! The simulated world: the grid, the bodies, the food stores, and the
//! choices a body makes among what it sees.
use vstd::prelude::*;
use crate::body::{Body, Pursuer, Skill, pursuers_wf};
use crate::config::Config;
use crate::food::{Cross, Plant, PlantKind, plant_energy};
use crate::geometry::{Pos, dist_sq, distance_sq};
use crate::grid::Grid;
use crate::skills::{
    alive_when_arrived, arrives_first_at_rest, arrives_first_moving, closing_speed, may_eat_cross_of_type,
    no_infected_cross, no_new_viruses, no_relative_competes, profitable_when_arrived,
};
use crate::store::SpatialStore;
use crate::visibility::{sees, visible};

verus! {

/// The whole simulation state.
pub struct World {
    pub cfg: Config,
    pub grid: Grid,
    /// The flat registry of bodies.
    pub bodies: Vec<Body>,
    pub plants: SpatialStore<Plant>,
    pub crosses: SpatialStore<Cross>,
    /// The identity the next new entity gets.
    pub next_id: u64,
    /// The current tick.
    pub now: u64,
}

/// No two bodies of the sequence share an identity.
pub open spec fn ids_unique(v: Seq<Body>) -> bool {
    forall|a: int, b: int| 0 <= a < v.len() && 0 <= b < v.len() && a != b ==> (#[trigger] v[a]).id != (#[trigger] v[b]).id
}

/// A body is valid in the arena of `g` at tick `now`.
pub open spec fn body_ok(b: Body, g: Grid, now: u64) -> bool {
    b.wf() && g.contains(b.pos) && b.born <= now
}

impl World {
    /// Configuration and grid valid, every entity valid and in its place,
    /// every body's identity already issued (below `next_id`) and held by
    /// no other body.
    pub open spec fn wf(&self) -> bool {
        &&& self.cfg.wf()
        &&& self.grid.wf()
        &&& self.plants.wf(self.grid)
        &&& self.crosses.wf(self.grid)
        &&& self.plants.all_valid()
        &&& self.crosses.all_valid()
        &&& forall|k: int| 0 <= k < self.bodies@.len() ==> #[trigger] body_ok(self.bodies@[k], self.grid, self.now)
        &&& forall|k: int| 0 <= k < self.bodies@.len() ==> (#[trigger] self.bodies@[k]).id < self.next_id
        &&& ids_unique(self.bodies@)
    }
}

/// A corpse passes every gate of the body's skills.
pub open spec fn cross_eligible(cfg: Config, b: Body, c: Cross) -> bool {
    &&& may_eat_cross_of_type(b, c.body_type)
    &&& no_infected_cross(b, c.viruses)
    &&& alive_when_arrived(cfg, b, dist_sq(b.pos, c.pos), b.speed as int)
    &&& profitable_when_arrived(cfg, b, dist_sq(b.pos, c.pos), b.speed as int, c.energy as int)
    &&& no_new_viruses(b, c.viruses)
    &&& arrives_first_at_rest(b, c.pos, c.followed_by@)
    &&& no_relative_competes(b, c.followed_by@)
}

/// A plant passes every gate of the body's skills.
pub open spec fn plant_eligible(cfg: Config, b: Body, p: Plant) -> bool {
    &&& alive_when_arrived(cfg, b, dist_sq(b.pos, p.pos), b.speed as int)
    &&& profitable_when_arrived(
        cfg,
        b,
        dist_sq(b.pos, p.pos),
        b.speed as int,
        plant_energy(cfg, p.kind, p.size as int),
    )
    &&& no_relative_competes(b, p.followed_by@)
    &&& arrives_first_at_rest(b, p.pos, p.followed_by@)
}

/// Another body is prey: of another lineage, weaker, in sight, not already
/// taken this tick, and passing every gate of the body's skills.
pub open spec fn prey_eligible(cfg: Config, b: Body, o: Body, taken: Seq<u64>) -> bool {
    &&& o.body_type != b.body_type
    &&& o.id != b.id
    &&& b.energy > o.energy
    &&& dist_sq(b.pos, o.pos) <= b.vision_distance * b.vision_distance
    &&& !taken.contains(o.id)
    &&& alive_when_arrived(cfg, b, dist_sq(b.pos, o.pos), closing_speed(b.speed as int, o.speed as int))
    &&& profitable_when_arrived(
        cfg,
        b,
        dist_sq(b.pos, o.pos),
        closing_speed(b.speed as int, o.speed as int),
        o.energy as int,
    )
    &&& no_new_viruses(b, o.viruses)
    &&& arrives_first_moving(b, o.pos, o.speed as int, o.followed_by@)
    &&& no_relative_competes(b, o.followed_by@)
}

/// Slot `t` holds the nearest visible corpse that passes the body's gates.
pub open spec fn best_cross(w: World, b: Body, t: (usize, usize, usize)) -> bool {
    &&& sees(&w.crosses, b.pos, b.vision_distance as int, t.0 as int, t.1 as int, t.2 as int)
    &&& cross_eligible(w.cfg, b, w.crosses.item(t.0 as int, t.1 as int, t.2 as int))
    &&& forall|u: (usize, usize, usize)|
        sees(&w.crosses, b.pos, b.vision_distance as int, u.0 as int, u.1 as int, u.2 as int)
            && cross_eligible(w.cfg, b, #[trigger] w.crosses.item(u.0 as int, u.1 as int, u.2 as int))
            ==> dist_sq(b.pos, w.crosses.item(t.0 as int, t.1 as int, t.2 as int).pos)
                <= dist_sq(b.pos, w.crosses.item(u.0 as int, u.1 as int, u.2 as int).pos)
}

/// No visible corpse passes the body's gates.
pub open spec fn no_cross(w: World, b: Body) -> bool {
    forall|u: (usize, usize, usize)|
        sees(&w.crosses, b.pos, b.vision_distance as int, u.0 as int, u.1 as int, u.2 as int)
            ==> !cross_eligible(w.cfg, b, #[trigger] w.crosses.item(u.0 as int, u.1 as int, u.2 as int))
}

/// Slot `t` holds the plant the body goes for: a visible plant that passes
/// its gates, a banana unless no such banana is visible, and the nearest of
/// its kind among those.
pub open spec fn best_plant(w: World, b: Body, t: (usize, usize, usize)) -> bool {
    &&& sees(&w.plants, b.pos, b.vision_distance as int, t.0 as int, t.1 as int, t.2 as int)
    &&& plant_eligible(w.cfg, b, w.plants.item(t.0 as int, t.1 as int, t.2 as int))
    &&& (w.plants.item(t.0 as int, t.1 as int, t.2 as int).kind == PlantKind::Grass ==> forall|u: (usize, usize, usize)|
        sees(&w.plants, b.pos, b.vision_distance as int, u.0 as int, u.1 as int, u.2 as int)
            && plant_eligible(w.cfg, b, #[trigger] w.plants.item(u.0 as int, u.1 as int, u.2 as int))
            ==> w.plants.item(u.0 as int, u.1 as int, u.2 as int).kind == PlantKind::Grass)
    &&& forall|u: (usize, usize, usize)|
        sees(&w.plants, b.pos, b.vision_distance as int, u.0 as int, u.1 as int, u.2 as int)
            && plant_eligible(w.cfg, b, #[trigger] w.plants.item(u.0 as int, u.1 as int, u.2 as int))
            && w.plants.item(u.0 as int, u.1 as int, u.2 as int).kind == w.plants.item(t.0 as int, t.1 as int, t.2 as int).kind
            ==> dist_sq(b.pos, w.plants.item(t.0 as int, t.1 as int, t.2 as int).pos)
                <= dist_sq(b.pos, w.plants.item(u.0 as int, u.1 as int, u.2 as int).pos)
}

/// No visible plant passes the body's gates.
pub open spec fn no_plant(w: World, b: Body) -> bool {
    forall|u: (usize, usize, usize)|
        sees(&w.plants, b.pos, b.vision_distance as int, u.0 as int, u.1 as int, u.2 as int)
            ==> !plant_eligible(w.cfg, b, #[trigger] w.plants.item(u.0 as int, u.1 as int, u.2 as int))
}

/// Body `k` of the registry is the nearest eligible prey.
pub open spec fn best_prey(w: World, b: Body, taken: Seq<u64>, k: int) -> bool {
    &&& 0 <= k < w.bodies@.len()
    &&& prey_eligible(w.cfg, b, w.bodies@[k], taken)
    &&& forall|m: int| 0 <= m < w.bodies@.len() && prey_eligible(w.cfg, b, #[trigger] w.bodies@[m], taken)
        ==> dist_sq(b.pos, w.bodies@[k].pos) <= dist_sq(b.pos, w.bodies@[m].pos)
}

/// No body of the registry is eligible prey.
pub open spec fn no_prey(w: World, b: Body, taken: Seq<u64>) -> bool {
    forall|m: int| 0 <= m < w.bodies@.len() ==> !prey_eligible(w.cfg, b, #[trigger] w.bodies@[m], taken)
}

/// The chasers a fleeing body considers: only the faster ones when it has
/// the skill for it and some chaser is faster, else all.
pub open spec fn escape_candidate(b: Body, k: int) -> bool {
    let f = b.followed_by@;
    let faster_exists = exists|m: int| 0 <= m < f.len() && (#[trigger] f[m]).speed > b.speed;
    &&& 0 <= k < f.len()
    &&& (b.skills.has(Skill::PrioritizeFasterChasers) && faster_exists ==> f[k].speed > b.speed)
}

/// Whether the sequence holds the identity.
pub fn contains_id(v: &Vec<u64>, id: u64) -> (r: bool)
    ensures
        r == v@.contains(id),
{
    let mut k: usize = 0;
    while k < v.len()
        invariant
            k <= v@.len(),
            forall|m: int| 0 <= m < k ==> v@[m] != id,
        decreases v@.len() - k,
    {
        if v[k] == id {
            return true;
        }
        k = k + 1;
    }
    false
}

impl Body {
    /// The chaser to flee from: the nearest of the candidates (the first of
    /// equals); `None` when nobody pursues the body.
    pub fn closest_chaser(&self) -> (r: Option<usize>)
        requires
            self.wf(),
        ensures
            r is None <==> self.followed_by@.len() == 0,
            r matches Some(k) ==> escape_candidate(*self, k as int) && forall|m: int|
                escape_candidate(*self, m) ==> dist_sq(self.pos, self.followed_by@[k as int].pos) <= dist_sq(
                    self.pos,
                    #[trigger] self.followed_by@[m].pos,
                ),
    {
        let f = &self.followed_by;
        let ghost fs = f@;
        let mut faster = false;
        let mut k: usize = 0;
        while k < f.len()
            invariant
                k <= fs.len(),
                f@ == fs,
                fs == self.followed_by@,
                faster == exists|m: int| 0 <= m < k && (#[trigger] fs[m]).speed > self.speed,
            decreases fs.len() - k,
        {
            if f[k].speed > self.speed {
                faster = true;
            }
            k = k + 1;
        }
        let only_faster = faster && self.skills.contains(Skill::PrioritizeFasterChasers);
        let mut best: Option<usize> = None;
        let mut best_d: u64 = 0;
        let mut k: usize = 0;
        while k < f.len()
            invariant
                self.wf(),
                k <= fs.len(),
                f@ == fs,
                fs == self.followed_by@,
                pursuers_wf(fs),
                only_faster == (self.skills.has(Skill::PrioritizeFasterChasers) && exists|m: int| 0 <= m < fs.len() && (#[trigger] fs[m]).speed > self.speed),
                best is None ==> forall|m: int| 0 <= m < k ==> !escape_candidate(*self, m),
                best matches Some(b) ==> b < k && escape_candidate(*self, b as int) && best_d == dist_sq(self.pos, fs[b as int].pos)
                    && forall|m: int| 0 <= m < k && escape_candidate(*self, m) ==> best_d <= dist_sq(self.pos, #[trigger] fs[m].pos),
            decreases fs.len() - k,
        {
            let p = f[k];
            if !only_faster || p.speed > self.speed {
                let d = distance_sq(self.pos, p.pos);
                if best.is_none() || d < best_d {
                    best = Some(k);
                    best_d = d;
                }
            }
            k = k + 1;
        }
        proof {
            if fs.len() > 0 && best is None {
                if only_faster {
                    let m = choose|m: int| 0 <= m < fs.len() && (#[trigger] fs[m]).speed > self.speed;
                    assert(escape_candidate(*self, m));
                } else {
                    assert(escape_candidate(*self, 0));
                }
            }
        }
        best
    }
}

impl World {
    /// The nearest visible corpse that passes the body's skill gates (the
    /// first of equals in visiting order), as `(row, column, slot)`.
    pub fn closest_cross(&self, b: &Body) -> (r: Option<(usize, usize, usize)>)
        requires
            self.wf(),
            body_ok(*b, self.grid, self.now),
        ensures
            r matches Some(t) ==> best_cross(*self, *b, t),
            r is None ==> no_cross(*self, *b),
    {
        let vis = visible(&self.grid, &self.crosses, b.pos, b.vision_distance as i64);
        let mut best: Option<(usize, usize, usize)> = None;
        let mut best_d: u64 = 0;
        let mut k: usize = 0;
        while k < vis.len()
            invariant
                self.wf(),
                body_ok(*b, self.grid, self.now),
                k <= vis@.len(),
                forall|t: (usize, usize, usize)|
                    vis@.contains(t) <==> sees(&self.crosses, b.pos, b.vision_distance as int, t.0 as int, t.1 as int, t.2 as int),
                best matches Some(t) ==> sees(&self.crosses, b.pos, b.vision_distance as int, t.0 as int, t.1 as int, t.2 as int)
                    && cross_eligible(self.cfg, *b, self.crosses.item(t.0 as int, t.1 as int, t.2 as int))
                    && best_d == dist_sq(b.pos, self.crosses.item(t.0 as int, t.1 as int, t.2 as int).pos)
                    && forall|m: int| 0 <= m < k && cross_eligible(self.cfg, *b, self.crosses.item(vis@[m].0 as int, vis@[m].1 as int, vis@[m].2 as int))
                        ==> best_d <= dist_sq(b.pos, #[trigger] self.crosses.item(vis@[m].0 as int, vis@[m].1 as int, vis@[m].2 as int).pos),
                best is None ==> forall|m: int| 0 <= m < k ==> !cross_eligible(self.cfg, *b, #[trigger] self.crosses.item(vis@[m].0 as int, vis@[m].1 as int, vis@[m].2 as int)),
            decreases vis@.len() - k,
        {
            let t = vis[k];
            proof {
                assert(vis@.contains(t));
                assert(self.crosses.has_slot(t.0 as int, t.1 as int, t.2 as int));
            }
            let c = &self.crosses.bags[t.0][t.1][t.2];
            let ok = b.handle_eat_crosses_of_my_type(c) && b.handle_avoid_infected_crosses(c)
                && b.handle_alive_when_arrived_cross(&self.cfg, c) && b.handle_profitable_when_arrived_cross(&self.cfg, c)
                && b.handle_avoid_new_viruses_cross(c) && b.handle_will_arrive_first_cross(c)
                && b.handle_do_not_compete_with_relatives(&c.followed_by);
            if ok {
                let d = distance_sq(b.pos, c.pos);
                if best.is_none() || d < best_d {
                    best = Some(t);
                    best_d = d;
                }
            }
            k = k + 1;
        }
        proof {
            assert forall|u: (usize, usize, usize)|
                sees(&self.crosses, b.pos, b.vision_distance as int, u.0 as int, u.1 as int, u.2 as int)
                    && cross_eligible(self.cfg, *b, #[trigger] self.crosses.item(u.0 as int, u.1 as int, u.2 as int))
                    implies best is Some && dist_sq(b.pos, self.crosses.item(best.unwrap().0 as int, best.unwrap().1 as int, best.unwrap().2 as int).pos)
                        <= dist_sq(b.pos, self.crosses.item(u.0 as int, u.1 as int, u.2 as int).pos) by {
                assert(vis@.contains(u));
                let m = choose|m: int| 0 <= m < vis@.len() && vis@[m] == u;
                assert(self.crosses.item(vis@[m].0 as int, vis@[m].1 as int, vis@[m].2 as int) == self.crosses.item(u.0 as int, u.1 as int, u.2 as int));
            }
        }
        best
    }
}

impl Body {
    /// The nearest plant of a kind among the candidate slots of a store (the
    /// first of equals).
    pub fn find_closest_plant(
        &self,
        plants: &SpatialStore<Plant>,
        candidates: &Vec<(usize, usize, usize)>,
        plant_kind: PlantKind,
    ) -> (r: Option<(usize, usize, usize)>)
        requires
            self.wf(),
            forall|m: int| 0 <= m < candidates@.len() ==> {
                let t = #[trigger] candidates@[m];
                plants.has_slot(t.0 as int, t.1 as int, t.2 as int) && plants.item(t.0 as int, t.1 as int, t.2 as int).pos.in_range()
            },
        ensures
            r matches Some(t) ==> candidates@.contains(t) && plants.item(t.0 as int, t.1 as int, t.2 as int).kind == plant_kind
                && forall|m: int| 0 <= m < candidates@.len() && plants.item(candidates@[m].0 as int, candidates@[m].1 as int, candidates@[m].2 as int).kind == plant_kind
                    ==> dist_sq(self.pos, plants.item(t.0 as int, t.1 as int, t.2 as int).pos)
                        <= dist_sq(self.pos, #[trigger] plants.item(candidates@[m].0 as int, candidates@[m].1 as int, candidates@[m].2 as int).pos),
            r is None ==> forall|m: int| 0 <= m < candidates@.len()
                ==> (#[trigger] plants.item(candidates@[m].0 as int, candidates@[m].1 as int, candidates@[m].2 as int)).kind != plant_kind,
    {
        let mut best: Option<(usize, usize, usize)> = None;
        let mut best_d: u64 = 0;
        let mut k: usize = 0;
        while k < candidates.len()
            invariant
                self.wf(),
                k <= candidates@.len(),
                forall|m: int| 0 <= m < candidates@.len() ==> {
                    let t = #[trigger] candidates@[m];
                    plants.has_slot(t.0 as int, t.1 as int, t.2 as int) && plants.item(t.0 as int, t.1 as int, t.2 as int).pos.in_range()
                },
                best matches Some(t) ==> candidates@.contains(t) && plants.item(t.0 as int, t.1 as int, t.2 as int).kind == plant_kind
                    && best_d == dist_sq(self.pos, plants.item(t.0 as int, t.1 as int, t.2 as int).pos)
                    && forall|m: int| 0 <= m < k && plants.item(candidates@[m].0 as int, candidates@[m].1 as int, candidates@[m].2 as int).kind == plant_kind
                        ==> best_d <= dist_sq(self.pos, #[trigger] plants.item(candidates@[m].0 as int, candidates@[m].1 as int, candidates@[m].2 as int).pos),
                best is None ==> forall|m: int| 0 <= m < k
                    ==> (#[trigger] plants.item(candidates@[m].0 as int, candidates@[m].1 as int, candidates@[m].2 as int)).kind != plant_kind,
            decreases candidates@.len() - k,
        {
            let t = candidates[k];
            proof {
                assert(plants.has_slot(t.0 as int, t.1 as int, t.2 as int));
            }
            let p = &plants.bags[t.0][t.1][t.2];
            if p.kind == plant_kind {
                let d = distance_sq(self.pos, p.pos);
                if best.is_none() || d < best_d {
                    best = Some(t);
                    best_d = d;
                    proof {
                        assert(candidates@[k as int] == t);
                    }
                }
            }
            k = k + 1;
        }
        best
    }
}

impl World {
    /// The plant a body goes for: the nearest visible banana that passes
    /// the body's skill gates, else the nearest such grass (the first of
    /// equals), as `(row, column, slot)`.
    pub fn closest_plant(&self, b: &Body) -> (r: Option<(usize, usize, usize)>)
        requires
            self.wf(),
            body_ok(*b, self.grid, self.now),
        ensures
            r matches Some(t) ==> best_plant(*self, *b, t),
            r is None ==> no_plant(*self, *b),
    {
        let vis = visible(&self.grid, &self.plants, b.pos, b.vision_distance as i64);
        let mut ok: Vec<(usize, usize, usize)> = Vec::new();
        let mut k: usize = 0;
        while k < vis.len()
            invariant
                self.wf(),
                body_ok(*b, self.grid, self.now),
                k <= vis@.len(),
                forall|t: (usize, usize, usize)|
                    vis@.contains(t) <==> sees(&self.plants, b.pos, b.vision_distance as int, t.0 as int, t.1 as int, t.2 as int),
                forall|t: (usize, usize, usize)| ok@.contains(t) <==> (exists|m: int| 0 <= m < k && vis@[m] == t)
                    && plant_eligible(self.cfg, *b, self.plants.item(t.0 as int, t.1 as int, t.2 as int)),
            decreases vis@.len() - k,
        {
            let t = vis[k];
            proof {
                assert(vis@.contains(t));
                assert(self.plants.has_slot(t.0 as int, t.1 as int, t.2 as int));
            }
            let p = &self.plants.bags[t.0][t.1][t.2];
            let good = b.handle_alive_when_arrived_plant(&self.cfg, p) && b.handle_profitable_when_arrived_plant(&self.cfg, p)
                && b.handle_do_not_compete_with_relatives(&p.followed_by) && b.handle_will_arrive_first_plant(p);
            let ghost prev = ok@;
            if good {
                ok.push(t);
            }
            proof {
                assert forall|u: (usize, usize, usize)| ok@.contains(u) <==> (exists|m: int| 0 <= m < k + 1 && vis@[m] == u)
                    && plant_eligible(self.cfg, *b, self.plants.item(u.0 as int, u.1 as int, u.2 as int)) by {
                    if exists|m: int| 0 <= m < k + 1 && vis@[m] == u {
                        let m = choose|m: int| 0 <= m < k + 1 && vis@[m] == u;
                        if m < k {
                            assert(exists|m2: int| 0 <= m2 < k && vis@[m2] == u);
                        }
                    }
                    if exists|m: int| 0 <= m < k && vis@[m] == u {
                        let m = choose|m: int| 0 <= m < k && vis@[m] == u;
                        assert(0 <= m < k + 1 && vis@[m] == u);
                    }
                    if good {
                        if ok@.contains(u) {
                            let m = choose|m: int| 0 <= m < ok@.len() && ok@[m] == u;
                            if m < prev.len() {
                                assert(prev[m] == u);
                            }
                        }
                        if prev.contains(u) {
                            let m = choose|m: int| 0 <= m < prev.len() && prev[m] == u;
                            assert(ok@[m] == u);
                        }
                        if u == t {
                            assert(ok@[prev.len() as int] == u);
                            assert(vis@[k as int] == u);
                        }
                    } else {
                        if u == t {
                            assert(vis@[k as int] == u);
                        }
                    }
                }
            }
            k = k + 1;
        }
        proof {
            assert forall|m: int| 0 <= m < ok@.len() implies {
                let t = #[trigger] ok@[m];
                self.plants.has_slot(t.0 as int, t.1 as int, t.2 as int) && self.plants.item(t.0 as int, t.1 as int, t.2 as int).pos.in_range()
            } by {
                let t = ok@[m];
                assert(ok@.contains(t));
                let j = choose|j: int| 0 <= j < vis@.len() && vis@[j] == t;
                assert(vis@.contains(t));
            }
        }
        let banana = b.find_closest_plant(&self.plants, &ok, PlantKind::Banana);
        let r = match banana {
            Some(t) => Some(t),
            None => b.find_closest_plant(&self.plants, &ok, PlantKind::Grass),
        };
        proof {
            assert forall|u: (usize, usize, usize)|
                sees(&self.plants, b.pos, b.vision_distance as int, u.0 as int, u.1 as int, u.2 as int)
                    && plant_eligible(self.cfg, *b, #[trigger] self.plants.item(u.0 as int, u.1 as int, u.2 as int))
                    implies ok@.contains(u) by {
                assert(vis@.contains(u));
                let m = choose|m: int| 0 <= m < vis@.len() && vis@[m] == u;
            }
            assert forall|u: (usize, usize, usize)| ok@.contains(u) implies exists|m: int| 0 <= m < ok@.len() && ok@[m] == u by {}
            if let Some(t) = r {
                assert(ok@.contains(t));
                let j = choose|j: int| 0 <= j < vis@.len() && vis@[j] == t;
                assert(vis@.contains(t));
            }
        }
        r
    }
}

impl World {
    /// The prey a body goes for: the nearest eligible other body (the first
    /// of equals), by index in the registry.
    pub fn closest_prey(&self, b: &Body, taken: &Vec<u64>) -> (r: Option<usize>)
        requires
            self.wf(),
            body_ok(*b, self.grid, self.now),
        ensures
            r matches Some(k) ==> best_prey(*self, *b, taken@, k as int),
            r is None ==> no_prey(*self, *b, taken@),
    {
        let mut best: Option<usize> = None;
        let mut best_d: u64 = 0;
        let vision = b.vision_distance;
        proof {
            assert(vision * vision <= 281474976710656) by (nonlinear_arith)
                requires
                    vision <= 16777216,
            ;
        }
        let v_sq = vision * vision;
        let mut k: usize = 0;
        while k < self.bodies.len()
            invariant
                self.wf(),
                body_ok(*b, self.grid, self.now),
                v_sq == b.vision_distance * b.vision_distance,
                k <= self.bodies@.len(),
                best matches Some(x) ==> x < k && prey_eligible(self.cfg, *b, self.bodies@[x as int], taken@)
                    && best_d == dist_sq(b.pos, self.bodies@[x as int].pos)
                    && forall|m: int| 0 <= m < k && prey_eligible(self.cfg, *b, #[trigger] self.bodies@[m], taken@)
                        ==> best_d <= dist_sq(b.pos, self.bodies@[m].pos),
                best is None ==> forall|m: int| 0 <= m < k ==> !prey_eligible(self.cfg, *b, #[trigger] self.bodies@[m], taken@),
            decreases self.bodies@.len() - k,
        {
            let o = &self.bodies[k];
            proof {
                assert(body_ok(self.bodies@[k as int], self.grid, self.now));
            }
            let ok = o.body_type != b.body_type && o.id != b.id && b.energy > o.energy && distance_sq(b.pos, o.pos) <= v_sq
                && !contains_id(taken, o.id) && b.handle_alive_when_arrived_body(&self.cfg, o)
                && b.handle_profitable_when_arrived_body(&self.cfg, o) && b.handle_avoid_new_viruses_body(o)
                && b.handle_will_arrive_first_body(o) && b.handle_do_not_compete_with_relatives(&o.followed_by);
            if ok {
                let d = distance_sq(b.pos, o.pos);
                if best.is_none() || d < best_d {
                    best = Some(k);
                    best_d = d;
                }
            }
            k = k + 1;
        }
        best
    }
}

} // verus!
