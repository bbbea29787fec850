//! One tick of the simulation: every body's decision, then the buffered
//! removals, corpses and births.
use vstd::prelude::*;
use rand::rngs::StdRng;
use crate::body::{Body, EatingStrategy, Infections, ObjectType, Pursuer, Status, Virus, pursued_by, pursuers_wf};
use crate::config::{Config, MAX_ENERGY, RATE_ONE};
use crate::birth::child_of;
use crate::food::{Cross, plant_energy};
use crate::geometry::{Pos, MAX_COORD, dist_sq, distance_sq};
use crate::grid::Grid;
use crate::metabolism::{after_healing, after_upkeep, healed, reduced};
use crate::movement::{fled_to, is_walking_step, random_walking_step, toward, wrapped};
use crate::store::{Located, Pursuable, SpatialStore};
use crate::world::{World, ids_unique, escape_candidate, best_cross, best_plant, best_prey, body_ok, contains_id, no_cross, no_plant, no_prey};

verus! {

/// What a body is about to eat or pursue.
#[derive(Clone, Copy, PartialEq, Eq, Structural, Debug)]
pub struct FoodInfo {
    pub id: u64,
    pub food_type: ObjectType,
    pub pos: Pos,
    pub energy: u64,
    pub viruses: Option<Infections>,
}

/// What one tick took out of the registry.
pub struct TickReport {
    /// The identities of the bodies that left the registry: the dead, the
    /// divided and the eaten.
    pub removed: Vec<u64>,
    /// The identities of the bodies eaten by others.
    pub eaten: Vec<u64>,
}

/// Where a pursued entity is kept.
#[derive(Clone, Copy, PartialEq, Eq, Structural, Debug)]
pub enum Target {
    /// A body, by index in the registry.
    Prey(usize),
    /// A plant, by row, column and slot.
    Plant(usize, usize, usize),
    /// A corpse, by row, column and slot.
    Cross(usize, usize, usize),
}

/// The kind of entity kept at a location.
pub open spec fn kind_of(t: Target) -> ObjectType {
    match t {
        Target::Prey(_) => ObjectType::Body,
        Target::Plant(..) => ObjectType::Plant,
        Target::Cross(..) => ObjectType::Cross,
    }
}

/// What a body at the location would eat or pursue.
pub open spec fn food_spec(w: World, t: Target) -> FoodInfo {
    match t {
        Target::Prey(k) => FoodInfo {
            id: w.bodies@[k as int].id,
            food_type: ObjectType::Body,
            pos: w.bodies@[k as int].pos,
            energy: w.bodies@[k as int].energy,
            viruses: Some(w.bodies@[k as int].viruses),
        },
        Target::Plant(i, j, s) => FoodInfo {
            id: w.plants.item(i as int, j as int, s as int).id,
            food_type: ObjectType::Plant,
            pos: w.plants.item(i as int, j as int, s as int).pos,
            energy: plant_energy(
                w.cfg,
                w.plants.item(i as int, j as int, s as int).kind,
                w.plants.item(i as int, j as int, s as int).size as int,
            ) as u64,
            viruses: None,
        },
        Target::Cross(i, j, s) => FoodInfo {
            id: w.crosses.item(i as int, j as int, s as int).id,
            food_type: ObjectType::Cross,
            pos: w.crosses.item(i as int, j as int, s as int).pos,
            energy: w.crosses.item(i as int, j as int, s as int).energy,
            viruses: Some(w.crosses.item(i as int, j as int, s as int).viruses),
        },
    }
}

/// `r` is the food a body goes for: the nearest eligible corpse, else plant
/// (bananas first), else prey; `None` when nothing is eligible.
pub open spec fn food_choice(w: World, b: Body, taken: Seq<u64>, r: Option<Target>) -> bool {
    &&& r matches Some(t) ==> w.target_ok(t)
    &&& r matches Some(Target::Cross(i, j, s)) ==> best_cross(w, b, (i, j, s))
    &&& r matches Some(Target::Plant(i, j, s)) ==> no_cross(w, b) && best_plant(w, b, (i, j, s))
    &&& r matches Some(Target::Prey(k)) ==> no_cross(w, b) && no_plant(w, b) && best_prey(w, b, taken, k as int)
    &&& r is None ==> no_cross(w, b) && no_plant(w, b) && no_prey(w, b, taken)
}

/// The pursuers left when those with identity `id` are taken out.
pub open spec fn without(f: Seq<Pursuer>, id: u64) -> Seq<Pursuer> {
    f.filter(|p: Pursuer| p.id != id)
}

/// The pursuer list with those of identity `id` taken out.
pub fn remove_follower(f: &Vec<Pursuer>, id: u64) -> (r: Vec<Pursuer>)
    requires
        pursuers_wf(f@),
    ensures
        r@ == without(f@, id),
        pursuers_wf(r@),
        forall|k: int| 0 <= k < r@.len() ==> (#[trigger] r@[k]).id != id,
{
    let mut r: Vec<Pursuer> = Vec::new();
    let mut k: usize = 0;
    while k < f.len()
        invariant
            k <= f@.len(),
            pursuers_wf(f@),
            r@ == without(f@.take(k as int), id),
        decreases f@.len() - k,
    {
        proof {
            reveal(Seq::filter);
            assert(f@.take(k as int + 1).drop_last() == f@.take(k as int));
            assert(f@.take(k as int + 1).last() == f@[k as int]);
        }
        if f[k].id != id {
            r.push(f[k]);
        }
        k = k + 1;
    }
    proof {
        assert(f@.take(f@.len() as int) == f@);
        let pred = |p: Pursuer| p.id != id;
        assert forall|k: int| 0 <= k < r@.len() implies (#[trigger] r@[k]).pos.in_range() && r@[k].speed <= crate::geometry::MAX_SPEED && r@[k].id != id by {
            assert(r@.contains(r@[k]));
            f@.lemma_filter_contains_rev(pred, r@[k]);
            f@.lemma_filter_pred(pred, k);
            let j = choose|j: int| 0 <= j < f@.len() && f@[j] == r@[k];
        }
    }
    r
}

impl Body {
    /// Eats: gains the food's energy (capped at `MAX_ENERGY`), moves onto it,
    /// and catches the infections it carries.
    pub fn eat(&mut self, cfg: &Config, food: &FoodInfo)
        requires
            cfg.wf(),
            old(self).wf(),
            food.pos.in_range(),
        ensures
            final(self).wf(),
            final(self).energy == if old(self).energy + food.energy > MAX_ENERGY {
                MAX_ENERGY as int
            } else {
                old(self).energy + food.energy
            },
            final(self).pos == food.pos,
            food.viruses matches Some(v) ==> forall|w: Virus| #[trigger] final(self).viruses.has(w)
                == (old(self).viruses.has(w) || v.has(w)),
            food.viruses is None ==> final(self).viruses == old(self).viruses,
            food.viruses matches Some(v) ==> forall|w: Virus| #[trigger] final(self).viruses.progress(w) == if old(self).viruses.has(w) {
                old(self).viruses.progress(w)
            } else if v.has(w) {
                Some(0u64)
            } else {
                None
            },
            final(self).speed == if food.viruses matches Some(v) && v.has(Virus::SpeedVirus) && !old(self).viruses.has(Virus::SpeedVirus) {
                reduced(old(self).speed as int, cfg.speed_virus.decrease as int)
            } else {
                old(self).speed as int
            },
            final(self).vision_distance == if food.viruses matches Some(v) && v.has(Virus::VisionVirus) && !old(self).viruses.has(Virus::VisionVirus) {
                reduced(old(self).vision_distance as int, cfg.vision_virus.decrease as int)
            } else {
                old(self).vision_distance as int
            },
            final(self).id == old(self).id && final(self).status == old(self).status,
            final(self).born == old(self).born && final(self).body_type == old(self).body_type,
            final(self).followed_by@ == old(self).followed_by@,
    {
        let total = self.energy as u128 + food.energy as u128;
        self.energy = if total > MAX_ENERGY as u128 { MAX_ENERGY } else { total as u64 };
        self.pos = food.pos;
        match food.viruses {
            Some(v) => {
                self.get_viruses(cfg, &v);
            },
            None => {},
        }
    }
}

impl World {
    /// Where the entity with identity `id`, last seen at `pos`, of the given
    /// kind is kept, if it is still there.
    pub fn locate(&self, id: u64, pos: Pos, kind: ObjectType) -> (r: Option<Target>)
        requires
            self.wf(),
        ensures
            r matches Some(t) ==> self.target_ok(t) && self.ident_of(t) == id && kind_of(t) == kind,
            r matches Some(t) ==> self.located_at(t, id, pos, kind),
            r is None ==> forall|t: Target| !#[trigger] self.located_at(t, id, pos, kind),
            r is None && kind == ObjectType::Body ==> forall|k: int| 0 <= k < self.bodies@.len() ==> (#[trigger] self.bodies@[k]).id != id,
            r is None && kind == ObjectType::Plant ==> forall|s: int| #[trigger] self.plants.has_slot(
                self.grid.cell_of(pos).i as int, self.grid.cell_of(pos).j as int, s)
                ==> self.plants.item(self.grid.cell_of(pos).i as int, self.grid.cell_of(pos).j as int, s).id != id,
            r is None && kind == ObjectType::Cross ==> forall|s: int| #[trigger] self.crosses.has_slot(
                self.grid.cell_of(pos).i as int, self.grid.cell_of(pos).j as int, s)
                ==> self.crosses.item(self.grid.cell_of(pos).i as int, self.grid.cell_of(pos).j as int, s).id != id,
    {
        match kind {
            ObjectType::Body => {
                let mut k: usize = 0;
                while k < self.bodies.len()
                    invariant
                        k <= self.bodies@.len(),
                        kind == ObjectType::Body,
                        forall|m: int| 0 <= m < k ==> (#[trigger] self.bodies@[m]).id != id,
                    decreases self.bodies@.len() - k,
                {
                    if self.bodies[k].id == id {
                        return Some(Target::Prey(k));
                    }
                    k = k + 1;
                }
                None
            },
            ObjectType::Plant => {
                let c = self.grid.get_cell_by_pos(&pos);
                match self.plants.find(&self.grid, c, id) {
                    Some(s) => Some(Target::Plant(c.i, c.j, s)),
                    None => None,
                }
            },
            ObjectType::Cross => {
                let c = self.grid.get_cell_by_pos(&pos);
                match self.crosses.find(&self.grid, c, id) {
                    Some(s) => Some(Target::Cross(c.i, c.j, s)),
                    None => None,
                }
            },
        }
    }

    /// The location holds an entity.
    pub open spec fn target_ok(&self, t: Target) -> bool {
        match t {
            Target::Prey(k) => k < self.bodies@.len(),
            Target::Plant(i, j, s) => self.plants.has_slot(i as int, j as int, s as int),
            Target::Cross(i, j, s) => self.crosses.has_slot(i as int, j as int, s as int),
        }
    }

    /// The pursuer list of the entity at a location.
    pub open spec fn list_of(&self, t: Target) -> Seq<Pursuer> {
        match t {
            Target::Prey(k) => self.bodies@[k as int].followed_by@,
            Target::Plant(i, j, s) => self.plants.item(i as int, j as int, s as int).followed_by@,
            Target::Cross(i, j, s) => self.crosses.item(i as int, j as int, s as int).followed_by@,
        }
    }

    /// The identity of the entity at a location.
    pub open spec fn ident_of(&self, t: Target) -> u64 {
        match t {
            Target::Prey(k) => self.bodies@[k as int].id,
            Target::Plant(i, j, s) => self.plants.item(i as int, j as int, s as int).id,
            Target::Cross(i, j, s) => self.crosses.item(i as int, j as int, s as int).id,
        }
    }

    /// The body's status names the entity at the location: same identity
    /// and kind.
    pub open spec fn follows(&self, b: Body, t: Target) -> bool {
        &&& self.target_ok(t)
        &&& match b.status {
            Status::FollowingTarget(id, _, kind) => self.ident_of(t) == id && kind_of(t) == kind,
            _ => false,
        }
    }

    /// The location holds the entity with identity `id` and kind `kind`,
    /// in the cell of `pos` for a plant or corpse.
    pub open spec fn located_at(&self, t: Target, id: u64, pos: Pos, kind: ObjectType) -> bool {
        &&& self.target_ok(t)
        &&& self.ident_of(t) == id
        &&& kind_of(t) == kind
        &&& match t {
            Target::Prey(_) => true,
            Target::Plant(i, j, _) => i == self.grid.cell_of(pos).i && j == self.grid.cell_of(pos).j,
            Target::Cross(i, j, _) => i == self.grid.cell_of(pos).i && j == self.grid.cell_of(pos).j,
        }
    }

    /// The entity at `u` is the same in both worlds.
    pub open spec fn entity_same(&self, other: World, u: Target) -> bool {
        match u {
            Target::Prey(k) => self.bodies@[k as int] == other.bodies@[k as int],
            Target::Plant(i, j, s) => self.plants.item(i as int, j as int, s as int) == other.plants.item(i as int, j as int, s as int),
            Target::Cross(i, j, s) => self.crosses.item(i as int, j as int, s as int) == other.crosses.item(i as int, j as int, s as int),
        }
    }

    /// The entity at `u` is the same in both worlds but for its pursuer list.
    pub open spec fn entity_same_but_list(&self, other: World, u: Target) -> bool {
        match u {
            Target::Prey(k) => (Body { followed_by: other.bodies@[k as int].followed_by, ..self.bodies@[k as int] })
                == other.bodies@[k as int],
            Target::Plant(i, j, s) => self.plants.item(i as int, j as int, s as int).same_but_pursuers(
                other.plants.item(i as int, j as int, s as int),
            ),
            Target::Cross(i, j, s) => self.crosses.item(i as int, j as int, s as int).same_but_pursuers(
                other.crosses.item(i as int, j as int, s as int),
            ),
        }
    }

    /// `self` is `other` with at most the pursuer list at `t` changed.
    pub open spec fn only_list_changed(&self, other: World, t: Target) -> bool {
        &&& self.cfg == other.cfg && self.grid == other.grid
        &&& self.now == other.now && self.next_id == other.next_id
        &&& self.bodies@.len() == other.bodies@.len()
        &&& forall|u: Target| #[trigger] self.target_ok(u) == other.target_ok(u)
        &&& forall|u: Target| other.target_ok(u) && u != t ==> #[trigger] self.entity_same(other, u)
        &&& self.entity_same_but_list(other, t)
    }

    /// `self` is `other` after taking `body_id` out of the pursuer list of
    /// the entity with identity `id` and kind `kind` seen at `pos`; unchanged
    /// when there is no such entity.
    pub open spec fn left_target(&self, other: World, body_id: u64, id: u64, pos: Pos, kind: ObjectType) -> bool {
        ||| exists|t: Target| #[trigger] other.located_at(t, id, pos, kind) && self.only_list_changed(other, t)
            && self.list_of(t) == without(other.list_of(t), body_id)
        ||| (forall|t: Target| !#[trigger] other.located_at(t, id, pos, kind)) && *self == other
    }

    /// `self` is `other` after the body `body_id` with status `status` left
    /// the pursuer list of the target that status names (unless it is
    /// `keep`); unchanged when the status follows nothing.
    pub open spec fn cleaned_up(&self, other: World, body_id: u64, status: Status, keep: Option<u64>) -> bool {
        match status {
            Status::FollowingTarget(id, pos, kind) => if keep == Some(id) {
                *self == other
            } else {
                self.left_target(other, body_id, id, pos, kind)
            },
            _ => *self == other,
        }
    }

    /// Body `m` is in the pursuer list of an entity it follows.
    pub open spec fn listed(&self, m: int) -> bool {
        exists|u: Target| #[trigger] self.follows(self.bodies@[m], u) && pursued_by(self.list_of(u), self.bodies@[m].id)
    }

    /// Entry `e` of the list at `u` is the current snapshot of one of the
    /// first `n` bodies, and that body follows the entity at `u`.
    pub open spec fn backed(&self, u: Target, e: int, n: int) -> bool {
        exists|m: int| 0 <= m < n && self.bodies@[m].snapshot_spec() == self.list_of(u)[e] && #[trigger] self.follows(self.bodies@[m], u)
    }

    /// The consistency of the reference graph, for the first `n` bodies.
    pub open spec fn graph_upto(&self, n: int) -> bool {
        &&& forall|m: int| 0 <= m < n && (#[trigger] self.bodies@[m]).status is FollowingTarget ==> self.listed(m)
        &&& forall|u: Target, e: int| self.target_ok(u) && 0 <= e < self.list_of(u).len() ==> #[trigger] self.backed(u, e, n)
    }

    /// The reference graph is consistent: every body that follows a target
    /// is in that target's pursuer list, and every entry of a pursuer list
    /// is the current snapshot of a body that follows that very entity.
    pub open spec fn graph_consistent(&self) -> bool {
        self.graph_upto(self.bodies@.len() as int)
    }

    /// A copy of the pursuer list of the entity at a location.
    pub fn followers_of(&self, t: Target) -> (r: Vec<Pursuer>)
        requires
            self.wf(),
            self.target_ok(t),
        ensures
            r@ == self.list_of(t),
            pursuers_wf(r@),
    {
        let src: &Vec<Pursuer> = match t {
            Target::Prey(k) => {
                proof {
                    assert(body_ok(self.bodies@[k as int], self.grid, self.now));
                }
                &self.bodies[k].followed_by
            },
            Target::Plant(i, j, s) => &self.plants.bags[i][j][s].followed_by,
            Target::Cross(i, j, s) => &self.crosses.bags[i][j][s].followed_by,
        };
        let mut r: Vec<Pursuer> = Vec::new();
        let mut k: usize = 0;
        while k < src.len()
            invariant
                k <= src@.len(),
                r@ == src@.take(k as int),
            decreases src@.len() - k,
        {
            r.push(src[k]);
            proof {
                assert(src@.take(k as int + 1) == src@.take(k as int).push(src@[k as int]));
            }
            k = k + 1;
        }
        proof {
            assert(src@.take(src@.len() as int) == src@);
        }
        r
    }

    /// Replaces the pursuer list of the entity at a location; every other
    /// entity, and every identity and status, stay as they were.
    pub fn set_followers_of(&mut self, t: Target, f: Vec<Pursuer>)
        requires
            old(self).wf(),
            old(self).target_ok(t),
            pursuers_wf(f@),
        ensures
            final(self).wf(),
            final(self).list_of(t) == f@,
            forall|i: int, j: int| 0 <= i < old(self).grid.rows && 0 <= j < old(self).grid.columns
                ==> #[trigger] final(self).plants.bags@[i]@[j]@.len() == old(self).plants.bags@[i]@[j]@.len(),
            forall|i: int, j: int| 0 <= i < old(self).grid.rows && 0 <= j < old(self).grid.columns
                ==> #[trigger] final(self).crosses.bags@[i]@[j]@.len() == old(self).crosses.bags@[i]@[j]@.len(),
            final(self).bodies@.len() == old(self).bodies@.len(),
            final(self).cfg == old(self).cfg && final(self).grid == old(self).grid,
            final(self).now == old(self).now && final(self).next_id == old(self).next_id,
            forall|k: int| 0 <= k < final(self).bodies@.len() ==> (#[trigger] final(self).bodies@[k]).id == old(self).bodies@[k].id
                && final(self).bodies@[k].status == old(self).bodies@[k].status
                && final(self).bodies@[k].snapshot_spec() == old(self).bodies@[k].snapshot_spec(),
            forall|u: Target| #[trigger] final(self).target_ok(u) == old(self).target_ok(u),
            forall|u: Target| old(self).target_ok(u) ==> #[trigger] final(self).ident_of(u) == old(self).ident_of(u),
            forall|u: Target| old(self).target_ok(u) && u != t ==> #[trigger] final(self).list_of(u) == old(self).list_of(u),
            final(self).only_list_changed(*old(self), t),
            bodies_kept(*final(self), *old(self)),
            crosses_kept(*final(self), *old(self)),
    {
        match t {
            Target::Prey(k) => {
                proof {
                    assert(body_ok(self.bodies@[k as int], self.grid, self.now));
                }
                self.bodies[k].followed_by = f;
                proof {
                    assert forall|m: int| 0 <= m < self.bodies@.len() implies #[trigger] body_ok(self.bodies@[m], self.grid, self.now) by {
                        assert(body_ok(old(self).bodies@[m], self.grid, self.now));
                    }
                }
            },
            Target::Plant(i, j, s) => {
                let g = self.grid;
                self.plants.set_followers_at(&g, crate::grid::Cell { i, j }, s, f);
            },
            Target::Cross(i, j, s) => {
                let g = self.grid;
                self.crosses.set_followers_at(&g, crate::grid::Cell { i, j }, s, f);
            },
        }
        proof {
            assert forall|u: Target| #[trigger] self.target_ok(u) == old(self).target_ok(u) by {
                match u {
                    Target::Prey(m) => {},
                    Target::Plant(a, b, c) => {
                        assert(self.plants.has_slot(a as int, b as int, c as int) == old(self).plants.has_slot(a as int, b as int, c as int));
                    },
                    Target::Cross(a, b, c) => {
                        assert(self.crosses.has_slot(a as int, b as int, c as int) == old(self).crosses.has_slot(a as int, b as int, c as int));
                    },
                }
            }
            assert forall|u: Target| old(self).target_ok(u) implies #[trigger] self.ident_of(u) == old(self).ident_of(u)
                && (u != t ==> self.list_of(u) == old(self).list_of(u)) by {
                match u {
                    Target::Prey(m) => {},
                    Target::Plant(a, b, c) => {
                        assert(self.plants.has_slot(a as int, b as int, c as int));
                    },
                    Target::Cross(a, b, c) => {
                        assert(self.crosses.has_slot(a as int, b as int, c as int));
                    },
                }
            }
            assert forall|u: Target| old(self).target_ok(u) && u != t implies #[trigger] self.list_of(u) == old(self).list_of(u) by {
                assert(self.ident_of(u) == old(self).ident_of(u));
            }
            assert forall|u: Target| old(self).target_ok(u) && u != t implies #[trigger] self.entity_same(*old(self), u) by {
                match u {
                    Target::Prey(m) => {},
                    Target::Plant(a, b, c) => {
                        assert(old(self).plants.has_slot(a as int, b as int, c as int));
                    },
                    Target::Cross(a, b, c) => {
                        assert(old(self).crosses.has_slot(a as int, b as int, c as int));
                    },
                }
            }
            lemma_list_change_keeps(*self, *old(self), t);
        }
    }

}

impl Body {
    /// Takes the body with identity `body_id` out of the pursuer list of the
    /// target its status names, unless that target is `keep`. The status is
    /// passed in, so the body need not be in the registry (a stepping body
    /// is held outside it), and the identity need not be registered.
    pub fn followed_by_cleanup(world: &mut World, body_id: u64, status: Status, keep: Option<u64>)
        requires
            old(world).wf(),
        ensures
            final(world).wf(),
            final(world).bodies@.len() == old(world).bodies@.len(),
            final(world).cfg == old(world).cfg && final(world).grid == old(world).grid,
            final(world).now == old(world).now && final(world).next_id == old(world).next_id,
            forall|k: int| 0 <= k < final(world).bodies@.len() ==> (#[trigger] final(world).bodies@[k]).id == old(world).bodies@[k].id
                && final(world).bodies@[k].status == old(world).bodies@[k].status,
            forall|u: Target| #[trigger] final(world).target_ok(u) == old(world).target_ok(u),
            final(world).cleaned_up(*old(world), body_id, status, keep),
            bodies_kept(*final(world), *old(world)),
            crosses_kept(*final(world), *old(world)),
            forall|i: int, j: int| 0 <= i < old(world).grid.rows && 0 <= j < old(world).grid.columns
                ==> #[trigger] final(world).plants.bags@[i]@[j]@.len() == old(world).plants.bags@[i]@[j]@.len(),
            forall|i: int, j: int| 0 <= i < old(world).grid.rows && 0 <= j < old(world).grid.columns
                ==> #[trigger] final(world).crosses.bags@[i]@[j]@.len() == old(world).crosses.bags@[i]@[j]@.len(),
    {
        if let Status::FollowingTarget(target_id, target_pos, target_type) = status {
            if keep == Some(target_id) {
                return;
            }
            match world.locate(target_id, target_pos, target_type) {
                None => {},
                Some(t) => {
                    let f = world.followers_of(t);
                    let r = remove_follower(&f, body_id);
                    world.set_followers_of(t, r);
                    proof {
                        assert(old(world).located_at(t, target_id, target_pos, target_type));
                    }
                },
            }
        }
    }

    /// Changes the status, first taking the body out of the pursuer list of
    /// its former target.
    pub fn set_status(&mut self, world: &mut World, status: Status)
        requires
            old(world).wf(),
            old(self).wf(),
            status matches Status::Walking(step) ==> -MAX_COORD <= step.x <= MAX_COORD && -MAX_COORD <= step.y <= MAX_COORD,
        ensures
            final(world).wf(),
            final(self).wf(),
            *final(self) == (Body { status, ..*old(self) }),
            final(world).bodies@.len() == old(world).bodies@.len(),
            final(world).cfg == old(world).cfg && final(world).grid == old(world).grid,
            final(world).now == old(world).now && final(world).next_id == old(world).next_id,
            final(world).cleaned_up(*old(world), old(self).id, old(self).status, None),
            bodies_kept(*final(world), *old(world)),
            crosses_kept(*final(world), *old(world)),
            forall|i: int, j: int| 0 <= i < old(world).grid.rows && 0 <= j < old(world).grid.columns
                ==> #[trigger] final(world).plants.bags@[i]@[j]@.len() == old(world).plants.bags@[i]@[j]@.len(),
            forall|i: int, j: int| 0 <= i < old(world).grid.rows && 0 <= j < old(world).grid.columns
                ==> #[trigger] final(world).crosses.bags@[i]@[j]@.len() == old(world).crosses.bags@[i]@[j]@.len(),
    {
        Body::followed_by_cleanup(world, self.id, self.status, None);
        self.status = status;
    }

    /// With no food and no chaser: an active body keeps walking in its
    /// direction, picking a random one first when it is not walking yet; a
    /// passive body goes idle and stays where it is.
    pub fn handle_walking_idle(&mut self, world: &mut World, rng: &mut StdRng)
        requires
            old(world).wf(),
            body_ok(*old(self), old(world).grid, old(world).now),
        ensures
            final(world).wf(),
            body_ok(*final(self), final(world).grid, final(world).now),
            final(world).bodies@.len() == old(world).bodies@.len(),
            final(world).cfg == old(world).cfg && final(world).grid == old(world).grid,
            final(world).now == old(world).now && final(world).next_id == old(world).next_id,
            *final(self) == (Body { status: final(self).status, pos: final(self).pos, ..*old(self) }),
            bodies_kept(*final(world), *old(world)),
            crosses_kept(*final(world), *old(world)),
            forall|i: int, j: int| 0 <= i < old(world).grid.rows && 0 <= j < old(world).grid.columns
                ==> #[trigger] final(world).plants.bags@[i]@[j]@.len() == old(world).plants.bags@[i]@[j]@.len(),
            forall|i: int, j: int| 0 <= i < old(world).grid.rows && 0 <= j < old(world).grid.columns
                ==> #[trigger] final(world).crosses.bags@[i]@[j]@.len() == old(world).crosses.bags@[i]@[j]@.len(),
            old(self).eating_strategy == EatingStrategy::Passive ==> final(self).status == Status::Idle
                && final(self).pos == old(self).pos
                && final(world).cleaned_up(*old(world), old(self).id, old(self).status, None),
            old(self).eating_strategy == EatingStrategy::Active ==> (final(self).status matches Status::Walking(d)
                && final(self).pos.x == wrapped(old(self).pos.x + d.x, old(world).grid.width as int)
                && final(self).pos.y == wrapped(old(self).pos.y + d.y, old(world).grid.height as int)),
            old(self).eating_strategy == EatingStrategy::Active && old(self).status is Walking
                ==> final(self).status == old(self).status && *final(world) == *old(world),
            old(self).eating_strategy == EatingStrategy::Active && !(old(self).status is Walking)
                ==> (final(self).status matches Status::Walking(d) && exists|a: int, down: bool|
                    is_walking_step(old(self).speed as int, a, down, d))
                && final(world).cleaned_up(*old(world), old(self).id, old(self).status, None),
    {
        let g = world.grid;
        match self.eating_strategy {
            EatingStrategy::Active => {
                if !(self.status matches Status::Walking(_)) {
                    let step = random_walking_step(self.speed, rng);
                    self.set_status(world, Status::Walking(step));
                }
                if let Status::Walking(step) = self.status {
                    self.walk(&g, step);
                }
            },
            EatingStrategy::Passive => {
                self.set_status(world, Status::Idle);
            },
        }
    }
}

/// The lifespan left after one tick of decay, for a body of the given
/// status and speed holding `energy`.
pub open spec fn lifespan_after(cfg: Config, b: Body, energy: int) -> int {
    if b.status == Status::Idle {
        b.lifespan as int
    } else {
        let l = b.lifespan - cfg.lifespan_cost * b.speed * b.speed * energy / (RATE_ONE as int);
        if l < 0 { 0 } else { l }
    }
}

/// After this tick's healing and lifespan decay, the body has less than the
/// minimum viable energy or has outlived its lifespan.
pub open spec fn dies(cfg: Config, b: Body, now: int) -> bool {
    let e = after_healing(cfg, b.viruses, b.energy as int);
    e < cfg.min_energy || now - b.born > lifespan_after(cfg, b, e)
}

/// The body after this tick's healing and lifespan decay.
pub open spec fn healed_body(cfg: Config, b: Body) -> Body {
    let e = after_healing(cfg, b.viruses, b.energy as int);
    Body {
        energy: e as u64,
        viruses: Infections {
            speed_virus: healed(cfg, b.viruses, Virus::SpeedVirus),
            vision_virus: healed(cfg, b.viruses, Virus::VisionVirus),
        },
        lifespan: lifespan_after(cfg, b, e) as u64,
        ..b
    }
}

/// The body survives healing and decay but not this tick's upkeep.
pub open spec fn exhausted(cfg: Config, b: Body, now: int) -> bool {
    !dies(cfg, b, now) && after_upkeep(cfg, healed_body(cfg, b)) <= 0
}

/// The store holds, in the cell of the body's position, a corpse with the
/// body's identity, position and energy.
pub open spec fn corpse_of(store: SpatialStore<Cross>, g: Grid, b: Body) -> bool {
    exists|s: usize| #[trigger] store.has_slot(g.cell_of(b.pos).i as int, g.cell_of(b.pos).j as int, s as int)
        && corpse_matches(store.item(g.cell_of(b.pos).i as int, g.cell_of(b.pos).j as int, s as int), b)
}

/// The corpse carries the body's identity, position, energy, infections
/// and lineage.
pub open spec fn corpse_matches(c: Cross, b: Body) -> bool {
    c.id == b.id && c.pos == b.pos && c.energy == b.energy && c.viruses == b.viruses && c.body_type == b.body_type
}

/// `w1`'s bodies are `w0`'s with at most their pursuer lists changed.
pub open spec fn bodies_kept(w1: World, w0: World) -> bool {
    &&& w1.bodies@.len() == w0.bodies@.len()
    &&& forall|m: usize| (m as int) < w0.bodies@.len()
        ==> (Body { followed_by: w0.bodies@[m as int].followed_by, ..#[trigger] w1.bodies@[m as int] }) == w0.bodies@[m as int]
}

/// Every corpse of `w0` is still in its slot in `w1`, at most its pursuer
/// list changed.
pub open spec fn crosses_kept(w1: World, w0: World) -> bool {
    forall|i: usize, j: usize, s: usize| #[trigger] w0.crosses.has_slot(i as int, j as int, s as int)
        ==> w1.crosses.has_slot(i as int, j as int, s as int)
        && w1.crosses.item(i as int, j as int, s as int).same_but_pursuers(w0.crosses.item(i as int, j as int, s as int))
}

proof fn lemma_list_change_keeps(w1: World, w0: World, t: Target)
    requires
        w1.only_list_changed(w0, t),
    ensures
        bodies_kept(w1, w0),
        crosses_kept(w1, w0),
{
    assert forall|m: usize| (m as int) < w0.bodies@.len()
        implies (Body { followed_by: w0.bodies@[m as int].followed_by, ..#[trigger] w1.bodies@[m as int] }) == w0.bodies@[m as int] by {
        let u = Target::Prey(m);
        assert(w0.target_ok(u));
        if u != t {
            assert(w1.entity_same(w0, u));
        }
    }
    assert forall|i: usize, j: usize, s: usize| #[trigger] w0.crosses.has_slot(i as int, j as int, s as int)
        implies w1.crosses.has_slot(i as int, j as int, s as int)
        && w1.crosses.item(i as int, j as int, s as int).same_but_pursuers(w0.crosses.item(i as int, j as int, s as int)) by {
        let u = Target::Cross(i, j, s);
        assert(w0.target_ok(u));
        assert(w1.target_ok(u));
        if u != t {
            assert(w1.entity_same(w0, u));
        }
    }
}

/// `b1` is `b0` after the pursuer lists were rebuilt in world `w0`: only its
/// list differs, and its status too only when it followed an entity that
/// `w0` no longer holds, in which case it is idle.
pub open spec fn rebuilt_body(w0: World, b0: Body, b1: Body) -> bool {
    &&& (Body { followed_by: b0.followed_by, status: b0.status, ..b1 }) == b0
    &&& b1.status == b0.status || (b1.status == Status::Idle && (b0.status matches Status::FollowingTarget(id, pos, kind)
        && forall|t: Target| !#[trigger] w0.located_at(t, id, pos, kind)))
}

/// The body dies this tick: of age or low energy at the death check, or of
/// exhaustion by upkeep.
pub open spec fn perishes(cfg: Config, b: Body, now: int) -> bool {
    dies(cfg, b, now) || exhausted(cfg, b, now)
}

/// What is left of a body that perishes: the healed body, with no energy
/// when upkeep exhausted it.
pub open spec fn remains(cfg: Config, b: Body, now: int) -> Body {
    if dies(cfg, b, now) {
        healed_body(cfg, b)
    } else {
        Body { energy: 0, ..healed_body(cfg, b) }
    }
}

/// The body after this tick's healing, lifespan decay and upkeep.
pub open spec fn upkept_body(cfg: Config, b: Body) -> Body {
    Body { energy: after_upkeep(cfg, healed_body(cfg, b)) as u64, ..healed_body(cfg, b) }
}

/// The body survives this tick's death check and upkeep.
pub open spec fn lives(cfg: Config, b: Body, now: int) -> bool {
    !dies(cfg, b, now) && !exhausted(cfg, b, now)
}

/// Pursuer `k` is the chaser the body flees from: a candidate, and nearest
/// among the candidates.
pub open spec fn best_chaser(b: Body, k: int) -> bool {
    escape_candidate(b, k) && forall|m: int|
        escape_candidate(b, m) ==> dist_sq(b.pos, b.followed_by@[k].pos) <= dist_sq(b.pos, #[trigger] b.followed_by@[m].pos)
}

/// Energy `e`, capped at `MAX_ENERGY`.
pub open spec fn capped(e: int) -> int {
    if e > MAX_ENERGY { MAX_ENERGY as int } else { e }
}

/// What a living, unchased body `h` does with the food choice `c` made in
/// world `w0`: it eats food within reach (gaining its energy, a prey marked
/// taken, a plant or corpse gone from its bag), pursues food out of reach
/// (entered in its list, stepping toward it), divides when there is no food
/// and it has the energy, and else walks or idles.
pub open spec fn forage_outcome(
    w0: World,
    h: Body,
    taken0: Seq<u64>,
    born0: Seq<Body>,
    c: Option<Target>,
    r: Body,
    w1: World,
    taken1: Seq<u64>,
    born1: Seq<Body>,
) -> bool {
    match c {
        Some(t) => {
            let f = food_spec(w0, t);
            if dist_sq(h.pos, f.pos) <= h.speed * h.speed {
                &&& r.energy == capped(h.energy + f.energy)
                &&& t matches Target::Prey(k) ==> taken1.len() > taken0.len() && taken1[taken0.len() as int]
                    == w0.bodies@[k as int].id
                &&& t matches Target::Plant(i, j, s) ==> w1.plants.bags@[i as int]@[j as int]@.len()
                    == w0.plants.bags@[i as int]@[j as int]@.len() - 1
                &&& t matches Target::Cross(i, j, s) ==> w1.crosses.bags@[i as int]@[j as int]@.len()
                    == w0.crosses.bags@[i as int]@[j as int]@.len() - 1
            } else {
                &&& r.status == Status::FollowingTarget(f.id, f.pos, f.food_type)
                &&& r.pos == toward(h.pos, f.pos, h.speed as int)
                &&& w1.list_of(t).len() > 0 && w1.list_of(t).last() == h.snapshot_spec()
                &&& born1 == born0 && taken1 == taken0
            }
        },
        None => if h.divides() && w0.next_id < u64::MAX - 1 {
            &&& born1.len() == born0.len() + 2
            &&& born1.take(born0.len() as int) == born0
            &&& child_of(w0.cfg, h, born1[born0.len() as int], w0.next_id, w0.now, (h.energy / 2) as int)
            &&& child_of(w0.cfg, h, born1[born0.len() + 1int], (w0.next_id + 1) as u64, w0.now, (h.energy / 2) as int)
            &&& taken1 == taken0.push(h.id)
        } else {
            &&& born1 == born0 && taken1 == taken0
            &&& h.eating_strategy == EatingStrategy::Passive ==> r.status == Status::Idle && r.pos == h.pos
            &&& h.eating_strategy == EatingStrategy::Active ==> (r.status matches Status::Walking(d)
                && r.pos.x == wrapped(h.pos.x + d.x, w0.grid.width as int)
                && r.pos.y == wrapped(h.pos.y + d.y, w0.grid.height as int))
        },
    }
}

/// Every body of the list is valid in the arena of `g` at tick `now`.
pub open spec fn all_ok(v: Seq<Body>, g: Grid, now: u64) -> bool {
    forall|k: int| 0 <= k < v.len() ==> #[trigger] body_ok(v[k], g, now)
}

impl World {
    /// Puts a body's snapshot into the pursuer list of the entity at a
    /// location, in place of any older entry of the same body.
    pub fn register(&mut self, t: Target, snap: Pursuer)
        requires
            old(self).wf(),
            old(self).target_ok(t),
            snap.pos.in_range(),
            snap.speed <= crate::geometry::MAX_SPEED,
        ensures
            final(self).wf(),
            final(self).list_of(t) == without(old(self).list_of(t), snap.id).push(snap),
            final(self).bodies@.len() == old(self).bodies@.len(),
            final(self).cfg == old(self).cfg && final(self).grid == old(self).grid,
            final(self).now == old(self).now && final(self).next_id == old(self).next_id,
            forall|k: int| 0 <= k < final(self).bodies@.len() ==> (#[trigger] final(self).bodies@[k]).id == old(self).bodies@[k].id
                && final(self).bodies@[k].status == old(self).bodies@[k].status
                && final(self).bodies@[k].snapshot_spec() == old(self).bodies@[k].snapshot_spec(),
            forall|u: Target| #[trigger] final(self).target_ok(u) == old(self).target_ok(u),
            forall|u: Target| old(self).target_ok(u) ==> #[trigger] final(self).ident_of(u) == old(self).ident_of(u),
            forall|u: Target| old(self).target_ok(u) && u != t ==> #[trigger] final(self).list_of(u) == old(self).list_of(u),
            bodies_kept(*final(self), *old(self)),
            crosses_kept(*final(self), *old(self)),
    {
        let f = self.followers_of(t);
        let mut r = remove_follower(&f, snap.id);
        r.push(snap);
        self.set_followers_of(t, r);
    }

    /// What the body would eat or pursue at a location, with its details.
    fn food_at(&self, t: Target) -> (food: FoodInfo)
        requires
            self.wf(),
            self.target_ok(t),
        ensures
            self.grid.contains(food.pos),
            food.energy <= MAX_ENERGY,
            food == food_spec(*self, t),
    {
        match t {
            Target::Prey(k) => {
                proof {
                    assert(body_ok(self.bodies@[k as int], self.grid, self.now));
                }
                let o = &self.bodies[k];
                FoodInfo { id: o.id, food_type: ObjectType::Body, pos: o.pos, energy: o.energy, viruses: Some(o.viruses) }
            },
            Target::Plant(i, j, s) => {
                proof {
                    assert(self.plants.has_slot(i as int, j as int, s as int));
                }
                let p = &self.plants.bags[i][j][s];
                FoodInfo {
                    id: p.id,
                    food_type: ObjectType::Plant,
                    pos: p.pos,
                    energy: p.get_contained_energy(&self.cfg),
                    viruses: None,
                }
            },
            Target::Cross(i, j, s) => {
                proof {
                    assert(self.crosses.has_slot(i as int, j as int, s as int));
                }
                let c = &self.crosses.bags[i][j][s];
                FoodInfo { id: c.id, food_type: ObjectType::Cross, pos: c.pos, energy: c.energy, viruses: Some(c.viruses) }
            },
        }
    }

    /// The food a body goes for: the nearest eligible corpse, else plant
    /// (bananas first), else prey.
    pub fn choose_food(&self, b: &Body, taken: &Vec<u64>) -> (r: Option<Target>)
        requires
            self.wf(),
            body_ok(*b, self.grid, self.now),
        ensures
            r matches Some(t) ==> self.target_ok(t),
            r matches Some(Target::Cross(i, j, s)) ==> best_cross(*self, *b, (i, j, s)),
            r matches Some(Target::Plant(i, j, s)) ==> no_cross(*self, *b) && best_plant(*self, *b, (i, j, s)),
            r matches Some(Target::Prey(k)) ==> no_cross(*self, *b) && no_plant(*self, *b) && best_prey(*self, *b, taken@, k as int),
            r is None ==> no_cross(*self, *b) && no_plant(*self, *b) && no_prey(*self, *b, taken@),
            food_choice(*self, *b, taken@, r),
    {
        match self.closest_cross(b) {
            Some((i, j, s)) => Some(Target::Cross(i, j, s)),
            None => match self.closest_plant(b) {
                Some((i, j, s)) => Some(Target::Plant(i, j, s)),
                None => match self.closest_prey(b, taken) {
                    Some(k) => Some(Target::Prey(k)),
                    None => None,
                },
            },
        }
    }

    /// Takes an eaten entity out: a plant or corpse leaves the bag of its
    /// cell at once (one copy fewer, every other bag as it was), a body is
    /// marked as taken.
    pub fn take_food(&mut self, t: Target, taken: &mut Vec<u64>)
        requires
            old(self).wf(),
            old(self).target_ok(t),
        ensures
            final(self).wf(),
            t matches Target::Prey(k) ==> final(taken)@ == old(taken)@.push(old(self).bodies@[k as int].id),
            !(t is Prey) ==> final(taken)@ == old(taken)@,
            t matches Target::Plant(i, j, s) ==> final(self).plants.bags@[i as int]@[j as int]@.len()
                == old(self).plants.bags@[i as int]@[j as int]@.len() - 1,
            t matches Target::Cross(i, j, s) ==> final(self).crosses.bags@[i as int]@[j as int]@.len()
                == old(self).crosses.bags@[i as int]@[j as int]@.len() - 1,
            forall|i: int, j: int| 0 <= i < old(self).grid.rows && 0 <= j < old(self).grid.columns
                && !(t matches Target::Plant(a, b, _) && a == i && b == j)
                ==> #[trigger] final(self).plants.bags@[i]@[j]@.len() == old(self).plants.bags@[i]@[j]@.len(),
            forall|i: int, j: int| 0 <= i < old(self).grid.rows && 0 <= j < old(self).grid.columns
                && !(t matches Target::Cross(a, b, _) && a == i && b == j)
                ==> #[trigger] final(self).crosses.bags@[i]@[j]@.len() == old(self).crosses.bags@[i]@[j]@.len(),
            t matches Target::Plant(i, j, s) ==> final(self).plants.bags@[i as int]@[j as int]@.to_multiset()
                == old(self).plants.bags@[i as int]@[j as int]@.to_multiset().remove(old(self).plants.item(i as int, j as int, s as int))
                && final(self).crosses == old(self).crosses
                && forall|a: int, b: int| 0 <= a < old(self).grid.rows && 0 <= b < old(self).grid.columns && !(a == i && b == j)
                    ==> #[trigger] final(self).plants.bags@[a]@[b] == old(self).plants.bags@[a]@[b],
            t matches Target::Cross(i, j, s) ==> final(self).crosses.bags@[i as int]@[j as int]@.to_multiset()
                == old(self).crosses.bags@[i as int]@[j as int]@.to_multiset().remove(old(self).crosses.item(i as int, j as int, s as int))
                && final(self).plants == old(self).plants
                && forall|a: int, b: int| 0 <= a < old(self).grid.rows && 0 <= b < old(self).grid.columns && !(a == i && b == j)
                    ==> #[trigger] final(self).crosses.bags@[a]@[b] == old(self).crosses.bags@[a]@[b],
            final(self).bodies@ == old(self).bodies@,
            final(self).cfg == old(self).cfg && final(self).grid == old(self).grid,
            final(self).now == old(self).now && final(self).next_id == old(self).next_id,
    {
        let g = self.grid;
        match t {
            Target::Prey(k) => {
                taken.push(self.bodies[k].id);
            },
            Target::Plant(i, j, s) => {
                let _eaten = self.plants.remove(&g, crate::grid::Cell { i, j }, s);
                proof {
                    assert forall|a: int, b: int| 0 <= a < old(self).grid.rows && 0 <= b < old(self).grid.columns && !(a == i && b == j)
                        implies #[trigger] self.plants.bags@[a]@[b] == old(self).plants.bags@[a]@[b] by {
                        if a == i {
                            assert(b != j);
                        }
                    }
                    assert forall|a: int, b: int, c: int| #[trigger] self.plants.has_slot(a, b, c) implies self.plants.item(a, b, c).valid() by {
                        lemma_removed_slot_valid(&old(self).plants, &self.plants, a, b, c, i as int, j as int);
                    }
                }
            },
            Target::Cross(i, j, s) => {
                let _eaten = self.crosses.remove(&g, crate::grid::Cell { i, j }, s);
                proof {
                    assert forall|a: int, b: int| 0 <= a < old(self).grid.rows && 0 <= b < old(self).grid.columns && !(a == i && b == j)
                        implies #[trigger] self.crosses.bags@[a]@[b] == old(self).crosses.bags@[a]@[b] by {
                        if a == i {
                            assert(b != j);
                        }
                    }
                    assert forall|a: int, b: int, c: int| #[trigger] self.crosses.has_slot(a, b, c) implies self.crosses.item(a, b, c).valid() by {
                        lemma_removed_slot_valid(&old(self).crosses, &self.crosses, a, b, c, i as int, j as int);
                    }
                }
            },
        }
    }
}

impl World {
    /// One tick of one body, taken out of the registry: healing, lifespan,
    /// death, upkeep, then the first of escaping, eating or pursuing,
    /// dividing, and walking or idling. Bodies that die, divide or are
    /// eaten are added to `taken`; children go to `born`.
    pub fn step_body(
        &mut self,
        body: Body,
        taken: &mut Vec<u64>,
        eaten: &mut Vec<u64>,
        born: &mut Vec<Body>,
        rng: &mut StdRng,
    ) -> (r: Body)
        requires
            old(self).wf(),
            body_ok(body, old(self).grid, old(self).now),
            all_ok(old(born)@, old(self).grid, old(self).now),
            body.id < old(self).next_id,
            forall|m: int| 0 <= m < old(born)@.len() ==> (#[trigger] old(born)@[m]).id < old(self).next_id,
        ensures
            bodies_kept(*final(self), *old(self)),
            final(self).next_id >= old(self).next_id,
            final(taken)@.len() >= old(taken)@.len(),
            forall|m: int| 0 <= m < old(taken)@.len() ==> #[trigger] final(taken)@[m] == old(taken)@[m],
            forall|x: u64| #[trigger] final(eaten)@.contains(x) ==> old(eaten)@.contains(x) || final(taken)@.contains(x),
            final(eaten)@.len() >= old(eaten)@.len(),
            forall|m: int| 0 <= m < old(eaten)@.len() ==> #[trigger] final(eaten)@[m] == old(eaten)@[m],
            final(born)@.len() >= old(born)@.len(),
            forall|m: int| 0 <= m < old(born)@.len() ==> #[trigger] final(born)@[m] == old(born)@[m],
            forall|m: int| old(born)@.len() <= m < final(born)@.len() ==> (#[trigger] final(born)@[m]).id >= old(self).next_id,
            forall|a: int, c: int| old(born)@.len() <= a < c < final(born)@.len() ==> (#[trigger] final(born)@[a]).id
                < (#[trigger] final(born)@[c]).id,
            forall|m: int| old(born)@.len() <= m < final(born)@.len() ==> newborn(#[trigger] final(born)@[m], old(self).cfg, old(self).now),
            forall|m: int| 0 <= m < final(born)@.len() ==> (#[trigger] final(born)@[m]).id < final(self).next_id,
            final(self).wf(),
            body_ok(r, final(self).grid, final(self).now),
            all_ok(final(born)@, final(self).grid, final(self).now),
            final(self).bodies@.len() == old(self).bodies@.len(),
            final(self).cfg == old(self).cfg && final(self).grid == old(self).grid,
            final(self).now == old(self).now,
            r.id == body.id,
            dies(old(self).cfg, body, old(self).now as int) ==> r.status == Status::Cross && r.pos == body.pos
                && final(taken)@ == old(taken)@.push(body.id) && final(born)@ == old(born)@,
            dies(old(self).cfg, body, old(self).now as int) ==> r == (Body { status: Status::Cross, ..healed_body(old(self).cfg, body) }),
            exhausted(old(self).cfg, body, old(self).now as int) ==> r.status == Status::Cross && r.pos == body.pos
                && final(taken)@ == old(taken)@.push(body.id) && final(born)@ == old(born)@,
            perishes(old(self).cfg, body, old(self).now as int) ==> r == (Body {
                status: Status::Cross,
                ..remains(old(self).cfg, body, old(self).now as int)
            }),
            !dies(old(self).cfg, body, old(self).now as int) && !exhausted(old(self).cfg, body, old(self).now as int)
                && body.followed_by@.len() > 0 ==> r.status is EscapingBody && final(born)@ == old(born)@
                && final(taken)@ == old(taken)@,
            lives(old(self).cfg, body, old(self).now as int) && body.followed_by@.len() > 0 ==> exists|k: int|
                best_chaser(upkept_body(old(self).cfg, body), k)
                && r.status == Status::EscapingBody(body.followed_by@[k].id, body.followed_by@[k].body_type)
                && fled_to(upkept_body(old(self).cfg, body).pos, body.followed_by@[k].pos, body.speed as int, old(self).grid, r.pos)
                && final(self).cleaned_up(*old(self), body.id, body.status, None),
            lives(old(self).cfg, body, old(self).now as int) && body.followed_by@.len() == 0 ==> exists|c: Option<Target>|
                food_choice(*old(self), upkept_body(old(self).cfg, body), old(taken)@, c) && forage_outcome(
                    *old(self),
                    upkept_body(old(self).cfg, body),
                    old(taken)@,
                    old(born)@,
                    c,
                    r,
                    *final(self),
                    final(taken)@,
                    final(born)@,
                ),
    {
        let cfg = self.cfg;
        let g = self.grid;
        let ghost w0 = *self;
        let ghost taken0 = taken@;
        let ghost born0 = born@;
        let mut b = body;
        b.handle_viruses(&cfg);
        b.handle_lifespan(&cfg);
        proof {
            assert(b.viruses.speed_virus == b.viruses.progress(Virus::SpeedVirus));
            assert(b.viruses.vision_virus == b.viruses.progress(Virus::VisionVirus));
            assert(b == healed_body(cfg, body));
        }
        let age = self.now - b.born;
        if b.energy < cfg.min_energy || age > b.lifespan {
            b.status = Status::Cross;
            taken.push(b.id);
            return b;
        }
        if b.handle_energy(&cfg) {
            b.status = Status::Cross;
            taken.push(b.id);
            return b;
        }
        let ghost h = b;
        proof {
            assert(h == upkept_body(cfg, body));
        }
        match b.closest_chaser() {
            Some(k) => {
                let c = b.followed_by[k];
                b.set_status(self, Status::EscapingBody(c.id, c.body_type));
                b.step_away(&g, c.pos);
                proof {
                    assert(best_chaser(h, k as int));
                    assert(body.followed_by@[k as int] == c);
                }
                return b;
            },
            None => {},
        }
        let choice = self.choose_food(&b, taken);
        match choice {
            None => {},
            Some(t) => {
                let food = self.food_at(t);
                let d_sq = distance_sq(b.pos, food.pos);
                proof {
                    assert(b.speed * b.speed <= 4294967296) by (nonlinear_arith)
                        requires
                            b.speed <= 65536,
                    ;
                }
                if d_sq <= b.speed * b.speed {
                    let prey_id: Option<u64> = match t {
                        Target::Prey(k) => Some(self.bodies[k].id),
                        _ => None,
                    };
                    b.eat(&cfg, &food);
                    self.take_food(t, taken);
                    if let Some(id) = prey_id {
                        eaten.push(id);
                        proof {
                            assert(taken@[taken@.len() - 1] == id);
                        }
                    }
                } else {
                    Body::followed_by_cleanup(self, b.id, b.status, Some(food.id));
                    self.register(t, b.snapshot());
                    b.status = Status::FollowingTarget(food.id, food.pos, food.food_type);
                    b.step_toward(&g, food.pos);
                    proof {
                        assert(forage_outcome(w0, h, taken0, born0, choice, b, *self, taken@, born@));
                    }
                    return b;
                }
            },
        }
        let ghost w_eat = *self;
        let ghost taken_eat = taken@;
        let ghost e_eat = b.energy;
        if b.energy > b.division_threshold && self.next_id < u64::MAX - 1 {
            let (c1, c2) = b.offspring(&cfg, self.next_id, self.now, rng);
            self.next_id = self.next_id + 2;
            let ghost before = born@;
            born.push(c1);
            born.push(c2);
            proof {
                assert forall|k: int| 0 <= k < born@.len() implies #[trigger] body_ok(born@[k], self.grid, self.now) by {
                    if k < before.len() {
                        assert(born@[k] == before[k]);
                    }
                }
            }
            taken.push(b.id);
            proof {
                if choice is None {
                    assert(born@.take(born0.len() as int) =~= born0);
                } else if taken_eat.len() > taken0.len() {
                    assert(taken@[taken0.len() as int] == taken_eat[taken0.len() as int]);
                }
                assert(forage_outcome(w0, h, taken0, born0, choice, b, *self, taken@, born@));
            }
            return b;
        }
        b.handle_walking_idle(self, rng);
        proof {
            assert(forage_outcome(w0, h, taken0, born0, choice, b, *self, taken@, born@));
        }
        b
    }
}

impl World {
    /// Empties every pursuer list.
    fn clear_pursuers(&mut self)
        requires
            old(self).wf(),
        ensures
            final(self).wf(),
            final(self).bodies@.len() == old(self).bodies@.len(),
            final(self).cfg == old(self).cfg && final(self).grid == old(self).grid,
            final(self).now == old(self).now && final(self).next_id == old(self).next_id,
            forall|m: int| 0 <= m < final(self).bodies@.len() ==> (#[trigger] final(self).bodies@[m]).id == old(self).bodies@[m].id
                && final(self).bodies@[m].status == old(self).bodies@[m].status,
            forall|u: Target| #[trigger] final(self).target_ok(u) == old(self).target_ok(u),
            forall|u: Target| old(self).target_ok(u) ==> #[trigger] final(self).ident_of(u) == old(self).ident_of(u),
            forall|u: Target| final(self).target_ok(u) ==> (#[trigger] final(self).list_of(u)).len() == 0,
            crosses_kept(*final(self), *old(self)),
            bodies_kept(*final(self), *old(self)),
    {
        let mut k: usize = 0;
        while k < self.bodies.len()
            invariant
                self.wf(),
                crosses_kept(*self, *old(self)),
                bodies_kept(*self, *old(self)),
                k <= self.bodies@.len(),
                self.bodies@.len() == old(self).bodies@.len(),
                self.cfg == old(self).cfg && self.grid == old(self).grid,
                self.now == old(self).now && self.next_id == old(self).next_id,
                forall|m: int| 0 <= m < self.bodies@.len() ==> (#[trigger] self.bodies@[m]).id == old(self).bodies@[m].id
                && self.bodies@[m].status == old(self).bodies@[m].status,
                forall|u: Target| #[trigger] self.target_ok(u) == old(self).target_ok(u),
                forall|u: Target| old(self).target_ok(u) ==> #[trigger] self.ident_of(u) == old(self).ident_of(u),
                forall|m: usize| m < k ==> (#[trigger] self.list_of(Target::Prey(m))).len() == 0,
            decreases self.bodies@.len() - k,
        {
            self.set_followers_of(Target::Prey(k), Vec::new());
            k = k + 1;
        }
        let mut i: usize = 0;
        while i < self.grid.rows
            invariant
                self.wf(),
                crosses_kept(*self, *old(self)),
                bodies_kept(*self, *old(self)),
                self.bodies@.len() == old(self).bodies@.len(),
                self.cfg == old(self).cfg && self.grid == old(self).grid,
                self.now == old(self).now && self.next_id == old(self).next_id,
                forall|m: int| 0 <= m < self.bodies@.len() ==> (#[trigger] self.bodies@[m]).id == old(self).bodies@[m].id
                && self.bodies@[m].status == old(self).bodies@[m].status,
                forall|u: Target| #[trigger] self.target_ok(u) == old(self).target_ok(u),
                forall|u: Target| old(self).target_ok(u) ==> #[trigger] self.ident_of(u) == old(self).ident_of(u),
                forall|m: usize| m < self.bodies@.len() ==> (#[trigger] self.list_of(Target::Prey(m))).len() == 0,
                forall|a: usize, b: usize, c: usize| a < i && self.target_ok(Target::Plant(a, b, c))
                    ==> (#[trigger] self.list_of(Target::Plant(a, b, c))).len() == 0,
            decreases self.grid.rows - i,
        {
            let mut j: usize = 0;
            while j < self.grid.columns
                invariant
                    self.wf(),
                    crosses_kept(*self, *old(self)),
                bodies_kept(*self, *old(self)),
                crosses_kept(*self, *old(self)),
                bodies_kept(*self, *old(self)),
                    i < self.grid.rows,
                    self.bodies@.len() == old(self).bodies@.len(),
                    self.cfg == old(self).cfg && self.grid == old(self).grid,
                    self.now == old(self).now && self.next_id == old(self).next_id,
                    forall|m: int| 0 <= m < self.bodies@.len() ==> (#[trigger] self.bodies@[m]).id == old(self).bodies@[m].id
                    && self.bodies@[m].status == old(self).bodies@[m].status,
                    forall|u: Target| #[trigger] self.target_ok(u) == old(self).target_ok(u),
                    forall|u: Target| old(self).target_ok(u) ==> #[trigger] self.ident_of(u) == old(self).ident_of(u),
                    forall|m: usize| m < self.bodies@.len() ==> (#[trigger] self.list_of(Target::Prey(m))).len() == 0,
                    forall|a: usize, b: usize, c: usize| (a < i || (a == i && b < j)) && self.target_ok(Target::Plant(a, b, c))
                        ==> (#[trigger] self.list_of(Target::Plant(a, b, c))).len() == 0,
                decreases self.grid.columns - j,
            {
                let mut s: usize = 0;
                while s < self.plants.bags[i][j].len()
                    invariant
                        self.wf(),
                        crosses_kept(*self, *old(self)),
                bodies_kept(*self, *old(self)),
                    crosses_kept(*self, *old(self)),
                bodies_kept(*self, *old(self)),
                crosses_kept(*self, *old(self)),
                bodies_kept(*self, *old(self)),
                        i < self.grid.rows,
                        j < self.grid.columns,
                        s <= self.plants.bags@[i as int]@[j as int]@.len(),
                        self.bodies@.len() == old(self).bodies@.len(),
                        self.cfg == old(self).cfg && self.grid == old(self).grid,
                        self.now == old(self).now && self.next_id == old(self).next_id,
                        forall|m: int| 0 <= m < self.bodies@.len() ==> (#[trigger] self.bodies@[m]).id == old(self).bodies@[m].id
                        && self.bodies@[m].status == old(self).bodies@[m].status,
                        forall|u: Target| #[trigger] self.target_ok(u) == old(self).target_ok(u),
                        forall|u: Target| old(self).target_ok(u) ==> #[trigger] self.ident_of(u) == old(self).ident_of(u),
                        forall|m: usize| m < self.bodies@.len() ==> (#[trigger] self.list_of(Target::Prey(m))).len() == 0,
                        forall|a: usize, b: usize, c: usize| (a < i || (a == i && b < j) || (a == i && b == j && c < s))
                            && self.target_ok(Target::Plant(a, b, c)) ==> (#[trigger] self.list_of(Target::Plant(a, b, c))).len() == 0,
                    decreases self.plants.bags@[i as int]@[j as int]@.len() - s,
                {
                    self.set_followers_of(Target::Plant(i, j, s), Vec::new());
                    s = s + 1;
                }
                proof {
                    assert forall|a: usize, b: usize, c: usize| (a < i || (a == i && b < j + 1)) && self.target_ok(Target::Plant(a, b, c))
                        implies (#[trigger] self.list_of(Target::Plant(a, b, c))).len() == 0 by {
                        if a == i && b == j {
                            assert(c < s);
                        }
                    }
                }
                j = j + 1;
            }
            proof {
                assert forall|a: usize, b: usize, c: usize| a < i + 1 && self.target_ok(Target::Plant(a, b, c))
                    implies (#[trigger] self.list_of(Target::Plant(a, b, c))).len() == 0 by {
                    if a == i {
                        assert(self.plants.has_slot(a as int, b as int, c as int));
                        assert(b < self.grid.columns);
                    }
                }
            }
            i = i + 1;
        }
        proof {
            assert forall|a: usize, b: usize, c: usize| self.target_ok(Target::Plant(a, b, c))
                implies (#[trigger] self.list_of(Target::Plant(a, b, c))).len() == 0 by {
                assert(self.plants.has_slot(a as int, b as int, c as int));
                assert(a < self.grid.rows);
            }
        }
        let mut i: usize = 0;
        while i < self.grid.rows
            invariant
                self.wf(),
                crosses_kept(*self, *old(self)),
                bodies_kept(*self, *old(self)),
                self.bodies@.len() == old(self).bodies@.len(),
                self.cfg == old(self).cfg && self.grid == old(self).grid,
                self.now == old(self).now && self.next_id == old(self).next_id,
                forall|m: int| 0 <= m < self.bodies@.len() ==> (#[trigger] self.bodies@[m]).id == old(self).bodies@[m].id
                && self.bodies@[m].status == old(self).bodies@[m].status,
                forall|u: Target| #[trigger] self.target_ok(u) == old(self).target_ok(u),
                forall|u: Target| old(self).target_ok(u) ==> #[trigger] self.ident_of(u) == old(self).ident_of(u),
                forall|m: usize| m < self.bodies@.len() ==> (#[trigger] self.list_of(Target::Prey(m))).len() == 0,
                forall|a: usize, b: usize, c: usize| self.target_ok(Target::Plant(a, b, c))
                    ==> (#[trigger] self.list_of(Target::Plant(a, b, c))).len() == 0,
                forall|a: usize, b: usize, c: usize| a < i && self.target_ok(Target::Cross(a, b, c))
                    ==> (#[trigger] self.list_of(Target::Cross(a, b, c))).len() == 0,
            decreases self.grid.rows - i,
        {
            let mut j: usize = 0;
            while j < self.grid.columns
                invariant
                    self.wf(),
                    crosses_kept(*self, *old(self)),
                bodies_kept(*self, *old(self)),
                crosses_kept(*self, *old(self)),
                bodies_kept(*self, *old(self)),
                    i < self.grid.rows,
                    self.bodies@.len() == old(self).bodies@.len(),
                    self.cfg == old(self).cfg && self.grid == old(self).grid,
                    self.now == old(self).now && self.next_id == old(self).next_id,
                    forall|m: int| 0 <= m < self.bodies@.len() ==> (#[trigger] self.bodies@[m]).id == old(self).bodies@[m].id
                    && self.bodies@[m].status == old(self).bodies@[m].status,
                    forall|u: Target| #[trigger] self.target_ok(u) == old(self).target_ok(u),
                    forall|u: Target| old(self).target_ok(u) ==> #[trigger] self.ident_of(u) == old(self).ident_of(u),
                    forall|m: usize| m < self.bodies@.len() ==> (#[trigger] self.list_of(Target::Prey(m))).len() == 0,
                    forall|a: usize, b: usize, c: usize| self.target_ok(Target::Plant(a, b, c))
                        ==> (#[trigger] self.list_of(Target::Plant(a, b, c))).len() == 0,
                    forall|a: usize, b: usize, c: usize| (a < i || (a == i && b < j)) && self.target_ok(Target::Cross(a, b, c))
                        ==> (#[trigger] self.list_of(Target::Cross(a, b, c))).len() == 0,
                decreases self.grid.columns - j,
            {
                let mut s: usize = 0;
                while s < self.crosses.bags[i][j].len()
                    invariant
                        self.wf(),
                        crosses_kept(*self, *old(self)),
                bodies_kept(*self, *old(self)),
                    crosses_kept(*self, *old(self)),
                bodies_kept(*self, *old(self)),
                crosses_kept(*self, *old(self)),
                bodies_kept(*self, *old(self)),
                        i < self.grid.rows,
                        j < self.grid.columns,
                        s <= self.crosses.bags@[i as int]@[j as int]@.len(),
                        self.bodies@.len() == old(self).bodies@.len(),
                        self.cfg == old(self).cfg && self.grid == old(self).grid,
                        self.now == old(self).now && self.next_id == old(self).next_id,
                        forall|m: int| 0 <= m < self.bodies@.len() ==> (#[trigger] self.bodies@[m]).id == old(self).bodies@[m].id
                        && self.bodies@[m].status == old(self).bodies@[m].status,
                        forall|u: Target| #[trigger] self.target_ok(u) == old(self).target_ok(u),
                        forall|u: Target| old(self).target_ok(u) ==> #[trigger] self.ident_of(u) == old(self).ident_of(u),
                        forall|m: usize| m < self.bodies@.len() ==> (#[trigger] self.list_of(Target::Prey(m))).len() == 0,
                        forall|a: usize, b: usize, c: usize| self.target_ok(Target::Plant(a, b, c))
                            ==> (#[trigger] self.list_of(Target::Plant(a, b, c))).len() == 0,
                        forall|a: usize, b: usize, c: usize| (a < i || (a == i && b < j) || (a == i && b == j && c < s))
                            && self.target_ok(Target::Cross(a, b, c)) ==> (#[trigger] self.list_of(Target::Cross(a, b, c))).len() == 0,
                    decreases self.crosses.bags@[i as int]@[j as int]@.len() - s,
                {
                    self.set_followers_of(Target::Cross(i, j, s), Vec::new());
                    s = s + 1;
                }
                proof {
                    assert forall|a: usize, b: usize, c: usize| (a < i || (a == i && b < j + 1)) && self.target_ok(Target::Cross(a, b, c))
                        implies (#[trigger] self.list_of(Target::Cross(a, b, c))).len() == 0 by {
                        if a == i && b == j {
                            assert(c < s);
                        }
                    }
                }
                j = j + 1;
            }
            proof {
                assert forall|a: usize, b: usize, c: usize| a < i + 1 && self.target_ok(Target::Cross(a, b, c))
                    implies (#[trigger] self.list_of(Target::Cross(a, b, c))).len() == 0 by {
                    if a == i {
                        assert(self.crosses.has_slot(a as int, b as int, c as int));
                        assert(b < self.grid.columns);
                    }
                }
            }
            i = i + 1;
        }
        proof {
            assert forall|u: Target| self.target_ok(u) implies (#[trigger] self.list_of(u)).len() == 0 by {
                match u {
                    Target::Prey(m) => {},
                    Target::Plant(a, b, c) => {},
                    Target::Cross(a, b, c) => {
                        assert(self.crosses.has_slot(a as int, b as int, c as int));
                        assert(a < self.grid.rows);
                    },
                }
            }
        }
    }

    /// Rebuilds every pursuer list from the bodies' statuses: each body
    /// following a target that still exists is entered in its list; a body
    /// whose target is gone becomes idle. Afterwards the reference graph is
    /// consistent.
    pub fn rebuild_pursuers(&mut self)
        requires
            old(self).wf(),
        ensures
            final(self).wf(),
            final(self).graph_consistent(),
            crosses_kept(*final(self), *old(self)),
            forall|m: int| 0 <= m < final(self).bodies@.len() ==> (#[trigger] final(self).bodies@[m]).id == old(self).bodies@[m].id,
            forall|m: int| 0 <= m < final(self).bodies@.len() ==> rebuilt_body(*old(self), old(self).bodies@[m], #[trigger] final(self).bodies@[m]),
            final(self).bodies@.len() == old(self).bodies@.len(),
            final(self).cfg == old(self).cfg && final(self).grid == old(self).grid,
            final(self).now == old(self).now && final(self).next_id == old(self).next_id,
    {
        self.clear_pursuers();
        let n = self.bodies.len();
        proof {
            assert forall|m: int| 0 <= m < self.bodies@.len() implies rebuilt_body(*old(self), old(self).bodies@[m], #[trigger] self.bodies@[m]) by {
                assert(m < n);
                assert(same_list(self.bodies@[(m as usize) as int], old(self).bodies@[(m as usize) as int]));
            }
        }
        let mut k: usize = 0;
        while k < self.bodies.len()
            invariant
                self.wf(),
                crosses_kept(*self, *old(self)),
                forall|m: int| 0 <= m < self.bodies@.len() ==> (#[trigger] self.bodies@[m]).id == old(self).bodies@[m].id,
                forall|m: int| 0 <= m < self.bodies@.len() ==> rebuilt_body(*old(self), old(self).bodies@[m], #[trigger] self.bodies@[m]),
                forall|u: Target| #[trigger] self.target_ok(u) == old(self).target_ok(u),
                forall|u: Target| old(self).target_ok(u) ==> #[trigger] self.ident_of(u) == old(self).ident_of(u),
                k <= self.bodies@.len(),
                self.bodies@.len() == old(self).bodies@.len(),
                self.cfg == old(self).cfg && self.grid == old(self).grid,
                self.now == old(self).now && self.next_id == old(self).next_id,
                self.graph_upto(k as int),
            decreases self.bodies@.len() - k,
        {
            proof {
                assert(body_ok(self.bodies@[k as int], self.grid, self.now));
            }
            if !(self.bodies[k].status matches Status::FollowingTarget(..)) {
                proof {
                    lemma_upto_grow(*self, k as int);
                }
            }
            if let Status::FollowingTarget(id, p, kind) = self.bodies[k].status {
                match self.locate(id, p, kind) {
                    Some(t) => {
                        let snap = self.bodies[k].snapshot();
                        let ghost w0 = *self;
                        let n = self.bodies.len();
                        self.register(t, snap);
                        proof {
                            lemma_register_keeps_graph(w0, *self, t, snap, k as int);
                            assert forall|m: int| 0 <= m < self.bodies@.len() implies rebuilt_body(*old(self), old(self).bodies@[m], #[trigger] self.bodies@[m]) by {
                                assert(m < n);
                                assert(same_list(self.bodies@[(m as usize) as int], w0.bodies@[(m as usize) as int]));
                                assert(rebuilt_body(*old(self), old(self).bodies@[m], w0.bodies@[m]));
                            }
                            assert forall|u: Target| old(self).target_ok(u) implies #[trigger] self.ident_of(u) == old(self).ident_of(u) by {
                                assert(w0.target_ok(u) == old(self).target_ok(u));
                                assert(w0.ident_of(u) == old(self).ident_of(u));
                                assert(self.ident_of(u) == w0.ident_of(u));
                            }
                            assert forall|u: Target| #[trigger] self.target_ok(u) == old(self).target_ok(u) by {
                                assert(w0.target_ok(u) == old(self).target_ok(u));
                                assert(self.target_ok(u) == w0.target_ok(u));
                            }
                        }
                    },
                    None => {
                        let ghost w0 = *self;
                        self.bodies[k].status = Status::Idle;
                        proof {
                            assert forall|m: int| 0 <= m < self.bodies@.len() implies #[trigger] body_ok(self.bodies@[m], self.grid, self.now) by {
                                assert(body_ok(w0.bodies@[m], self.grid, self.now));
                            }
                            lemma_status_change_keeps_graph(w0, *self, k as int);
                            assert(rebuilt_body(*old(self), old(self).bodies@[k as int], w0.bodies@[k as int]));
                            assert forall|t: Target| !#[trigger] old(self).located_at(t, id, p, kind) by {
                                assert(!w0.located_at(t, id, p, kind));
                                if old(self).target_ok(t) {
                                    assert(w0.ident_of(t) == old(self).ident_of(t));
                                }
                            }
                            assert forall|m: int| 0 <= m < self.bodies@.len() implies rebuilt_body(*old(self), old(self).bodies@[m], #[trigger] self.bodies@[m]) by {
                                if m != k {
                                    assert(self.bodies@[m] == w0.bodies@[m]);
                                }
                            }
                            assert forall|u: Target| #[trigger] self.target_ok(u) == old(self).target_ok(u)
                                && (old(self).target_ok(u) ==> self.ident_of(u) == old(self).ident_of(u)) by {
                                assert(self.target_ok(u) == w0.target_ok(u));
                                assert(w0.target_ok(u) == old(self).target_ok(u));
                                if old(self).target_ok(u) {
                                    assert(w0.ident_of(u) == old(self).ident_of(u));
                                    if let Target::Prey(m) = u {
                                        if m as int != k as int {
                                            assert(self.bodies@[m as int] == w0.bodies@[m as int]);
                                        }
                                    }
                                    assert(self.ident_of(u) == w0.ident_of(u));
                                }
                            }
                            assert forall|u: Target| old(self).target_ok(u) implies #[trigger] self.ident_of(u) == old(self).ident_of(u) by {
                                assert(self.target_ok(u) == old(self).target_ok(u));
                            }
                        }
                    },
                }
            }
            k = k + 1;
        }
    }

    /// Purges the corpses that have outlived their lifespan.
    fn purge_crosses(&mut self)
        requires
            old(self).wf(),
        ensures
            final(self).wf(),
            final(self).bodies@ == old(self).bodies@,
            final(self).cfg == old(self).cfg && final(self).grid == old(self).grid,
            final(self).now == old(self).now && final(self).next_id == old(self).next_id,
    {
        let g = self.grid;
        let mut i: usize = 0;
        while i < g.rows
            invariant
                self.wf(),
                g == self.grid,
                self.bodies@ == old(self).bodies@,
                self.cfg == old(self).cfg && self.grid == old(self).grid,
                self.now == old(self).now && self.next_id == old(self).next_id,
            decreases g.rows - i,
        {
            let mut j: usize = 0;
            while j < g.columns
                invariant
                    self.wf(),
                    g == self.grid,
                    i < g.rows,
                    self.bodies@ == old(self).bodies@,
                    self.cfg == old(self).cfg && self.grid == old(self).grid,
                    self.now == old(self).now && self.next_id == old(self).next_id,
                decreases g.columns - j,
            {
                let mut s: usize = self.crosses.bags[i][j].len();
                while s > 0
                    invariant
                        self.wf(),
                        g == self.grid,
                        i < g.rows,
                        j < g.columns,
                        s <= self.crosses.bags@[i as int]@[j as int]@.len(),
                        self.bodies@ == old(self).bodies@,
                        self.cfg == old(self).cfg && self.grid == old(self).grid,
                        self.now == old(self).now && self.next_id == old(self).next_id,
                    decreases s,
                {
                    s = s - 1;
                    if self.crosses.bags[i][j][s].expired(&self.cfg, self.now) {
                        let ghost before = self.crosses;
                        let _gone = self.crosses.remove(&g, crate::grid::Cell { i, j }, s);
                        proof {
                            assert forall|a: int, b: int, c: int| #[trigger] self.crosses.has_slot(a, b, c) implies self.crosses.item(a, b, c).valid() by {
                                lemma_removed_slot_valid(&before, &self.crosses, a, b, c, i as int, j as int);
                            }
                        }
                    }
                }
                j = j + 1;
            }
            i = i + 1;
        }
    }

    /// Applies a sweep's buffered changes: every taken body leaves the
    /// registry, and those that died (status `Cross`) leave a corpse in the
    /// cell of their position; the newborns join at the end. Corpses already
    /// there stay.
    pub fn apply_removals(&mut self, taken: &Vec<u64>, born: Vec<Body>)
        requires
            old(self).wf(),
            all_ok(born@, old(self).grid, old(self).now),
            forall|m: int| 0 <= m < born@.len() ==> (#[trigger] born@[m]).id < old(self).next_id,
            ids_unique(born@),
            forall|m: int, j: int| 0 <= m < born@.len() && 0 <= j < old(self).bodies@.len()
                ==> (#[trigger] born@[m]).id != (#[trigger] old(self).bodies@[j]).id,
        ensures
            final(self).wf(),
            final(self).bodies@ == old(self).bodies@.filter(|b: Body| !taken@.contains(b.id)) + born@,
            forall|k: int| 0 <= k < old(self).bodies@.len() && taken@.contains(old(self).bodies@[k].id)
                && old(self).bodies@[k].status == Status::Cross ==> #[trigger] corpse_of(final(self).crosses, old(self).grid, old(self).bodies@[k]),
            forall|i: int, j: int, s: int| #[trigger] old(self).crosses.has_slot(i, j, s) ==> final(self).crosses.has_slot(i, j, s)
                && final(self).crosses.item(i, j, s) == old(self).crosses.item(i, j, s),
            final(self).plants == old(self).plants,
            final(self).cfg == old(self).cfg && final(self).grid == old(self).grid,
            final(self).now == old(self).now && final(self).next_id == old(self).next_id,
    {
        let g = self.grid;
        let ghost pred = |b: Body| !taken@.contains(b.id);
        let mut rest: Vec<Body> = Vec::new();
        std::mem::swap(&mut rest, &mut self.bodies);
        let ghost orig = rest@;
        let ghost c0 = self.crosses;
        let total: usize = rest.len();
        let mut kept: Vec<Body> = Vec::new();
        let mut n: usize = 0;
        proof {
            assert(orig.take(0) == Seq::<Body>::empty());
            reveal(Seq::filter);
            assert(orig.skip(0) == orig);
        }
        while rest.len() > 0
            invariant
                self.wf(),
                g == self.grid,
                all_ok(rest@, self.grid, self.now),
                all_ok(kept@, self.grid, self.now),
                forall|m: int| 0 <= m < kept@.len() ==> (#[trigger] kept@[m]).id < self.next_id,
                forall|m: int| 0 <= m < orig.len() ==> (#[trigger] orig[m]).id < self.next_id,
                orig == old(self).bodies@,
                ids_unique(orig),
                ids_unique(kept@),
                forall|m: int| 0 <= m < kept@.len() ==> exists|j: int| 0 <= j < n && #[trigger] kept@[m] == orig[j],
                n <= orig.len(),
                orig.len() == total,
                rest@ == orig.skip(n as int),
                kept@ == orig.take(n as int).filter(pred),
                pred == (|b: Body| !taken@.contains(b.id)),
                forall|k: int| 0 <= k < n && taken@.contains(orig[k].id) && orig[k].status == Status::Cross
                    ==> #[trigger] corpse_of(self.crosses, g, orig[k]),
                forall|i: int, j: int, s: int| #[trigger] c0.has_slot(i, j, s) ==> self.crosses.has_slot(i, j, s)
                    && self.crosses.item(i, j, s) == c0.item(i, j, s),
                self.plants == old(self).plants,
                self.cfg == old(self).cfg && self.grid == old(self).grid,
                self.now == old(self).now && self.next_id == old(self).next_id,
            decreases rest@.len(),
        {
            let ghost pre = rest@;
            let ghost kept0 = kept@;
            let b = rest.remove(0);
            proof {
                assert(b == orig[n as int]);
                assert(rest@ == orig.skip(n as int + 1));
                assert(body_ok(pre[0], self.grid, self.now));
                assert forall|m: int| 0 <= m < rest@.len() implies #[trigger] body_ok(rest@[m], self.grid, self.now) by {
                    assert(rest@[m] == pre[m + 1]);
                    assert(body_ok(pre[m + 1], self.grid, self.now));
                }
                reveal(Seq::filter);
                assert(orig.take(n as int + 1).drop_last() == orig.take(n as int));
                assert(orig.take(n as int + 1).last() == orig[n as int]);
            }
            if contains_id(taken, b.id) {
                if b.status == Status::Cross {
                    let c = Cross::new(&b, self.now);
                    let cell = g.get_cell_by_pos(&c.pos);
                    let x: usize = self.crosses.bags[cell.i][cell.j].len();
                    let ghost before = self.crosses;
                    self.crosses.insert(&g, c);
                    proof {
                        let cc = g.cell_of(c.pos);
                        assert forall|a: int, bb: int, x: int| #[trigger] self.crosses.has_slot(a, bb, x) implies self.crosses.item(a, bb, x).valid() by {
                            if a == cc.i && bb == cc.j && x == before.bags@[a]@[bb]@.len() {
                            } else {
                                assert(before.has_slot(a, bb, x));
                            }
                        }
                        assert forall|a: int, bb: int, x: int| #[trigger] before.has_slot(a, bb, x) implies self.crosses.has_slot(a, bb, x)
                            && self.crosses.item(a, bb, x) == before.item(a, bb, x) by {
                            if a == cc.i && bb == cc.j {
                                assert(self.crosses.bags@[a]@[bb]@[x] == before.bags@[a]@[bb]@[x]);
                            } else if a == cc.i {
                                assert(self.crosses.bags@[a]@[bb] == before.bags@[a]@[bb]);
                            }
                        }
                        assert(self.crosses.has_slot(cc.i as int, cc.j as int, x as int));
                        assert(corpse_of(self.crosses, g, b));
                        assert forall|k: int| 0 <= k < n + 1 && taken@.contains(orig[k].id) && orig[k].status == Status::Cross
                            implies #[trigger] corpse_of(self.crosses, g, orig[k]) by {
                            if k < n {
                                assert(corpse_of(before, g, orig[k]));
                                let s0 = choose|s0: usize| #[trigger] before.has_slot(g.cell_of(orig[k].pos).i as int, g.cell_of(orig[k].pos).j as int, s0 as int)
                                    && corpse_matches(before.item(g.cell_of(orig[k].pos).i as int, g.cell_of(orig[k].pos).j as int, s0 as int), orig[k]);
                                assert(before.has_slot(g.cell_of(orig[k].pos).i as int, g.cell_of(orig[k].pos).j as int, s0 as int));
                                assert(self.crosses.has_slot(g.cell_of(orig[k].pos).i as int, g.cell_of(orig[k].pos).j as int, s0 as int));
                            }
                        }
                    }
                }
            } else {
                let ghost pk = kept@;
                kept.push(b);
                proof {
                    assert forall|m: int| 0 <= m < kept@.len() implies #[trigger] body_ok(kept@[m], self.grid, self.now)
                        && kept@[m].id < self.next_id by {
                        if m < pk.len() {
                            assert(kept@[m] == pk[m]);
                        }
                    }
                    assert forall|m: int| 0 <= m < kept@.len() implies exists|j: int| 0 <= j < n + 1 && #[trigger] kept@[m] == orig[j] by {
                        if m < pk.len() {
                            assert(kept@[m] == pk[m]);
                            let j = choose|j: int| 0 <= j < n && #[trigger] pk[m] == orig[j];
                        } else {
                            assert(kept@[m] == orig[n as int]);
                        }
                    }
                    assert forall|a: int, c: int| 0 <= a < kept@.len() && 0 <= c < kept@.len() && a != c
                        implies (#[trigger] kept@[a]).id != (#[trigger] kept@[c]).id by {
                        if a < pk.len() && c < pk.len() {
                            assert(kept@[a] == pk[a] && kept@[c] == pk[c]);
                        } else if a < pk.len() {
                            assert(kept@[a] == pk[a]);
                            let j = choose|j: int| 0 <= j < n && #[trigger] pk[a] == orig[j];
                            assert(orig[j].id != orig[n as int].id);
                        } else {
                            assert(kept@[c] == pk[c]);
                            let j = choose|j: int| 0 <= j < n && #[trigger] pk[c] == orig[j];
                            assert(orig[j].id != orig[n as int].id);
                        }
                    }
                }
            }
            n = n + 1;
        }
        proof {
            assert(orig.skip(n as int).len() == 0);
            assert(orig.take(n as int) == orig);
        }
        let ghost pk = kept@;
        let ghost pb = born@;
        let mut born = born;
        kept.append(&mut born);
        proof {
            assert forall|m: int| 0 <= m < kept@.len() implies #[trigger] body_ok(kept@[m], self.grid, self.now)
                && kept@[m].id < self.next_id by {
                if m < pk.len() {
                    assert(kept@[m] == pk[m]);
                } else {
                    assert(kept@[m] == pb[m - pk.len()]);
                    assert(body_ok(pb[m - pk.len()], self.grid, self.now));
                }
            }
            assert forall|a: int, c: int| 0 <= a < kept@.len() && 0 <= c < kept@.len() && a != c
                implies (#[trigger] kept@[a]).id != (#[trigger] kept@[c]).id by {
                if a < pk.len() && c < pk.len() {
                    assert(kept@[a] == pk[a] && kept@[c] == pk[c]);
                } else if a >= pk.len() && c >= pk.len() {
                    assert(kept@[a] == pb[a - pk.len()] && kept@[c] == pb[c - pk.len()]);
                } else if a < pk.len() {
                    assert(kept@[a] == pk[a] && kept@[c] == pb[c - pk.len()]);
                    let j = choose|j: int| 0 <= j < n && #[trigger] pk[a] == orig[j];
                    assert(pb[c - pk.len()].id != old(self).bodies@[j].id);
                } else {
                    assert(kept@[c] == pk[c] && kept@[a] == pb[a - pk.len()]);
                    let j = choose|j: int| 0 <= j < n && #[trigger] pk[c] == orig[j];
                    assert(pb[a - pk.len()].id != old(self).bodies@[j].id);
                }
            }
        }
        self.bodies = kept;
    }

    /// One tick: every body not yet taken decides in registry order; then
    /// expired corpses are purged, bodies that died of exhaustion or age
    /// become corpses in the cell of their position, taken bodies leave the
    /// registry, children join it, the pursuer lists are rebuilt, and the
    /// clock advances.
    #[verifier::rlimit(80)]
    pub fn tick(&mut self, rng: &mut StdRng) -> (report: TickReport)
        requires
            old(self).wf(),
            old(self).now < u64::MAX,
        ensures
            final(self).wf(),
            final(self).graph_consistent(),
            final(self).now == old(self).now + 1,
            final(self).cfg == old(self).cfg && final(self).grid == old(self).grid,
            forall|k: int| 0 <= k < old(self).bodies@.len() && perishes(old(self).cfg, #[trigger] old(self).bodies@[k], old(self).now as int)
                && !report.eaten@.contains(old(self).bodies@[k].id)
                ==> corpse_of(final(self).crosses, old(self).grid, remains(old(self).cfg, old(self).bodies@[k], old(self).now as int)),
            forall|k: int| 0 <= k < old(self).bodies@.len() && (perishes(old(self).cfg, #[trigger] old(self).bodies@[k], old(self).now as int)
                || report.eaten@.contains(old(self).bodies@[k].id)) ==> gone(*final(self), old(self).bodies@[k].id),
            forall|k: int| 0 <= k < old(self).bodies@.len() && (perishes(old(self).cfg, #[trigger] old(self).bodies@[k], old(self).now as int)
                || report.eaten@.contains(old(self).bodies@[k].id)) ==> report.removed@.contains(old(self).bodies@[k].id),
            forall|k: int| 0 <= k < old(self).bodies@.len() && !report.removed@.contains(#[trigger] old(self).bodies@[k].id)
                ==> !gone(*final(self), old(self).bodies@[k].id),
            forall|m: int| 0 <= m < final(self).bodies@.len() && (#[trigger] final(self).bodies@[m]).id >= old(self).next_id
                ==> newborn(final(self).bodies@[m], old(self).cfg, old(self).now),
    {
        let ghost orig = self.bodies@;
        let ghost cfg0 = self.cfg;
        let ghost n0 = self.next_id;
        let ghost now0 = self.now;
        let mut taken: Vec<u64> = Vec::new();
        let mut eaten: Vec<u64> = Vec::new();
        let mut born: Vec<Body> = Vec::new();
        let mut k: usize = 0;
        while k < self.bodies.len()
            invariant
                self.wf(),
                all_ok(born@, self.grid, self.now),
                forall|m: int| 0 <= m < born@.len() ==> (#[trigger] born@[m]).id < self.next_id,
                forall|m: int| 0 <= m < born@.len() ==> (#[trigger] born@[m]).id >= n0,
                forall|m: int| 0 <= m < born@.len() ==> newborn(#[trigger] born@[m], cfg0, now0),
                ids_unique(born@),
                forall|m: int| 0 <= m < orig.len() ==> (#[trigger] self.bodies@[m]).id == orig[m].id,
                k <= self.bodies@.len(),
                self.bodies@.len() == orig.len(),
                self.cfg == old(self).cfg && self.grid == old(self).grid,
                self.now == old(self).now,
                cfg0 == old(self).cfg && now0 == old(self).now && n0 == old(self).next_id && orig == old(self).bodies@,
                self.next_id >= n0,
                forall|m: int| k <= m < orig.len() ==> same_list(#[trigger] self.bodies@[m], orig[m]),
                forall|m: int| 0 <= m < k && perishes(cfg0, #[trigger] orig[m], now0 as int) && !eaten@.contains(orig[m].id)
                    ==> taken@.contains(orig[m].id) && same_list(self.bodies@[m], Body { status: Status::Cross, ..remains(cfg0, orig[m], now0 as int) }),
                forall|m: int| 0 <= m < k && perishes(cfg0, #[trigger] orig[m], now0 as int)
                    ==> taken@.contains(orig[m].id) || eaten@.contains(orig[m].id),
                forall|x: u64| #[trigger] eaten@.contains(x) ==> taken@.contains(x),
            decreases self.bodies@.len() - k,
        {
            let len = self.bodies.len();
            proof {
                assert(same_list(self.bodies@[k as int], orig[k as int]));
            }
            if !contains_id(&eaten, self.bodies[k].id) {
                let ghost pre = self.bodies@;
                let ghost taken0 = taken@;
                let ghost eaten0 = eaten@;
                let ghost born0 = born@;
                let b = self.bodies.remove(k);
                proof {
                    assert(body_ok(pre[k as int], self.grid, self.now));
                    assert forall|m: int| 0 <= m < self.bodies@.len() implies #[trigger] body_ok(self.bodies@[m], self.grid, self.now)
                        && self.bodies@[m].id < self.next_id by {
                        if m < k {
                            assert(self.bodies@[m] == pre[m]);
                            assert(body_ok(pre[m], self.grid, self.now));
                        } else {
                            assert(self.bodies@[m] == pre[m + 1]);
                            assert(body_ok(pre[m + 1], self.grid, self.now));
                        }
                    }
                }
                let ghost mid0 = self.bodies@;
                let b2 = self.step_body(b, &mut taken, &mut eaten, &mut born, rng);
                let ghost mid = self.bodies@;
                self.bodies.insert(k, b2);
                proof {
                    assert(b == pre[k as int]);
                    assert forall|x: u64| #[trigger] taken0.contains(x) implies taken@.contains(x) by {
                        let i = choose|i: int| 0 <= i < taken0.len() && taken0[i] == x;
                        assert(taken@[i] == x);
                    }
                    assert forall|m: int| 0 <= m < self.bodies@.len() implies #[trigger] body_ok(self.bodies@[m], self.grid, self.now)
                        && self.bodies@[m].id < self.next_id by {
                        if m < k {
                            assert(self.bodies@[m] == mid[m]);
                            assert(body_ok(mid[m], self.grid, self.now));
                        } else if m > k {
                            assert(self.bodies@[m] == mid[m - 1]);
                            assert(body_ok(mid[m - 1], self.grid, self.now));
                        }
                    }
                    assert forall|m: int| 0 <= m < born@.len() implies (#[trigger] born@[m]).id >= n0
                        && newborn(born@[m], cfg0, now0) by {
                        if m < born0.len() {
                            assert(born@[m] == born0[m]);
                        }
                    }
                    assert forall|a: int, c: int| 0 <= a < born@.len() && 0 <= c < born@.len() && a != c
                        implies (#[trigger] born@[a]).id != (#[trigger] born@[c]).id by {
                        if a < born0.len() && c < born0.len() {
                            assert(born@[a] == born0[a] && born@[c] == born0[c]);
                        } else if a < born0.len() {
                            assert(born@[a] == born0[a]);
                        } else if c < born0.len() {
                            assert(born@[c] == born0[c]);
                        } else if a < c {
                        } else {
                        }
                    }
                    assert forall|m: int| 0 <= m < orig.len() implies (#[trigger] self.bodies@[m]).id == orig[m].id by {
                        if m != k {
                            assert(same_list(self.bodies@[m], pre[m]));
                        }
                    }
                    assert forall|a: int, c: int| 0 <= a < self.bodies@.len() && 0 <= c < self.bodies@.len() && a != c
                        implies (#[trigger] self.bodies@[a]).id != (#[trigger] self.bodies@[c]).id by {
                        assert(self.bodies@[a].id == pre[a].id) by {
                            if a != k {
                                assert(same_list(self.bodies@[a], pre[a]));
                            }
                        }
                        assert(self.bodies@[c].id == pre[c].id) by {
                            if c != k {
                                assert(same_list(self.bodies@[c], pre[c]));
                            }
                        }
                    }
                    assert forall|m: int| 0 <= m < orig.len() && m != k implies same_list(#[trigger] self.bodies@[m], pre[m]) by {
                        if m < k {
                            assert(self.bodies@[m] == mid[m]);
                            assert(same_list(mid[(m as usize) as int], mid0[(m as usize) as int]));
                            assert(mid0[m] == pre[m]);
                        } else {
                            assert(self.bodies@[m] == mid[m - 1]);
                            assert(same_list(mid[((m - 1) as usize) as int], mid0[((m - 1) as usize) as int]));
                            assert(mid0[m - 1] == pre[m]);
                        }
                    }
                    assert(self.bodies@[k as int] == b2);
                    assert(dies(cfg0, b, now0 as int) == dies(cfg0, orig[k as int], now0 as int));
                    assert(exhausted(cfg0, b, now0 as int) == exhausted(cfg0, orig[k as int], now0 as int));
                    if perishes(cfg0, orig[k as int], now0 as int) {
                        assert(taken@.contains(orig[k as int].id)) by {
                            assert(taken@[taken@.len() - 1] == b.id);
                        }
                        assert(same_list(b2, Body { status: Status::Cross, ..remains(cfg0, orig[k as int], now0 as int) }));
                    }
                    assert forall|x: u64| #[trigger] eaten@.contains(x) implies taken@.contains(x) by {
                        if !taken@.contains(x) {
                            assert(!taken0.contains(x));
                        }
                    }
                    assert forall|x: u64| #[trigger] eaten0.contains(x) implies eaten@.contains(x) by {
                        let i = choose|i: int| 0 <= i < eaten0.len() && eaten0[i] == x;
                        assert(eaten@[i] == x);
                    }
                    assert forall|m: int| 0 <= m < k + 1 && perishes(cfg0, #[trigger] orig[m], now0 as int) && !eaten@.contains(orig[m].id)
                        implies taken@.contains(orig[m].id) && same_list(self.bodies@[m], Body { status: Status::Cross, ..remains(cfg0, orig[m], now0 as int) }) by {
                        if m < k {
                            assert(!eaten0.contains(orig[m].id));
                            assert(taken0.contains(orig[m].id));
                            assert(same_list(pre[m], Body { status: Status::Cross, ..remains(cfg0, orig[m], now0 as int) }));
                            assert(same_list(self.bodies@[m], pre[m]));
                        }
                    }
                    assert forall|m: int| 0 <= m < k + 1 && perishes(cfg0, #[trigger] orig[m], now0 as int)
                        implies taken@.contains(orig[m].id) || eaten@.contains(orig[m].id) by {
                        if m < k {
                            if taken0.contains(orig[m].id) {
                            } else {
                                assert(eaten0.contains(orig[m].id));
                            }
                        }
                    }
                }
            }
            k = k + 1;
        }
        let ghost swept = self.bodies@;
        self.purge_crosses();
        proof {
            assert forall|m: int, j: int| 0 <= m < born@.len() && 0 <= j < self.bodies@.len()
                implies (#[trigger] born@[m]).id != (#[trigger] self.bodies@[j]).id by {
                assert(self.bodies@[j].id == orig[j].id);
                assert(old(self).bodies@[j].id < n0);
            }
        }
        self.apply_removals(&taken, born);
        let ghost applied = *self;
        self.rebuild_pursuers();
        let ghost w0 = *self;
        self.now = self.now + 1;
        proof {
            lemma_graph_ignores_clock(w0, *self);
            assert forall|m: int| 0 <= m < self.bodies@.len() implies #[trigger] body_ok(self.bodies@[m], self.grid, self.now) by {
                assert(body_ok(self.bodies@[m], self.grid, (self.now - 1) as u64));
            }
            assert forall|k: int| 0 <= k < orig.len() && perishes(cfg0, #[trigger] orig[k], now0 as int) && !eaten@.contains(orig[k].id)
                implies corpse_of(self.crosses, old(self).grid, remains(cfg0, orig[k], now0 as int)) by {
                assert(same_list(swept[k], Body { status: Status::Cross, ..remains(cfg0, orig[k], now0 as int) }));
                assert(corpse_of(applied.crosses, old(self).grid, swept[k]));
                lemma_corpse_kept(self.crosses, applied, old(self).grid, swept[k], remains(cfg0, orig[k], now0 as int), *self);
            }
            assert forall|k: int| 0 <= k < orig.len() && (perishes(cfg0, #[trigger] orig[k], now0 as int) || eaten@.contains(orig[k].id))
                implies gone(*self, orig[k].id) by {
                assert(taken@.contains(orig[k].id));
                assert(orig[k].id < n0);
                let pred = |b: Body| !taken@.contains(b.id);
                let f = swept.filter(pred);
                assert(taken@.contains(orig[k].id));
                assert forall|m: int| 0 <= m < self.bodies@.len() implies #[trigger] self.bodies@[m].id != orig[k].id by {
                    assert(self.bodies@[m].id == applied.bodies@[m].id);
                    if m < f.len() {
                        swept.lemma_filter_pred(pred, m);
                        assert(applied.bodies@[m] == f[m]);
                    } else {
                        assert(applied.bodies@[m] == born@[m - f.len()]);
                    }
                }
            }
        }
        proof {
            assert forall|k: int| 0 <= k < orig.len() && !taken@.contains(#[trigger] orig[k].id)
                implies !gone(*self, orig[k].id) by {
                let pred = |b: Body| !taken@.contains(b.id);
                let f = swept.filter(pred);
                assert(swept[k].id == orig[k].id);
                swept.lemma_filter_contains(pred, k);
                let m = choose|m: int| 0 <= m < f.len() && f[m] == swept[k];
                assert(applied.bodies@[m] == f[m]);
                assert(self.bodies@[m].id == applied.bodies@[m].id);
            }
        }
        proof {
            assert forall|m: int| 0 <= m < self.bodies@.len() && (#[trigger] self.bodies@[m]).id >= n0
                implies newborn(self.bodies@[m], cfg0, now0) by {
                let pred = |b: Body| !taken@.contains(b.id);
                let f = swept.filter(pred);
                assert(rebuilt_body(applied, applied.bodies@[m], self.bodies@[m]));
                if m < f.len() {
                    assert(applied.bodies@[m] == f[m]);
                    swept.lemma_filter_contains_rev(pred, f[m]);
                    assert(f.contains(f[m]));
                    let j = choose|j: int| 0 <= j < swept.len() && swept[j] == f[m];
                    assert(swept[j].id == orig[j].id);
                    assert(old(self).bodies@[j].id < n0);
                } else {
                    assert(applied.bodies@[m] == born@[m - f.len()]);
                }
            }
        }
        TickReport { removed: taken, eaten }
    }
}

/// The body was born at tick `now`: idle, with the configured lifespan.
pub open spec fn newborn(b: Body, cfg: Config, now: u64) -> bool {
    b.born == now && b.status == Status::Idle && b.lifespan == cfg.lifespan
}

/// No body of the registry has the identity.
pub open spec fn gone(w: World, id: u64) -> bool {
    forall|m: int| 0 <= m < w.bodies@.len() ==> (#[trigger] w.bodies@[m]).id != id
}

/// `a` is `b` but for its pursuer list.
pub open spec fn same_list(a: Body, b: Body) -> bool {
    (Body { followed_by: b.followed_by, ..a }) == b
}

/// A corpse of a body survives changes to pursuer lists, and stands for any
/// body that agrees on the fields a corpse records.
proof fn lemma_corpse_kept(c1: SpatialStore<Cross>, w0: World, g: Grid, b0: Body, b1: Body, w1: World)
    requires
        c1 == w1.crosses,
        corpse_of(w0.crosses, g, b0),
        crosses_kept(w1, w0),
        b1.id == b0.id && b1.pos == b0.pos && b1.energy == b0.energy && b1.viruses == b0.viruses && b1.body_type == b0.body_type,
    ensures
        corpse_of(c1, g, b1),
{
    let i = g.cell_of(b0.pos).i;
    let j = g.cell_of(b0.pos).j;
    let s = choose|s: usize| #[trigger] w0.crosses.has_slot(i as int, j as int, s as int)
        && corpse_matches(w0.crosses.item(i as int, j as int, s as int), b0);
    assert(w1.crosses.has_slot(i as int, j as int, s as int));
}

/// Two worlds that agree on the bodies' identities and statuses and on
/// which locations hold which identities agree on who follows what.
proof fn lemma_follows_same(w0: World, w1: World, b0: Body, b1: Body, u: Target)
    requires
        b0.status == b1.status,
        w1.target_ok(u) == w0.target_ok(u),
        w0.target_ok(u) ==> w1.ident_of(u) == w0.ident_of(u),
    ensures
        w1.follows(b1, u) == w0.follows(b0, u),
{
}

/// Entering body `k` into the list at `t`, which it follows, extends the
/// consistency from the first `k` bodies to the first `k + 1`.
proof fn lemma_register_keeps_graph(w0: World, w1: World, t: Target, snap: Pursuer, k: int)
    requires
        0 <= k < w0.bodies@.len(),
        w0.follows(w0.bodies@[k], t),
        snap == w0.bodies@[k].snapshot_spec(),
        w1.list_of(t) == without(w0.list_of(t), snap.id).push(snap),
        w1.bodies@.len() == w0.bodies@.len(),
        forall|m: int| 0 <= m < w1.bodies@.len() ==> (#[trigger] w1.bodies@[m]).id == w0.bodies@[m].id
            && w1.bodies@[m].status == w0.bodies@[m].status && w1.bodies@[m].snapshot_spec() == w0.bodies@[m].snapshot_spec(),
        forall|u: Target| #[trigger] w1.target_ok(u) == w0.target_ok(u),
        forall|u: Target| w0.target_ok(u) ==> #[trigger] w1.ident_of(u) == w0.ident_of(u),
        forall|u: Target| w0.target_ok(u) && u != t ==> #[trigger] w1.list_of(u) == w0.list_of(u),
        w0.graph_upto(k),
    ensures
        w1.graph_upto(k + 1),
{
    lemma_register_listed(w0, w1, t, snap, k);
    lemma_register_backed(w0, w1, t, snap, k);
}

proof fn lemma_register_listed(w0: World, w1: World, t: Target, snap: Pursuer, k: int)
    requires
        0 <= k < w0.bodies@.len(),
        w0.follows(w0.bodies@[k], t),
        snap == w0.bodies@[k].snapshot_spec(),
        w1.list_of(t) == without(w0.list_of(t), snap.id).push(snap),
        w1.bodies@.len() == w0.bodies@.len(),
        forall|m: int| 0 <= m < w1.bodies@.len() ==> (#[trigger] w1.bodies@[m]).id == w0.bodies@[m].id
            && w1.bodies@[m].status == w0.bodies@[m].status && w1.bodies@[m].snapshot_spec() == w0.bodies@[m].snapshot_spec(),
        forall|u: Target| #[trigger] w1.target_ok(u) == w0.target_ok(u),
        forall|u: Target| w0.target_ok(u) ==> #[trigger] w1.ident_of(u) == w0.ident_of(u),
        forall|u: Target| w0.target_ok(u) && u != t ==> #[trigger] w1.list_of(u) == w0.list_of(u),
        w0.graph_upto(k),
    ensures
        forall|m: int| 0 <= m < k + 1 && (#[trigger] w1.bodies@[m]).status is FollowingTarget ==> w1.listed(m),
{
    let pred = |p: Pursuer| p.id != snap.id;
    let l0 = w0.list_of(t);
    let l1 = w1.list_of(t);
    assert(l1[l1.len() - 1] == snap);
    assert forall|m: int| 0 <= m < k + 1 && (#[trigger] w1.bodies@[m]).status is FollowingTarget implies w1.listed(m) by {
        assert(w1.bodies@[m].id == w0.bodies@[m].id && w1.bodies@[m].status == w0.bodies@[m].status);
        if m == k {
            lemma_follows_same(w0, w1, w0.bodies@[m], w1.bodies@[m], t);
            assert(pursued_by(l1, w1.bodies@[m].id));
            assert(w1.follows(w1.bodies@[m], t));
        } else {
            assert(w0.bodies@[m].status is FollowingTarget);
            assert(w0.listed(m));
            let u = choose|u: Target| #[trigger] w0.follows(w0.bodies@[m], u) && pursued_by(w0.list_of(u), w0.bodies@[m].id);
            lemma_follows_same(w0, w1, w0.bodies@[m], w1.bodies@[m], u);
            if u == t {
                let e = choose|e: int| 0 <= e < l0.len() && l0[e].id == w0.bodies@[m].id;
                if w0.bodies@[m].id == snap.id {
                    assert(pursued_by(l1, w1.bodies@[m].id));
                } else {
                    l0.lemma_filter_contains(pred, e);
                    let f = without(l0, snap.id);
                    assert(f.contains(l0[e]));
                    let x = choose|x: int| 0 <= x < f.len() && f[x] == l0[e];
                    assert(l1[x] == f[x]);
                    assert(pursued_by(l1, w1.bodies@[m].id));
                }
            } else {
                assert(w1.list_of(u) == w0.list_of(u));
            }
            assert(w1.follows(w1.bodies@[m], u));
        }
    }
}

proof fn lemma_register_backed(w0: World, w1: World, t: Target, snap: Pursuer, k: int)
    requires
        0 <= k < w0.bodies@.len(),
        w0.follows(w0.bodies@[k], t),
        snap == w0.bodies@[k].snapshot_spec(),
        w1.list_of(t) == without(w0.list_of(t), snap.id).push(snap),
        w1.bodies@.len() == w0.bodies@.len(),
        forall|m: int| 0 <= m < w1.bodies@.len() ==> (#[trigger] w1.bodies@[m]).id == w0.bodies@[m].id
            && w1.bodies@[m].status == w0.bodies@[m].status && w1.bodies@[m].snapshot_spec() == w0.bodies@[m].snapshot_spec(),
        forall|u: Target| #[trigger] w1.target_ok(u) == w0.target_ok(u),
        forall|u: Target| w0.target_ok(u) ==> #[trigger] w1.ident_of(u) == w0.ident_of(u),
        forall|u: Target| w0.target_ok(u) && u != t ==> #[trigger] w1.list_of(u) == w0.list_of(u),
        w0.graph_upto(k),
    ensures
        forall|u: Target, e: int| w1.target_ok(u) && 0 <= e < w1.list_of(u).len() ==> #[trigger] w1.backed(u, e, k + 1),
{
    let pred = |p: Pursuer| p.id != snap.id;
    let l0 = w0.list_of(t);
    let l1 = w1.list_of(t);
    assert forall|u: Target, e: int| w1.target_ok(u) && 0 <= e < w1.list_of(u).len() implies #[trigger] w1.backed(u, e, k + 1) by {
        assert(w0.target_ok(u));
        if u == t && e == l1.len() - 1 {
            lemma_follows_same(w0, w1, w0.bodies@[k], w1.bodies@[k], t);
            assert(w1.bodies@[k].snapshot_spec() == l1[e]);
            assert(w1.follows(w1.bodies@[k], u));
        } else {
            let e0 = if u == t {
                let f = without(l0, snap.id);
                assert(l1[e] == f[e]);
                assert(f.contains(f[e]));
                l0.lemma_filter_contains_rev(pred, f[e]);
                choose|e0: int| 0 <= e0 < l0.len() && l0[e0] == f[e]
            } else {
                assert(w1.list_of(u) == w0.list_of(u));
                e
            };
            assert(w0.list_of(u)[e0] == w1.list_of(u)[e]);
            assert(w0.backed(u, e0, k));
            let m = choose|m: int| 0 <= m < k && w0.bodies@[m].snapshot_spec() == w0.list_of(u)[e0] && #[trigger] w0.follows(w0.bodies@[m], u);
            lemma_follows_same(w0, w1, w0.bodies@[m], w1.bodies@[m], u);
            assert(w1.follows(w1.bodies@[m], u));
            assert(w1.bodies@[m].snapshot_spec() == w1.list_of(u)[e]);
        }
    }
}

/// The consistency of the reference graph depends on the entities alone.
proof fn lemma_graph_ignores_clock(w0: World, w1: World)
    requires
        w0.graph_consistent(),
        w1.bodies == w0.bodies,
        w1.plants == w0.plants,
        w1.crosses == w0.crosses,
    ensures
        w1.graph_consistent(),
{
    assert forall|u: Target| #[trigger] w1.target_ok(u) == w0.target_ok(u) && w1.list_of(u) == w0.list_of(u) by {}
    assert forall|m: int, u: Target| #[trigger] w1.follows(w1.bodies@[m], u) == w0.follows(w0.bodies@[m], u) by {
        assert(w1.target_ok(u) == w0.target_ok(u));
    }
    let n = w0.bodies@.len() as int;
    assert forall|m: int| 0 <= m < n && (#[trigger] w1.bodies@[m]).status is FollowingTarget implies w1.listed(m) by {
        assert(w0.listed(m));
        let u = choose|u: Target| #[trigger] w0.follows(w0.bodies@[m], u) && pursued_by(w0.list_of(u), w0.bodies@[m].id);
        assert(w1.follows(w1.bodies@[m], u));
    }
    assert forall|u: Target, e: int| w1.target_ok(u) && 0 <= e < w1.list_of(u).len() implies #[trigger] w1.backed(u, e, n) by {
        assert(w0.backed(u, e, n));
        let m = choose|m: int| 0 <= m < n && w0.bodies@[m].snapshot_spec() == w0.list_of(u)[e] && #[trigger] w0.follows(w0.bodies@[m], u);
        assert(w1.follows(w1.bodies@[m], u));
    }
}

/// A body that follows nothing extends the consistency from the first `k`
/// bodies to the first `k + 1`.
proof fn lemma_upto_grow(w: World, k: int)
    requires
        0 <= k < w.bodies@.len(),
        !(w.bodies@[k].status is FollowingTarget),
        w.graph_upto(k),
    ensures
        w.graph_upto(k + 1),
{
    assert forall|u: Target, e: int| w.target_ok(u) && 0 <= e < w.list_of(u).len() implies #[trigger] w.backed(u, e, k + 1) by {
        assert(w.backed(u, e, k));
        let m = choose|m: int| 0 <= m < k && w.bodies@[m].snapshot_spec() == w.list_of(u)[e] && #[trigger] w.follows(w.bodies@[m], u);
        assert(w.follows(w.bodies@[m], u));
    }
}

/// Making body `k` idle extends the consistency from the first `k` bodies
/// to the first `k + 1`.
proof fn lemma_status_change_keeps_graph(w0: World, w1: World, k: int)
    requires
        0 <= k < w0.bodies@.len(),
        w1.bodies@ == w0.bodies@.update(k, Body { status: Status::Idle, ..w0.bodies@[k] }),
        w1.plants == w0.plants,
        w1.crosses == w0.crosses,
        w0.graph_upto(k),
    ensures
        w1.graph_upto(k + 1),
{
    assert forall|u: Target| #[trigger] w1.target_ok(u) == w0.target_ok(u) && (w0.target_ok(u) ==> w1.ident_of(u) == w0.ident_of(u)
        && w1.list_of(u) == w0.list_of(u)) by {}
    assert forall|m: int| 0 <= m < k + 1 && (#[trigger] w1.bodies@[m]).status is FollowingTarget implies w1.listed(m) by {
        assert(m != k);
        assert(w0.bodies@[m].status is FollowingTarget);
        assert(w0.listed(m));
        let u = choose|u: Target| #[trigger] w0.follows(w0.bodies@[m], u) && pursued_by(w0.list_of(u), w0.bodies@[m].id);
        assert(w1.target_ok(u) == w0.target_ok(u));
        lemma_follows_same(w0, w1, w0.bodies@[m], w1.bodies@[m], u);
        assert(w1.follows(w1.bodies@[m], u));
    }
    assert forall|u: Target, e: int| w1.target_ok(u) && 0 <= e < w1.list_of(u).len() implies #[trigger] w1.backed(u, e, k + 1) by {
        assert(w1.target_ok(u) == w0.target_ok(u));
        assert(w1.list_of(u) == w0.list_of(u));
        assert(w0.backed(u, e, k));
        let m = choose|m: int| 0 <= m < k && w0.bodies@[m].snapshot_spec() == w0.list_of(u)[e] && #[trigger] w0.follows(w0.bodies@[m], u);
        lemma_follows_same(w0, w1, w0.bodies@[m], w1.bodies@[m], u);
        assert(w1.follows(w1.bodies@[m], u));
    }
}

pub(crate) proof fn lemma_removed_slot_valid<T: Pursuable>(before: &SpatialStore<T>, after: &SpatialStore<T>, a: int, b: int, c: int, i: int, j: int)
    requires
        before.all_valid(),
        after.has_slot(a, b, c),
        after.bags@.len() == before.bags@.len(),
        0 <= i < before.bags@.len(),
        forall|r: int| 0 <= r < before.bags@.len() && r != i ==> #[trigger] after.bags@[r] == before.bags@[r],
        after.bags@[i]@.len() == before.bags@[i]@.len(),
        forall|q: int| 0 <= q < before.bags@[i]@.len() && q != j ==> #[trigger] after.bags@[i]@[q] == before.bags@[i]@[q],
        0 <= j < before.bags@[i]@.len(),
        exists|s: int| 0 <= s < before.bags@[i]@[j]@.len()
            && after.bags@[i]@[j]@ == before.bags@[i]@[j]@.update(s, before.bags@[i]@[j]@.last()).drop_last(),
    ensures
        after.item(a, b, c).valid(),
{
    if a == i && b == j {
        let s = choose|s: int| 0 <= s < before.bags@[i]@[j]@.len()
            && after.bags@[i]@[j]@ == before.bags@[i]@[j]@.update(s, before.bags@[i]@[j]@.last()).drop_last();
        let n = before.bags@[i]@[j]@.len();
        if c == s {
            assert(before.has_slot(a, b, n - 1));
        } else {
            assert(before.has_slot(a, b, c));
        }
    } else if a == i {
        assert(before.has_slot(a, b, c));
    } else {
        assert(before.has_slot(a, b, c));
    }
}

} // verus!
