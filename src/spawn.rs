//! Setting up a world and filling it with bodies and plants.
use vstd::prelude::*;
use rand::rngs::StdRng;
use crate::body::{Body, EatingStrategy, Skill, Status};
use crate::config::Config;
use crate::food::{Plant, PlantKind, MAX_PLANT_SIZE};
use crate::geometry::{Pos, dist_sq, distance_sq};
use crate::grid::Grid;
use crate::random::draw_below;
use crate::store::{Pursuable, SpatialStore, row_total, rows_total};
use crate::condition::{ActiveCondition, plant_turnover, turnover};
use crate::config::RATE_ONE;
use crate::engine::lemma_removed_slot_valid;
use crate::grid::Cell;
use crate::world::{World, body_ok};

verus! {

/// Radius of a drawn body: spawned bodies keep clear of the edges and of
/// each other by it.
pub const OBJECT_RADIUS: i64 = 10;

/// Extra clearance kept by a spawned body.
pub const SPAWN_GAP: i64 = 1;

/// How many positions a spawn draws before giving up.
pub const SPAWN_ATTEMPTS: u64 = 1000;

impl World {
    /// An empty world at tick zero.
    pub fn new(cfg: Config, grid: Grid) -> (w: World)
        requires
            cfg.wf(),
            grid.wf(),
        ensures
            w.wf(),
            w.cfg == cfg && w.grid == grid,
            w.bodies@.len() == 0,
            w.now == 0,
            w.next_id == 1,
            forall|i: int, j: int, s: int| !w.plants.has_slot(i, j, s) && !w.crosses.has_slot(i, j, s),
    {
        let plants: SpatialStore<Plant> = SpatialStore::new(&grid);
        let crosses = SpatialStore::new(&grid);
        World { cfg, grid, bodies: Vec::new(), plants, crosses, next_id: 1, now: 0 }
    }

    /// Adds a body to the registry; identities from then on are issued past
    /// its own.
    pub fn insert_body(&mut self, b: Body)
        requires
            old(self).wf(),
            body_ok(b, old(self).grid, old(self).now),
            b.id < u64::MAX,
            forall|k: int| 0 <= k < old(self).bodies@.len() ==> (#[trigger] old(self).bodies@[k]).id != b.id,
        ensures
            final(self).wf(),
            final(self).bodies@ == old(self).bodies@.push(b),
            final(self).plants == old(self).plants,
            final(self).crosses == old(self).crosses,
            final(self).cfg == old(self).cfg && final(self).grid == old(self).grid,
            final(self).now == old(self).now,
            final(self).next_id == if b.id < old(self).next_id { old(self).next_id } else { (b.id + 1) as u64 },
    {
        if b.id >= self.next_id {
            self.next_id = b.id + 1;
        }
        self.bodies.push(b);
        proof {
            assert forall|k: int| 0 <= k < self.bodies@.len() implies #[trigger] body_ok(self.bodies@[k], self.grid, self.now) by {
                if k < old(self).bodies@.len() {
                    assert(body_ok(old(self).bodies@[k], self.grid, self.now));
                }
            }
            assert forall|a: int, c: int| 0 <= a < self.bodies@.len() && 0 <= c < self.bodies@.len() && a != c
                implies (#[trigger] self.bodies@[a]).id != (#[trigger] self.bodies@[c]).id by {
                if a < old(self).bodies@.len() && c < old(self).bodies@.len() {
                    assert(self.bodies@[a] == old(self).bodies@[a]);
                    assert(self.bodies@[c] == old(self).bodies@[c]);
                }
            }
        }
    }

    /// Takes a fresh identity.
    pub fn issue_id(&mut self) -> (id: u64)
        requires
            old(self).next_id < u64::MAX,
        ensures
            id == old(self).next_id,
            *final(self) == (World { next_id: (id + 1) as u64, ..*old(self) }),
    {
        let id = self.next_id;
        self.next_id = id + 1;
        id
    }

    /// Adds a plant at a position of the arena, with a fresh identity and no
    /// pursuers; returns its identity.
    pub fn add_plant(&mut self, pos: Pos, kind: PlantKind, size: u64) -> (id: u64)
        requires
            old(self).wf(),
            old(self).grid.contains(pos),
            size <= MAX_PLANT_SIZE,
            old(self).next_id < u64::MAX,
        ensures
            final(self).wf(),
            id == old(self).next_id,
            final(self).next_id == id + 1,
            ({
                let c = old(self).grid.cell_of(pos);
                let bag = final(self).plants.bags@[c.i as int]@[c.j as int]@;
                &&& bag == old(self).plants.bags@[c.i as int]@[c.j as int]@.push(bag.last())
                &&& bag.last().id == id && bag.last().pos == pos && bag.last().kind == kind && bag.last().size == size
                &&& bag.last().followed_by@.len() == 0
            }),
            final(self).bodies@ == old(self).bodies@,
            final(self).cfg == old(self).cfg && final(self).grid == old(self).grid,
            final(self).now == old(self).now,
    {
        let id = self.issue_id();
        let g = self.grid;
        let p = Plant { id, pos, kind, size, followed_by: Vec::new() };
        let ghost before = self.plants;
        self.plants.insert(&g, p);
        proof {
            let c = g.cell_of(p.pos);
            assert forall|a: int, b: int, x: int| #[trigger] self.plants.has_slot(a, b, x) implies self.plants.item(a, b, x).valid() by {
                if a == c.i && b == c.j && x == before.bags@[a]@[b]@.len() {
                } else {
                    assert(before.has_slot(a, b, x));
                }
            }
        }
        id
    }

    /// Adds a plant at a random position of the arena; returns its
    /// identity.
    pub fn spawn_plant(&mut self, kind: PlantKind, size: u64, rng: &mut StdRng) -> (id: u64)
        requires
            old(self).wf(),
            size <= MAX_PLANT_SIZE,
            old(self).next_id < u64::MAX,
        ensures
            final(self).wf(),
            id == old(self).next_id,
            final(self).next_id == id + 1,
            final(self).bodies@ == old(self).bodies@,
            final(self).cfg == old(self).cfg && final(self).grid == old(self).grid,
            final(self).now == old(self).now,
    {
        let x = draw_below(rng, self.grid.width as u64 + 1) as i64;
        let y = draw_below(rng, self.grid.height as u64 + 1) as i64;
        self.add_plant(Pos { x, y }, kind, size)
    }

    /// A spawned body may stand at `p`: clear of the arena's edges by
    /// `OBJECT_RADIUS + SPAWN_GAP`, and of every body by
    /// `2 * OBJECT_RADIUS + SPAWN_GAP`.
    pub open spec fn spawn_spot(&self, p: Pos) -> bool {
        let edge = OBJECT_RADIUS + SPAWN_GAP;
        let apart = 2 * OBJECT_RADIUS + SPAWN_GAP;
        &&& edge < p.x < self.grid.width - edge
        &&& edge < p.y < self.grid.height - edge
        &&& forall|k: int| 0 <= k < self.bodies@.len() ==> dist_sq(#[trigger] self.bodies@[k].pos, p) >= apart * apart
    }

    /// Whether a spawned body may stand at `p`.
    pub fn is_spawn_spot(&self, p: Pos) -> (r: bool)
        requires
            self.wf(),
            self.grid.contains(p),
        ensures
            r == self.spawn_spot(p),
    {
        let edge = OBJECT_RADIUS + SPAWN_GAP;
        let apart = 2 * OBJECT_RADIUS + SPAWN_GAP;
        let apart_sq: u64 = 441;
        assert(apart == 21);
        assert(apart * apart == 441) by (nonlinear_arith)
            requires
                apart == 21,
        ;
        if !(edge < p.x && p.x < self.grid.width - edge && edge < p.y && p.y < self.grid.height - edge) {
            return false;
        }
        let mut k: usize = 0;
        while k < self.bodies.len()
            invariant
                self.wf(),
                self.grid.contains(p),
                k <= self.bodies@.len(),
                apart == 21,
                apart_sq == 441,
                forall|m: int| 0 <= m < k ==> dist_sq(#[trigger] self.bodies@[m].pos, p) >= apart * apart,
            decreases self.bodies@.len() - k,
        {
            proof {
                assert(body_ok(self.bodies@[k as int], self.grid, self.now));
            }
            if distance_sq(self.bodies[k].pos, p) < apart_sq {
                proof {
                    assert(dist_sq(self.bodies@[k as int].pos, p) < apart * apart);
                }
                return false;
            }
            k = k + 1;
        }
        true
    }

    /// Removes a plant from a random non-empty cell, trying up to
    /// `SPAWN_ATTEMPTS` cells; returns whether one was removed.
    pub fn remove_random_plant(&mut self, rng: &mut StdRng) -> (r: bool)
        requires
            old(self).wf(),
        ensures
            final(self).wf(),
            final(self).bodies@ == old(self).bodies@,
            final(self).crosses == old(self).crosses,
            final(self).cfg == old(self).cfg && final(self).grid == old(self).grid,
            final(self).now == old(self).now && final(self).next_id == old(self).next_id,
            !r ==> final(self).plants == old(self).plants,
            r ==> exists|i: int, j: int| 0 <= i < old(self).grid.rows && 0 <= j < old(self).grid.columns
                && #[trigger] final(self).plants.bags@[i]@[j]@.len() + 1 == old(self).plants.bags@[i]@[j]@.len()
                && forall|a: int, b: int| 0 <= a < old(self).grid.rows && 0 <= b < old(self).grid.columns && !(a == i && b == j)
                    ==> #[trigger] final(self).plants.bags@[a]@[b] == old(self).plants.bags@[a]@[b],
    {
        let g = self.grid;
        let mut attempt: u64 = 0;
        while attempt < SPAWN_ATTEMPTS
            invariant
                self.wf(),
                g == self.grid,
                *self == *old(self),
            decreases SPAWN_ATTEMPTS - attempt,
        {
            let i = draw_below(rng, g.rows as u64) as usize;
            let j = draw_below(rng, g.columns as u64) as usize;
            let n = self.plants.bags[i][j].len();
            if n > 0 {
                let s = draw_below(rng, n as u64) as usize;
                let ghost before = self.plants;
                let _gone = self.plants.remove(&g, Cell { i, j }, s);
                proof {
                    assert forall|a: int, b: int, c: int| #[trigger] self.plants.has_slot(a, b, c) implies self.plants.item(a, b, c).valid() by {
                        lemma_removed_slot_valid(&before, &self.plants, a, b, c, i as int, j as int);
                    }
                    assert forall|a: int, b: int| 0 <= a < g.rows && 0 <= b < g.columns && !(a == i && b == j)
                        implies #[trigger] self.plants.bags@[a]@[b] == before.bags@[a]@[b] by {
                        if a == i {
                            assert(b != j);
                        }
                    }
                    assert(self.plants.bags@[i as int]@[j as int]@.len() + 1 == before.bags@[i as int]@[j as int]@.len());
                }
                return true;
            }
            attempt = attempt + 1;
        }
        false
    }

    /// One tick of plant turnover under the current condition (see
    /// `turnover`, on the plant count capped at `u64::MAX / 2`): up to the
    /// turnover's number of random plants die (a draw may find an empty
    /// cell), and exactly its number of new plants, each with a fresh
    /// identity, grow at random positions, each a banana with chance
    /// `banana_chance` (out of `RATE_ONE`), else grass.
    pub fn grow_plants(
        &mut self,
        condition: Option<ActiveCondition>,
        die_chance: u64,
        per_step: u64,
        banana_chance: u64,
        size: u64,
        rng: &mut StdRng,
    )
        requires
            old(self).wf(),
            die_chance <= RATE_ONE,
            per_step <= u64::MAX / 2,
            size <= MAX_PLANT_SIZE,
            old(self).next_id + 2 * per_step < u64::MAX,
        ensures
            final(self).wf(),
            final(self).bodies@ == old(self).bodies@,
            final(self).cfg == old(self).cfg && final(self).grid == old(self).grid,
            final(self).now == old(self).now,
            final(self).next_id == old(self).next_id + turnover(
                if old(self).plants.total() > u64::MAX / 2 { (u64::MAX / 2) as int } else { old(self).plants.total() as int },
                die_chance as int,
                per_step as int,
                condition,
            ).1,
    {
        let n = self.plant_count();
        let n = if n > u64::MAX / 2 { u64::MAX / 2 } else { n };
        let (dying, growing) = plant_turnover(n, die_chance, per_step, condition);
        let mut k: u64 = 0;
        while k < dying
            invariant
                self.wf(),
                self.next_id == old(self).next_id,
                self.bodies@ == old(self).bodies@,
                self.cfg == old(self).cfg && self.grid == old(self).grid,
                self.now == old(self).now,
            decreases dying - k,
        {
            self.remove_random_plant(rng);
            k = k + 1;
        }
        let mut k: u64 = 0;
        while k < growing
            invariant
                self.wf(),
                self.bodies@ == old(self).bodies@,
                self.cfg == old(self).cfg && self.grid == old(self).grid,
                self.now == old(self).now,
                size <= MAX_PLANT_SIZE,
                k <= growing,
                growing <= 2 * per_step,
                self.next_id == old(self).next_id + k,
                old(self).next_id + 2 * per_step < u64::MAX,
            decreases growing - k,
        {
            let kind = if draw_below(rng, RATE_ONE) < banana_chance { PlantKind::Banana } else { PlantKind::Grass };
            self.spawn_plant(kind, size, rng);
            k = k + 1;
        }
    }

    /// The number of bodies.
    pub fn body_count(&self) -> (n: usize)
        ensures
            n == self.bodies@.len(),
    {
        self.bodies.len()
    }

    /// The number of plants (saturated at `u64::MAX`).
    pub fn plant_count(&self) -> (n: u64)
        requires
            self.wf(),
        ensures
            n == if self.plants.total() > u64::MAX { u64::MAX as nat } else { self.plants.total() },
    {
        count_items(&self.plants)
    }

    /// The number of corpses (saturated at `u64::MAX`).
    pub fn cross_count(&self) -> (n: u64)
        requires
            self.wf(),
        ensures
            n == if self.crosses.total() > u64::MAX { u64::MAX as nat } else { self.crosses.total() },
    {
        count_items(&self.crosses)
    }
}

impl Body {
    /// Adds a first-generation body at a random spot clear of the edges and
    /// of other bodies, trying up to `SPAWN_ATTEMPTS` random positions;
    /// returns whether it found one. It may give up even where a free spot
    /// exists: the number of draws is bounded so that the call terminates.
    pub fn randomly_spawn_body(world: &mut World, eating_strategy: EatingStrategy, body_type: u16, color: u32, rng: &mut StdRng) -> (r: bool)
        requires
            old(world).wf(),
            old(world).next_id < u64::MAX,
        ensures
            final(world).wf(),
            r ==> final(world).bodies@.drop_last() == old(world).bodies@,
            r ==> final(world).bodies@.len() == old(world).bodies@.len() + 1 && old(world).spawn_spot(
                final(world).bodies@.last().pos,
            ) && final(world).bodies@.last().body_type == body_type
                && final(world).bodies@.last().eating_strategy == eating_strategy
                && final(world).bodies@.last().status == Status::Idle
                && final(world).bodies@.last().skills@ == Set::<Skill>::empty()
                && final(world).bodies@.last().followed_by@.len() == 0
                && final(world).bodies@.last().lifespan == old(world).cfg.lifespan,
            !r ==> final(world).bodies@ == old(world).bodies@,
            final(world).cfg == old(world).cfg && final(world).grid == old(world).grid,
            final(world).now == old(world).now,
    {
        let mut attempt: u64 = 0;
        while attempt < SPAWN_ATTEMPTS
            invariant
                world.wf(),
                *world == *old(world),
                world.next_id < u64::MAX,
            decreases SPAWN_ATTEMPTS - attempt,
        {
            let x = draw_below(rng, world.grid.width as u64 + 1) as i64;
            let y = draw_below(rng, world.grid.height as u64 + 1) as i64;
            let p = Pos { x, y };
            if world.is_spawn_spot(p) {
                let id = world.issue_id();
                let cfg = world.cfg;
                let b = Body::new(&cfg, id, world.now, p, None, eating_strategy, None, None, color, body_type, None, None, None, rng);
                world.insert_body(b);
                return true;
            }
            attempt = attempt + 1;
        }
        false
    }

}

/// The number of entities in a store, saturated at `u64::MAX`.
fn count_items<T: Pursuable>(s: &SpatialStore<T>) -> (n: u64)
    ensures
        n == if s.total() > u64::MAX { u64::MAX as nat } else { s.total() },
{
    let mut n: u64 = 0;
    let mut i: usize = 0;
    while i < s.bags.len()
        invariant
            i <= s.bags@.len(),
            n == if rows_total(s.bags@, i as int) > u64::MAX { u64::MAX as nat } else { rows_total(s.bags@, i as int) },
        decreases s.bags@.len() - i,
    {
        let ghost before = rows_total(s.bags@, i as int);
        let row = &s.bags[i];
        let mut j: usize = 0;
        while j < row.len()
            invariant
                i < s.bags@.len(),
                row@ == s.bags@[i as int]@,
                j <= row@.len(),
                before == rows_total(s.bags@, i as int),
                n == if before + row_total(row@, j as int) > u64::MAX { u64::MAX as nat } else { before + row_total(row@, j as int) },
            decreases row@.len() - j,
        {
            n = n.saturating_add(row[j].len() as u64);
            j = j + 1;
        }
        i = i + 1;
    }
    n
}

} // verus!
