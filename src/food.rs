//! Stationary food: plants, and the corpses ("crosses") that dead bodies
//! leave behind.
use vstd::prelude::*;
use crate::body::{Body, Infections, Pursuer, pursuers_wf};
use crate::config::{Config, MAX_ENERGY};
use crate::geometry::Pos;
use crate::store::{Located, Pursuable};

verus! {

/// The two tiers of plants; a banana is worth more than grass.
#[derive(Clone, Copy, PartialEq, Eq, Structural, Debug, Hash)]
pub enum PlantKind {
    Grass,
    Banana,
}

/// A plant.
#[derive(Clone, Debug)]
pub struct Plant {
    pub id: u64,
    pub pos: Pos,
    pub kind: PlantKind,
    /// How far the plant has grown; its energy is proportional to it.
    pub size: u64,
    pub followed_by: Vec<Pursuer>,
}

/// The energy a plant of this kind and size holds.
pub open spec fn plant_energy(cfg: Config, kind: PlantKind, size: int) -> int {
    size * match kind {
        PlantKind::Grass => cfg.grass_energy as int,
        PlantKind::Banana => cfg.banana_energy as int,
    }
}

/// Largest size of a plant.
pub const MAX_PLANT_SIZE: u64 = 1048576;

impl Plant {
    /// Position and size in range, pursuers in range.
    pub open spec fn wf(&self) -> bool {
        self.pos.in_range() && self.size <= MAX_PLANT_SIZE && pursuers_wf(self.followed_by@)
    }

    /// The energy the plant holds.
    pub fn get_contained_energy(&self, cfg: &Config) -> (e: u64)
        requires
            cfg.wf(),
            self.wf(),
        ensures
            e == plant_energy(*cfg, self.kind, self.size as int),
            e <= MAX_ENERGY,
    {
        let per: u64 = match self.kind {
            PlantKind::Grass => cfg.grass_energy,
            PlantKind::Banana => cfg.banana_energy,
        };
        proof {
            assert(self.size * per <= 1048576 * 1048576) by (nonlinear_arith)
                requires
                    self.size <= 1048576,
                    per <= 1048576,
            ;
        }
        self.size * per
    }
}

impl Located for Plant {
    open spec fn location(&self) -> Pos {
        self.pos
    }

    fn pos(&self) -> (p: Pos) {
        self.pos
    }
}

impl Pursuable for Plant {
    open spec fn same_but_pursuers(&self, other: Plant) -> bool {
        (Plant { followed_by: other.followed_by, ..*self }) == other
    }

    open spec fn ident(&self) -> u64 {
        self.id
    }

    open spec fn pursuers(&self) -> Seq<Pursuer> {
        self.followed_by@
    }

    open spec fn valid(&self) -> bool {
        self.wf()
    }

    fn id(&self) -> (r: u64) {
        self.id
    }

    fn followers(&self) -> (r: &Vec<Pursuer>) {
        &self.followed_by
    }

    fn set_followers(&mut self, f: Vec<Pursuer>) {
        self.followed_by = f;
    }
}

/// A corpse: food left behind by a body that died of exhaustion or age.
#[derive(Clone, Debug)]
pub struct Cross {
    pub id: u64,
    pub pos: Pos,
    pub energy: u64,
    pub viruses: Infections,
    /// The tick the corpse was made.
    pub timestamp: u64,
    pub body_type: u16,
    pub color: u32,
    pub followed_by: Vec<Pursuer>,
}

impl Cross {
    /// Position and energy in range, infections valid, pursuers in range.
    pub open spec fn wf(&self) -> bool {
        self.pos.in_range() && self.energy <= MAX_ENERGY && self.viruses.wf() && pursuers_wf(self.followed_by@)
    }

    /// The corpse a dead body leaves at tick `now`: its place, energy,
    /// infections and lineage, and no pursuers.
    pub fn new(body: &Body, now: u64) -> (c: Cross)
        requires
            body.wf(),
        ensures
            c.wf(),
            c.id == body.id,
            c.pos == body.pos,
            c.energy == body.energy,
            c.viruses == body.viruses,
            c.timestamp == now,
            c.body_type == body.body_type,
            c.followed_by@.len() == 0,
    {
        Cross {
            id: body.id,
            pos: body.pos,
            energy: body.energy,
            viruses: body.viruses,
            timestamp: now,
            body_type: body.body_type,
            color: body.color,
            followed_by: Vec::new(),
        }
    }

    /// Whether the corpse has outlived its lifespan at tick `now`.
    pub fn expired(&self, cfg: &Config, now: u64) -> (r: bool)
        ensures
            r == (now > self.timestamp && now - self.timestamp > cfg.cross_lifespan),
    {
        now > self.timestamp && now - self.timestamp > cfg.cross_lifespan
    }
}

impl Located for Cross {
    open spec fn location(&self) -> Pos {
        self.pos
    }

    fn pos(&self) -> (p: Pos) {
        self.pos
    }
}

impl Pursuable for Cross {
    open spec fn same_but_pursuers(&self, other: Cross) -> bool {
        (Cross { followed_by: other.followed_by, ..*self }) == other
    }

    open spec fn ident(&self) -> u64 {
        self.id
    }

    open spec fn pursuers(&self) -> Seq<Pursuer> {
        self.followed_by@
    }

    open spec fn valid(&self) -> bool {
        self.wf()
    }

    fn id(&self) -> (r: u64) {
        self.id
    }

    fn followers(&self) -> (r: &Vec<Pursuer>) {
        &self.followed_by
    }

    fn set_followers(&mut self, f: Vec<Pursuer>) {
        self.followed_by = f;
    }
}

} // verus!
