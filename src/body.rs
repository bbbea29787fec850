//! Bodies: the mobile agents, with their skills, infections and status.
use vstd::prelude::*;
use crate::config::{Config, MAX_ENERGY, RATE_ONE};
use crate::geometry::{Pos, MAX_COORD, MAX_SPEED};

verus! {

/// The kind of an entity that can be pursued and eaten.
#[derive(Clone, Copy, PartialEq, Eq, Structural, Debug, Hash)]
pub enum ObjectType {
    Body,
    Plant,
    Cross,
}

/// What a body does when it sees no food.
#[derive(Clone, Copy, PartialEq, Eq, Structural, Debug, Hash)]
pub enum EatingStrategy {
    /// When a body sees no food, it stands still.
    Passive,
    /// When a body sees no food, it walks in a random direction, hoping to
    /// find some.
    Active,
}

/// An infection: it lowers a stat for good and drains energy until cured.
#[derive(Clone, Copy, PartialEq, Eq, Structural, Debug, Hash)]
pub enum Virus {
    SpeedVirus,
    VisionVirus,
}

/// An optional capability that gates a check before a target is pursued.
#[derive(Clone, Copy, PartialEq, Eq, Structural, Debug, Hash)]
pub enum Skill {
    DoNotCompeteWithRelatives,
    AliveWhenArrived,
    ProfitableWhenArrived,
    PrioritizeFasterChasers,
    AvoidNewViruses,
    WillArriveFirst,
    EatCrossesOfMyType,
    AvoidInfectedCrosses,
}

/// The skill with the given index in declaration order, for `k < 8`.
pub open spec fn skill_index(k: int) -> Skill {
    if k == 0 {
        Skill::DoNotCompeteWithRelatives
    } else if k == 1 {
        Skill::AliveWhenArrived
    } else if k == 2 {
        Skill::ProfitableWhenArrived
    } else if k == 3 {
        Skill::PrioritizeFasterChasers
    } else if k == 4 {
        Skill::AvoidNewViruses
    } else if k == 5 {
        Skill::WillArriveFirst
    } else if k == 6 {
        Skill::EatCrossesOfMyType
    } else {
        Skill::AvoidInfectedCrosses
    }
}

/// The skill with the given index in declaration order.
pub fn skill_at(k: u64) -> (s: Skill)
    requires
        k < 8,
    ensures
        s == skill_index(k as int),
{
    if k == 0 {
        Skill::DoNotCompeteWithRelatives
    } else if k == 1 {
        Skill::AliveWhenArrived
    } else if k == 2 {
        Skill::ProfitableWhenArrived
    } else if k == 3 {
        Skill::PrioritizeFasterChasers
    } else if k == 4 {
        Skill::AvoidNewViruses
    } else if k == 5 {
        Skill::WillArriveFirst
    } else if k == 6 {
        Skill::EatCrossesOfMyType
    } else {
        Skill::AvoidInfectedCrosses
    }
}

/// A set of skills, one flag per skill.
#[derive(Clone, Copy, Debug)]
pub struct SkillSet {
    pub flags: [bool; 8],
}

impl SkillSet {
    /// Whether the set holds a skill.
    pub open spec fn has(&self, s: Skill) -> bool {
        match s {
            Skill::DoNotCompeteWithRelatives => self.flags[0],
            Skill::AliveWhenArrived => self.flags[1],
            Skill::ProfitableWhenArrived => self.flags[2],
            Skill::PrioritizeFasterChasers => self.flags[3],
            Skill::AvoidNewViruses => self.flags[4],
            Skill::WillArriveFirst => self.flags[5],
            Skill::EatCrossesOfMyType => self.flags[6],
            Skill::AvoidInfectedCrosses => self.flags[7],
        }
    }

    /// The skills held, as a set.
    pub open spec fn view(&self) -> Set<Skill> {
        Set::new(|s: Skill| self.has(s))
    }

    /// The number of flags set among the first `k`.
    pub open spec fn count_upto(&self, k: int) -> nat
        decreases k,
    {
        if k <= 0 {
            0
        } else {
            self.count_upto(k - 1) + if self.flags[k - 1] { 1nat } else { 0nat }
        }
    }

    /// The number of skills held.
    pub open spec fn count(&self) -> nat {
        self.count_upto(8)
    }

    /// The empty set.
    pub fn new() -> (r: Self)
        ensures
            forall|s: Skill| !r.has(s),
            r.count() == 0,
    {
        let r = SkillSet { flags: [false, false, false, false, false, false, false, false] };
        proof {
            assert(r.flags@ == seq![false, false, false, false, false, false, false, false]);
            assert(forall|k: int| 0 <= k < 8 ==> !r.flags[k]);
            assert(r.count_upto(0) == 0);
            assert(r.count_upto(1) == 0);
            assert(r.count_upto(2) == 0);
            assert(r.count_upto(3) == 0);
            assert(r.count_upto(4) == 0);
            assert(r.count_upto(5) == 0);
            assert(r.count_upto(6) == 0);
            assert(r.count_upto(7) == 0);
        }
        r
    }

    /// Whether the set holds a skill.
    pub fn contains(&self, s: Skill) -> (r: bool)
        ensures
            r == self.has(s),
    {
        match s {
            Skill::DoNotCompeteWithRelatives => self.flags[0],
            Skill::AliveWhenArrived => self.flags[1],
            Skill::ProfitableWhenArrived => self.flags[2],
            Skill::PrioritizeFasterChasers => self.flags[3],
            Skill::AvoidNewViruses => self.flags[4],
            Skill::WillArriveFirst => self.flags[5],
            Skill::EatCrossesOfMyType => self.flags[6],
            Skill::AvoidInfectedCrosses => self.flags[7],
        }
    }

    fn slot(s: Skill) -> (k: usize)
        ensures
            k < 8,
            skill_index(k as int) == s,
    {
        match s {
            Skill::DoNotCompeteWithRelatives => 0,
            Skill::AliveWhenArrived => 1,
            Skill::ProfitableWhenArrived => 2,
            Skill::PrioritizeFasterChasers => 3,
            Skill::AvoidNewViruses => 4,
            Skill::WillArriveFirst => 5,
            Skill::EatCrossesOfMyType => 6,
            Skill::AvoidInfectedCrosses => 7,
        }
    }

    /// Sets or clears the flag of one skill.
    pub fn set_flag(&mut self, s: Skill, on: bool)
        ensures
            final(self).has(s) == on,
            forall|t: Skill| t != s ==> final(self).has(t) == old(self).has(t),
    {
        let k = Self::slot(s);
        self.flags[k] = on;
    }

    /// Adds a skill.
    pub fn insert(&mut self, s: Skill)
        ensures
            forall|t: Skill| final(self).has(t) == (old(self).has(t) || t == s),
    {
        self.set_flag(s, true);
    }

    /// Removes a skill.
    pub fn remove(&mut self, s: Skill)
        ensures
            forall|t: Skill| final(self).has(t) == (old(self).has(t) && t != s),
    {
        self.set_flag(s, false);
    }

    /// The number of skills held.
    pub fn len(&self) -> (r: u64)
        ensures
            r == self.count(),
            r <= 8,
    {
        let mut n: u64 = 0;
        let mut k: usize = 0;
        while k < 8
            invariant
                k <= 8,
                n == self.count_upto(k as int),
                n <= k,
            decreases 8 - k,
        {
            if self.flags[k] {
                n = n + 1;
            }
            k = k + 1;
        }
        n
    }

    /// The `n`-th (from zero) skill, from index `k` on in declaration order,
    /// whose flag is `held`.
    pub open spec fn nth_from(&self, held: bool, n: int, k: int) -> Option<Skill>
        decreases 8 - k,
    {
        if k >= 8 || k < 0 {
            None
        } else if self.flags[k] == held {
            if n == 0 {
                Some(skill_index(k))
            } else {
                self.nth_from(held, n - 1, k + 1)
            }
        } else {
            self.nth_from(held, n, k + 1)
        }
    }

    /// The number of flags equal to `held` from index `k` on.
    pub open spec fn matching_from(&self, held: bool, k: int) -> nat
        decreases 8 - k,
    {
        if k >= 8 || k < 0 {
            0
        } else {
            self.matching_from(held, k + 1) + if self.flags[k] == held { 1nat } else { 0nat }
        }
    }

    /// The number of skills held when `held`, or absent when not.
    pub fn count_matching(&self, held: bool) -> (n: u64)
        ensures
            n == self.matching_from(held, 0),
            n <= 8,
    {
        let mut n: u64 = 0;
        let mut k: usize = 8;
        while k > 0
            invariant
                k <= 8,
                n == self.matching_from(held, k as int),
                n <= 8 - k,
            decreases k,
        {
            k = k - 1;
            if self.flags[k] == held {
                n = n + 1;
            }
        }
        n
    }

    /// The `n`-th (from zero) skill in declaration order that is held when
    /// `held`, or absent when not; `None` when there are no more than `n`.
    /// With `n` drawn uniformly below `count_matching(held)` every such skill
    /// is equally likely.
    pub fn pick(&self, held: bool, n: u64) -> (r: Option<Skill>)
        ensures
            r == self.nth_from(held, n as int, 0),
    {
        let mut rem: u64 = n;
        let mut k: usize = 0;
        while k < 8
            invariant
                k <= 8,
                rem <= n,
                self.nth_from(held, n as int, 0) == self.nth_from(held, rem as int, k as int),
            decreases 8 - k,
        {
            if self.flags[k] == held {
                if rem == 0 {
                    return Some(skill_at(k as u64));
                }
                rem = rem - 1;
            }
            k = k + 1;
        }
        None
    }

}

/// The infections a body or corpse carries, each with its accumulated
/// healing progress.
#[derive(Clone, Copy, PartialEq, Eq, Structural, Debug)]
pub struct Infections {
    pub speed_virus: Option<u64>,
    pub vision_virus: Option<u64>,
}

impl Infections {
    /// The healing progress of an infection, if it is carried.
    pub open spec fn progress(&self, v: Virus) -> Option<u64> {
        match v {
            Virus::SpeedVirus => self.speed_virus,
            Virus::VisionVirus => self.vision_virus,
        }
    }

    /// Whether an infection is carried.
    pub open spec fn has(&self, v: Virus) -> bool {
        self.progress(v) is Some
    }

    /// The infections carried, with their progress.
    pub open spec fn view(&self) -> Map<Virus, nat> {
        Map::new(|v: Virus| self.has(v), |v: Virus| self.progress(v).unwrap() as nat)
    }

    /// Every progress is at most `MAX_ENERGY`.
    pub open spec fn wf(&self) -> bool {
        forall|v: Virus| #[trigger] self.progress(v) matches Some(p) ==> p <= MAX_ENERGY
    }

    /// No infection.
    pub fn new() -> (r: Self)
        ensures
            forall|v: Virus| !r.has(v),
            r.wf(),
    {
        Infections { speed_virus: None, vision_virus: None }
    }

    /// The healing progress of an infection, if it is carried.
    pub fn get(&self, v: Virus) -> (r: Option<u64>)
        ensures
            r == self.progress(v),
    {
        match v {
            Virus::SpeedVirus => self.speed_virus,
            Virus::VisionVirus => self.vision_virus,
        }
    }

    /// Whether an infection is carried.
    pub fn contains_key(&self, v: Virus) -> (r: bool)
        ensures
            r == self.has(v),
    {
        self.get(v).is_some()
    }

    /// Whether no infection is carried.
    pub fn is_empty(&self) -> (r: bool)
        ensures
            r == forall|v: Virus| !self.has(v),
    {
        let r = self.speed_virus.is_none() && self.vision_virus.is_none();
        proof {
            if !r {
                if self.speed_virus.is_some() {
                    assert(self.has(Virus::SpeedVirus));
                } else {
                    assert(self.has(Virus::VisionVirus));
                }
            }
        }
        r
    }

    /// Sets the progress of one infection, or drops it with `None`.
    pub fn set(&mut self, v: Virus, p: Option<u64>)
        ensures
            final(self).progress(v) == p,
            forall|w: Virus| w != v ==> final(self).progress(w) == old(self).progress(w),
    {
        match v {
            Virus::SpeedVirus => self.speed_virus = p,
            Virus::VisionVirus => self.vision_virus = p,
        }
    }

    /// Every infection of `self` is carried by `other` too.
    pub open spec fn subset_of(&self, other: Infections) -> bool {
        forall|v: Virus| self.has(v) ==> other.has(v)
    }
}

/// What a body is doing.
#[derive(Clone, Copy, PartialEq, Eq, Structural, Debug)]
pub enum Status {
    /// Pursuing the entity with this identity, last seen at this position.
    FollowingTarget(u64, Pos, ObjectType),
    /// Fleeing from the body with this identity and lineage.
    EscapingBody(u64, u16),
    /// Walking by this fixed step every tick.
    Walking(Pos),
    /// Dead, to become a corpse.
    Cross,
    Idle,
}

/// What the skill checks need to know of a pursuer, copied each tick.
#[derive(Clone, Copy, PartialEq, Eq, Structural, Debug)]
pub struct Pursuer {
    pub id: u64,
    pub pos: Pos,
    pub speed: u64,
    pub body_type: u16,
}

/// A mobile agent.
#[derive(Clone, Debug)]
pub struct Body {
    /// Unique identity, issued in increasing order.
    pub id: u64,
    /// The tick of birth.
    pub born: u64,
    pub pos: Pos,
    pub energy: u64,
    pub speed: u64,
    pub vision_distance: u64,
    pub eating_strategy: EatingStrategy,
    pub division_threshold: u64,
    pub skills: SkillSet,
    pub viruses: Infections,
    /// Colour, as packed `0xRRGGBBAA`, for drawing only.
    pub color: u32,
    pub status: Status,
    /// The lineage.
    pub body_type: u16,
    /// Remaining lifespan, in ticks of age.
    pub lifespan: u64,
    /// Speed at birth, before any infection.
    pub initial_speed: u64,
    /// Vision distance at birth, before any infection.
    pub initial_vision_distance: u64,
    /// The bodies pursuing this one.
    pub followed_by: Vec<Pursuer>,
}

/// Each pursuer's position and speed are in range.
pub open spec fn pursuers_wf(f: Seq<Pursuer>) -> bool {
    forall|k: int| 0 <= k < f.len() ==> (#[trigger] f[k]).pos.in_range() && f[k].speed <= MAX_SPEED
}

/// Whether a pursuer list holds the identity.
pub open spec fn pursued_by(f: Seq<Pursuer>, id: u64) -> bool {
    exists|k: int| 0 <= k < f.len() && f[k].id == id
}

impl Body {
    /// Every stat within its range.
    pub open spec fn wf(&self) -> bool {
        &&& self.pos.in_range()
        &&& self.energy <= MAX_ENERGY
        &&& self.speed <= MAX_SPEED
        &&& self.vision_distance <= MAX_COORD
        &&& self.division_threshold <= MAX_ENERGY
        &&& self.lifespan <= MAX_ENERGY
        &&& self.initial_speed <= MAX_SPEED
        &&& self.initial_vision_distance <= MAX_COORD
        &&& self.viruses.wf()
        &&& pursuers_wf(self.followed_by@)
        &&& (self.status matches Status::Walking(step) ==> -MAX_COORD <= step.x <= MAX_COORD && -MAX_COORD <= step.y
            <= MAX_COORD)
    }

    /// What a pursuer list records of this body.
    pub open spec fn snapshot_spec(&self) -> Pursuer {
        Pursuer { id: self.id, pos: self.pos, speed: self.speed, body_type: self.body_type }
    }

    /// What a pursuer list records of this body.
    pub fn snapshot(&self) -> (p: Pursuer)
        ensures
            p == self.snapshot_spec(),
    {
        Pursuer { id: self.id, pos: self.pos, speed: self.speed, body_type: self.body_type }
    }
}

} // verus!
