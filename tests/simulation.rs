use eportal::birth::BirthDraws;
use eportal::body::{Body, EatingStrategy, Infections, ObjectType, Pursuer, Skill, SkillSet, Status, Virus};
use eportal::condition::{enum_consts, next_condition_from, plant_turnover, update_condition, ActiveCondition, Condition};
use eportal::config::{Config, VirusParams, MAX_ENERGY, RATE_ONE};
use eportal::engine::{remove_follower, FoodInfo};
use eportal::food::{Cross, Plant, PlantKind};
use eportal::geometry::{ceil_sqrt, distance_sq, isqrt, travel_ticks, Pos};
use eportal::grid::{Cell, Grid};
use eportal::movement::{walking_step, wrap_pos};
use eportal::store::SpatialStore;
use eportal::visibility::visible;
use eportal::world::World;
use rand::rngs::StdRng;
use rand::{Rng, SeedableRng};

fn virus(decrease: u64, cost: u64, heal: u64) -> VirusParams {
    VirusParams {
        first_generation_infection_chance: 0,
        decrease,
        energy_spent_for_healing: cost,
        heal_energy: heal,
    }
}

fn config() -> Config {
    Config {
        min_energy: 100,
        mass_cost: 0,
        skill_cost: 0,
        vision_cost: 0,
        movement_cost: 0,
        lifespan_cost: 0,
        lifespan: 1_000_000,
        deviation: 100_000_000,
        skills_change_chance: 0,
        average_speed: 10,
        average_vision_distance: 100,
        average_energy: 1000,
        average_division_threshold: 5000,
        speed_virus: virus(500_000_000, 10, 30),
        vision_virus: virus(250_000_000, 5, 12),
        cross_lifespan: 100,
        grass_energy: 10,
        banana_energy: 50,
    }
}

fn body(id: u64, x: i64, y: i64) -> Body {
    Body {
        id,
        born: 0,
        pos: Pos { x, y },
        energy: 1000,
        speed: 10,
        vision_distance: 100,
        eating_strategy: EatingStrategy::Passive,
        division_threshold: 5000,
        skills: SkillSet::new(),
        viruses: Infections::new(),
        color: 0,
        status: Status::Idle,
        body_type: 1,
        lifespan: 1_000_000,
        initial_speed: 10,
        initial_vision_distance: 100,
        followed_by: Vec::new(),
    }
}

fn grid() -> Grid {
    Grid::new(1000, 800, 50, 40).unwrap()
}

fn world() -> World {
    World::new(config(), grid())
}

#[test]
fn grid_covers_arena() {
    let g = grid();
    assert_eq!((g.rows, g.columns), (20, 20));
    let g2 = Grid::new(1001, 801, 50, 40).unwrap();
    assert_eq!((g2.rows, g2.columns), (21, 21));
}

#[test]
fn grid_rejects_bad_sizes() {
    assert!(Grid::new(0, 10, 1, 1).is_none());
    assert!(Grid::new(10, 10, 11, 1).is_none());
    assert!(Grid::new(10, 10, 1, 0).is_none());
}

#[test]
fn cell_lookup_clamps() {
    let g = grid();
    assert_eq!(g.get_cell_by_pos(&Pos { x: 0, y: 0 }), Cell { i: 0, j: 0 });
    assert_eq!(g.get_cell_by_pos(&Pos { x: 75, y: 41 }), Cell { i: 1, j: 1 });
    assert_eq!(g.get_cell_by_pos(&Pos { x: 1000, y: 800 }), Cell { i: 19, j: 19 });
    assert_eq!(g.get_cell_by_pos(&Pos { x: -5, y: 5000 }), Cell { i: 19, j: 0 });
}

#[test]
fn integer_roots() {
    assert_eq!(isqrt(0), 0);
    assert_eq!(isqrt(15), 3);
    assert_eq!(isqrt(16), 4);
    assert_eq!(isqrt(u64::MAX), 4294967295);
    assert_eq!(ceil_sqrt(15), 4);
    assert_eq!(ceil_sqrt(16), 4);
    assert_eq!(ceil_sqrt(17), 5);
}

#[test]
fn travel_time_in_ticks() {
    assert_eq!(travel_ticks(0, 5), 0);
    assert_eq!(travel_ticks(100, 5), 2);
    assert_eq!(travel_ticks(101, 5), 3);
    assert_eq!(travel_ticks(25, 5), 1);
    assert_eq!(distance_sq(Pos { x: 3, y: 0 }, Pos { x: 0, y: 4 }), 25);
}

fn brute_force(store: &SpatialStore<Plant>, origin: Pos, r: i64) -> Vec<(usize, usize, usize)> {
    let mut out = Vec::new();
    for (i, row) in store.bags.iter().enumerate() {
        for (j, bag) in row.iter().enumerate() {
            for (s, p) in bag.iter().enumerate() {
                if distance_sq(p.pos, origin) <= (r * r) as u64 {
                    out.push((i, j, s));
                }
            }
        }
    }
    out
}

#[test]
fn visibility_matches_brute_force() {
    let g = grid();
    let mut rng = StdRng::seed_from_u64(7);
    for round in 0..40 {
        let mut store: SpatialStore<Plant> = SpatialStore::new(&g);
        for k in 0..300 {
            let pos = Pos { x: rng.gen_range(0..=1000), y: rng.gen_range(0..=800) };
            store.insert(&g, Plant { id: k, pos, kind: PlantKind::Grass, size: 1, followed_by: Vec::new() });
        }
        let origin = Pos { x: rng.gen_range(0..=1000), y: rng.gen_range(0..=800) };
        let r = rng.gen_range(0..300) + round;
        let mut got = visible(&g, &store, origin, r);
        got.sort();
        let mut want = brute_force(&store, origin, r);
        want.sort();
        assert_eq!(got, want);
    }
}

#[test]
fn visibility_edges_and_zero_radius() {
    let g = grid();
    let mut store: SpatialStore<Plant> = SpatialStore::new(&g);
    store.insert(&g, Plant { id: 1, pos: Pos { x: 1000, y: 800 }, kind: PlantKind::Grass, size: 1, followed_by: Vec::new() });
    store.insert(&g, Plant { id: 2, pos: Pos { x: 0, y: 0 }, kind: PlantKind::Grass, size: 1, followed_by: Vec::new() });
    assert_eq!(visible(&g, &store, Pos { x: 1000, y: 800 }, 0), vec![(19, 19, 0)]);
    assert_eq!(visible(&g, &store, Pos { x: 0, y: 0 }, 0), vec![(0, 0, 0)]);
    assert!(visible(&g, &store, Pos { x: 500, y: 400 }, 10).is_empty());
}

#[test]
fn will_arrive_first_loses_to_faster_closer_pursuer() {
    let cfg = config();
    let _ = cfg;
    let mut slow = body(1, 100, 100);
    slow.skills.insert(Skill::WillArriveFirst);
    slow.speed = 5;
    let plant = Plant {
        id: 9,
        pos: Pos { x: 160, y: 100 },
        kind: PlantKind::Grass,
        size: 3,
        followed_by: vec![Pursuer { id: 2, pos: Pos { x: 110, y: 100 }, speed: 20, body_type: 2 }],
    };
    assert!(!slow.handle_will_arrive_first_plant(&plant));
    let mut fast = body(3, 140, 100);
    fast.skills.insert(Skill::WillArriveFirst);
    fast.speed = 40;
    assert!(fast.handle_will_arrive_first_plant(&plant));
    let unskilled = body(4, 100, 100);
    assert!(unskilled.handle_will_arrive_first_plant(&plant));
}

#[test]
fn predicates_fail_closed_without_closing_speed() {
    let cfg = config();
    let mut hunter = body(1, 100, 100);
    hunter.skills.insert(Skill::AliveWhenArrived);
    hunter.skills.insert(Skill::ProfitableWhenArrived);
    hunter.skills.insert(Skill::WillArriveFirst);
    let mut prey = body(2, 150, 100);
    prey.speed = 10;
    assert!(!hunter.handle_alive_when_arrived_body(&cfg, &prey));
    assert!(!hunter.handle_profitable_when_arrived_body(&cfg, &prey));
    assert!(!hunter.handle_will_arrive_first_body(&prey));
    prey.speed = 5;
    prey.energy = 400;
    assert!(hunter.handle_alive_when_arrived_body(&cfg, &prey));
    assert!(hunter.handle_profitable_when_arrived_body(&cfg, &prey));
    assert!(hunter.handle_will_arrive_first_body(&prey));
}

#[test]
fn spent_energy_formula() {
    let mut cfg = config();
    cfg.mass_cost = 10_000_000;
    cfg.skill_cost = 3;
    cfg.vision_cost = 1_000_000;
    cfg.movement_cost = 1_000;
    let mut b = body(1, 10, 10);
    b.skills.insert(Skill::AliveWhenArrived);
    b.skills.insert(Skill::WillArriveFirst);
    // base = (0.01 * 1000 + 0.001 * 100^2) + 3 * 2 = 10 + 10 + 6 = 26
    assert_eq!(b.base_cost(&cfg), 26);
    // movement per tick = 1e-6 * 10^2 * 1000 = 0.1, rounded down to 0
    assert_eq!(b.get_spent_energy(&cfg, 4), 26);
    b.speed = 100;
    // movement per tick = 1e-6 * 100^2 * 1000 = 10
    assert_eq!(b.get_spent_energy(&cfg, 4), 66);
}

#[test]
fn upkeep_exhausts() {
    let mut cfg = config();
    cfg.skill_cost = 600;
    let mut b = body(1, 10, 10);
    b.skills.insert(Skill::AliveWhenArrived);
    assert!(!b.handle_energy(&cfg));
    assert_eq!(b.energy, 400);
    assert!(b.handle_energy(&cfg));
    assert_eq!(b.energy, 0);
}

#[test]
fn movement_upkeep_only_when_moving() {
    let mut cfg = config();
    cfg.movement_cost = 1_000_000;
    let mut b = body(1, 10, 10);
    assert!(!b.handle_energy(&cfg));
    assert_eq!(b.energy, 1000);
    b.status = Status::Walking(Pos { x: 1, y: 0 });
    // 1e-3 * 10^2 * 1000 = 100
    assert!(!b.handle_energy(&cfg));
    assert_eq!(b.energy, 900);
}

#[test]
fn lifespan_decays_when_not_idle() {
    let mut cfg = config();
    cfg.lifespan_cost = 1_000_000;
    let mut b = body(1, 10, 10);
    b.handle_lifespan(&cfg);
    assert_eq!(b.lifespan, 1_000_000);
    b.status = Status::Walking(Pos { x: 1, y: 0 });
    b.handle_lifespan(&cfg);
    assert_eq!(b.lifespan, 1_000_000 - 100);
}

#[test]
fn healing_progress_and_cure() {
    let cfg = config();
    let mut b = body(1, 10, 10);
    b.viruses.set(Virus::SpeedVirus, Some(0));
    b.viruses.set(Virus::VisionVirus, Some(0));
    let mut last = 0;
    for tick in 1..=3 {
        b.handle_viruses(&cfg);
        let p = b.viruses.get(Virus::SpeedVirus);
        if tick < 3 {
            let p = p.unwrap();
            assert!(p >= last);
            assert_eq!(p, 10 * tick);
            last = p;
        } else {
            assert_eq!(p, None);
        }
    }
    // the vision infection (5 per tick, cured at 12) went at the third tick too
    assert_eq!(b.viruses.get(Virus::VisionVirus), None);
    assert_eq!(b.energy, 1000 - 3 * 15);
    b.handle_viruses(&cfg);
    assert_eq!(b.energy, 1000 - 3 * 15);
}

#[test]
fn healing_floors_energy_at_zero() {
    let cfg = config();
    let mut b = body(1, 10, 10);
    b.energy = 7;
    b.viruses.set(Virus::SpeedVirus, Some(0));
    b.handle_viruses(&cfg);
    assert_eq!(b.energy, 0);
}

#[test]
fn infections_apply_penalty_once() {
    let cfg = config();
    let mut b = body(1, 10, 10);
    let mut carried = Infections::new();
    carried.set(Virus::SpeedVirus, Some(7));
    b.get_viruses(&cfg, &carried);
    assert_eq!(b.viruses.get(Virus::SpeedVirus), Some(0));
    assert_eq!(b.speed, 5);
    b.get_viruses(&cfg, &carried);
    assert_eq!(b.speed, 5);
    carried.set(Virus::VisionVirus, Some(1));
    b.get_viruses(&cfg, &carried);
    assert_eq!(b.vision_distance, 75);
}

#[test]
fn eating_adds_exact_energy() {
    let cfg = config();
    let mut b = body(1, 10, 10);
    let food = FoodInfo { id: 5, food_type: ObjectType::Plant, pos: Pos { x: 12, y: 10 }, energy: 321, viruses: None };
    b.eat(&cfg, &food);
    assert_eq!(b.energy, 1321);
    assert_eq!(b.pos, Pos { x: 12, y: 10 });
    b.energy = MAX_ENERGY - 1;
    b.eat(&cfg, &food);
    assert_eq!(b.energy, MAX_ENERGY);
}

fn draws(offset: u64) -> BirthDraws {
    BirthDraws {
        speed: offset,
        vision: offset,
        energy: offset,
        division: offset,
        skill_change: 0,
        skill_add: true,
        skill_pick: 0,
        speed_virus_roll: RATE_ONE - 1,
        speed_virus_progress: 0,
        vision_virus_roll: RATE_ONE - 1,
        vision_virus_progress: 0,
    }
}

#[test]
fn born_uses_the_band() {
    let cfg = config();
    // band of 10 at 10% is 1: offsets 0, 1, 2 give 9, 10, 11; larger offsets clamp
    for (off, want) in [(0, 9), (1, 10), (2, 11), (50, 11)] {
        let b = Body::born(&cfg, 1, 0, Pos { x: 1, y: 1 }, None, EatingStrategy::Active, None, None, 0, 1, None, None, None, &draws(off));
        assert_eq!(b.initial_speed, want);
        assert_eq!(b.speed, want);
    }
    let b = Body::born(&cfg, 1, 0, Pos { x: 1, y: 1 }, Some(77), EatingStrategy::Active, None, None, 0, 1, None, None, None, &draws(0));
    assert_eq!(b.energy, 38);
    assert_eq!(b.initial_vision_distance, 90);
    assert_eq!(b.division_threshold, 4500);
}

#[test]
fn born_mutates_one_skill() {
    let mut cfg = config();
    cfg.skills_change_chance = RATE_ONE;
    let mut s = SkillSet::new();
    s.insert(Skill::DoNotCompeteWithRelatives);
    let mut d = draws(0);
    d.skill_add = true;
    let b = Body::born(&cfg, 1, 0, Pos { x: 1, y: 1 }, None, EatingStrategy::Active, None, Some(s), 0, 1, None, None, None, &d);
    assert!(b.skills.contains(Skill::DoNotCompeteWithRelatives));
    assert!(b.skills.contains(Skill::AliveWhenArrived));
    assert_eq!(b.skills.len(), 2);
    d.skill_add = false;
    let b = Body::born(&cfg, 1, 0, Pos { x: 1, y: 1 }, None, EatingStrategy::Active, None, Some(s), 0, 1, None, None, None, &d);
    assert_eq!(b.skills.len(), 0);
}

#[test]
fn first_generation_infections() {
    let mut cfg = config();
    cfg.speed_virus.first_generation_infection_chance = RATE_ONE;
    let mut d = draws(1);
    d.speed_virus_progress = 29;
    let b = Body::born(&cfg, 1, 0, Pos { x: 1, y: 1 }, None, EatingStrategy::Active, None, None, 0, 1, None, None, None, &d);
    assert_eq!(b.viruses.get(Virus::SpeedVirus), Some(29));
    assert_eq!(b.viruses.get(Virus::VisionVirus), None);
    assert_eq!(b.initial_speed, 10);
    assert_eq!(b.speed, 5);
}

#[test]
fn procreation_splits_energy() {
    let cfg = config();
    let mut rng = StdRng::seed_from_u64(3);
    let mut parent = body(1, 10, 10);
    parent.energy = 6001;
    parent.speed = 3;
    let (a, b) = parent.offspring(&cfg, 40, 0, &mut rng);
    assert_eq!(a.energy + b.energy, 6000);
    assert_eq!((a.energy, b.energy), (3000, 3000));
    assert_eq!((a.id, b.id), (40, 41));
    for c in [&a, &b] {
        assert!(c.initial_speed >= 9 && c.initial_speed <= 11);
        assert!(c.initial_vision_distance >= 90 && c.initial_vision_distance <= 110);
    }
    parent.energy = 5000;
    assert!(parent.handle_procreation(&cfg, 50, 0, &mut rng).is_none());
}

#[test]
fn wrapping_and_walking() {
    let g = grid();
    assert_eq!(wrap_pos(&g, 1000, -3), Pos { x: 1, y: 799 });
    assert_eq!(wrap_pos(&g, 0, 5), Pos { x: 999, y: 5 });
    assert_eq!(walking_step(5, 0, true), Pos { x: -5, y: 0 });
    assert_eq!(walking_step(5, 2, false), Pos { x: -3, y: -4 });
    assert_eq!(walking_step(5, 100, true), Pos { x: 5, y: 0 });
}

#[test]
fn stepping_toward_and_away() {
    let g = grid();
    let mut b = body(1, 100, 100);
    b.step_toward(&g, Pos { x: 130, y: 140 });
    assert_eq!(b.pos, Pos { x: 106, y: 108 });
    let mut c = body(2, 100, 100);
    c.step_away(&g, Pos { x: 130, y: 140 });
    assert_eq!(c.pos, Pos { x: 94, y: 92 });
}

#[test]
fn cleanup_removes_only_that_pursuer() {
    let f = vec![
        Pursuer { id: 1, pos: Pos { x: 0, y: 0 }, speed: 1, body_type: 1 },
        Pursuer { id: 2, pos: Pos { x: 0, y: 0 }, speed: 1, body_type: 1 },
        Pursuer { id: 1, pos: Pos { x: 5, y: 0 }, speed: 1, body_type: 1 },
    ];
    let r = remove_follower(&f, 1);
    assert_eq!(r.len(), 1);
    assert_eq!(r[0].id, 2);
}

#[test]
fn passive_body_without_food_stays_idle() {
    let mut w = world();
    let mut rng = StdRng::seed_from_u64(1);
    w.insert_body(body(1, 500, 400));
    for _ in 0..20 {
        w.tick(&mut rng);
        assert_eq!(w.bodies[0].status, Status::Idle);
        assert_eq!(w.bodies[0].pos, Pos { x: 500, y: 400 });
    }
    assert_eq!(w.now, 20);
}

#[test]
fn starving_body_becomes_a_cross_in_its_cell() {
    let mut w = world();
    let mut rng = StdRng::seed_from_u64(1);
    let mut b = body(1, 530, 430);
    b.energy = 99;
    w.insert_body(b);
    w.tick(&mut rng);
    assert_eq!(w.body_count(), 0);
    assert_eq!(w.cross_count(), 1);
    let bag = &w.crosses.bags[10][10];
    assert_eq!(bag.len(), 1);
    assert_eq!(bag[0].id, 1);
    assert_eq!(bag[0].energy, 99);
}

#[test]
fn body_at_min_energy_survives() {
    let mut w = world();
    let mut rng = StdRng::seed_from_u64(1);
    let mut b = body(1, 530, 430);
    b.energy = 100;
    w.insert_body(b);
    w.tick(&mut rng);
    assert_eq!(w.body_count(), 1);
    assert_eq!(w.cross_count(), 0);
}

#[test]
fn eating_a_plant_removes_it() {
    let mut w = world();
    let mut rng = StdRng::seed_from_u64(1);
    w.next_id = 10;
    let id = w.add_plant(Pos { x: 505, y: 400 }, PlantKind::Banana, 2);
    w.insert_body(body(1, 500, 400));
    assert_eq!(w.plant_count(), 1);
    w.tick(&mut rng);
    assert_eq!(id, 10);
    assert_eq!(w.plant_count(), 0);
    assert_eq!(w.bodies[0].energy, 1100);
    assert_eq!(w.bodies[0].pos, Pos { x: 505, y: 400 });
}

#[test]
fn banana_preferred_and_pursuit_registered() {
    let mut w = world();
    let mut rng = StdRng::seed_from_u64(1);
    w.next_id = 10;
    w.add_plant(Pos { x: 530, y: 400 }, PlantKind::Grass, 2);
    let banana = w.add_plant(Pos { x: 560, y: 400 }, PlantKind::Banana, 2);
    w.insert_body(body(1, 500, 400));
    w.tick(&mut rng);
    let b = &w.bodies[0];
    assert_eq!(b.status, Status::FollowingTarget(banana, Pos { x: 560, y: 400 }, ObjectType::Plant));
    assert_eq!(b.pos, Pos { x: 510, y: 400 });
    let bag = &w.plants.bags[10][11];
    let plant = bag.iter().find(|p| p.id == banana).unwrap();
    assert_eq!(plant.followed_by.len(), 1);
    assert_eq!(plant.followed_by[0].id, 1);
}

#[test]
fn chased_body_flees() {
    let mut w = world();
    let mut rng = StdRng::seed_from_u64(1);
    let mut prey = body(1, 500, 400);
    prey.followed_by.push(Pursuer { id: 2, pos: Pos { x: 530, y: 400 }, speed: 20, body_type: 2 });
    w.insert_body(prey);
    w.tick(&mut rng);
    assert_eq!(w.bodies[0].status, Status::EscapingBody(2, 2));
    assert_eq!(w.bodies[0].pos, Pos { x: 490, y: 400 });
}

#[test]
fn hunter_eats_weaker_prey() {
    let mut w = world();
    let mut rng = StdRng::seed_from_u64(1);
    let hunter = body(1, 500, 400);
    let mut prey = body(2, 505, 400);
    prey.body_type = 2;
    prey.energy = 300;
    w.insert_body(hunter);
    w.insert_body(prey);
    w.tick(&mut rng);
    assert_eq!(w.body_count(), 1);
    assert_eq!(w.bodies[0].id, 1);
    assert_eq!(w.bodies[0].energy, 1300);
    assert_eq!(w.cross_count(), 0);
}

#[test]
fn division_replaces_parent() {
    let mut w = world();
    let mut rng = StdRng::seed_from_u64(1);
    w.next_id = 100;
    let mut b = body(1, 500, 400);
    b.energy = 6000;
    w.insert_body(b);
    w.tick(&mut rng);
    assert_eq!(w.body_count(), 2);
    assert_eq!(w.bodies[0].energy + w.bodies[1].energy, 6000);
    assert_eq!((w.bodies[0].id, w.bodies[1].id), (100, 101));
}

#[test]
fn corpses_expire() {
    let mut w = world();
    let mut rng = StdRng::seed_from_u64(1);
    let mut b = body(1, 530, 430);
    b.energy = 0;
    w.insert_body(b);
    w.tick(&mut rng);
    assert_eq!(w.cross_count(), 1);
    for _ in 0..100 {
        w.tick(&mut rng);
    }
    assert_eq!(w.cross_count(), 1);
    w.tick(&mut rng);
    assert_eq!(w.cross_count(), 0);
}

#[test]
fn cross_from_body() {
    let b = body(4, 1, 2);
    let c = Cross::new(&b, 9);
    assert_eq!((c.id, c.pos, c.energy, c.timestamp, c.body_type), (4, Pos { x: 1, y: 2 }, 1000, 9, 1));
}

#[test]
fn spawning_keeps_bodies_apart() {
    let mut w = world();
    let mut rng = StdRng::seed_from_u64(11);
    for t in 0..10 {
        assert!(Body::randomly_spawn_body(&mut w, EatingStrategy::Active, t, 0, &mut rng));
    }
    for a in 0..10 {
        for b in 0..a {
            assert!(distance_sq(w.bodies[a].pos, w.bodies[b].pos) >= 21 * 21);
        }
        assert!(w.bodies[a].pos.x > 11 && w.bodies[a].pos.x < 989);
    }
    let before = w.plant_count();
    w.spawn_plant(PlantKind::Grass, 3, &mut rng);
    assert_eq!(w.plant_count(), before + 1);
}

#[test]
fn conditions_start_and_end() {
    let c = next_condition_from(None, 5, 10, 3, true, 40).unwrap();
    assert_eq!(c, ActiveCondition { condition: Condition::MorePlants, start: 5, lifetime: 40 });
    assert_eq!(next_condition_from(None, 5, 10, 10, true, 40), None);
    assert_eq!(next_condition_from(Some(c), 45, 10, 0, true, 40), Some(c));
    assert_eq!(next_condition_from(Some(c), 46, 10, 0, true, 40), None);
    let mut rng = StdRng::seed_from_u64(5);
    let mut cond = None;
    update_condition(&mut cond, 7, RATE_ONE, &mut rng);
    let a = cond.unwrap();
    assert_eq!(a.start, 7);
    assert!(a.lifetime >= 30 && a.lifetime < 60);
}

#[test]
fn enumerations() {
    let (s, v) = enum_consts();
    assert_eq!(s, vec![0, 1, 2, 3, 4, 5, 6, 7]);
    assert_eq!(v, vec![0, 1]);
}

#[test]
fn new_bodies_draw_in_band() {
    let cfg = config();
    let mut rng = StdRng::seed_from_u64(9);
    let mut seen = std::collections::HashSet::new();
    for k in 0..50 {
        let b = Body::new(&cfg, k, 0, Pos { x: 5, y: 5 }, None, EatingStrategy::Passive, None, None, 0, 1, None, None, None, &mut rng);
        assert!(b.initial_speed >= 9 && b.initial_speed <= 11);
        assert!(b.energy >= 900 && b.energy <= 1100);
        seen.insert(b.energy);
    }
    assert!(seen.len() > 1);
}

#[test]
fn skill_set_basics() {
    let mut s = SkillSet::new();
    assert_eq!(s.len(), 0);
    s.insert(Skill::AvoidInfectedCrosses);
    s.insert(Skill::AvoidInfectedCrosses);
    assert_eq!(s.len(), 1);
    assert_eq!(s.pick(true, 0), Some(Skill::AvoidInfectedCrosses));
    assert_eq!(s.pick(true, 1), None);
    assert_eq!(s.count_matching(false), 7);
    assert_eq!(s.pick(false, 0), Some(Skill::DoNotCompeteWithRelatives));
    assert_eq!(s.pick(false, 6), Some(Skill::EatCrossesOfMyType));
    assert_eq!(s.pick(false, 7), None);
    s.remove(Skill::AvoidInfectedCrosses);
    assert_eq!(s.pick(true, 0), None);
}

#[test]
fn corpse_gates() {
    let cfg = config();
    let _ = cfg;
    let mut b = body(1, 0, 0);
    let mut c = Cross::new(&body(2, 3, 3), 0);
    assert!(!b.handle_eat_crosses_of_my_type(&c));
    b.skills.insert(Skill::EatCrossesOfMyType);
    assert!(b.handle_eat_crosses_of_my_type(&c));
    c.viruses.set(Virus::VisionVirus, Some(0));
    assert!(b.handle_avoid_infected_crosses(&c));
    assert!(b.handle_avoid_new_viruses_cross(&c));
    b.skills.insert(Skill::AvoidInfectedCrosses);
    b.skills.insert(Skill::AvoidNewViruses);
    assert!(!b.handle_avoid_infected_crosses(&c));
    assert!(!b.handle_avoid_new_viruses_cross(&c));
    b.viruses.set(Virus::VisionVirus, Some(0));
    assert!(b.handle_avoid_new_viruses_cross(&c));
}

#[test]
fn relatives_do_not_compete() {
    let mut b = body(1, 0, 0);
    b.skills.insert(Skill::DoNotCompeteWithRelatives);
    let rel = vec![Pursuer { id: 2, pos: Pos { x: 0, y: 0 }, speed: 1, body_type: 1 }];
    let me = vec![Pursuer { id: 1, pos: Pos { x: 0, y: 0 }, speed: 1, body_type: 1 }];
    let other = vec![Pursuer { id: 3, pos: Pos { x: 0, y: 0 }, speed: 1, body_type: 7 }];
    assert!(!b.handle_do_not_compete_with_relatives(&rel));
    assert!(b.handle_do_not_compete_with_relatives(&me));
    assert!(b.handle_do_not_compete_with_relatives(&other));
}

#[test]
fn plant_energy_by_kind() {
    let cfg = config();
    let g = Plant { id: 1, pos: Pos { x: 0, y: 0 }, kind: PlantKind::Grass, size: 3, followed_by: Vec::new() };
    let b = Plant { id: 2, pos: Pos { x: 0, y: 0 }, kind: PlantKind::Banana, size: 3, followed_by: Vec::new() };
    assert_eq!(g.get_contained_energy(&cfg), 30);
    assert_eq!(b.get_contained_energy(&cfg), 150);
}

fn follows(b: &Body, id: u64, kind: ObjectType) -> bool {
    matches!(b.status, Status::FollowingTarget(t, _, k) if t == id && k == kind)
}

fn check_graph(w: &World) {
    for b in &w.bodies {
        if let Status::FollowingTarget(t, _, kind) = b.status {
            let list: Vec<u64> = match kind {
                ObjectType::Body => w.bodies.iter().filter(|o| o.id == t).flat_map(|o| o.followed_by.iter().map(|p| p.id)).collect(),
                ObjectType::Plant => w.plants.bags.iter().flatten().flatten().filter(|o| o.id == t).flat_map(|o| o.followed_by.iter().map(|p| p.id)).collect(),
                ObjectType::Cross => w.crosses.bags.iter().flatten().flatten().filter(|o| o.id == t).flat_map(|o| o.followed_by.iter().map(|p| p.id)).collect(),
            };
            assert!(list.contains(&b.id));
        }
    }
    let lists = w
        .bodies
        .iter()
        .map(|o| (o.id, ObjectType::Body, &o.followed_by))
        .chain(w.plants.bags.iter().flatten().flatten().map(|o| (o.id, ObjectType::Plant, &o.followed_by)))
        .chain(w.crosses.bags.iter().flatten().flatten().map(|o| (o.id, ObjectType::Cross, &o.followed_by)));
    for (id, kind, list) in lists {
        for p in list {
            assert!(w.bodies.iter().any(|b| b.id == p.id && follows(b, id, kind)));
        }
    }
}

#[test]
fn pursuit_graph_stays_consistent() {
    let mut cfg = config();
    cfg.skills_change_chance = RATE_ONE / 2;
    cfg.mass_cost = 1_000_000;
    let mut w = World::new(cfg, grid());
    let mut rng = StdRng::seed_from_u64(21);
    w.next_id = 1;
    for t in 0..30 {
        let strategy = if t % 2 == 0 { EatingStrategy::Active } else { EatingStrategy::Passive };
        Body::randomly_spawn_body(&mut w, strategy, t % 3, 0, &mut rng);
    }
    for k in 0..40 {
        let kind = if k % 4 == 0 { PlantKind::Banana } else { PlantKind::Grass };
        w.spawn_plant(kind, 5, &mut rng);
    }
    let mut followers_seen = 0;
    for _ in 0..60 {
        w.tick(&mut rng);
        check_graph(&w);
        followers_seen += w.bodies.iter().filter(|b| matches!(b.status, Status::FollowingTarget(..))).count();
    }
    assert!(followers_seen > 0);
}

#[test]
fn walking_and_idling() {
    let mut w = world();
    let mut rng = StdRng::seed_from_u64(2);
    let mut a = body(1, 500, 400);
    a.eating_strategy = EatingStrategy::Active;
    a.handle_walking_idle(&mut w, &mut rng);
    let step = match a.status {
        Status::Walking(step) => step,
        other => panic!("not walking: {:?}", other),
    };
    assert_eq!(a.pos, Pos { x: 500 + step.x, y: 400 + step.y });
    let before = a.pos;
    a.handle_walking_idle(&mut w, &mut rng);
    assert_eq!(a.status, Status::Walking(step));
    assert_eq!(a.pos, Pos { x: before.x + step.x, y: before.y + step.y });
    let mut p = body(2, 500, 400);
    p.status = Status::Walking(Pos { x: 3, y: 4 });
    p.handle_walking_idle(&mut w, &mut rng);
    assert_eq!(p.status, Status::Idle);
    assert_eq!(p.pos, Pos { x: 500, y: 400 });
}

#[test]
fn plant_turnover_by_condition() {
    let fewer = Some(ActiveCondition { condition: Condition::FewerPlants, start: 0, lifetime: 40 });
    let more = Some(ActiveCondition { condition: Condition::MorePlants, start: 0, lifetime: 40 });
    assert_eq!(plant_turnover(1000, RATE_ONE / 100, 3, None), (10, 3));
    assert_eq!(plant_turnover(1000, RATE_ONE / 100, 3, fewer), (20, 3));
    assert_eq!(plant_turnover(1000, RATE_ONE / 100, 3, more), (10, 6));
    assert_eq!(plant_turnover(99, RATE_ONE / 100, 0, None), (0, 0));
}

#[test]
fn plants_die_and_grow() {
    let mut w = world();
    let mut rng = StdRng::seed_from_u64(4);
    for _ in 0..50 {
        w.spawn_plant(PlantKind::Grass, 1, &mut rng);
    }
    assert!(w.remove_random_plant(&mut rng));
    assert_eq!(w.plant_count(), 49);
    w.grow_plants(None, RATE_ONE / 7, 5, 0, 2, &mut rng);
    // RATE_ONE / 7 is a hair under a seventh: 49 of them make 6 deaths
    assert_eq!(w.plant_count(), 49 - 6 + 5);
    let mut empty = world();
    assert!(!empty.remove_random_plant(&mut rng));
}

#[test]
fn spawning_fails_in_a_tiny_arena() {
    let mut w = World::new(config(), Grid::new(20, 20, 5, 5).unwrap());
    let mut rng = StdRng::seed_from_u64(3);
    assert!(!Body::randomly_spawn_body(&mut w, EatingStrategy::Passive, 1, 0, &mut rng));
    assert_eq!(w.body_count(), 0);
}

#[test]
fn no_condition_without_chance() {
    let mut rng = StdRng::seed_from_u64(8);
    let mut cond = None;
    for now in 0..100 {
        update_condition(&mut cond, now, 0, &mut rng);
        assert_eq!(cond, None);
    }
}

#[test]
fn inherited_infections_take_no_new_penalty() {
    let cfg = config();
    let mut rng = StdRng::seed_from_u64(6);
    let mut parent = body(1, 10, 10);
    parent.energy = 6000;
    parent.viruses.set(Virus::SpeedVirus, Some(4));
    parent.speed = 5;
    let (a, b) = parent.offspring(&cfg, 10, 0, &mut rng);
    for c in [&a, &b] {
        assert_eq!(c.viruses.get(Virus::SpeedVirus), Some(4));
        assert_eq!(c.speed, c.initial_speed);
        assert!(c.speed >= 9 && c.speed <= 11);
        assert_eq!(c.status, Status::Idle);
        assert_eq!(c.lifespan, cfg.lifespan);
    }
}

#[test]
fn tick_reports_eaten_prey_and_leaves_corpses() {
    let mut w = world();
    let mut rng = StdRng::seed_from_u64(1);
    let hunter = body(1, 500, 400);
    let mut prey = body(2, 505, 400);
    prey.body_type = 2;
    prey.energy = 300;
    let mut dying = body(3, 100, 100);
    dying.energy = 50;
    dying.viruses.set(Virus::VisionVirus, Some(0));
    dying.body_type = 4;
    w.insert_body(hunter);
    w.insert_body(prey);
    w.insert_body(dying);
    let report = w.tick(&mut rng);
    assert_eq!(report.eaten, vec![2]);
    assert!(report.removed.contains(&2) && report.removed.contains(&3));
    assert!(!report.removed.contains(&1));
    assert!(w.bodies.iter().all(|b| b.id != 2 && b.id != 3));
    let bag = &w.crosses.bags[2][2];
    assert_eq!(bag.len(), 1);
    assert_eq!((bag[0].id, bag[0].body_type), (3, 4));
    assert!(bag[0].viruses.contains_key(Virus::VisionVirus));
}

#[test]
fn config_validity() {
    let mut cfg = config();
    assert!(cfg.is_valid());
    cfg.deviation = RATE_ONE + 1;
    assert!(!cfg.is_valid());
}

#[test]
fn new_halves_the_given_energy() {
    let cfg = config();
    let mut rng = StdRng::seed_from_u64(2);
    let b = Body::new(&cfg, 1, 0, Pos { x: 5, y: 5 }, Some(10), EatingStrategy::Passive, None, None, 0, 1, None, None, None, &mut rng);
    assert_eq!(b.energy, 5);
}

#[test]
fn exhausted_body_leaves_an_empty_corpse() {
    let mut cfg = config();
    cfg.skill_cost = 2000;
    let mut w = World::new(cfg, grid());
    let mut rng = StdRng::seed_from_u64(1);
    let mut b = body(1, 530, 430);
    b.skills.insert(Skill::AliveWhenArrived);
    w.insert_body(b);
    let report = w.tick(&mut rng);
    assert_eq!(report.removed, vec![1]);
    assert_eq!(w.body_count(), 0);
    let bag = &w.crosses.bags[10][10];
    assert_eq!(bag.len(), 1);
    assert_eq!((bag[0].id, bag[0].energy), (1, 0));
}
