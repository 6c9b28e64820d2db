use naval_bot::bot::{
    is_land_or_border, ring_offset, AltitudeTarget, Bot, Command, Contact, Rolls, Snapshot,
    MAX_AGGRESSION, MAX_LEVEL,
};
use naval_bot::entity::{angle_distance, Altitude, Armament, EntityData, EntityKind, EntitySubKind, Turret};
use naval_bot::steering::{attract, isqrt, repel, spring, Force};
use naval_bot::targeting::{best_firing_solution, is_relevant, Loadout};

fn entity(kind: EntityKind, sub_kind: EntitySubKind) -> EntityData {
    EntityData {
        kind,
        sub_kind,
        max_health: 100,
        length: 50,
        radius: 25,
        speed: 20,
        level: 1,
        armaments: vec![],
        turrets: vec![],
    }
}

/// Table: 0 own boat with one torpedo tube, 1 torpedo, 2 hostile boat, 3 sam.
fn table() -> Vec<EntityData> {
    let mut own = entity(EntityKind::Boat, EntitySubKind::Cruiser);
    own.armaments = vec![Armament { entity_type: 1, turret: None, vertical: false }];
    vec![
        own,
        entity(EntityKind::Weapon, EntitySubKind::Torpedo),
        entity(EntityKind::Boat, EntitySubKind::Cruiser),
        entity(EntityKind::Weapon, EntitySubKind::Sam),
    ]
}

fn contact(id: u32, player: Option<u32>, t: usize, x: i32, y: i32) -> Contact {
    Contact {
        id,
        player_id: player,
        entity_type: Some(t),
        x,
        y,
        altitude: Altitude::Surface,
        damage: 0,
        reloads: vec![0],
    }
}

fn snapshot(contacts: Vec<Contact>) -> Snapshot {
    Snapshot {
        player_id: 7,
        contacts,
        ring_heights: vec![None; 10],
        world_radius: 1_000_000,
        table: table(),
        spawn_options: vec![0, 2],
        upgrade_options: vec![],
        aim_deviations: vec![0],
        hostile_bearing: 0,
    }
}

fn rolls(act: u32, quit: u32, pick: usize) -> Rolls {
    Rolls { act, quit, pick }
}

#[test]
fn new_bot_personality_in_range() {
    for _ in 0..200 {
        let b = Bot::new();
        assert!(b.aggression() <= MAX_AGGRESSION);
        assert!(b.level_ambition() >= 1 && b.level_ambition() < MAX_LEVEL);
        assert!(!b.spawned_at_least_once());
    }
}

#[test]
fn from_draws_squares_aggression() {
    let b = Bot::from_draws(500, 3, -4, 2);
    assert_eq!(b.aggression(), 25000);
    assert!(!b.spawned_at_least_once());
    assert_eq!(b.level_ambition(), 3);
}

#[test]
fn attract_and_repel_values() {
    let mut f = Force { x: 0, y: 0 };
    attract(&mut f, 3, 4, 25);
    assert_eq!(f, Force { x: 120989, y: 161319 });
    let mut g = Force { x: 0, y: 0 };
    repel(&mut g, 3, 4, 25);
    assert_eq!(g, Force { x: -120989, y: -161319 });
    let mut h = Force { x: 0, y: 0 };
    attract(&mut h, -3, -4, 25);
    assert_eq!(g, h);
}

#[test]
fn attract_weakens_with_distance() {
    let mut near = Force { x: 0, y: 0 };
    attract(&mut near, 3, 0, 9);
    let mut far = Force { x: 0, y: 0 };
    attract(&mut far, 3, 0, 900);
    assert!(far.x.abs() <= near.x.abs());
    assert_eq!(near.x, 314572);
    assert_eq!(far.x, 3491);
}

#[test]
fn spring_at_rest_and_either_side() {
    let mut f = Force { x: 9, y: 9 };
    spring(&mut f, 3, 4, 5);
    assert_eq!(f, Force { x: 0, y: 0 });
    spring(&mut f, 3, 4, 10);
    assert_eq!(f, Force { x: -604947, y: -806596 });
    spring(&mut f, 30, 40, 45);
    assert!(f.x > 0 && f.y > 0);
    spring(&mut f, 1, 1, 1);
    assert_eq!(f, Force { x: 524288, y: 524288 });
    spring(&mut f, 1, 0, 2);
    assert_eq!(f, Force { x: -524288, y: 0 });
}

#[test]
fn ally_just_beyond_rest_pulls() {
    let mut t = table();
    t[0].radius = 1;
    t[2].radius = 0;
    let mut b = Bot::from_draws(0, 0, 0, 0);
    let mut s = snapshot(vec![contact(1, Some(7), 0, 0, 0), contact(2, Some(7), 2, 1, 1)]);
    s.table = t;
    let (cmds, _) = b.decide(&s, rolls(0, 0, 0));
    match cmds[0] {
        Command::Control(c) => assert_eq!(c.heading, Force { x: 524288, y: 524288 }),
        _ => panic!("expected control"),
    }
}

#[test]
fn isqrt_floors() {
    assert_eq!(isqrt(0), 0);
    assert_eq!(isqrt(26), 5);
    assert_eq!(isqrt(25), 5);
    assert_eq!(isqrt(24), 4);
}

#[test]
fn angle_distance_wraps() {
    assert_eq!(angle_distance(65000, 100), 636);
    assert_eq!(angle_distance(100, 65000), 636);
    assert_eq!(angle_distance(0, 32768), 32768);
}

#[test]
fn ring_and_border() {
    assert_eq!(ring_offset(0, 100), (100, 0));
    assert_eq!(ring_offset(1, 100), (80, 58));
    assert_eq!(ring_offset(5, 100), (-100, 0));
    assert!(is_land_or_border(101, 0, None, 100));
    assert!(!is_land_or_border(100, 0, None, 100));
    assert!(is_land_or_border(0, 0, Some(1), 100));
    assert!(!is_land_or_border(0, 0, Some(0), 100));
    assert!(!is_land_or_border(0, 0, Some(-1), 100));
}

#[test]
fn relevance_matrix() {
    let (surface, submerged, airborne) = (Altitude::Surface, Altitude::Submerged, Altitude::Airborne);
    assert!(is_relevant(EntityKind::Boat, surface, EntitySubKind::Torpedo));
    assert!(is_relevant(EntityKind::Boat, submerged, EntitySubKind::DepthCharge));
    assert!(!is_relevant(EntityKind::Boat, submerged, EntitySubKind::Shell));
    assert!(is_relevant(EntityKind::Boat, surface, EntitySubKind::Shell));
    assert!(!is_relevant(EntityKind::Aircraft, airborne, EntitySubKind::Torpedo));
    assert!(is_relevant(EntityKind::Aircraft, airborne, EntitySubKind::Sam));
    assert!(is_relevant(EntityKind::Weapon, airborne, EntitySubKind::Sam));
    assert!(!is_relevant(EntityKind::Aircraft, surface, EntitySubKind::Sam));
    assert!(!is_relevant(EntityKind::Boat, surface, EntitySubKind::Sam));
    assert!(!is_relevant(EntityKind::Collectible, surface, EntitySubKind::Torpedo));
}

fn three_tubes() -> (Vec<Armament>, Vec<Turret>) {
    (
        vec![
            Armament { entity_type: 1, turret: None, vertical: false },
            Armament { entity_type: 1, turret: Some(0), vertical: false },
            Armament { entity_type: 1, turret: None, vertical: false },
        ],
        vec![Turret { angle: 0, azimuth: 1000 }],
    )
}

#[test]
fn firing_solution_first_minimum_wins() {
    let (arms, turrets) = three_tubes();
    let t = table();
    let reloads = vec![0, 0, 0];
        let l = Loadout { armaments: &arms, turrets: &turrets, reloads: &reloads, table: &t, bearing: 0 };
    assert_eq!(best_firing_solution(&l, EntityKind::Boat, Altitude::Surface, &vec![500, 200, 200]), Some((1, 200)));
    assert_eq!(best_firing_solution(&l, EntityKind::Aircraft, Altitude::Airborne, &vec![0, 0, 0]), None);
}

#[test]
fn firing_solution_skips_reloading() {
    let (arms, turrets) = three_tubes();
    let t = table();
    let reloads = vec![0, 5, 0];
        let l = Loadout { armaments: &arms, turrets: &turrets, reloads: &reloads, table: &t, bearing: 0 };
    assert_eq!(best_firing_solution(&l, EntityKind::Boat, Altitude::Surface, &vec![500, 200, 300]), Some((2, 300)));
}

#[test]
fn firing_solution_skips_turret_out_of_arc() {
    let (arms, turrets) = three_tubes();
    let t = table();
    let reloads = vec![0, 0, 0];
        let l = Loadout { armaments: &arms, turrets: &turrets, reloads: &reloads, table: &t, bearing: 30000 };
    assert_eq!(best_firing_solution(&l, EntityKind::Boat, Altitude::Surface, &vec![500, 0, 600]), Some((0, 500)));
    let l = Loadout { armaments: &arms, turrets: &turrets, reloads: &reloads, table: &t, bearing: 65000 };
    assert_eq!(best_firing_solution(&l, EntityKind::Boat, Altitude::Surface, &vec![500, 0, 600]), Some((1, 0)));
}

#[test]
fn never_spawned_spawns() {
    let mut b = Bot::from_draws(1000, 0, 0, 0);
    let (cmds, quit) = b.decide(&snapshot(vec![]), rolls(0, 0, 3));
    assert!(!quit);
    assert_eq!(cmds, vec![Command::Spawn { entity_type: 2 }]);
}

#[test]
fn dead_after_living_quits_or_respawns() {
    let mut b = Bot::from_draws(1000, 0, 0, 0);
    b.decide(&snapshot(vec![contact(1, Some(7), 0, 0, 0)]), rolls(999_999, 1, 0));
    assert!(b.spawned_at_least_once());
    let (cmds, quit) = b.decide(&snapshot(vec![]), rolls(0, 0, 0));
    assert!(quit && cmds.is_empty());
    let (cmds, quit) = b.decide(&snapshot(vec![]), rolls(0, 1, 0));
    assert!(!quit);
    assert_eq!(cmds, vec![Command::Spawn { entity_type: 0 }]);
}

#[test]
fn rage_quit_about_one_in_three() {
    let mut b = Bot::from_draws(0, 0, 0, 0);
    b.update(&snapshot(vec![contact(1, Some(7), 0, 0, 0)]));
    let mut quits = 0;
    for _ in 0..3000 {
        let (cmds, quit) = b.update(&snapshot(vec![]));
        if quit {
            quits += 1;
            assert!(cmds.is_empty());
        }
    }
    assert!(quits > 800 && quits < 1200, "{}", quits);
}

#[test]
fn alone_in_open_water() {
    let mut b = Bot::from_draws(1000, 0, 0, 0);
    let mut s = snapshot(vec![contact(1, Some(7), 0, 0, 0)]);
    s.upgrade_options = vec![2];
    let (cmds, quit) = b.decide(&s, rolls(0, 0, 0));
    assert!(!quit);
    assert_eq!(cmds.len(), 1);
    match cmds[0] {
        Command::Control(c) => {
            assert_eq!(c.heading, Force { x: 0, y: 0 });
            assert_eq!(c.speed, 16);
            assert!(c.aim.is_none());
            assert!(c.active);
            assert_eq!(c.altitude_target, None);
        }
        _ => panic!("expected control"),
    }
}

#[test]
fn hostile_east_gets_torpedo() {
    let mut b = Bot::from_draws(1000, 2, -3, 0);
    let s = snapshot(vec![contact(1, Some(7), 0, 0, 0), contact(2, Some(8), 2, 100, 0)]);
    let (cmds, quit) = b.decide(&s, rolls(0, 0, 0));
    assert!(!quit);
    assert_eq!(cmds.len(), 2);
    assert_eq!(cmds[1], Command::Fire { index: 0, x: 102, y: -3 });
    match cmds[0] {
        Command::Control(c) => {
            assert_eq!(c.aim.map(|p| (p.x, p.y)), Some((102, -3)));
            assert!(c.heading.x < 0);
        }
        _ => panic!("expected control"),
    }
    let (cmds, _) = b.decide(&s, rolls(100_000, 0, 0));
    assert_eq!(cmds.len(), 1);
}

#[test]
fn wide_deviation_does_not_fire() {
    let mut b = Bot::from_draws(1000, 0, 0, 0);
    let mut s = snapshot(vec![contact(1, Some(7), 0, 0, 0), contact(2, Some(8), 2, 100, 0)]);
    s.aim_deviations = vec![10923];
    let (cmds, _) = b.decide(&s, rolls(0, 0, 0));
    assert_eq!(cmds.len(), 1);
    s.aim_deviations = vec![10922];
    let (cmds, _) = b.decide(&s, rolls(0, 0, 0));
    assert_eq!(cmds.len(), 2);
}

#[test]
fn upgrade_below_ambition_without_target() {
    let mut b = Bot::from_draws(1000, 0, 0, 4);
    let mut s = snapshot(vec![contact(1, Some(7), 0, 0, 0)]);
    s.upgrade_options = vec![2, 3];
    let (cmds, _) = b.decide(&s, rolls(0, 0, 3));
    assert_eq!(cmds.len(), 2);
    assert_eq!(cmds[1], Command::Upgrade { entity_type: 3 });
}

#[test]
fn damaged_submarine_dives() {
    let mut t = table();
    t[0].sub_kind = EntitySubKind::Submarine;
    let mut b = Bot::from_draws(1000, 0, 0, 0);
    let mut own = contact(1, Some(7), 0, 0, 0);
    own.damage = 95;
    let mut s = snapshot(vec![own]);
    s.table = t;
    let (cmds, _) = b.decide(&s, rolls(999_999, 0, 0));
    match cmds[0] {
        Command::Control(c) => {
            assert_eq!(c.altitude_target, Some(AltitudeTarget::Deepest));
            assert!(!c.active);
        }
        _ => panic!("expected control"),
    }
    s.contacts[0].damage = 10;
    let (cmds, _) = b.decide(&s, rolls(999_999, 0, 0));
    match cmds[0] {
        Command::Control(c) => assert_eq!(c.altitude_target, Some(AltitudeTarget::Surface)),
        _ => panic!("expected control"),
    }
}

#[test]
fn update_keeps_personality() {
    let mut b = Bot::from_draws(700, 1, 2, 3);
    let (cmds, quit) = b.update(&snapshot(vec![]));
    assert!(!quit);
    assert_eq!(cmds.len(), 1);
    assert!(matches!(cmds[0], Command::Spawn { .. }));
    assert_eq!(b.aggression(), 49000);
    assert_eq!(b.level_ambition(), 4);
    assert!(!b.spawned_at_least_once());
}
