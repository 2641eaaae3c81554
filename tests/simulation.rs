use invaders_sim::formation::{
    spawn_bounds, Formation, FormationMaker, Spin, FORMATION_STEP, RADIUS_X_MAX, RADIUS_X_MIN, RADIUS_Y_MAX,
    RADIUS_Y_MIN, SPAWN_MARGIN, TURN,
};
use invaders_sim::geometry::{beyond_margin, floor_sqrt, move_toward, overlaps, Extent, Pos, WinSize};
use invaders_sim::state::{EnemyCount, ExplosionTimer, PlayerState, ENEMY_MAX, EXPLOSION_INTERVAL};
use invaders_sim::world::{
    find_player_laser_hits, Entity, Kind, Motion, Owner, Velocity, World, ENEMY_H, ENEMY_LASER_H,
    ENEMY_LASER_W, ENEMY_W, PLAYER_LASER_H, PLAYER_LASER_W, SPRITE_SCALE,
};

fn win() -> WinSize {
    WinSize { w: 900_000, h: 480_000 }
}

fn laser(owner: Owner, x: i64, y: i64) -> Entity {
    let (w, h, vy) = match owner {
        Owner::FromPlayer => (PLAYER_LASER_W, PLAYER_LASER_H, 1),
        Owner::FromEnemy => (ENEMY_LASER_W, ENEMY_LASER_H, -1),
    };
    Entity {
        id: 0,
        kind: Kind::Laser(owner),
        pos: Pos { x, y },
        size: Extent { w, h },
        scale: SPRITE_SCALE,
        motion: Motion::Moving { velocity: Velocity { x: 0, y: vy }, auto_despawn: true },
    }
}

fn enemy(x: i64, y: i64) -> Entity {
    Entity {
        id: 0,
        kind: Kind::Enemy(Formation::new(Pos { x, y }, RADIUS_X_MIN, RADIUS_Y_MIN)),
        pos: Pos { x, y },
        size: Extent { w: ENEMY_W, h: ENEMY_H },
        scale: SPRITE_SCALE,
        motion: Motion::Still,
    }
}

/// Adds `e` under a fresh id, keeping the enemy count in step.
fn add(world: &mut World, mut e: Entity) {
    e.id = world.next_id;
    world.next_id += 1;
    if let Kind::Enemy(_) = e.kind {
        world.enemy_count.count += 1;
    }
    world.entities.push(e);
}

#[test]
fn overlap_is_symmetric() {
    let a = Pos { x: 0, y: 0 };
    let b = Pos { x: 5_000, y: -3_000 };
    let ea = Extent { w: 8_000, h: 4_000 };
    let eb = Extent { w: 4_000, h: 4_000 };
    assert!(overlaps(a, ea, b, eb));
    assert_eq!(overlaps(a, ea, b, eb), overlaps(b, eb, a, ea));
    let c = Pos { x: 50_000, y: 0 };
    assert!(!overlaps(a, ea, c, eb));
    assert_eq!(overlaps(a, ea, c, eb), overlaps(c, eb, a, ea));
}

#[test]
fn touching_boxes_do_not_overlap() {
    let e = Extent { w: 10_000, h: 10_000 };
    assert!(!overlaps(Pos { x: 0, y: 0 }, e, Pos { x: 10_000, y: 0 }, e));
    assert!(!overlaps(Pos { x: 0, y: 0 }, e, Pos { x: 0, y: -10_000 }, e));
    assert!(!overlaps(Pos { x: 0, y: 0 }, e, Pos { x: 10_001, y: 0 }, e));
    assert!(overlaps(Pos { x: 0, y: 0 }, e, Pos { x: 9_999, y: 9_999 }, e));
}

#[test]
fn despawn_margin_scenario() {
    let w = win();
    assert!(!beyond_margin(Pos { x: 0, y: 240_000 + 199_000 }, w));
    assert!(!beyond_margin(Pos { x: 0, y: 240_000 + 200_000 }, w));
    assert!(beyond_margin(Pos { x: 0, y: 240_000 + 201_000 }, w));
    assert!(beyond_margin(Pos { x: -650_001, y: 0 }, w));

    let mut world = World::new(w);
    let mut inside = laser(Owner::FromPlayer, 0, 240_000 + 199_000);
    inside.motion = Motion::Moving { velocity: Velocity { x: 0, y: 0 }, auto_despawn: true };
    let mut outside = laser(Owner::FromPlayer, 0, 240_000 + 201_000);
    outside.motion = Motion::Moving { velocity: Velocity { x: 0, y: 0 }, auto_despawn: true };
    add(&mut world, inside);
    add(&mut world, outside);
    world.movement();
    assert_eq!(world.entities.len(), 1);
    assert_eq!(world.entities[0].id, 0);
}

#[test]
fn despawned_laser_cannot_hit() {
    let mut world = World::new(win());
    add(&mut world, enemy(0, 440_000));
    // Past the margin after its step: removed before the hit pass.
    add(&mut world, laser(Owner::FromPlayer, 0, 440_000 - 5_000));
    world.movement();
    assert_eq!(world.entities.len(), 1);
    let hits = world.player_lasers_hit_enemies();
    assert!(hits.is_empty());
    assert_eq!(world.enemy_count.count, 1);
}

#[test]
fn movement_moves_by_velocity() {
    let mut world = World::new(win());
    add(&mut world, laser(Owner::FromPlayer, 1_000, 0));
    add(&mut world, laser(Owner::FromEnemy, 1_000, 0));
    add(&mut world, enemy(-200_000, 0));
    world.movement();
    assert_eq!(world.entities[0].pos, Pos { x: 1_000, y: 8_333 });
    assert_eq!(world.entities[1].pos, Pos { x: 1_000, y: -8_333 });
    assert_eq!(world.entities[2].pos, Pos { x: -200_000, y: 0 });
}

#[test]
fn player_respawn_scenario() {
    let state = PlayerState { on: false, last_shot: Some(10_000_000) };
    assert!(!state.may_respawn(11_900_000));
    assert!(!state.may_respawn(12_000_000));
    assert!(state.may_respawn(12_100_000));

    let mut world = World::new(win());
    world.player_state = state;
    assert!(!world.spawn_player(11_900_000));
    assert!(world.entities.is_empty());
    assert!(world.spawn_player(12_100_000));
    assert!(world.player_state.on);
    assert_eq!(world.player_state.last_shot, None);
    assert_eq!(world.entities.len(), 1);
    assert_eq!(world.entities[0].kind, Kind::Player);
    assert_eq!(world.entities[0].pos, Pos { x: 0, y: -240_000 + 18_750 + 5_000 });
    assert!(!world.spawn_player(20_000_000));
}

#[test]
fn player_state_transitions() {
    let mut s = PlayerState::default();
    assert_eq!(s, PlayerState { on: false, last_shot: None });
    assert!(s.may_respawn(0));
    s.spawned();
    assert_eq!(s, PlayerState { on: true, last_shot: None });
    assert!(!s.may_respawn(5));
    s.shot(3_000_000);
    assert_eq!(s, PlayerState { on: false, last_shot: Some(3_000_000) });
}

#[test]
fn explosion_timer_scenario() {
    let mut t = ExplosionTimer::new();
    for _ in 0..15 {
        assert!(!t.tick(EXPLOSION_INTERVAL));
    }
    assert_eq!(t.frame, 15);
    assert!(t.tick(EXPLOSION_INTERVAL));
    assert_eq!(t.frame, 16);
}

#[test]
fn explosion_timer_partial_ticks() {
    let mut t = ExplosionTimer::new();
    assert!(!t.tick(40_000));
    assert_eq!(t, ExplosionTimer { elapsed: 40_000, frame: 0 });
    assert!(!t.tick(40_000));
    assert_eq!(t, ExplosionTimer { elapsed: 17_500, frame: 1 });
    assert!(!t.tick(3 * EXPLOSION_INTERVAL));
    assert_eq!(t, ExplosionTimer { elapsed: 17_500, frame: 2 });
}

#[test]
fn explosion_entity_scenario() {
    let mut world = World::new(win());
    add(&mut world, enemy(0, 0));
    add(&mut world, laser(Owner::FromPlayer, 0, 0));
    let hits = world.player_lasers_hit_enemies();
    assert_eq!(hits, vec![(1, 0)]);
    world.realize_explosions();
    assert_eq!(world.entities.len(), 1);
    for _ in 0..15 {
        world.animate_explosions(EXPLOSION_INTERVAL);
    }
    assert_eq!(world.entities.len(), 1);
    match world.entities[0].kind {
        Kind::Explosion(t) => assert_eq!(t.frame, 15),
        _ => panic!("expected an explosion"),
    }
    world.animate_explosions(EXPLOSION_INTERVAL);
    assert!(world.entities.is_empty());
}

#[test]
fn enemy_count_bounds() {
    let mut c = EnemyCount::new();
    assert!(c.try_add());
    assert!(c.try_add());
    assert!(!c.try_add());
    assert_eq!(c.count, ENEMY_MAX);
    c.remove_one();
    assert_eq!(c.count, 1);
    assert!(c.has_room());
}

#[test]
fn enemy_spawn_stops_at_max() {
    let w = win();
    let mut world = World::new(w);
    assert!(world.spawn_enemy());
    assert!(world.spawn_enemy());
    assert!(!world.spawn_enemy());
    assert_eq!(world.enemy_count.count, 2);
    assert_eq!(world.entities.len(), 2);
    assert_eq!(world.formation_maker.made, 2);
    for e in &world.entities {
        match e.kind {
            Kind::Enemy(f) => {
                assert_eq!(e.pos, f.start);
                assert!(f.start.x.abs() < w.w / 2 - SPAWN_MARGIN + 1);
                assert!(f.start.y.abs() < w.h / 2 - SPAWN_MARGIN + 1);
                assert!(f.radius_x >= RADIUS_X_MIN && f.radius_x <= RADIUS_X_MAX);
                assert!(f.radius_y >= RADIUS_Y_MIN && f.radius_y <= RADIUS_Y_MAX);
                assert_eq!(f.pivot, Pos { x: f.start.x - f.radius_x, y: f.start.y });
            }
            _ => panic!("expected an enemy"),
        }
    }
}

#[test]
fn formation_maker_draws_varied_paths() {
    let mut maker = FormationMaker::new();
    let mut radii = Vec::new();
    for _ in 0..40 {
        let f = maker.make(win());
        assert!(f.start.x >= -350_000 && f.start.x < 350_000);
        assert!(f.start.y >= -140_000 && f.start.y < 140_000);
        radii.push(f.radius_x);
    }
    assert_eq!(maker.made, 40);
    assert!(radii.iter().any(|r| *r != RADIUS_X_MIN));
}

#[test]
fn formation_spin_and_pivot() {
    let left = Formation::new(Pos { x: -10_000, y: 5_000 }, 140_000, 80_000);
    assert_eq!(left.spin, Spin::Clockwise);
    assert_eq!(left.pivot, Pos { x: -150_000, y: 5_000 });
    assert_eq!(left.angle, 0);
    let right = Formation::new(Pos { x: 0, y: 0 }, 200_000, 100_000);
    assert_eq!(right.spin, Spin::CounterClockwise);
}

#[test]
fn formation_next_angle_wraps() {
    let left = Formation::new(Pos { x: -10_000, y: 5_000 }, 140_000, 80_000);
    assert_eq!(left.next_angle(), TURN - 66_311);
    let right = Formation::new(Pos { x: 10_000, y: 5_000 }, 140_000, 150_000);
    assert_eq!(right.next_angle(), 37_892);
}

#[test]
fn formation_follow_resyncs_when_close() {
    let mut f = Formation::new(Pos { x: 10_000, y: 0 }, 140_000, 150_000);
    let next = f.next_angle();
    let pos = f.follow(Pos { x: 10_000, y: 0 }, Pos { x: 10_000, y: 5_000 });
    assert_eq!(pos, Pos { x: 10_000, y: 5_000 });
    assert_eq!(f.angle, next);

    let mut far = Formation::new(Pos { x: 10_000, y: 0 }, 140_000, 150_000);
    let pos = far.follow(Pos { x: 10_000, y: 0 }, Pos { x: 10_000, y: 300_000 });
    assert_eq!(pos, Pos { x: 10_000, y: 0 + FORMATION_STEP });
    assert_eq!(far.angle, 0);
}

#[test]
fn move_toward_exact_values() {
    assert_eq!(move_toward(Pos { x: 0, y: 0 }, Pos { x: 3_000, y: 4_000 }, 1_000), Pos { x: 600, y: 800 });
    assert_eq!(move_toward(Pos { x: 0, y: 0 }, Pos { x: -3_000, y: -4_000 }, 1_000), Pos { x: -600, y: -800 });
    assert_eq!(move_toward(Pos { x: 0, y: 0 }, Pos { x: 100, y: 0 }, 1_000), Pos { x: 100, y: 0 });
    assert_eq!(move_toward(Pos { x: 7, y: 7 }, Pos { x: 7, y: 7 }, 1_000), Pos { x: 7, y: 7 });
}

#[test]
fn floor_sqrt_values() {
    assert_eq!(floor_sqrt(0), 0);
    assert_eq!(floor_sqrt(99), 9);
    assert_eq!(floor_sqrt(100), 10);
    assert_eq!(floor_sqrt(1_000_000_000_000), 1_000_000);
    assert_eq!(floor_sqrt(u64::MAX), 4_294_967_295);
}

#[test]
fn one_laser_resolves_once() {
    let mut world = World::new(win());
    add(&mut world, enemy(0, 0));
    add(&mut world, enemy(10_000, 0));
    add(&mut world, laser(Owner::FromPlayer, 5_000, 0));
    let hits = world.player_lasers_hit_enemies();
    assert_eq!(hits, vec![(2, 0)]);
    assert_eq!(world.enemy_count.count, 1);
    assert_eq!(world.entities.len(), 2);
    assert_eq!(world.entities[0].id, 1);
    assert_eq!(world.entities[1].kind, Kind::PendingExplosion);
    assert_eq!(world.entities[1].pos, Pos { x: 0, y: 0 });
    assert_eq!(world.entities[1].id, 3);
}

#[test]
fn two_lasers_one_enemy() {
    let mut world = World::new(win());
    add(&mut world, laser(Owner::FromPlayer, 0, 0));
    add(&mut world, enemy(0, 0));
    add(&mut world, laser(Owner::FromPlayer, 1_000, 0));
    let hits = world.player_lasers_hit_enemies();
    assert_eq!(hits, vec![(0, 1)]);
    assert_eq!(world.entities.len(), 2);
    assert_eq!(world.entities[0].id, 2);
    assert_eq!(world.enemy_count.count, 0);
}

#[test]
fn enemy_lasers_ignore_enemies() {
    let all = vec![enemy(0, 0), laser(Owner::FromEnemy, 0, 0)];
    let (hits, marks) = find_player_laser_hits(&all);
    assert!(hits.is_empty());
    assert_eq!(marks, vec![false, false]);
}

#[test]
fn enemy_laser_hits_player() {
    let mut world = World::new(win());
    assert!(world.spawn_player(0));
    let player_pos = world.entities[0].pos;
    add(&mut world, laser(Owner::FromEnemy, 100_000, player_pos.y));
    add(&mut world, laser(Owner::FromEnemy, player_pos.x, player_pos.y + 10_000));
    add(&mut world, laser(Owner::FromEnemy, player_pos.x, player_pos.y));
    assert_eq!(world.enemy_lasers_hit_player(7_000_000), Some((0, 2)));
    assert_eq!(world.player_state, PlayerState { on: false, last_shot: Some(7_000_000) });
    assert_eq!(world.entities.len(), 3);
    assert_eq!(world.entities[2].kind, Kind::PendingExplosion);
    assert_eq!(world.entities[2].pos, player_pos);
    assert_eq!(world.enemy_lasers_hit_player(7_100_000), None);
}

#[test]
fn no_player_no_hit() {
    let mut world = World::new(win());
    add(&mut world, laser(Owner::FromEnemy, 0, 0));
    assert_eq!(world.enemy_lasers_hit_player(1), None);
    assert_eq!(world.entities.len(), 1);
}

#[test]
fn steering_and_firing() {
    let mut world = World::new(win());
    assert_eq!(world.steer_player(true, false), None);
    assert!(!world.player_fire(true));
    assert!(world.spawn_player(0));
    assert_eq!(world.steer_player(true, false), Some(0));
    assert_eq!(
        world.entities[0].motion,
        Motion::Moving { velocity: Velocity { x: -1, y: 0 }, auto_despawn: false }
    );
    world.steer_player(false, true);
    assert_eq!(
        world.entities[0].motion,
        Motion::Moving { velocity: Velocity { x: 1, y: 0 }, auto_despawn: false }
    );
    world.steer_player(false, false);
    let p = world.entities[0].pos;
    assert!(!world.player_fire(false));
    assert!(world.player_fire(true));
    assert_eq!(world.entities.len(), 3);
    assert_eq!(world.entities[1].pos, Pos { x: p.x + 36_000, y: p.y + 15_000 });
    assert_eq!(world.entities[2].pos, Pos { x: p.x - 36_000, y: p.y + 15_000 });
    assert_eq!(world.entities[1].kind, Kind::Laser(Owner::FromPlayer));
}

#[test]
fn enemies_fire_downward() {
    let mut world = World::new(win());
    add(&mut world, enemy(0, 0));
    add(&mut world, enemy(-100_000, 50_000));
    let mut fired = 0;
    for _ in 0..600 {
        let before = world.entities.len();
        let shooters = world.enemy_fire();
        for (k, s) in shooters.iter().enumerate() {
            let l = world.entities[before + k];
            assert_eq!(l.kind, Kind::Laser(Owner::FromEnemy));
            let e = world.entities[*s].pos;
            assert_eq!(l.pos, Pos { x: e.x, y: e.y - 15_000 });
        }
        fired += shooters.len();
        world.entities.truncate(2);
    }
    assert!(fired > 0 && fired < 1200);
}

#[test]
fn enemy_follows_its_path() {
    let mut world = World::new(win());
    add(&mut world, enemy(10_000, 0));
    world.enemy_follow(0, Pos { x: 10_000, y: 4_000 });
    assert_eq!(world.entities[0].pos, Pos { x: 10_000, y: 4_000 });
    match world.entities[0].kind {
        Kind::Enemy(f) => assert_ne!(f.angle, 0),
        _ => panic!("expected an enemy"),
    }
}

#[test]
fn lookup_by_id() {
    let mut world = World::new(win());
    add(&mut world, enemy(0, 0));
    add(&mut world, laser(Owner::FromPlayer, 0, 0));
    add(&mut world, laser(Owner::FromEnemy, 300_000, 0));
    assert_eq!(world.index_of(2), Some(2));
    world.player_lasers_hit_enemies();
    assert_eq!(world.index_of(0), None);
    assert_eq!(world.index_of(1), None);
    assert_eq!(world.index_of(2), Some(0));
    assert_eq!(world.index_of(3), Some(1));
}

#[test]
fn resync_tests_distance_after_the_step() {
    // 210 units from the path point before the step, 201.667 after it.
    let mut f = Formation::new(Pos { x: 10_000, y: 0 }, 140_000, 150_000);
    let next = f.next_angle();
    let pos = f.follow(Pos { x: 0, y: 0 }, Pos { x: 210_000, y: 0 });
    assert_eq!(pos, Pos { x: 8_333, y: 0 });
    assert_eq!(f.angle, next);

    let mut g = Formation::new(Pos { x: 10_000, y: 0 }, 140_000, 150_000);
    g.follow(Pos { x: 0, y: 0 }, Pos { x: 217_000, y: 0 });
    assert_eq!(g.angle, 0);
}

#[test]
fn spawn_bounds_values() {
    assert_eq!(spawn_bounds(win()), (350_000, 140_000));
    assert_eq!(spawn_bounds(WinSize { w: 201_000, h: 0 }), (500, -100_000));
}

#[test]
fn fire_with_fires_exactly_the_chosen_enemies() {
    let mut world = World::new(win());
    add(&mut world, enemy(0, 0));
    add(&mut world, laser(Owner::FromPlayer, 0, 300_000));
    add(&mut world, enemy(-100_000, 50_000));
    add(&mut world, enemy(100_000, 50_000));
    world.enemy_count.count = 2;
    world.entities.remove(3);
    world.next_id = 3;
    let shooters = world.fire_with(&vec![true, true, true]);
    assert_eq!(shooters, vec![0, 2]);
    assert_eq!(world.entities.len(), 5);
    assert_eq!(world.entities[3].pos, Pos { x: 0, y: -15_000 });
    assert_eq!(world.entities[3].id, 3);
    assert_eq!(world.entities[4].pos, Pos { x: -100_000, y: 35_000 });
    assert_eq!(world.entities[4].kind, Kind::Laser(Owner::FromEnemy));
    let shooters = world.fire_with(&vec![false, false, true, false, false]);
    assert_eq!(shooters, vec![2]);
    let shooters = world.fire_with(&vec![false; 6]);
    assert!(shooters.is_empty());
    assert_eq!(world.entities.len(), 6);
}

#[test]
fn small_playfield_still_runs() {
    let mut world = World::new(WinSize { w: 100_000, h: 100_000 });
    assert!(world.spawn_player(0));
    world.movement();
    assert_eq!(world.entities.len(), 1);
}
