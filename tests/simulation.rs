use shooter::enemies::{collide, despawn_enemy, spawn_enemies, Enemy, BULLET_SIZE, ENEMY_SIZE};
use shooter::geom::{aim, integrate, isqrt, Point, COORD_LIMIT, DIR_SCALE, HEIGHT, POS_SCALE, WIDTH};
use shooter::player::{
    bounds_despawn, crosshair_move, lifetime_despawn, move_entities, player_fire, player_move,
    spawn_crosshair, spawn_player, Bullet, Crosshair, FireType, MoveKeys, BULLET_LIFETIME_US,
    BULLET_SPEED, FIRE_INTERVAL_US, PLAYER_SPEED, SPREAD_COUNT, SPREAD_RADIUS,
};
use shooter::rng::{random_field_point, random_spread_offsets};
use shooter::timer::Timer;
use shooter::world::{FrameInput, World};

fn p(x: i64, y: i64) -> Point {
    Point::new(x, y)
}

fn no_keys() -> MoveKeys {
    MoveKeys { up: false, down: false, left: false, right: false }
}

fn bullet_at(pos: Point) -> Bullet {
    Bullet { pos, dir: p(0, DIR_SCALE), speed: BULLET_SPEED, lifetime: Timer::new(BULLET_LIFETIME_US, false) }
}

fn zero_offsets() -> Vec<Point> {
    vec![p(0, 0); SPREAD_COUNT]
}

#[test]
fn integration_step_is_exact() {
    let r = integrate(p(1_000_000_000, -2_000_000_000), p(600, 800), 256, 16_667);
    assert_eq!(r, p(3_560_051_200, 1_413_401_600));
}

#[test]
fn integration_with_zero_time_stays() {
    let r = integrate(p(5, -7), p(-1000, 0), 256, 0);
    assert_eq!(r, p(5, -7));
}

#[test]
fn integration_saturates_at_world_edge() {
    let r = integrate(p(COORD_LIMIT - 10, 0), p(1000, 0), u64::MAX, u64::MAX);
    assert_eq!(r, p(COORD_LIMIT, 0));
    let r = integrate(p(0, 0), p(-1000, 0), u64::MAX, u64::MAX);
    assert_eq!(r, p(-COORD_LIMIT, 0));
}

#[test]
fn player_walks_speed_times_dt() {
    let mut pl = spawn_player();
    assert_eq!(pl.speed, PLAYER_SPEED);
    player_move(&mut pl, MoveKeys { up: true, down: false, left: false, right: false }, 1_000_000);
    assert_eq!(pl.pos, p(0, 128 * POS_SCALE));
    player_move(&mut pl, MoveKeys { up: false, down: false, left: true, right: false }, 500_000);
    assert_eq!(pl.pos, p(-64 * POS_SCALE, 128 * POS_SCALE));
}

#[test]
fn opposite_keys_cancel() {
    let mut pl = spawn_player();
    pl.pos = p(3, 4);
    player_move(&mut pl, MoveKeys { up: true, down: true, left: false, right: false }, 250_000);
    assert_eq!(pl.pos, p(3, 4));
    player_move(&mut pl, MoveKeys { up: true, down: true, left: true, right: true }, 250_000);
    assert_eq!(pl.pos, p(3, 4));
}

#[test]
fn diagonal_is_not_normalized() {
    let mut pl = spawn_player();
    player_move(&mut pl, MoveKeys { up: true, down: false, left: false, right: true }, 1_000_000);
    assert_eq!(pl.pos, p(128 * POS_SCALE, 128 * POS_SCALE));
}

#[test]
fn crosshair_follows_pointer_from_center() {
    let mut c = spawn_crosshair();
    crosshair_move(&mut c, Some(p(500 * POS_SCALE, 100 * POS_SCALE)));
    assert_eq!(c.pos, p(100 * POS_SCALE, -200 * POS_SCALE));
    crosshair_move(&mut c, Some(p(0, 0)));
    assert_eq!(c.pos, p(-WIDTH * POS_SCALE / 2, -HEIGHT * POS_SCALE / 2));
}

#[test]
fn crosshair_holds_without_pointer_event() {
    let mut c = Crosshair { pos: p(12, 34) };
    crosshair_move(&mut c, None);
    assert_eq!(c.pos, p(12, 34));
}

#[test]
fn square_roots() {
    assert_eq!(isqrt(0), 0);
    assert_eq!(isqrt(1), 1);
    assert_eq!(isqrt(15), 3);
    assert_eq!(isqrt(16), 4);
    assert_eq!(isqrt(u128::MAX), u64::MAX);
}

#[test]
fn aim_gives_unit_direction() {
    assert_eq!(aim(p(0, 0), p(3 * POS_SCALE, 4 * POS_SCALE)), p(600, 800));
    assert_eq!(aim(p(1, 1), p(1, -9)), p(0, -1000));
    assert_eq!(aim(p(10, 10), p(7, 6)), p(-600, -800));
}

#[test]
fn aim_at_short_vectors_is_unit() {
    assert_eq!(aim(p(0, 0), p(1, 1)), p(707, 707));
    assert_eq!(aim(p(0, 0), p(1, 2)), p(447, 894));
    assert_eq!(aim(p(5, 0), p(0, 3)), p(-857, 514));
    assert_eq!(aim(p(-2, 7), p(0, 0)), p(274, -961));
}

fn unit_length(d: Point) -> bool {
    let l2 = d.x * d.x + d.y * d.y;
    (DIR_SCALE - 2) * (DIR_SCALE - 2) <= l2 && l2 <= DIR_SCALE * DIR_SCALE
}

#[test]
fn aim_always_has_unit_length() {
    let targets = [
        p(1, 0),
        p(0, -1),
        p(3, 3),
        p(-1_000_000, 999_999),
        p(4_194_303, 1),
        p(4_194_304, 1),
        p(123_456_789_012, -98_765_432_109),
        p(COORD_LIMIT, -COORD_LIMIT),
    ];
    for t in targets.iter() {
        assert!(unit_length(aim(p(0, 0), *t)));
        assert!(unit_length(aim(*t, p(0, 0))));
    }
    for _ in 0..200 {
        let a = random_field_point();
        let b = random_field_point();
        assert!(unit_length(aim(a, p(a.x + (b.x % 50), a.y + (b.y % 50)))));
        assert!(unit_length(aim(a, b)));
    }
}

#[test]
fn fire_at_nearby_crosshair_gives_unit_directions() {
    let mut pl = spawn_player();
    let c = Crosshair { pos: p(1, 1) };
    let shot = player_fire(&mut pl, &c, true, FIRE_INTERVAL_US, &zero_offsets());
    assert_eq!(shot.len(), SPREAD_COUNT);
    for b in shot.iter() {
        assert_eq!(b.dir, p(707, 707));
    }
    let mut pl = spawn_player();
    pl.weapon.fire_type = FireType::Normal;
    let shot = player_fire(&mut pl, &c, true, FIRE_INTERVAL_US, &Vec::new());
    assert_eq!(shot[0].dir, p(707, 707));
}

#[test]
fn long_frames_fire_at_most_once_each() {
    let mut pl = spawn_player();
    let c = Crosshair { pos: p(0, 100 * POS_SCALE) };
    let mut volleys = 0;
    for _ in 0..4 {
        let shot = player_fire(&mut pl, &c, true, 350_000, &zero_offsets());
        assert!(shot.len() == 0 || shot.len() == SPREAD_COUNT);
        if !shot.is_empty() {
            volleys += 1;
        }
    }
    // 1.4 s would allow 14 volleys; each frame gives at most one.
    assert_eq!(volleys, 4);
    assert_eq!(pl.weapon.fire_timer.elapsed, 0);
}

#[test]
fn aim_at_own_position_points_up() {
    assert_eq!(aim(p(42, -42), p(42, -42)), p(0, DIR_SCALE));
}

#[test]
fn repeating_timer_wraps() {
    let mut t = Timer::new(FIRE_INTERVAL_US, true);
    t.tick(60_000);
    assert!(!t.finished());
    assert!(!t.just_finished());
    t.tick(60_000);
    assert!(t.finished());
    assert_eq!(t.elapsed, 20_000);
    assert_eq!(t.times_finished, 1);
    t.tick(250_000);
    assert_eq!(t.times_finished, 2);
    assert_eq!(t.elapsed, 70_000);
    t.tick(1);
    assert!(!t.finished());
}

#[test]
fn one_shot_timer_stays_finished() {
    let mut t = Timer::new(3_000_000, false);
    t.tick(3_500_000);
    assert!(t.finished());
    assert!(t.just_finished());
    assert_eq!(t.elapsed, 3_000_000);
    t.tick(10);
    assert!(t.finished());
    assert!(!t.just_finished());
}

#[test]
fn fire_rate_matches_cooldown() {
    let mut pl = spawn_player();
    let c = Crosshair { pos: p(0, 100 * POS_SCALE) };
    let offsets = zero_offsets();
    let mut volleys = 0;
    let mut bullets = 0;
    let mut last_fire_frame: Option<u32> = None;
    for frame in 0..60u32 {
        let shot = player_fire(&mut pl, &c, true, 16_667, &offsets);
        if !shot.is_empty() {
            volleys += 1;
            if let Some(prev) = last_fire_frame {
                assert!(frame - prev >= 5);
            }
            last_fire_frame = Some(frame);
        }
        bullets += shot.len();
    }
    // 60 frames of 16 667 us are 1 000 020 us: ten full cooldowns.
    assert_eq!(volleys, 10);
    assert_eq!(bullets, 50);
}

#[test]
fn no_fire_without_button() {
    let mut pl = spawn_player();
    let before = pl;
    let c = Crosshair { pos: p(0, 100) };
    let shot = player_fire(&mut pl, &c, false, 1_000_000, &zero_offsets());
    assert!(shot.is_empty());
    assert_eq!(pl, before);
}

#[test]
fn normal_fire_shoots_one_bullet_at_crosshair() {
    let mut pl = spawn_player();
    pl.weapon.fire_type = FireType::Normal;
    pl.pos = p(POS_SCALE, POS_SCALE);
    let c = Crosshair { pos: p(4 * POS_SCALE, 5 * POS_SCALE) };
    let shot = player_fire(&mut pl, &c, true, FIRE_INTERVAL_US, &Vec::new());
    assert_eq!(shot.len(), 1);
    assert_eq!(shot[0].pos, p(POS_SCALE, POS_SCALE));
    assert_eq!(shot[0].dir, p(600, 800));
    assert_eq!(shot[0].speed, BULLET_SPEED);
    assert_eq!(shot[0].lifetime, Timer::new(BULLET_LIFETIME_US, false));
}

#[test]
fn spread_fires_five_bullets_from_player() {
    let mut pl = spawn_player();
    pl.pos = p(7, -3);
    let c = Crosshair { pos: p(0, 100 * POS_SCALE) };
    let offsets = vec![
        p(-SPREAD_RADIUS, 0),
        p(SPREAD_RADIUS, 0),
        p(-10 * POS_SCALE, SPREAD_RADIUS),
        p(10 * POS_SCALE, -SPREAD_RADIUS),
        p(0, 0),
    ];
    let shot = player_fire(&mut pl, &c, true, FIRE_INTERVAL_US, &offsets);
    assert_eq!(shot.len(), 5);
    for b in shot.iter() {
        assert_eq!(b.pos, p(7, -3));
    }
    for i in 0..5 {
        for j in (i + 1)..5 {
            assert_ne!(shot[i].dir, shot[j].dir);
        }
    }
    assert!(shot[0].dir.x < 0);
    assert!(shot[1].dir.x > 0);
}

#[test]
fn random_spread_offsets_stay_within_radius() {
    for _ in 0..50 {
        let offsets = random_spread_offsets();
        assert_eq!(offsets.len(), SPREAD_COUNT);
        for o in offsets.iter() {
            assert!(-SPREAD_RADIUS <= o.x && o.x <= SPREAD_RADIUS);
            assert!(-SPREAD_RADIUS <= o.y && o.y <= SPREAD_RADIUS);
        }
    }
}

#[test]
fn random_points_vary_within_field() {
    let mut seen_other = false;
    for _ in 0..100 {
        let q = random_field_point();
        assert!(-WIDTH * POS_SCALE / 2 <= q.x && q.x < WIDTH * POS_SCALE / 2);
        assert!(-HEIGHT * POS_SCALE / 2 <= q.y && q.y < HEIGHT * POS_SCALE / 2);
        if q.x != -WIDTH * POS_SCALE / 2 || q.y != -HEIGHT * POS_SCALE / 2 {
            seen_other = true;
        }
    }
    assert!(seen_other);
}

#[test]
fn bullets_move_along_direction() {
    let mut bs = vec![bullet_at(p(0, 0)), Bullet { dir: p(-1000, 0), ..bullet_at(p(5, 5)) }];
    move_entities(&mut bs, 1_000_000);
    assert_eq!(bs[0].pos, p(0, 256 * POS_SCALE));
    assert_eq!(bs[1].pos, p(5 - 256 * POS_SCALE, 5));
}

#[test]
fn bullet_lifetime_expires_after_three_seconds() {
    let mut bs = vec![bullet_at(p(0, 0))];
    lifetime_despawn(&mut bs, 2_999_000);
    assert_eq!(bs.len(), 1);
    lifetime_despawn(&mut bs, 2_000);
    assert_eq!(bs.len(), 0);
}

#[test]
fn lifetime_reaper_keeps_order() {
    let young = bullet_at(p(1, 1));
    let mut old = bullet_at(p(2, 2));
    old.lifetime.tick(2_900_000);
    let mut bs = vec![young, old, young];
    lifetime_despawn(&mut bs, 200_000);
    assert_eq!(bs.len(), 2);
    assert_eq!(bs[0].pos, p(1, 1));
    assert_eq!(bs[1].pos, p(1, 1));
    assert_eq!(bs[0].lifetime.elapsed, 200_000);
}

#[test]
fn bounds_reaper_removes_bullet_past_width() {
    let mut bs = vec![
        bullet_at(p((WIDTH + 1) * POS_SCALE, 0)),
        bullet_at(p(WIDTH * POS_SCALE, 0)),
        bullet_at(p(0, -(HEIGHT + 1) * POS_SCALE)),
        bullet_at(p(-WIDTH * POS_SCALE, HEIGHT * POS_SCALE)),
    ];
    bounds_despawn(&mut bs);
    assert_eq!(bs.len(), 2);
    assert_eq!(bs[0].pos, p(WIDTH * POS_SCALE, 0));
    assert_eq!(bs[1].pos, p(-WIDTH * POS_SCALE, HEIGHT * POS_SCALE));
}

#[test]
fn bounds_reaper_ignores_remaining_lifetime() {
    let fresh = bullet_at(p(0, (HEIGHT + 1) * POS_SCALE));
    let mut bs = vec![fresh];
    bounds_despawn(&mut bs);
    assert!(bs.is_empty());
}

#[test]
fn aabb_overlap_is_strict() {
    let e = p(ENEMY_SIZE, ENEMY_SIZE);
    let b = p(BULLET_SIZE, BULLET_SIZE);
    assert!(collide(p(0, 0), e, p(0, 0), b));
    assert!(collide(p(0, 0), e, p(9 * POS_SCALE - 1, 0), b));
    assert!(!collide(p(0, 0), e, p(9 * POS_SCALE, 0), b));
    assert!(!collide(p(0, 0), e, p(0, -9 * POS_SCALE), b));
    assert!(collide(p(0, 0), e, p(-8 * POS_SCALE, 8 * POS_SCALE), b));
}

#[test]
fn bullet_on_enemy_removes_it() {
    let at = p(123 * POS_SCALE, -45 * POS_SCALE);
    let mut es = vec![Enemy { pos: p(0, 0) }, Enemy { pos: at }, Enemy { pos: p(50 * POS_SCALE, 0) }];
    let bs = vec![bullet_at(at)];
    despawn_enemy(&mut es, &bs);
    assert_eq!(es, vec![Enemy { pos: p(0, 0) }, Enemy { pos: p(50 * POS_SCALE, 0) }]);
    // The bullet is not consumed.
    assert_eq!(bs.len(), 1);
}

#[test]
fn no_bullets_no_hits() {
    let mut es = vec![Enemy { pos: p(0, 0) }];
    despawn_enemy(&mut es, &Vec::new());
    assert_eq!(es.len(), 1);
}

#[test]
fn spawn_key_adds_enemy() {
    let mut es = Vec::new();
    spawn_enemies(&mut es, false, p(1, 2));
    assert!(es.is_empty());
    spawn_enemies(&mut es, true, p(1, 2));
    assert_eq!(es, vec![Enemy { pos: p(1, 2) }]);
}

fn idle() -> FrameInput {
    FrameInput { keys: no_keys(), fire: false, spawn_enemy: false, pointer: None }
}

#[test]
fn world_starts_with_player_and_crosshair_only() {
    let w = World::new(true, false);
    assert_eq!(w.player, spawn_player());
    assert_eq!(w.crosshair, spawn_crosshair());
    assert!(w.bullets.is_empty());
    assert!(w.enemies.is_empty());
}

#[test]
fn world_frame_fires_moves_and_hits() {
    let mut w = World::new(true, true);
    w.player.weapon.fire_type = FireType::Normal;
    // An enemy straight above, and the pointer aimed at it.
    let spawn = p(0, 20 * POS_SCALE);
    let input = FrameInput {
        keys: no_keys(),
        fire: false,
        spawn_enemy: true,
        pointer: Some(p(400 * POS_SCALE, 400 * POS_SCALE)),
    };
    w.step_with(input, 10_000, &zero_offsets(), spawn);
    assert_eq!(w.enemies.len(), 1);
    assert_eq!(w.crosshair.pos, p(0, 100 * POS_SCALE));
    let fire = FrameInput { fire: true, ..idle() };
    w.step_with(fire, FIRE_INTERVAL_US, &zero_offsets(), spawn);
    // Fired from the origin and moved 25.6 units up: the enemy spans 12..28.
    assert_eq!(w.bullets.len(), 1);
    assert_eq!(w.bullets[0].pos, p(0, 25_600_000_000));
    assert!(w.enemies.is_empty());
}

#[test]
fn world_frame_moves_player_before_firing() {
    let mut w = World::new(true, false);
    let input = FrameInput {
        keys: MoveKeys { up: false, down: false, left: false, right: true },
        fire: true,
        spawn_enemy: false,
        pointer: Some(p(400 * POS_SCALE, 300 * POS_SCALE)),
    };
    w.step_with(input, FIRE_INTERVAL_US, &zero_offsets(), p(0, 0));
    assert_eq!(w.player.pos, p(12_800_000_000, 0));
    assert_eq!(w.bullets.len(), SPREAD_COUNT);
    for b in w.bullets.iter() {
        // Aimed back at the crosshair at the origin, then flown 25.6 units.
        assert_eq!(b.dir, p(-1000, 0));
        assert_eq!(b.pos, p(12_800_000_000 - 25_600_000_000, 0));
    }
}

#[test]
fn world_random_step_spawns_in_field() {
    let mut w = World::new(true, false);
    let input = FrameInput { spawn_enemy: true, fire: true, ..idle() };
    w.step(input, FIRE_INTERVAL_US);
    assert_eq!(w.enemies.len(), 1);
    let e = w.enemies[0].pos;
    assert!(-WIDTH * POS_SCALE / 2 <= e.x && e.x < WIDTH * POS_SCALE / 2);
    assert!(-HEIGHT * POS_SCALE / 2 <= e.y && e.y < HEIGHT * POS_SCALE / 2);
    assert_eq!(w.bullets.len(), SPREAD_COUNT);
}

#[test]
fn world_lifetime_reaping_can_be_off() {
    let mut w = World::new(false, false);
    w.bullets.push(bullet_at(p(0, 0)));
    w.step_with(idle(), 4_000_000, &zero_offsets(), p(0, 0));
    assert_eq!(w.bullets.len(), 1);
    let mut w = World::new(true, false);
    w.bullets.push(bullet_at(p(0, 0)));
    w.step_with(idle(), 4_000_000, &zero_offsets(), p(0, 0));
    assert!(w.bullets.is_empty());
}
