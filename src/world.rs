//! The whole simulation and its per-frame step: read input, move the player
//! and the crosshair, fire, spawn enemies, integrate the bullets, reap them,
//! and remove the enemies that they hit.
use vstd::prelude::*;
use crate::geom::{Point, POS_SCALE, WIDTH, HEIGHT};
use crate::player::{
    Player, Crosshair, Bullet, MoveKeys, FireType, bullets_wf, walked, pointed, fire_outcome,
    offsets_ok, flown_all, initial_player, aged_all, alive, in_bounds, spawn_player, spawn_crosshair,
    player_move, crosshair_move, player_fire, move_entities, lifetime_despawn, bounds_despawn,
};
use crate::enemies::{Enemy, enemies_wf, is_hit, spawn_enemies, despawn_enemy};
use crate::rng::{random_field_point, random_spread_offsets};

verus! {

/// What the input source reports for one frame.
#[derive(Clone, Copy, Debug, PartialEq, Eq, Structural)]
pub struct FrameInput {
    pub keys: MoveKeys,
    /// The fire button is held.
    pub fire: bool,
    /// The enemy spawn key is held.
    pub spawn_enemy: bool,
    /// The last pointer position of the frame, in screen coordinates, if the
    /// pointer moved.
    pub pointer: Option<Point>,
}

/// The simulation: one player, one crosshair, the bullets in flight and the
/// enemies, with the reaping rules in force.
pub struct World {
    pub player: Player,
    pub crosshair: Crosshair,
    pub bullets: Vec<Bullet>,
    pub enemies: Vec<Enemy>,
    /// Bullets are removed when their lifetime runs out.
    pub reap_by_lifetime: bool,
    /// Bullets are removed when they leave the bounds region.
    pub reap_by_bounds: bool,
}

/// A `World` with its lists seen as sequences.
pub ghost struct WorldView {
    pub player: Player,
    pub crosshair: Crosshair,
    pub bullets: Seq<Bullet>,
    pub enemies: Seq<Enemy>,
    pub reap_by_lifetime: bool,
    pub reap_by_bounds: bool,
}

impl View for World {
    type V = WorldView;

    open spec fn view(&self) -> WorldView {
        WorldView {
            player: self.player,
            crosshair: self.crosshair,
            bullets: self.bullets@,
            enemies: self.enemies@,
            reap_by_lifetime: self.reap_by_lifetime,
            reap_by_bounds: self.reap_by_bounds,
        }
    }
}

impl WorldView {
    pub open spec fn wf(self) -> bool {
        &&& self.player.wf()
        &&& self.crosshair.wf()
        &&& bullets_wf(self.bullets)
        &&& enemies_wf(self.enemies)
    }

    /// The bullets after the reapers in force have run, `dt` microseconds
    /// into their flight.
    pub open spec fn reaped(self, bs: Seq<Bullet>, dt: int) -> Seq<Bullet> {
        let by_time = if self.reap_by_lifetime {
            aged_all(bs, dt).filter(|b: Bullet| alive(b))
        } else {
            bs
        };
        if self.reap_by_bounds {
            by_time.filter(|b: Bullet| in_bounds(b))
        } else {
            by_time
        }
    }

    /// The world after one frame of `dt` microseconds with `input`, where a
    /// spread shot scatters by `offsets` and an enemy spawned in this frame
    /// appears at `spawn_at`.
    pub open spec fn stepped(self, input: FrameInput, dt: int, offsets: Seq<Point>, spawn_at: Point) -> WorldView {
        let player = walked(self.player, input.keys, dt);
        let crosshair = pointed(self.crosshair, input.pointer);
        let (player, shot) = fire_outcome(player, crosshair.pos, input.fire, dt, offsets);
        let enemies = if input.spawn_enemy {
            self.enemies.push(Enemy { pos: spawn_at })
        } else {
            self.enemies
        };
        let bullets = self.reaped(flown_all(self.bullets + shot, dt), dt);
        WorldView {
            player,
            crosshair,
            bullets,
            enemies: enemies.filter(|e: Enemy| !is_hit(e, bullets)),
            ..self
        }
    }
}

impl World {
    /// A world as it starts: the player and the crosshair at the origin, no
    /// bullets and no enemies.
    pub fn new(reap_by_lifetime: bool, reap_by_bounds: bool) -> (w: World)
        ensures
            w@.wf(),
            w.player == initial_player(),
            w.crosshair.pos == (Point { x: 0, y: 0 }),
            w@.bullets.len() == 0,
            w@.enemies.len() == 0,
            w.reap_by_lifetime == reap_by_lifetime,
            w.reap_by_bounds == reap_by_bounds,
    {
        World {
            player: spawn_player(),
            crosshair: spawn_crosshair(),
            bullets: Vec::new(),
            enemies: Vec::new(),
            reap_by_lifetime,
            reap_by_bounds,
        }
    }

    /// Runs one frame of `dt` microseconds (see `WorldView::stepped`).
    pub fn step_with(&mut self, input: FrameInput, dt: u64, offsets: &Vec<Point>, spawn_at: Point)
        requires
            old(self)@.wf(),
            old(self).player.weapon.fire_type == FireType::Shotgun ==> offsets_ok(offsets@),
            spawn_at.in_range(),
        ensures
            final(self)@ == old(self)@.stepped(input, dt as int, offsets@, spawn_at),
            final(self)@.wf(),
    {
        player_move(&mut self.player, input.keys, dt);
        crosshair_move(&mut self.crosshair, input.pointer);
        let mut shot = player_fire(&mut self.player, &self.crosshair, input.fire, dt, offsets);
        spawn_enemies(&mut self.enemies, input.spawn_enemy, spawn_at);
        let ghost before = self.bullets@;
        let ghost fired = shot@;
        let ghost all = before + fired;
        self.bullets.append(&mut shot);
        assert(bullets_wf(self.bullets@)) by {
            assert(self.bullets@ == all);
            assert forall|i: int| 0 <= i < all.len() implies #[trigger] all[i].wf() by {
                if i >= before.len() {
                    assert(all[i] == fired[i - before.len()]);
                } else {
                    assert(all[i] == before[i]);
                }
            }
        }
        move_entities(&mut self.bullets, dt);
        if self.reap_by_lifetime {
            lifetime_despawn(&mut self.bullets, dt);
        }
        if self.reap_by_bounds {
            bounds_despawn(&mut self.bullets);
        }
        assert(enemies_wf(self.enemies@)) by {
            if input.spawn_enemy {
                assert forall|i: int| 0 <= i < self.enemies@.len() implies #[trigger] self.enemies@[i].wf() by {
                    if i < old(self).enemies@.len() {
                        assert(old(self).enemies@[i].wf());
                    }
                }
            }
        }
        despawn_enemy(&mut self.enemies, &self.bullets);
    }

    /// Runs one frame of `dt` microseconds, drawing at random how a spread
    /// shot scatters (each aim offset within `SPREAD_RADIUS` on each axis)
    /// and where an enemy spawned in this frame appears (a point of the
    /// play-field, its right and top edges left out).
    pub fn step(&mut self, input: FrameInput, dt: u64)
        requires
            old(self)@.wf(),
        ensures
            final(self)@.wf(),
            exists|offsets: Seq<Point>, spawn_at: Point|
                #![trigger old(self)@.stepped(input, dt as int, offsets, spawn_at)]
                offsets_ok(offsets)
                && -WIDTH * POS_SCALE / 2 <= spawn_at.x < WIDTH * POS_SCALE / 2
                && -HEIGHT * POS_SCALE / 2 <= spawn_at.y < HEIGHT * POS_SCALE / 2
                && final(self)@ == old(self)@.stepped(input, dt as int, offsets, spawn_at),
    {
        let offsets = random_spread_offsets();
        let spawn_at = random_field_point();
        self.step_with(input, dt, &offsets, spawn_at);
    }
}

} // verus!
