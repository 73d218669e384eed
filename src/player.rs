//! The player, the crosshair and the bullets: movement, aiming, the fire gate
//! and the bullet reapers.
use vstd::prelude::*;
use crate::geom::{
    Point, DIR_SCALE, POS_SCALE, WIDTH, HEIGHT, COORD_LIMIT, coord_ok, clamp_coord, lemma_integration_exact, advanced, integrated,
    is_direction, is_unit, direction_toward, aim, advance_coord, integrate, lemma_direction_of_is_unit,
};
use crate::timer::{Timer, total, tick_all, finishing_ticks, lemma_fire_rate, lemma_fire_rate_bound};

verus! {

/// The player's speed, in world units per second.
pub const PLAYER_SPEED: u64 = 128;

/// A bullet's speed, in world units per second.
pub const BULLET_SPEED: u64 = 256;

/// Time between two shots while fire is held, in microseconds.
pub const FIRE_INTERVAL_US: u64 = 100_000;

/// How long a bullet lives, in microseconds.
pub const BULLET_LIFETIME_US: u64 = 3_000_000;

/// Bullets in one spread shot.
pub const SPREAD_COUNT: usize = 5;

/// Largest offset of a spread bullet's aim point from the crosshair, on each
/// axis, in position units.
pub const SPREAD_RADIUS: i64 = 20 * POS_SCALE;

/// How a weapon discharges.
#[derive(Clone, Copy, Debug, PartialEq, Eq, Structural)]
pub enum FireType {
    /// One bullet toward the crosshair.
    Normal,
    /// `SPREAD_COUNT` bullets toward points scattered around the crosshair.
    Shotgun,
}

/// A weapon: its cooldown timer and its fire pattern.
#[derive(Clone, Copy, Debug, PartialEq, Eq, Structural)]
pub struct Weapon {
    pub fire_timer: Timer,
    pub fire_type: FireType,
}

/// The player: where it stands, how fast it walks, and its weapon.
#[derive(Clone, Copy, Debug, PartialEq, Eq, Structural)]
pub struct Player {
    pub pos: Point,
    pub speed: u64,
    pub weapon: Weapon,
}

/// The crosshair, which follows the pointer.
#[derive(Clone, Copy, Debug, PartialEq, Eq, Structural)]
pub struct Crosshair {
    pub pos: Point,
}

/// A bullet in flight.
#[derive(Clone, Copy, Debug, PartialEq, Eq, Structural)]
pub struct Bullet {
    pub pos: Point,
    pub dir: Point,
    pub speed: u64,
    pub lifetime: Timer,
}

/// The direction keys held during a frame.
#[derive(Clone, Copy, Debug, PartialEq, Eq, Structural)]
pub struct MoveKeys {
    pub up: bool,
    pub down: bool,
    pub left: bool,
    pub right: bool,
}

impl Player {
    pub open spec fn wf(self) -> bool {
        &&& self.pos.in_range()
        &&& self.weapon.fire_timer.wf()
        &&& self.weapon.fire_timer.repeating
    }
}

impl Crosshair {
    pub open spec fn wf(self) -> bool {
        self.pos.in_range()
    }
}

impl Bullet {
    pub open spec fn wf(self) -> bool {
        &&& self.pos.in_range()
        &&& is_direction(self.dir)
        &&& is_unit(self.dir)
        &&& self.lifetime.wf()
        &&& !self.lifetime.repeating
    }

    /// The bullet after `dt` microseconds of flight.
    pub open spec fn flown(self, dt: int) -> Bullet {
        Bullet { pos: integrated(self.pos, self.dir, self.speed as int, dt), ..self }
    }

    /// The bullet with its lifetime advanced by `dt` microseconds.
    pub open spec fn aged(self, dt: int) -> Bullet {
        Bullet { lifetime: self.lifetime.ticked(dt), ..self }
    }
}

/// Every bullet of `bs` is well formed.
pub open spec fn bullets_wf(bs: Seq<Bullet>) -> bool {
    forall|i: int| 0 <= i < bs.len() ==> #[trigger] bs[i].wf()
}

/// -1, 0 or 1: the net pull of two opposite keys.
pub open spec fn key_axis(plus: bool, minus: bool) -> int {
    (if plus { 1int } else { 0int }) - (if minus { 1int } else { 0int })
}

/// The player after walking for `dt` microseconds with `keys` held: each key
/// moves it `speed * dt` along its axis, independently of the others, so a
/// diagonal is faster than an axis and opposite keys cancel.
pub open spec fn walked(p: Player, keys: MoveKeys, dt: int) -> Player {
    Player {
        pos: Point {
            x: advanced(p.pos.x as int, key_axis(keys.right, keys.left) * DIR_SCALE, p.speed as int, dt) as i64,
            y: advanced(p.pos.y as int, key_axis(keys.up, keys.down) * DIR_SCALE, p.speed as int, dt) as i64,
        },
        ..p
    }
}

/// The crosshair after a frame whose last pointer position, if any, is
/// `pointer` (screen coordinates in position units, origin at a corner): it
/// is set to that position with the play-field's center as origin.
pub open spec fn pointed(c: Crosshair, pointer: Option<Point>) -> Crosshair {
    match pointer {
        Some(p) => Crosshair {
            pos: Point {
                x: clamp_coord(p.x - WIDTH * POS_SCALE / 2) as i64,
                y: clamp_coord(p.y - HEIGHT * POS_SCALE / 2) as i64,
            },
        },
        None => c,
    }
}

/// A bullet just fired from `from` in direction `dir`.
pub open spec fn fresh_bullet(from: Point, dir: Point) -> Bullet {
    Bullet {
        pos: from,
        dir,
        speed: BULLET_SPEED,
        lifetime: Timer {
            duration: BULLET_LIFETIME_US,
            elapsed: 0,
            repeating: false,
            finished: false,
            times_finished: 0,
        },
    }
}

/// Offsets that a spread shot can use: `SPREAD_COUNT` of them, each within
/// `SPREAD_RADIUS` on both axes.
pub open spec fn offsets_ok(offsets: Seq<Point>) -> bool {
    &&& offsets.len() == SPREAD_COUNT
    &&& forall|i: int|
        0 <= i < offsets.len() ==> -SPREAD_RADIUS <= #[trigger] offsets[i].x <= SPREAD_RADIUS
            && -SPREAD_RADIUS <= offsets[i].y <= SPREAD_RADIUS
}

/// `target` moved by `off`.
pub open spec fn offset_target(target: Point, off: Point) -> Point {
    Point { x: (target.x + off.x) as i64, y: (target.y + off.y) as i64 }
}

/// The bullets of one discharge from `from` at `target`: one aimed at the
/// target, or for a spread shot one aimed at `target + offsets[i]` for each
/// offset.
pub open spec fn volley(fire_type: FireType, from: Point, target: Point, offsets: Seq<Point>) -> Seq<Bullet> {
    match fire_type {
        FireType::Normal => seq![fresh_bullet(from, direction_toward(from, target))],
        FireType::Shotgun => Seq::new(
            SPREAD_COUNT as nat,
            |i: int| fresh_bullet(from, direction_toward(from, offset_target(target, offsets[i]))),
        ),
    }
}

/// A spread shot is `SPREAD_COUNT` bullets, all leaving from the shooter's
/// position, each aimed at its own offset point around the target along a
/// direction of about unit length.
pub proof fn lemma_spread_volley(from: Point, target: Point, offsets: Seq<Point>)
    ensures
        volley(FireType::Shotgun, from, target, offsets).len() == SPREAD_COUNT,
        forall|i: int|
            0 <= i < SPREAD_COUNT ==> (#[trigger] volley(FireType::Shotgun, from, target, offsets)[i]).pos
                == from && volley(FireType::Shotgun, from, target, offsets)[i].dir == direction_toward(
                from,
                offset_target(target, offsets[i]),
            ) && is_direction(volley(FireType::Shotgun, from, target, offsets)[i].dir)
                && is_unit(volley(FireType::Shotgun, from, target, offsets)[i].dir),
{
    assert forall|i: int| 0 <= i < SPREAD_COUNT implies is_direction(
        #[trigger] volley(FireType::Shotgun, from, target, offsets)[i].dir,
    ) && is_unit(volley(FireType::Shotgun, from, target, offsets)[i].dir) by {
        let to = offset_target(target, offsets[i]);
        lemma_direction_of_is_unit(to.x - from.x, to.y - from.y);
    }
}

/// The player and the bullets it fired, after a frame of `dt` microseconds
/// with the fire button held or not: while it is held the cooldown timer
/// advances, and each frame in which it finishes discharges one volley.
pub open spec fn fire_outcome(p: Player, target: Point, held: bool, dt: int, offsets: Seq<Point>) -> (Player, Seq<Bullet>) {
    if !held {
        (p, Seq::empty())
    } else {
        let t = p.weapon.fire_timer.ticked(dt);
        let q = Player { weapon: Weapon { fire_timer: t, ..p.weapon }, ..p };
        if t.finished {
            (q, volley(p.weapon.fire_type, p.pos, target, offsets))
        } else {
            (q, Seq::empty())
        }
    }
}

/// The player after holding fire through frames of `dts` microseconds at
/// `target`, and how many volleys it fired.
pub open spec fn hold_fire(p: Player, target: Point, dts: Seq<u64>, offsets: Seq<Point>) -> (Player, nat)
    decreases dts.len(),
{
    if dts.len() == 0 {
        (p, 0)
    } else {
        let (q, n) = hold_fire(p, target, dts.drop_last(), offsets);
        let (r, shot) = fire_outcome(q, target, true, dts.last() as int, offsets);
        (r, n + if shot.len() > 0 {
            1nat
        } else {
            0nat
        })
    }
}

proof fn lemma_hold_fire_ticks(p: Player, target: Point, dts: Seq<u64>, offsets: Seq<Point>)
    ensures
        hold_fire(p, target, dts, offsets).0.weapon.fire_timer == tick_all(p.weapon.fire_timer, dts),
        hold_fire(p, target, dts, offsets).0.weapon.fire_type == p.weapon.fire_type,
        hold_fire(p, target, dts, offsets).1 == finishing_ticks(p.weapon.fire_timer, dts),
    decreases dts.len(),
{
    if dts.len() > 0 {
        lemma_hold_fire_ticks(p, target, dts.drop_last(), offsets);
    }
}

/// Holding fire through frames no longer than the cooldown discharges once
/// per completed cooldown and never more often: after frames totalling `T`
/// microseconds, `(elapsed + T) / FIRE_INTERVAL` volleys have left, where
/// `elapsed` is how far the cooldown had run when the button was pressed.
pub proof fn lemma_fire_cadence(p: Player, target: Point, dts: Seq<u64>, offsets: Seq<Point>)
    requires
        p.wf(),
        forall|i: int| 0 <= i < dts.len() ==> dts[i] <= p.weapon.fire_timer.duration,
    ensures
        hold_fire(p, target, dts, offsets).1 == (p.weapon.fire_timer.elapsed + total(dts))
            / (p.weapon.fire_timer.duration as int),
{
    lemma_hold_fire_ticks(p, target, dts, offsets);
    lemma_fire_rate(p.weapon.fire_timer, dts);
}

/// However long its frames, holding fire discharges at most one volley per
/// frame (see `fire_outcome`) and at most `(elapsed + T) / FIRE_INTERVAL`
/// volleys over frames totalling `T` microseconds: never more often than the
/// cooldown allows.
pub proof fn lemma_fire_cadence_bound(p: Player, target: Point, dts: Seq<u64>, offsets: Seq<Point>)
    requires
        p.wf(),
    ensures
        hold_fire(p, target, dts, offsets).1 <= (p.weapon.fire_timer.elapsed + total(dts))
            / (p.weapon.fire_timer.duration as int),
{
    lemma_hold_fire_ticks(p, target, dts, offsets);
    lemma_fire_rate_bound(p.weapon.fire_timer, dts);
}

/// Within the representable world, a pointer event at screen position
/// `(px, py)` puts the crosshair at exactly `(px - width / 2, py - height / 2)`.
pub proof fn lemma_crosshair_exact(c: Crosshair, pointer: Point)
    requires
        coord_ok(pointer.x - WIDTH * POS_SCALE / 2),
        coord_ok(pointer.y - HEIGHT * POS_SCALE / 2),
    ensures
        pointed(c, Some(pointer)).pos.x == pointer.x - WIDTH * POS_SCALE / 2,
        pointed(c, Some(pointer)).pos.y == pointer.y - HEIGHT * POS_SCALE / 2,
{
}

/// The bullet is inside the region that the bounds reaper keeps: at most the
/// play-field's full width and height from the origin on each axis.
pub open spec fn in_bounds(b: Bullet) -> bool {
    -WIDTH * POS_SCALE <= b.pos.x <= WIDTH * POS_SCALE
        && -HEIGHT * POS_SCALE <= b.pos.y <= HEIGHT * POS_SCALE
}

/// The bullet's lifetime has not run out.
pub open spec fn alive(b: Bullet) -> bool {
    !b.lifetime.finished
}

/// The player as it starts: at the origin, walking at `PLAYER_SPEED`, with a
/// spread weapon on a `FIRE_INTERVAL_US` cooldown.
pub open spec fn initial_player() -> Player {
    Player {
        pos: Point { x: 0, y: 0 },
        speed: PLAYER_SPEED,
        weapon: Weapon {
            fire_timer: Timer {
                duration: FIRE_INTERVAL_US,
                elapsed: 0,
                repeating: true,
                finished: false,
                times_finished: 0,
            },
            fire_type: FireType::Shotgun,
        },
    }
}

/// Creates the player (see `initial_player`).
pub fn spawn_player() -> (p: Player)
    ensures
        p == initial_player(),
        p.wf(),
{
    Player {
        pos: Point { x: 0, y: 0 },
        speed: PLAYER_SPEED,
        weapon: Weapon { fire_timer: Timer::new(FIRE_INTERVAL_US, true), fire_type: FireType::Shotgun },
    }
}

/// The crosshair as it starts: at the origin.
pub fn spawn_crosshair() -> (c: Crosshair)
    ensures
        c.wf(),
        c.pos == (Point { x: 0, y: 0 }),
{
    Crosshair { pos: Point { x: 0, y: 0 } }
}

/// Walks the player for `dt` microseconds with `keys` held (see `walked`).
pub fn player_move(player: &mut Player, keys: MoveKeys, dt: u64)
    requires
        old(player).wf(),
    ensures
        *final(player) == walked(*old(player), keys, dt as int),
        final(player).wf(),
{
    let nx: i64 = (if keys.right { 1i64 } else { 0i64 }) - (if keys.left { 1i64 } else { 0i64 });
    let ny: i64 = (if keys.up { 1i64 } else { 0i64 }) - (if keys.down { 1i64 } else { 0i64 });
    let x = advance_coord(player.pos.x, nx * DIR_SCALE, player.speed, dt);
    let y = advance_coord(player.pos.y, ny * DIR_SCALE, player.speed, dt);
    player.pos = Point { x, y };
}

/// Holding both keys of an axis leaves the player where it was on that axis.
pub proof fn lemma_opposite_keys_cancel(p: Player, keys: MoveKeys, dt: int)
    requires
        p.wf(),
    ensures
        keys.up && keys.down ==> walked(p, keys, dt).pos.y == p.pos.y,
        keys.left && keys.right ==> walked(p, keys, dt).pos.x == p.pos.x,
{
    assert(0 * (p.speed as int) * dt == 0) by (nonlinear_arith);
}

/// Moves the crosshair to the last pointer position of the frame, if any
/// (see `pointed`).
pub fn crosshair_move(crosshair: &mut Crosshair, pointer: Option<Point>)
    ensures
        *final(crosshair) == pointed(*old(crosshair), pointer),
        old(crosshair).wf() ==> final(crosshair).wf(),
{
    match pointer {
        Some(p) => {
            let x: i128 = p.x as i128 - (WIDTH * POS_SCALE / 2) as i128;
            let y: i128 = p.y as i128 - (HEIGHT * POS_SCALE / 2) as i128;
            crosshair.pos = Point { x: clamp_i128(x), y: clamp_i128(y) };
        },
        None => {},
    }
}

fn clamp_i128(c: i128) -> (r: i64)
    ensures
        r == clamp_coord(c as int),
{
    if c < -(COORD_LIMIT as i128) {
        -COORD_LIMIT
    } else if c > COORD_LIMIT as i128 {
        COORD_LIMIT
    } else {
        c as i64
    }
}

fn new_bullet(from: Point, dir: Point) -> (b: Bullet)
    ensures
        b == fresh_bullet(from, dir),
{
    Bullet { pos: from, dir, speed: BULLET_SPEED, lifetime: Timer::new(BULLET_LIFETIME_US, false) }
}

/// Advances the fire gate by a frame of `dt` microseconds and returns the
/// bullets fired (see `fire_outcome`). `offsets` are the spread shot's aim
/// offsets; a normal shot ignores them.
pub fn player_fire(player: &mut Player, crosshair: &Crosshair, fire_held: bool, dt: u64, offsets: &Vec<Point>) -> (spawned: Vec<Bullet>)
    requires
        old(player).wf(),
        crosshair.wf(),
        old(player).weapon.fire_type == FireType::Shotgun ==> offsets_ok(offsets@),
    ensures
        (*final(player), spawned@) == fire_outcome(*old(player), crosshair.pos, fire_held, dt as int, offsets@),
        final(player).wf(),
        bullets_wf(spawned@),
{
    let mut spawned: Vec<Bullet> = Vec::new();
    if !fire_held {
        return spawned;
    }
    player.weapon.fire_timer.tick(dt);
    if !player.weapon.fire_timer.finished() {
        return spawned;
    }
    let from = player.pos;
    let target = crosshair.pos;
    match player.weapon.fire_type {
        FireType::Normal => {
            let dir = aim(from, target);
            spawned.push(new_bullet(from, dir));
            assert(spawned@ =~= volley(FireType::Normal, from, target, offsets@));
        },
        FireType::Shotgun => {
            let ghost expected = volley(FireType::Shotgun, from, target, offsets@);
            let mut i: usize = 0;
            while i < SPREAD_COUNT
                invariant
                    i <= SPREAD_COUNT,
                    offsets_ok(offsets@),
                    from.in_range(),
                    target.in_range(),
                    expected == volley(FireType::Shotgun, from, target, offsets@),
                    spawned@ =~= expected.subrange(0, i as int),
                    bullets_wf(spawned@),
                decreases SPREAD_COUNT - i,
            {
                let off = offsets[i];
                let to = Point { x: target.x + off.x, y: target.y + off.y };
                let dir = aim(from, to);
                spawned.push(new_bullet(from, dir));
                i = i + 1;
            }
        },
    }
    spawned
}

/// Every bullet of `bs` after `dt` microseconds of flight.
pub open spec fn flown_all(bs: Seq<Bullet>, dt: int) -> Seq<Bullet> {
    bs.map_values(|b: Bullet| b.flown(dt))
}

/// Every bullet of `bs` with its lifetime advanced by `dt` microseconds.
pub open spec fn aged_all(bs: Seq<Bullet>, dt: int) -> Seq<Bullet> {
    bs.map_values(|b: Bullet| b.aged(dt))
}

/// Within the representable world, one integration step moves every bullet
/// by exactly `direction * speed * dt`.
pub proof fn lemma_flight_exact(bs: Seq<Bullet>, dt: int, i: int)
    requires
        0 <= i < bs.len(),
        coord_ok(bs[i].pos.x + bs[i].dir.x * bs[i].speed * dt),
        coord_ok(bs[i].pos.y + bs[i].dir.y * bs[i].speed * dt),
    ensures
        flown_all(bs, dt)[i].pos.x == bs[i].pos.x + bs[i].dir.x * bs[i].speed * dt,
        flown_all(bs, dt)[i].pos.y == bs[i].pos.y + bs[i].dir.y * bs[i].speed * dt,
        flown_all(bs, dt)[i].dir == bs[i].dir,
        flown_all(bs, dt)[i].speed == bs[i].speed,
        flown_all(bs, dt).len() == bs.len(),
{
    lemma_integration_exact(bs[i].pos, bs[i].dir, bs[i].speed as int, dt);
}

/// Moves every bullet along its direction for `dt` microseconds.
pub fn move_entities(bullets: &mut Vec<Bullet>, dt: u64)
    requires
        bullets_wf(old(bullets)@),
    ensures
        final(bullets)@ == flown_all(old(bullets)@, dt as int),
        bullets_wf(final(bullets)@),
{
    let ghost start = bullets@;
    let n = bullets.len();
    let mut i: usize = 0;
    while i < n
        invariant
            n == bullets.len(),
            n == start.len(),
            i <= n,
            bullets_wf(start),
            forall|j: int| 0 <= j < i ==> bullets@[j] == #[trigger] start[j].flown(dt as int),
            forall|j: int| i <= j < n ==> bullets@[j] == #[trigger] start[j],
            bullets_wf(bullets@),
        decreases n - i,
    {
        let mut b = bullets[i];
        assert(b == start[i as int]);
        assert(start[i as int].wf());
        b.pos = integrate(b.pos, b.dir, b.speed, dt);
        let ghost prev = bullets@;
        bullets.set(i, b);
        assert forall|j: int| 0 <= j < bullets@.len() implies #[trigger] bullets@[j].wf() by {
            if j != i {
                assert(prev[j].wf());
            }
        }
        i = i + 1;
    }
    assert(bullets@ =~= flown_all(start, dt as int));
}

/// Advances every bullet's lifetime by `dt` microseconds and removes those
/// whose lifetime has run out; the others keep their order.
pub fn lifetime_despawn(bullets: &mut Vec<Bullet>, dt: u64)
    requires
        bullets_wf(old(bullets)@),
    ensures
        final(bullets)@ == aged_all(old(bullets)@, dt as int).filter(|b: Bullet| alive(b)),
        bullets_wf(final(bullets)@),
{
    let ghost start = bullets@;
    let mut kept: Vec<Bullet> = Vec::new();
    let mut i: usize = 0;
    while i < bullets.len()
        invariant
            bullets@ == start,
            i <= start.len(),
            bullets_wf(start),
            kept@ == aged_all(start.subrange(0, i as int), dt as int).filter(|b: Bullet| alive(b)),
            bullets_wf(kept@),
        decreases start.len() - i,
    {
        let mut b = bullets[i];
        assert(start[i as int].wf());
        b.lifetime.tick(dt);
        proof {
            reveal(Seq::filter);
        }
        let ghost before = aged_all(start.subrange(0, i as int), dt as int);
        assert(aged_all(start.subrange(0, i + 1), dt as int).drop_last() =~= before);
        assert(aged_all(start.subrange(0, i + 1), dt as int).last() == b);
        if !b.lifetime.finished() {
            kept.push(b);
        }
        i = i + 1;
    }
    assert(start.subrange(0, start.len() as int) =~= start);
    *bullets = kept;
}

/// Removes every bullet outside the bounds region (see `in_bounds`),
/// whatever its remaining lifetime; the others keep their order.
pub fn bounds_despawn(bullets: &mut Vec<Bullet>)
    requires
        bullets_wf(old(bullets)@),
    ensures
        final(bullets)@ == old(bullets)@.filter(|b: Bullet| in_bounds(b)),
        bullets_wf(final(bullets)@),
{
    let ghost start = bullets@;
    let mut kept: Vec<Bullet> = Vec::new();
    let mut i: usize = 0;
    while i < bullets.len()
        invariant
            bullets@ == start,
            i <= start.len(),
            bullets_wf(start),
            kept@ == start.subrange(0, i as int).filter(|b: Bullet| in_bounds(b)),
            bullets_wf(kept@),
        decreases start.len() - i,
    {
        let b = bullets[i];
        assert(start.subrange(0, i + 1).drop_last() =~= start.subrange(0, i as int));
        assert(start[i as int].wf());
        proof {
            reveal(Seq::filter);
        }
        let inside = -WIDTH * POS_SCALE <= b.pos.x && b.pos.x <= WIDTH * POS_SCALE
            && -HEIGHT * POS_SCALE <= b.pos.y && b.pos.y <= HEIGHT * POS_SCALE;
        if inside {
            kept.push(b);
        }
        i = i + 1;
    }
    assert(start.subrange(0, start.len() as int) =~= start);
    *bullets = kept;
}

} // verus!
