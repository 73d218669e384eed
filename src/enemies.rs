//! Enemies: spawning, and the collision scan that removes those hit.
use vstd::prelude::*;
use crate::geom::{Point, POS_SCALE};
use crate::player::Bullet;

verus! {

/// An enemy's width and height, in position units.
pub const ENEMY_SIZE: i64 = 16 * POS_SCALE;

/// A bullet's width and height, in position units.
pub const BULLET_SIZE: i64 = 2 * POS_SCALE;

/// An enemy, standing still.
#[derive(Clone, Copy, Debug, PartialEq, Eq, Structural)]
pub struct Enemy {
    pub pos: Point,
}

impl Enemy {
    pub open spec fn wf(self) -> bool {
        self.pos.in_range()
    }
}

/// Every enemy of `es` is well formed.
pub open spec fn enemies_wf(es: Seq<Enemy>) -> bool {
    forall|i: int| 0 <= i < es.len() ==> #[trigger] es[i].wf()
}

/// The box of size `a_size` centered on `a` and the box of size `b_size`
/// centered on `b` overlap: on each axis, each box's low edge lies strictly
/// below the other's high edge. Boxes that only touch do not overlap.
pub open spec fn overlaps(a: Point, a_size: Point, b: Point, b_size: Point) -> bool {
    &&& a.x - a_size.x / 2 < b.x + b_size.x / 2
    &&& a.x + a_size.x / 2 > b.x - b_size.x / 2
    &&& a.y - a_size.y / 2 < b.y + b_size.y / 2
    &&& a.y + a_size.y / 2 > b.y - b_size.y / 2
}

/// The enemy overlaps the bullet.
pub open spec fn hits(e: Enemy, b: Bullet) -> bool {
    overlaps(
        e.pos,
        Point { x: ENEMY_SIZE, y: ENEMY_SIZE },
        b.pos,
        Point { x: BULLET_SIZE, y: BULLET_SIZE },
    )
}

/// Some bullet of `bs` overlaps the enemy.
pub open spec fn is_hit(e: Enemy, bs: Seq<Bullet>) -> bool {
    exists|j: int| 0 <= j < bs.len() && #[trigger] hits(e, bs[j])
}

fn half(s: i64) -> (r: i128)
    requires
        s >= 0,
    ensures
        r == s / 2,
{
    ((s as u64) / 2) as i128
}

/// Whether the boxes of sizes `a_size` and `b_size` centered on `a` and `b`
/// overlap (see `overlaps`).
pub fn collide(a: Point, a_size: Point, b: Point, b_size: Point) -> (r: bool)
    requires
        a_size.x >= 0,
        a_size.y >= 0,
        b_size.x >= 0,
        b_size.y >= 0,
    ensures
        r == overlaps(a, a_size, b, b_size),
{
    let (ax, ay, bx, by) = (a.x as i128, a.y as i128, b.x as i128, b.y as i128);
    let (ahx, ahy, bhx, bhy) = (half(a_size.x), half(a_size.y), half(b_size.x), half(b_size.y));
    ax - ahx < bx + bhx && ax + ahx > bx - bhx && ay - ahy < by + bhy && ay + ahy > by - bhy
}

/// Adds an enemy at `at` while the spawn key is held.
pub fn spawn_enemies(enemies: &mut Vec<Enemy>, key_held: bool, at: Point)
    ensures
        final(enemies)@ == if key_held {
            old(enemies)@.push(Enemy { pos: at })
        } else {
            old(enemies)@
        },
{
    if key_held {
        enemies.push(Enemy { pos: at });
    }
}

fn hit_by_any(e: Enemy, bullets: &Vec<Bullet>) -> (r: bool)
    ensures
        r == is_hit(e, bullets@),
{
    let mut i: usize = 0;
    while i < bullets.len()
        invariant
            i <= bullets.len(),
            forall|j: int| 0 <= j < i ==> !#[trigger] hits(e, bullets@[j]),
        decreases bullets.len() - i,
    {
        if collide(
            e.pos,
            Point { x: ENEMY_SIZE, y: ENEMY_SIZE },
            bullets[i].pos,
            Point { x: BULLET_SIZE, y: BULLET_SIZE },
        ) {
            assert(hits(e, bullets@[i as int]));
            return true;
        }
        i = i + 1;
    }
    false
}

/// Removes every enemy that some bullet overlaps; the others keep their
/// order. The bullets are left as they are.
pub fn despawn_enemy(enemies: &mut Vec<Enemy>, bullets: &Vec<Bullet>)
    ensures
        final(enemies)@ == old(enemies)@.filter(|e: Enemy| !is_hit(e, bullets@)),
        enemies_wf(old(enemies)@) ==> enemies_wf(final(enemies)@),
{
    let ghost start = enemies@;
    let mut kept: Vec<Enemy> = Vec::new();
    let mut i: usize = 0;
    while i < enemies.len()
        invariant
            enemies@ == start,
            i <= start.len(),
            kept@ == start.subrange(0, i as int).filter(|e: Enemy| !is_hit(e, bullets@)),
            enemies_wf(start) ==> enemies_wf(kept@),
        decreases start.len() - i,
    {
        let e = enemies[i];
        assert(start.subrange(0, i + 1).drop_last() =~= start.subrange(0, i as int));
        proof {
            reveal(Seq::filter);
            if enemies_wf(start) {
                assert(start[i as int].wf());
            }
        }
        if !hit_by_any(e, bullets) {
            kept.push(e);
        }
        i = i + 1;
    }
    assert(start.subrange(0, start.len() as int) =~= start);
    *enemies = kept;
}

/// A bullet centered on an enemy always hits it: the scan removes every
/// enemy standing where some bullet is.
pub proof fn lemma_bullet_on_enemy_hits(es: Seq<Enemy>, bs: Seq<Bullet>, e: Enemy, j: int)
    requires
        0 <= j < bs.len(),
        bs[j].pos == e.pos,
    ensures
        hits(e, bs[j]),
        is_hit(e, bs),
        !es.filter(|x: Enemy| !is_hit(x, bs)).contains(e),
{
    assert(hits(e, bs[j]));
    let kept = es.filter(|x: Enemy| !is_hit(x, bs));
    if kept.contains(e) {
        let k = choose|k: int| 0 <= k < kept.len() && kept[k] == e;
        es.lemma_filter_pred(|x: Enemy| !is_hit(x, bs), k);
    }
}

} // verus!
