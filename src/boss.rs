//! The boss: nearest-target selection, steering, fire cadence and respawn.
use crate::bullet::{elapsed, elapsed_ms, BossBullet};
use crate::chance::{random_coord, random_u64};
use crate::geometry::{dist_sq, distance_squared, Point, UNIT};
use crate::player::Player;
use vstd::prelude::*;

verus! {

/// Time between two primary shots, in milliseconds.
pub const PRIMARY_MS: u64 = 500;

/// Time between two twin-stream volleys of a hardcore boss, in milliseconds.
pub const SECONDARY_MS: u64 = 250;

/// The boss variants; a hardcore boss adds a twin-stream secondary gun.
#[derive(Clone, Copy, Debug, PartialEq, Eq, Structural)]
pub enum BossType {
    NormalBoss,
    HardcoreBoss,
}

/// The boss of an instance. Health zero means dead and waiting to respawn;
/// `shot_time` and `shot_time2` are when each gun last fired.
#[derive(Clone, Copy, Debug)]
pub struct Boss {
    pub pos: Point,
    pub vel: Point,
    pub health: u8,
    pub shot_time: u64,
    pub shot_time2: u64,
    pub class: BossType,
}

/// The motion computed for the boss for one tick: its new velocity, the
/// velocity of a primary shot, and for the twin stream the lateral offset of
/// each bullet from the boss and their velocity.
#[derive(Clone, Copy, Debug)]
pub struct BossMotion {
    pub vel: Point,
    pub aim: Point,
    pub side: Point,
    pub side_vel: Point,
}

/// Whether `i` indexes the first of the players nearest to `from`.
pub open spec fn is_nearest(players: Seq<Player>, from: Point, i: int) -> bool {
    &&& 0 <= i < players.len()
    &&& forall|j: int| 0 <= j < players.len() ==> dist_sq(from, players[i].pos) <= dist_sq(from, #[trigger] players[j].pos)
    &&& forall|j: int| 0 <= j < i ==> dist_sq(from, players[i].pos) < dist_sq(from, #[trigger] players[j].pos)
}

pub open spec fn negated(p: Point) -> Point {
    Point { x: (-p.x) as i64, y: (-p.y) as i64 }
}

impl Boss {
    pub const RADIUS: i64 = 30 * UNIT;

    pub open spec fn wf(self) -> bool {
        self.pos.in_world() && self.pos.wf() && self.vel.wf()
    }

    pub open spec fn primary_ready_at(self, now: int) -> bool {
        elapsed(now, self.shot_time as int) > PRIMARY_MS
    }

    pub open spec fn secondary_ready_at(self, now: int) -> bool {
        self.class == BossType::HardcoreBoss && elapsed(now, self.shot_time2 as int) > SECONDARY_MS
    }

    /// The boss after taking velocity `v` and moving by it, clamped to the world.
    pub open spec fn stepped(self, v: Point) -> Boss {
        let vb = v.bounded_spec();
        Boss { vel: vb, pos: self.pos.offset_spec(vb).clamped_spec(), ..self }
    }

    /// A boss bullet spawned at `now` from `pos` with velocity `vel`.
    pub open spec fn shot(b: BossBullet, pos: Point, vel: Point, now: int) -> bool {
        b.pos == pos && b.vel == vel.bounded_spec() && b.spawn == now
    }

    /// One tick of this living boss at `now` leads to `after`, turning the boss
    /// bullets `bbs` into `bbs2`: the boss takes the velocity of `motion` and
    /// moves by it; a ready primary gun appends one bullet at the boss with the
    /// aimed velocity; a ready twin stream appends two, offset to either side.
    pub open spec fn ticked_to(self, after: Boss, now: int, motion: BossMotion, bbs: Seq<BossBullet>, bbs2: Seq<BossBullet>) -> bool {
        let s = self.stepped(motion.vel);
        let p1 = self.primary_ready_at(now);
        let p2 = self.secondary_ready_at(now);
        let n1: int = if p1 { 1 } else { 0 };
        let side = motion.side.bounded_spec();
        &&& after == (Boss {
            shot_time: if p1 { now as u64 } else { self.shot_time },
            shot_time2: if p2 { now as u64 } else { self.shot_time2 },
            ..s
        })
        &&& bbs2.len() == bbs.len() + n1 + if p2 { 2int } else { 0int }
        &&& forall|i: int| 0 <= i < bbs.len() ==> #[trigger] bbs2[i] == bbs[i]
        &&& p1 ==> Boss::shot(bbs2[bbs.len() as int], s.pos, motion.aim, now)
        &&& p2 ==> Boss::shot(bbs2[bbs.len() + n1], s.pos.offset_spec(negated(side)), motion.side_vel, now)
        &&& p2 ==> Boss::shot(bbs2[bbs.len() + n1 + 1], s.pos.offset_spec(side), motion.side_vel, now)
    }

    /// A new boss of the given variant at `pos`, at rest with full health.
    pub fn new(class: BossType, pos: Point, now: u64) -> (r: Boss)
        requires
            pos.in_world(),
        ensures
            r.wf(),
            r == (Boss { pos, vel: Point { x: 0, y: 0 }, health: 255, shot_time: now, shot_time2: now, class }),
    {
        Boss { pos, vel: Point { x: 0, y: 0 }, health: 255, shot_time: now, shot_time2: now, class }
    }

    /// The index of the player nearest to the boss (the first such), if any.
    pub fn nearest(&self, players: &Vec<Player>) -> (r: Option<usize>)
        requires
            self.pos.wf(),
            forall|j: int| 0 <= j < players@.len() ==> (#[trigger] players@[j]).pos.wf(),
        ensures
            r.is_none() <==> players@.len() == 0,
            r matches Some(i) ==> is_nearest(players@, self.pos, i as int),
    {
        if players.len() == 0 {
            return None;
        }
        let mut best: usize = 0;
        let mut best_d = distance_squared(self.pos, players[0].pos);
        let mut j: usize = 1;
        while j < players.len()
            invariant
                self.pos.wf(),
                forall|k: int| 0 <= k < players@.len() ==> (#[trigger] players@[k]).pos.wf(),
                1 <= j <= players@.len(),
                best < j,
                best_d == dist_sq(self.pos, players@[best as int].pos),
                forall|k: int| 0 <= k < j ==> best_d <= dist_sq(self.pos, #[trigger] players@[k].pos),
                forall|k: int| 0 <= k < best ==> best_d < dist_sq(self.pos, #[trigger] players@[k].pos),
            decreases players@.len() - j,
        {
            let d = distance_squared(self.pos, players[j].pos);
            if d < best_d {
                best = j;
                best_d = d;
            }
            j = j + 1;
        }
        Some(best)
    }

    /// One tick of a living boss at `now`: it takes the velocity of `motion`
    /// and moves by it, clamped to the world; a ready primary gun appends one
    /// bullet at the boss with the aimed velocity; a ready hardcore twin
    /// stream appends two, offset to either side. Each gun that fires re-arms.
    pub fn tick(&mut self, now: u64, motion: &BossMotion, boss_bullets: &mut Vec<BossBullet>)
        requires
            old(self).wf(),
        ensures
            final(self).wf(),
            old(self).ticked_to(*final(self), now as int, *motion, old(boss_bullets)@, final(boss_bullets)@),
    {
        let v = motion.vel.bounded();
        self.vel = v;
        self.pos = self.pos.offset(v).clamped();
        if elapsed_ms(now, self.shot_time) > PRIMARY_MS {
            boss_bullets.push(BossBullet { pos: self.pos, id: random_u64(), spawn: now, vel: motion.aim.bounded() });
            self.shot_time = now;
        }
        if self.class == BossType::HardcoreBoss && elapsed_ms(now, self.shot_time2) > SECONDARY_MS {
            let side = motion.side.bounded();
            let back = Point { x: -side.x, y: -side.y };
            let sv = motion.side_vel.bounded();
            boss_bullets.push(BossBullet { pos: self.pos.offset(back), id: random_u64(), spawn: now, vel: sv });
            boss_bullets.push(BossBullet { pos: self.pos.offset(side), id: random_u64(), spawn: now, vel: sv });
            self.shot_time2 = now;
        }
    }

    /// Brings a dead boss back at a random position in the world: at rest,
    /// full health, both guns re-armed at `now`.
    pub fn respawn(&mut self, now: u64)
        ensures
            final(self).wf(),
            final(self).pos.in_world(),
            final(self).vel == (Point { x: 0, y: 0 }),
            final(self).health == 255,
            final(self).shot_time == now,
            final(self).shot_time2 == now,
            final(self).class == old(self).class,
    {
        let x = random_coord();
        let y = random_coord();
        self.pos = Point { x, y };
        self.vel = Point { x: 0, y: 0 };
        self.health = 255;
        self.shot_time = now;
        self.shot_time2 = now;
    }
}

} // verus!
