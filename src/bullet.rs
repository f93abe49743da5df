//! Projectiles: player bullets and boss bullets, their lifetimes and motion.
use crate::geometry::{Point, UNIT};
use crate::player::Classes;
use vstd::prelude::*;

verus! {

/// Lifetime of a boss bullet, in milliseconds.
pub const BOSS_BULLET_TTL: u64 = 1250;

/// A bullet fired by a player.
#[derive(Clone, Copy, Debug)]
pub struct Bullet {
    pub vel: Point,
    pub pos: Point,
    pub spawn: u64,
    pub class: Classes,
    pub id: u64,
    pub owner: u64,
}

/// A bullet fired by the boss.
#[derive(Clone, Copy, Debug)]
pub struct BossBullet {
    pub vel: Point,
    pub pos: Point,
    pub spawn: u64,
    pub id: u64,
}

/// Milliseconds from `t` to `now`, zero when `t` lies ahead.
pub open spec fn elapsed(now: int, t: int) -> int {
    if now >= t {
        now - t
    } else {
        0
    }
}

pub fn elapsed_ms(now: u64, t: u64) -> (r: u64)
    ensures
        r == elapsed(now as int, t as int),
{
    if now >= t {
        now - t
    } else {
        0
    }
}

pub open spec fn ttl_spec(class: Classes) -> int {
    match class {
        Classes::Quickshot => 600,
        Classes::Sniper => 1000,
    }
}

/// Lifetime of a player bullet of the given class, in milliseconds.
pub fn bullet_ttl(class: Classes) -> (r: u64)
    ensures
        r == ttl_spec(class),
{
    match class {
        Classes::Quickshot => 600,
        Classes::Sniper => 1000,
    }
}

impl Bullet {
    pub const RADIUS: i64 = 10 * UNIT;

    pub open spec fn wf(self) -> bool {
        self.pos.wf() && self.vel.wf()
    }

    pub open spec fn alive_at(self, now: int) -> bool {
        elapsed(now, self.spawn as int) < ttl_spec(self.class)
    }

    /// Whether the bullet has not yet reached the end of its lifetime.
    pub fn is_alive(&self, now: u64) -> (r: bool)
        ensures
            r == self.alive_at(now as int),
    {
        elapsed_ms(now, self.spawn) < bullet_ttl(self.class)
    }

    /// Moves the bullet along its velocity for `ms` milliseconds.
    pub fn advance(&mut self, ms: u64)
        requires
            old(self).wf(),
        ensures
            *final(self) == (Bullet { pos: old(self).pos.advanced_spec(old(self).vel, ms as int), ..*old(self) }),
            final(self).wf(),
    {
        self.pos = self.pos.advanced(self.vel, ms);
    }
}

impl PartialEq for Bullet {
    /// Bullets are the same bullet when their identifiers agree.
    fn eq(&self, other: &Bullet) -> (r: bool)
        ensures
            r == (self.id == other.id),
    {
        self.id == other.id
    }
}

impl vstd::std_specs::cmp::PartialEqSpecImpl for Bullet {
    open spec fn obeys_eq_spec() -> bool {
        true
    }

    open spec fn eq_spec(&self, other: &Bullet) -> bool {
        self.id == other.id
    }
}

impl BossBullet {
    pub const RADIUS: i64 = 10 * UNIT;

    pub open spec fn wf(self) -> bool {
        self.pos.wf() && self.vel.wf()
    }

    pub open spec fn alive_at(self, now: int) -> bool {
        elapsed(now, self.spawn as int) < BOSS_BULLET_TTL
    }

    /// Whether the boss bullet has not yet reached the end of its lifetime.
    pub fn is_alive(&self, now: u64) -> (r: bool)
        ensures
            r == self.alive_at(now as int),
    {
        elapsed_ms(now, self.spawn) < BOSS_BULLET_TTL
    }

    /// Moves the boss bullet along its velocity for `ms` milliseconds.
    pub fn advance(&mut self, ms: u64)
        requires
            old(self).wf(),
        ensures
            *final(self) == (BossBullet { pos: old(self).pos.advanced_spec(old(self).vel, ms as int), ..*old(self) }),
            final(self).wf(),
    {
        self.pos = self.pos.advanced(self.vel, ms);
    }
}


/// A projectile whose age has reached its class's lifetime is no longer
/// alive, and stays so at every later time.
pub proof fn lemma_expiry_final(b: Bullet, bb: BossBullet, now: int, later: int)
    requires
        now <= later,
    ensures
        elapsed(now, b.spawn as int) >= ttl_spec(b.class) ==> !b.alive_at(now) && !b.alive_at(later),
        elapsed(now, bb.spawn as int) >= BOSS_BULLET_TTL ==> !bb.alive_at(now) && !bb.alive_at(later),
{
}
} // verus!
