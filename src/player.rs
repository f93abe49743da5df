//! Players: state, ability gating and the per-tick update.
use crate::bullet::{elapsed, elapsed_ms, Bullet};
use crate::chance::random_u64;
use crate::geometry::{Point, UNIT};
use vstd::prelude::*;

verus! {

/// A player's weapon class.
#[derive(Clone, Copy, Debug, PartialEq, Eq, Structural)]
pub enum Classes {
    Sniper,
    Quickshot,
}

/// A player: motion, aim target (relative to the player), vitals, held
/// intents, the times its gun and boost were last used (`None`: never), and
/// the time its escape-intent began.
pub struct Player {
    pub id: u64,
    pub vel: Point,
    pub pos: Point,
    pub target: Point,
    pub health: u8,
    pub mana: u8,
    pub mouse: bool,
    pub split: bool,
    pub join: bool,
    pub shot_time: Option<u64>,
    pub split_time: Option<u64>,
    pub escape_time: Option<u64>,
    pub class: Classes,
    pub name: String,
}


/// Milliseconds a boost lasts, and the least time between two boosts.
pub const BOOST_MS: u64 = 600;

/// Mana a boost consumes; a boost needs strictly more than this.
pub const BOOST_COST: u8 = 100;

/// One bullet of a burst: where it starts relative to the shooter, and its velocity.
#[derive(Clone, Copy, Debug)]
pub struct Shot {
    pub offset: Point,
    pub vel: Point,
}

/// The motion computed for one player for one tick: its new velocity when
/// cruising and when boosted, and the burst it fires if its gun is ready.
pub struct PlayerMotion {
    pub cruise_vel: Point,
    pub boost_vel: Point,
    pub burst: Vec<Shot>,
}

/// Whether at least `d` milliseconds have passed since `t`; a time that
/// never was lies long enough ago.
pub open spec fn waited(now: int, t: Option<u64>, d: int) -> bool {
    match t {
        Some(x) => elapsed(now, x as int) >= d,
        None => true,
    }
}

pub fn waited_ms(now: u64, t: Option<u64>, d: u64) -> (r: bool)
    ensures
        r == waited(now as int, t, d as int),
{
    match t {
        Some(x) => elapsed_ms(now, x) >= d,
        None => true,
    }
}

pub open spec fn cooldown_spec(class: Classes) -> int {
    match class {
        Classes::Quickshot => 750,
        Classes::Sniper => 1000,
    }
}

/// Least time between two shots of a class, in milliseconds.
pub fn fire_cooldown(class: Classes) -> (r: u64)
    ensures
        r == cooldown_spec(class),
{
    match class {
        Classes::Quickshot => 750,
        Classes::Sniper => 1000,
    }
}

pub open spec fn burst_spec(class: Classes, health: int) -> int {
    match class {
        Classes::Quickshot => health / 10,
        Classes::Sniper => 2 * (health / 51 + 5) + 1,
    }
}

/// Number of bullets in one burst: a Quickshot fires one per ten health, a
/// Sniper an odd fan that widens by two for every 51 health.
pub fn burst_size(class: Classes, health: u8) -> (r: u16)
    ensures
        r == burst_spec(class, health as int),
{
    match class {
        Classes::Quickshot => (health / 10) as u16,
        Classes::Sniper => 2 * ((health / 51) as u16 + 5) + 1,
    }
}

/// Health after a tick's damage and then its lifesteal credit, both saturating.
pub open spec fn hit_health(h: int, damage: int, credit: int) -> int {
    let after = if h >= damage { h - damage } else { 0 };
    if after + credit <= 255 {
        after + credit
    } else {
        255
    }
}

pub open spec fn sat_add_u8(a: int, b: int) -> int {
    if a + b <= 255 {
        a + b
    } else {
        255
    }
}

impl Player {
    pub const RADIUS: i64 = 35 * UNIT;

    pub open spec fn wf(self) -> bool {
        self.pos.in_world() && self.pos.wf() && self.vel.wf() && self.target.wf()
    }

    pub open spec fn boost_ready_at(self, now: int) -> bool {
        self.split && waited(now, self.split_time, BOOST_MS as int) && self.mana > BOOST_COST
    }

    pub open spec fn fire_ready_at(self, now: int) -> bool {
        self.mouse && waited(now, self.shot_time, cooldown_spec(self.class) + 1)
    }

    /// The state after the boost gate of a tick at `now`.
    pub open spec fn after_boost(self, now: int) -> Player {
        if self.boost_ready_at(now) {
            Player { split_time: Some(now as u64), mana: (self.mana - BOOST_COST) as u8, ..self }
        } else {
            self
        }
    }

    pub open spec fn boosted_at(self, now: int) -> bool {
        self.split_time matches Some(t) && elapsed(now, t as int) < BOOST_MS
    }

    /// A bullet of this player's burst, fired at `now`, has these fields.
    pub open spec fn fired(self, b: Bullet, shot: Shot, now: int) -> bool {
        &&& b.pos == self.pos.offset_spec(shot.offset)
        &&& b.vel == shot.vel.bounded_spec()
        &&& b.spawn == now
        &&& b.owner == self.id
        &&& b.class == self.class
    }

    /// A freshly spawned player: at rest at `pos`, full health and mana, both
    /// abilities ready.
    pub fn new(id: u64, name: String, class: Classes, pos: Point, now: u64) -> (r: Player)
        requires
            pos.in_world(),
        ensures
            r.wf(),
            r.id == id,
            r.name@ == name@,
            r.class == class,
            r.pos == pos,
            r.vel == (Point { x: 0, y: 0 }),
            r.target == (Point { x: 0, y: 0 }),
            r.health == 255,
            r.mana == 255,
            !r.mouse && !r.split && !r.join,
            r.escape_time.is_none(),
            r.shot_time.is_none(),
            r.split_time.is_none(),
    {
        Player {
            id,
            vel: Point { x: 0, y: 0 },
            pos,
            target: Point { x: 0, y: 0 },
            health: 255,
            mana: 255,
            mouse: false,
            split: false,
            join: false,
            shot_time: None,
            split_time: None,
            escape_time: None,
            class,
            name,
        }
    }

    /// Whether a boost would start at `now`.
    pub fn boost_ready(&self, now: u64) -> (r: bool)
        ensures
            r == self.boost_ready_at(now as int),
    {
        self.split && waited_ms(now, self.split_time, BOOST_MS) && self.mana > BOOST_COST
    }

    /// Whether the gun would fire at `now`.
    pub fn fire_ready(&self, now: u64) -> (r: bool)
        ensures
            r == self.fire_ready_at(now as int),
    {
        self.mouse && waited_ms(now, self.shot_time, fire_cooldown(self.class) + 1)
    }

    /// Whether the player moves with boosted gain and drag in a tick at `now`
    /// (a boost that would start at `now` counts).
    pub fn boosted(&self, now: u64) -> (r: bool)
        ensures
            r == self.after_boost(now as int).boosted_at(now as int),
    {
        self.boost_ready(now) || !waited_ms(now, self.split_time, BOOST_MS)
    }

    /// The state after the boost gate and the move of a tick at `now`.
    pub open spec fn moved(self, now: int, cruise: Point, boost: Point) -> Player {
        let b = self.after_boost(now);
        let v = (if b.boosted_at(now) { boost } else { cruise }).bounded_spec();
        Player { vel: v, pos: b.pos.offset_spec(v).clamped_spec(), ..b }
    }

    /// One tick of the player's own behaviour at `now`. A ready boost spends
    /// its mana and starts; the velocity becomes the boosted or the cruising
    /// one of `motion`, and the position moves by it, clamped to the world.
    /// A ready gun then appends one bullet per shot of `motion.burst` (a
    /// burst of the class's size for the player's health) to `bullets` and
    /// re-arms.
    pub fn tick(&mut self, now: u64, motion: &PlayerMotion, bullets: &mut Vec<Bullet>)
        requires
            old(self).wf(),
            old(self).fire_ready_at(now as int) ==> motion.burst@.len() == burst_spec(old(self).class, old(self).health as int),
        ensures
            final(self).wf(),
            ({
                let m = old(self).moved(now as int, motion.cruise_vel, motion.boost_vel);
                if old(self).fire_ready_at(now as int) {
                    &&& *final(self) == (Player { shot_time: Some(now), ..m })
                    &&& final(bullets)@.len() == old(bullets)@.len() + motion.burst@.len()
                    &&& forall|i: int| 0 <= i < old(bullets)@.len() ==> final(bullets)@[i] == old(bullets)@[i]
                    &&& forall|k: int|
                        0 <= k < motion.burst@.len() ==> m.fired(
                            #[trigger] final(bullets)@[old(bullets)@.len() + k],
                            motion.burst@[k],
                            now as int,
                        )
                } else {
                    &&& *final(self) == m
                    &&& final(bullets)@ == old(bullets)@
                }
            }),
    {
        if self.boost_ready(now) {
            self.split_time = Some(now);
            self.mana = self.mana - BOOST_COST;
        }
        let v = if !waited_ms(now, self.split_time, BOOST_MS) {
            motion.boost_vel
        } else {
            motion.cruise_vel
        }.bounded();
        self.vel = v;
        self.pos = self.pos.offset(v).clamped();
        if self.mouse && waited_ms(now, self.shot_time, fire_cooldown(self.class) + 1) {
            let ghost start = bullets@.len();
            let mut k: usize = 0;
            while k < motion.burst.len()
                invariant
                    self.wf(),
                    k <= motion.burst@.len(),
                    bullets@.len() == start + k,
                    start == old(bullets)@.len(),
                    forall|i: int| 0 <= i < start ==> bullets@[i] == old(bullets)@[i],
                    forall|j: int|
                        0 <= j < k ==> self.fired(#[trigger] bullets@[start + j], motion.burst@[j], now as int),
                decreases motion.burst@.len() - k,
            {
                let shot = motion.burst[k];
                let b = Bullet {
                    pos: self.pos.offset(shot.offset),
                    vel: shot.vel.bounded(),
                    spawn: now,
                    id: random_u64(),
                    owner: self.id,
                    class: self.class,
                };
                bullets.push(b);
                k = k + 1;
            }
            self.shot_time = Some(now);
        }
    }

    /// Takes a tick's accumulated damage, then its lifesteal credit; health
    /// saturates at 0 and 255.
    pub fn apply_hits(&mut self, damage: u64, credit: u64)
        ensures
            final(self).health == hit_health(old(self).health as int, damage as int, credit as int),
            *final(self) == (Player { health: final(self).health, ..*old(self) }),
    {
        let after: u8 = if (self.health as u64) >= damage {
            (self.health as u64 - damage) as u8
        } else {
            0
        };
        self.health = if credit < 255 && (after as u64) + credit <= 255 {
            (after as u64 + credit) as u8
        } else {
            255
        };
    }

    /// Adds regenerated health and mana, each saturating at 255.
    pub fn regen(&mut self, health_gain: u8, mana_gain: u8)
        ensures
            final(self).health == sat_add_u8(old(self).health as int, health_gain as int),
            final(self).mana == sat_add_u8(old(self).mana as int, mana_gain as int),
            *final(self) == (Player { health: final(self).health, mana: final(self).mana, ..*old(self) }),
    {
        self.health = self.health.saturating_add(health_gain);
        self.mana = self.mana.saturating_add(mana_gain);
    }
}


/// Health and mana never leave [0, 255]: a hit pass and a regeneration step
/// saturate at both ends instead of wrapping, for any amounts.
pub proof fn lemma_vitals_saturate(h: int, damage: int, credit: int, gain: int)
    requires
        0 <= h <= 255,
        damage >= 0,
        credit >= 0,
        gain >= 0,
    ensures
        0 <= hit_health(h, damage, credit) <= 255,
        0 <= sat_add_u8(h, gain) <= 255,
        damage >= h && credit == 0 ==> hit_health(h, damage, credit) == 0,
        h + gain >= 255 ==> sat_add_u8(h, gain) == 255,
{
}
} // verus!
