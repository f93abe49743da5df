//! One simulation instance: its registry of players, projectiles, boss and
//! wormholes, the handling of client commands, and the per-tick update.
use crate::boss::{Boss, BossMotion, BossType};
use crate::bullet::{elapsed, elapsed_ms, BossBullet, Bullet};
use crate::chance::{random_coord, random_u64};
use crate::collision::{lemma_filter_split, lemma_filter_step};
use crate::geometry::{Point, UNIT, WORLDSIZE};
use crate::player::{burst_spec, sat_add_u8, Classes, Player, PlayerMotion};
use crate::resolver::{cap, capture_step, hits_step};
use vstd::prelude::*;

verus! {

/// A portal at the world's edge that leads to another instance.
#[derive(Clone, Copy, Debug)]
pub struct Wormhole {
    pub pos: Point,
    pub color: u8,
    pub dest: u64,
}

impl Wormhole {
    pub const RADIUS: i64 = 30 * UNIT;
}

/// A command sent by a client.
pub enum ClientMessage {
    Spawn(String, Classes),
    Target(Point),
    Click(bool),
    Split(bool),
    Join(bool),
    Escape(bool),
}

/// A client command together with the session that sent it.
pub struct DecodedMessage {
    pub id: u64,
    pub m: ClientMessage,
}

/// A session that has gone away.
pub struct Disconnect {
    pub id: u64,
}

/// A player leaving this instance for the instance `dest`.
pub struct Transfer {
    pub dest: u64,
    pub player: Player,
}

/// One player as the clients see it; `shot_time` is the time since its last
/// shot, if it ever shot.
pub struct ClientPlayer {
    pub id: u64,
    pub pos: Point,
    pub name: String,
    pub target: Point,
    pub health: u8,
    pub mana: u8,
    pub class: Classes,
    pub shot_time: Option<u64>,
}

/// One projectile as the clients see it.
#[derive(Clone, Copy, Debug)]
pub struct ClientBullet {
    pub vel: Point,
    pub pos: Point,
    pub id: u64,
}

/// The boss as the clients see it.
#[derive(Clone, Copy, Debug)]
pub struct ClientBoss {
    pub pos: Point,
    pub health: u8,
}

/// The world as broadcast to every session after a tick.
pub struct Playfield {
    pub players: Vec<ClientPlayer>,
    pub bullets: Vec<ClientBullet>,
    pub boss: Option<ClientBoss>,
}

/// Everything a tick needs from the motion model: one entry per player, in
/// registry order, and the boss's.
pub struct TickPlan {
    pub players: Vec<PlayerMotion>,
    pub boss: BossMotion,
}

/// What a tick reports: players that died, and players leaving the instance.
pub struct TickEvents {
    pub deaths: Vec<u64>,
    pub transfers: Vec<Transfer>,
}

/// The canonical state of one simulation instance.
pub struct GameServer {
    pub players: Vec<Player>,
    pub bullets: Vec<Bullet>,
    pub boss: Option<Boss>,
    pub boss_bullets: Vec<BossBullet>,
    pub wormholes: Vec<Wormhole>,
    pub last_tick: u64,
    pub health_tick: u64,
    pub quickshot_mana: u64,
    pub sniper_mana: u64,
    pub boss_dead: u64,
    pub pvp_enabled: bool,
    pub home_server: Option<u64>,
}

pub open spec fn ids_unique(ps: Seq<Player>) -> bool {
    forall|i: int, j: int| 0 <= i < ps.len() && 0 <= j < ps.len() && i != j ==> ps[i].id != ps[j].id
}

pub open spec fn players_wf(ps: Seq<Player>) -> bool {
    forall|i: int| 0 <= i < ps.len() ==> (#[trigger] ps[i]).wf()
}

pub open spec fn bullets_wf(bs: Seq<Bullet>) -> bool {
    forall|i: int| 0 <= i < bs.len() ==> (#[trigger] bs[i]).wf()
}

pub open spec fn boss_bullets_wf(bs: Seq<BossBullet>) -> bool {
    forall|i: int| 0 <= i < bs.len() ==> (#[trigger] bs[i]).wf()
}

/// Whether some player of `ps` has the identifier `id`.
pub open spec fn has_id(ps: Seq<Player>, id: u64) -> bool {
    exists|i: int| 0 <= i < ps.len() && (#[trigger] ps[i]).id == id
}

/// `ps` with `p` in place of the player of the same identifier, or with `p`
/// appended when there is none.
pub open spec fn upsert(ps: Seq<Player>, p: Player) -> Seq<Player> {
    if has_id(ps, p.id) {
        let i = choose|i: int| 0 <= i < ps.len() && (#[trigger] ps[i]).id == p.id;
        ps.update(i, p)
    } else {
        ps.push(p)
    }
}

/// A boss that is alive takes part in the simulation; a dead one waits.
pub open spec fn boss_alive(boss: Option<Boss>) -> bool {
    boss matches Some(b) && b.health > 0
}

impl GameServer {
    pub open spec fn wf(self) -> bool {
        &&& players_wf(self.players@)
        &&& ids_unique(self.players@)
        &&& bullets_wf(self.bullets@)
        &&& boss_bullets_wf(self.boss_bullets@)
        &&& (self.boss matches Some(b) ==> b.wf())
        &&& forall|i: int| 0 <= i < self.wormholes@.len() ==> (#[trigger] self.wormholes@[i]).pos.wf()
    }

    /// A new instance, with a boss of the given variant at a random position
    /// if one is asked for, and a route home if this is not the home instance.
    pub fn new(boss: Option<BossType>, home_server: Option<u64>, now: u64) -> (r: GameServer)
        ensures
            r.wf(),
            r.players@.len() == 0,
            r.bullets@.len() == 0,
            r.boss_bullets@.len() == 0,
            r.wormholes@.len() == 0,
            boss.is_none() ==> r.boss.is_none(),
            boss matches Some(c) ==> (r.boss matches Some(b) && b.class == c && b.health == 255
                && b.vel == Point { x: 0, y: 0 } && b.shot_time == now && b.shot_time2 == now),
            r.pvp_enabled,
            r.home_server == home_server,
            r.last_tick == now && r.health_tick == now && r.quickshot_mana == now,
            r.sniper_mana == now && r.boss_dead == now,
    {
        let b = match boss {
            Some(class) => {
                let x = random_coord();
                let y = random_coord();
                Some(Boss::new(class, Point { x, y }, now))
            },
            None => None,
        };
        GameServer {
            players: Vec::new(),
            bullets: Vec::new(),
            boss: b,
            boss_bullets: Vec::new(),
            wormholes: Vec::new(),
            last_tick: now,
            health_tick: now,
            quickshot_mana: now,
            sniper_mana: now,
            boss_dead: now,
            pvp_enabled: true,
            home_server,
        }
    }

    /// The registry index of the player with identifier `id`, if any.
    pub fn find_player(&self, id: u64) -> (r: Option<usize>)
        ensures
            r.is_none() <==> !has_id(self.players@, id),
            r matches Some(i) ==> i < self.players@.len() && self.players@[i as int].id == id,
    {
        let mut i: usize = 0;
        while i < self.players.len()
            invariant
                i <= self.players@.len(),
                forall|k: int| 0 <= k < i ==> (#[trigger] self.players@[k]).id != id,
            decreases self.players@.len() - i,
        {
            if self.players[i].id == id {
                return Some(i);
            }
            i = i + 1;
        }
        None
    }

    /// Puts `p` in the registry, in place of the player with its identifier
    /// if there is one.
    pub fn insert_player(&mut self, p: Player)
        requires
            old(self).wf(),
            p.wf(),
        ensures
            final(self).wf(),
            final(self).players@ == upsert(old(self).players@, p),
            final(self).players@.len() == old(self).players@.len() + if has_id(old(self).players@, p.id) { 0int } else { 1int },
            *final(self) == (GameServer { players: final(self).players, ..*old(self) }),
    {
        match self.find_player(p.id) {
            Some(i) => {
                proof {
                    let j = choose|j: int| 0 <= j < self.players@.len() && (#[trigger] self.players@[j]).id == p.id;
                    assert(j == i as int);
                }
                self.players.set(i, p);
            },
            None => {
                self.players.push(p);
            },
        }
    }
}


/// The registry index of the player with identifier `id` (one that has it).
pub open spec fn index_of(ps: Seq<Player>, id: u64) -> int {
    choose|i: int| 0 <= i < ps.len() && (#[trigger] ps[i]).id == id
}

/// `ps` without the player of identifier `id`, if there is one.
pub open spec fn without(ps: Seq<Player>, id: u64) -> Seq<Player> {
    if has_id(ps, id) {
        ps.remove(index_of(ps, id))
    } else {
        ps
    }
}

/// The effect of a non-spawn command on the player it is addressed to.
pub open spec fn commanded(p: Player, m: ClientMessage, now: u64) -> Player {
    match m {
        ClientMessage::Target(v) => Player { target: v.bounded_spec(), ..p },
        ClientMessage::Click(b) => Player { mouse: b, ..p },
        ClientMessage::Split(b) => Player { split: b, ..p },
        ClientMessage::Join(b) => Player { join: b, ..p },
        ClientMessage::Escape(b) => Player {
            escape_time: if !b {
                None
            } else if p.escape_time.is_none() {
                Some(now)
            } else {
                p.escape_time
            },
            ..p
        },
        ClientMessage::Spawn(_, _) => p,
    }
}

/// Whether `p` is a freshly spawned player of the given identity at time `now`.
pub open spec fn fresh(p: Player, id: u64, name: Seq<char>, class: Classes, now: u64) -> bool {
    &&& p.wf()
    &&& p.id == id
    &&& p.name@ == name
    &&& p.class == class
    &&& p.vel == Point { x: 0, y: 0 }
    &&& p.target == Point { x: 0, y: 0 }
    &&& p.health == 255
    &&& p.mana == 255
    &&& !p.mouse && !p.split && !p.join
    &&& p.escape_time.is_none()
    &&& p.shot_time.is_none()
    &&& p.split_time.is_none()
}

/// Whether a wormhole lies on the world's edge.
pub open spec fn on_edge(p: Point) -> bool {
    p.in_world() && (p.x == 0 || p.x == WORLDSIZE || p.y == 0 || p.y == WORLDSIZE)
}

impl GameServer {
    /// Applies a client command. A spawn puts a fresh player with full health
    /// and mana at a random position in the world (replacing the sender's
    /// player if it had one); any other command updates the sender's player,
    /// and is ignored when the sender has none.
    pub fn handle_decoded(&mut self, msg: DecodedMessage, now: u64)
        requires
            old(self).wf(),
        ensures
            final(self).wf(),
            *final(self) == (GameServer { players: final(self).players, ..*old(self) }),
            match msg.m {
                ClientMessage::Spawn(n, c) => exists|p: Player|
                    #[trigger] upsert(old(self).players@, p) == final(self).players@ && fresh(p, msg.id, n@, c, now),
                _ => if has_id(old(self).players@, msg.id) {
                    let i = index_of(old(self).players@, msg.id);
                    final(self).players@ == old(self).players@.update(i, commanded(old(self).players@[i], msg.m, now))
                } else {
                    final(self).players@ == old(self).players@
                },
            },
    {
        let ghost m0 = msg.m;
        match msg.m {
            ClientMessage::Spawn(n, c) => {
                let x = random_coord();
                let y = random_coord();
                let p = Player::new(msg.id, n, c, Point { x, y }, now);
                self.insert_player(p);
            },
            m => {
                if let Some(i) = self.find_player(msg.id) {
                    proof {
                        let j = index_of(self.players@, msg.id);
                        assert(0 <= j < self.players@.len() && self.players@[j].id == msg.id);
                    }
                    let mut p = self.players.remove(i);
                    match m {
                        ClientMessage::Click(b) => p.mouse = b,
                        ClientMessage::Split(b) => p.split = b,
                        ClientMessage::Target(v) => p.target = v.bounded(),
                        ClientMessage::Join(b) => p.join = b,
                        ClientMessage::Escape(b) => {
                            if !b {
                                p.escape_time = None;
                            } else if p.escape_time.is_none() {
                                p.escape_time = Some(now);
                            }
                        },
                        ClientMessage::Spawn(_, _) => {},
                    }
                    self.players.insert(i, p);
                    assert(self.players@ =~= old(self).players@.update(i as int, commanded(old(self).players@[i as int], m0, now)));
                }
            },
        }
    }

    /// Forgets the player of a session that has gone away.
    pub fn disconnect(&mut self, msg: Disconnect)
        requires
            old(self).wf(),
        ensures
            final(self).wf(),
            final(self).players@ == without(old(self).players@, msg.id),
            !has_id(final(self).players@, msg.id),
            *final(self) == (GameServer { players: final(self).players, ..*old(self) }),
    {
        if let Some(i) = self.find_player(msg.id) {
            proof {
                let j = index_of(self.players@, msg.id);
                assert(0 <= j < self.players@.len() && self.players@[j].id == msg.id);
            }
            let _p = self.players.remove(i);
            assert forall|k: int| 0 <= k < self.players@.len() implies (#[trigger] self.players@[k]).id != msg.id by {
                if k >= i {
                    assert(self.players@[k] == old(self).players@[k + 1]);
                }
            }
        }
    }

    /// Takes in a player arriving from another instance.
    pub fn accept_transfer(&mut self, player: Player)
        requires
            old(self).wf(),
            player.wf(),
        ensures
            final(self).wf(),
            final(self).players@ == upsert(old(self).players@, player),
            *final(self) == (GameServer { players: final(self).players, ..*old(self) }),
    {
        self.insert_player(player);
    }

    /// Opens a wormhole to the instance `dest` at a random point of the
    /// world's edge, and returns that point.
    pub fn add_wormhole(&mut self, dest: u64, color: u8) -> (r: Point)
        requires
            old(self).wf(),
        ensures
            final(self).wf(),
            on_edge(r),
            final(self).wormholes@ == old(self).wormholes@.push(Wormhole { pos: r, color, dest }),
            *final(self) == (GameServer { wormholes: final(self).wormholes, ..*old(self) }),
    {
        let edge: i64 = if random_u64() % 2 == 0 {
            WORLDSIZE
        } else {
            0
        };
        let vertical = random_u64() % 2 == 0;
        let along = random_coord();
        let pos = if vertical {
            Point { x: edge, y: along }
        } else {
            Point { x: along, y: edge }
        };
        self.wormholes.push(Wormhole { pos, color, dest });
        pos
    }
}

/// Whether `c` shows player `p` as the clients see it at `now`.
pub open spec fn shows_player(c: ClientPlayer, p: Player, now: int) -> bool {
    &&& c.id == p.id
    &&& c.pos == p.pos
    &&& c.name@ == p.name@
    &&& c.target == p.target
    &&& c.health == p.health
    &&& c.mana == p.mana
    &&& c.class == p.class
    &&& c.shot_time == match p.shot_time {
        Some(t) => Some(elapsed(now, t as int) as u64),
        None => None,
    }
}

/// What the clients see of the boss: nothing unless it is alive.
pub open spec fn shown_boss(boss: Option<Boss>) -> Option<ClientBoss> {
    match boss {
        Some(b) => if b.health > 0 {
            Some(ClientBoss { pos: b.pos, health: b.health })
        } else {
            None
        },
        None => None,
    }
}

impl GameServer {
    /// The world as the clients see it at `now`: every player, every bullet
    /// followed by every boss bullet, and the boss only while it is alive.
    pub fn snapshot(&self, now: u64) -> (r: Playfield)
        ensures
            r.players@.len() == self.players@.len(),
            forall|i: int| 0 <= i < self.players@.len() ==> shows_player(#[trigger] r.players@[i], self.players@[i], now as int),
            r.bullets@.len() == self.bullets@.len() + self.boss_bullets@.len(),
            forall|i: int| 0 <= i < self.bullets@.len() ==> #[trigger] r.bullets@[i] == (ClientBullet {
                vel: self.bullets@[i].vel,
                pos: self.bullets@[i].pos,
                id: self.bullets@[i].id,
            }),
            forall|i: int| 0 <= i < self.boss_bullets@.len() ==> #[trigger] r.bullets@[self.bullets@.len() + i] == (ClientBullet {
                vel: self.boss_bullets@[i].vel,
                pos: self.boss_bullets@[i].pos,
                id: self.boss_bullets@[i].id,
            }),
            r.boss == shown_boss(self.boss),
    {
        let mut players: Vec<ClientPlayer> = Vec::new();
        let mut i: usize = 0;
        while i < self.players.len()
            invariant
                i <= self.players@.len(),
                players@.len() == i,
                forall|k: int| 0 <= k < i ==> shows_player(#[trigger] players@[k], self.players@[k], now as int),
            decreases self.players@.len() - i,
        {
            let p = &self.players[i];
            players.push(ClientPlayer {
                id: p.id,
                pos: p.pos,
                name: p.name.clone(),
                target: p.target,
                health: p.health,
                mana: p.mana,
                class: p.class,
                shot_time: match p.shot_time {
                    Some(t) => Some(elapsed_ms(now, t)),
                    None => None,
                },
            });
            i = i + 1;
        }
        let mut bullets: Vec<ClientBullet> = Vec::new();
        let mut j: usize = 0;
        while j < self.bullets.len()
            invariant
                j <= self.bullets@.len(),
                bullets@.len() == j,
                forall|k: int| 0 <= k < j ==> #[trigger] bullets@[k] == (ClientBullet {
                    vel: self.bullets@[k].vel,
                    pos: self.bullets@[k].pos,
                    id: self.bullets@[k].id,
                }),
            decreases self.bullets@.len() - j,
        {
            let b = self.bullets[j];
            bullets.push(ClientBullet { vel: b.vel, pos: b.pos, id: b.id });
            j = j + 1;
        }
        let mut k: usize = 0;
        while k < self.boss_bullets.len()
            invariant
                k <= self.boss_bullets@.len(),
                bullets@.len() == self.bullets@.len() + k,
                forall|m: int| 0 <= m < self.bullets@.len() ==> #[trigger] bullets@[m] == (ClientBullet {
                    vel: self.bullets@[m].vel,
                    pos: self.bullets@[m].pos,
                    id: self.bullets@[m].id,
                }),
                forall|m: int| 0 <= m < k ==> #[trigger] bullets@[self.bullets@.len() + m] == (ClientBullet {
                    vel: self.boss_bullets@[m].vel,
                    pos: self.boss_bullets@[m].pos,
                    id: self.boss_bullets@[m].id,
                }),
            decreases self.boss_bullets@.len() - k,
        {
            let b = self.boss_bullets[k];
            bullets.push(ClientBullet { vel: b.vel, pos: b.pos, id: b.id });
            k = k + 1;
        }
        let boss = match &self.boss {
            Some(b) => if b.health > 0 {
                Some(ClientBoss { pos: b.pos, health: b.health })
            } else {
                None
            },
            None => None,
        };
        Playfield { players, bullets, boss }
    }
}

/// Keeping some players of a registry keeps identifiers unique.
pub(crate) proof fn lemma_filter_ids_unique(ps: Seq<Player>, f: spec_fn(Player) -> bool)
    requires
        ids_unique(ps),
    ensures
        ids_unique(ps.filter(f)),
    decreases ps.len(),
{
    reveal_with_fuel(Seq::filter, 1);
    if ps.len() > 0 {
        let pre = ps.drop_last();
        assert(ids_unique(pre));
        lemma_filter_ids_unique(pre, f);
        let fp = pre.filter(f);
        if f(ps.last()) {
            assert forall|a: int| 0 <= a < fp.len() implies (#[trigger] fp[a]).id != ps.last().id by {
                assert(fp.contains(fp[a]));
                pre.lemma_filter_contains_rev(f, fp[a]);
                let k = choose|k: int| 0 <= k < pre.len() && pre[k] == fp[a];
                assert(ps[k] == pre[k]);
            }
        }
    }
}

/// Time a player must hold escape-intent before it leaves for home, in milliseconds.
pub const ESCAPE_MS: u64 = 1000;
/// Time a dead boss waits before it respawns, in milliseconds.
pub const BOSS_RESPAWN_MS: u64 = 3000;
/// Milliseconds per point of health regenerated.
pub const HEALTH_REGEN_MS: u64 = 48;
/// Milliseconds per point of mana regenerated by a Quickshot.
pub const QUICKSHOT_MANA_MS: u64 = 24;
/// Milliseconds per point of mana regenerated by a Sniper.
pub const SNIPER_MANA_MS: u64 = 16;

/// Whether player `p` has held escape-intent long enough at `now`.
pub open spec fn escaping(p: Player, now: int) -> bool {
    p.escape_time matches Some(t) && elapsed(now, t as int) >= ESCAPE_MS
}

/// Whole regeneration steps of `period` milliseconds since `since`.
pub open spec fn regen_steps(now: int, since: int, period: int) -> int {
    elapsed(now, since) / period
}

pub open spec fn alive_pred() -> spec_fn(Player) -> bool {
    |p: Player| p.health > 0
}

pub open spec fn dead_pred() -> spec_fn(Player) -> bool {
    |p: Player| p.health == 0
}

pub open spec fn staying_pred(now: int) -> spec_fn(Player) -> bool {
    |p: Player| !escaping(p, now)
}

pub open spec fn escaping_pred(now: int) -> spec_fn(Player) -> bool {
    |p: Player| escaping(p, now)
}

/// Keeping some players of a well-formed registry keeps it well formed.
pub(crate) proof fn lemma_filter_players(ps: Seq<Player>, f: spec_fn(Player) -> bool)
    requires
        ids_unique(ps),
        players_wf(ps),
    ensures
        ids_unique(ps.filter(f)),
        players_wf(ps.filter(f)),
{
    lemma_filter_ids_unique(ps, f);
    let kept = ps.filter(f);
    assert forall|a: int| 0 <= a < kept.len() implies (#[trigger] kept[a]).wf() by {
        assert(kept.contains(kept[a]));
        ps.lemma_filter_contains_rev(f, kept[a]);
    }
}

impl GameServer {
    /// Removes every player whose health is zero and returns their
    /// identifiers, in registry order.
    pub fn reap_players(&mut self) -> (r: Vec<u64>)
        requires
            old(self).wf(),
        ensures
            final(self).wf(),
            reap_step(*old(self), *final(self), r@),
    {
        let ghost ps = self.players@;
        let mut rest: Vec<Player> = Vec::new();
        std::mem::swap(&mut self.players, &mut rest);
        let total = rest.len();
        let mut dead: Vec<u64> = Vec::new();
        let mut i: usize = 0;
        assert(ps.subrange(0, 0).filter(alive_pred()) =~= Seq::<Player>::empty()) by {
            reveal_with_fuel(Seq::filter, 1);
        }
        assert(ps.subrange(0, 0).filter(dead_pred()) =~= Seq::<Player>::empty()) by {
            reveal_with_fuel(Seq::filter, 1);
        }
        while rest.len() > 0
            invariant
                ps == old(self).players@,
                ps.len() == total,
                i <= ps.len(),
                rest@ == ps.subrange(i as int, ps.len() as int),
                self.players@ == ps.subrange(0, i as int).filter(alive_pred()),
                dead@ == ps.subrange(0, i as int).filter(dead_pred()).map_values(|p: Player| p.id),
                *self == (GameServer { players: self.players, ..*old(self) }),
            decreases rest@.len(),
        {
            let p = rest.remove(0);
            proof {
                assert(p == ps[i as int]);
                lemma_filter_step(ps, alive_pred(), i as int);
                lemma_filter_step(ps, dead_pred(), i as int);
            }
            let ghost before = ps.subrange(0, i as int).filter(dead_pred());
            if p.health == 0 {
                dead.push(p.id);
                assert(dead@ =~= before.push(p).map_values(|p: Player| p.id));
            } else {
                self.players.push(p);
            }
            i = i + 1;
            assert(rest@ =~= ps.subrange(i as int, ps.len() as int));
        }
        assert(ps.subrange(0, ps.len() as int) =~= ps);
        proof {
            lemma_filter_players(ps, alive_pred());
        }
        dead
    }

    /// On an instance with a route home, removes every player that has held
    /// escape-intent for at least a second and hands each one out for
    /// transfer home. The home instance itself keeps everyone.
    pub fn escape_players(&mut self, now: u64) -> (r: Vec<Transfer>)
        requires
            old(self).wf(),
        ensures
            final(self).wf(),
            escape_step(*old(self), *final(self), now, r@),
    {
        let home = match self.home_server {
            Some(h) => h,
            None => {
                return Vec::new();
            },
        };
        let ghost ps = self.players@;
        let ghost stay = staying_pred(now as int);
        let ghost go = escaping_pred(now as int);
        let mut rest: Vec<Player> = Vec::new();
        std::mem::swap(&mut self.players, &mut rest);
        let total = rest.len();
        let mut moved: Vec<Transfer> = Vec::new();
        let mut i: usize = 0;
        assert(ps.subrange(0, 0).filter(stay) =~= Seq::<Player>::empty()) by {
            reveal_with_fuel(Seq::filter, 1);
        }
        assert(ps.subrange(0, 0).filter(go) =~= Seq::<Player>::empty()) by {
            reveal_with_fuel(Seq::filter, 1);
        }
        assert(moved@.map_values(|t: Transfer| t.player) =~= Seq::<Player>::empty());
        while rest.len() > 0
            invariant
                ps == old(self).players@,
                stay == staying_pred(now as int),
                go == escaping_pred(now as int),
                ps.len() == total,
                i <= ps.len(),
                rest@ == ps.subrange(i as int, ps.len() as int),
                self.players@ == ps.subrange(0, i as int).filter(stay),
                moved@.map_values(|t: Transfer| t.player) == ps.subrange(0, i as int).filter(go),
                forall|t: int| 0 <= t < moved@.len() ==> (#[trigger] moved@[t]).dest == home,
                *self == (GameServer { players: self.players, ..*old(self) }),
            decreases rest@.len(),
        {
            let p = rest.remove(0);
            proof {
                assert(p == ps[i as int]);
                lemma_filter_step(ps, stay, i as int);
                lemma_filter_step(ps, go, i as int);
            }
            let ghost before = moved@;
            let leaving = match p.escape_time {
                Some(t) => elapsed_ms(now, t) >= ESCAPE_MS,
                None => false,
            };
            if leaving {
                moved.push(Transfer { dest: home, player: p });
                assert(moved@.map_values(|t: Transfer| t.player) =~= before.map_values(|t: Transfer| t.player).push(ps[i as int]));
            } else {
                self.players.push(p);
            }
            i = i + 1;
            assert(rest@ =~= ps.subrange(i as int, ps.len() as int));
        }
        assert(ps.subrange(0, ps.len() as int) =~= ps);
        proof {
            lemma_filter_players(ps, stay);
        }
        moved
    }
}

pub open spec fn bullet_alive_pred(now: int) -> spec_fn(Bullet) -> bool {
    |b: Bullet| b.alive_at(now)
}

pub open spec fn boss_bullet_alive_pred(now: int) -> spec_fn(BossBullet) -> bool {
    |b: BossBullet| b.alive_at(now)
}

impl GameServer {
    /// Drops every projectile that has reached the end of its lifetime at `now`.
    pub fn expire(&mut self, now: u64)
        requires
            old(self).wf(),
        ensures
            final(self).wf(),
            expire_step(*old(self), *final(self), now),
    {
        let ghost bs = self.bullets@;
        let ghost keep = bullet_alive_pred(now as int);
        let mut kept: Vec<Bullet> = Vec::new();
        let mut j: usize = 0;
        assert(bs.subrange(0, 0).filter(keep) =~= Seq::<Bullet>::empty()) by {
            reveal_with_fuel(Seq::filter, 1);
        }
        while j < self.bullets.len()
            invariant
                *self == *old(self),
                bs == self.bullets@,
                keep == bullet_alive_pred(now as int),
                j <= bs.len(),
                kept@ == bs.subrange(0, j as int).filter(keep),
            decreases bs.len() - j,
        {
            proof {
                lemma_filter_step(bs, keep, j as int);
            }
            if self.bullets[j].is_alive(now) {
                kept.push(self.bullets[j]);
            }
            j = j + 1;
        }
        assert(bs.subrange(0, bs.len() as int) =~= bs);
        let ghost bbs = self.boss_bullets@;
        let ghost keep_bb = boss_bullet_alive_pred(now as int);
        let mut kept_bb: Vec<BossBullet> = Vec::new();
        let mut m: usize = 0;
        assert(bbs.subrange(0, 0).filter(keep_bb) =~= Seq::<BossBullet>::empty()) by {
            reveal_with_fuel(Seq::filter, 1);
        }
        while m < self.boss_bullets.len()
            invariant
                *self == *old(self),
                bbs == self.boss_bullets@,
                keep_bb == boss_bullet_alive_pred(now as int),
                m <= bbs.len(),
                kept_bb@ == bbs.subrange(0, m as int).filter(keep_bb),
            decreases bbs.len() - m,
        {
            proof {
                lemma_filter_step(bbs, keep_bb, m as int);
            }
            if self.boss_bullets[m].is_alive(now) {
                kept_bb.push(self.boss_bullets[m]);
            }
            m = m + 1;
        }
        assert(bbs.subrange(0, bbs.len() as int) =~= bbs);
        self.bullets = kept;
        self.boss_bullets = kept_bb;
        proof {
            let nb = self.bullets@;
            assert forall|x: int| 0 <= x < nb.len() implies (#[trigger] nb[x]).wf() by {
                assert(nb.contains(nb[x]));
                bs.lemma_filter_contains_rev(keep, nb[x]);
            }
            let nbb = self.boss_bullets@;
            assert forall|x: int| 0 <= x < nbb.len() implies (#[trigger] nbb[x]).wf() by {
                assert(nbb.contains(nbb[x]));
                bbs.lemma_filter_contains_rev(keep_bb, nbb[x]);
            }
        }
    }

    /// Credits every player with the whole health and mana steps that have
    /// passed since the last ones were credited (Quickshots and Snipers
    /// regenerate mana at their own rates), saturating at 255; each clock
    /// advances by every whole step that has passed, so a late tick catches up.
    pub fn regen(&mut self, now: u64)
        requires
            old(self).wf(),
        ensures
            final(self).wf(),
            regen_step(*old(self), *final(self), now),
    {
        let hn = steps(now, self.health_tick, HEALTH_REGEN_MS);
        let qn = steps(now, self.quickshot_mana, QUICKSHOT_MANA_MS);
        let sn = steps(now, self.sniper_mana, SNIPER_MANA_MS);
        let ht = capped_u8(hn);
        let qt = capped_u8(qn);
        let st = capped_u8(sn);
        let ghost pre = *self;
        let mut i: usize = 0;
        while i < self.players.len()
            invariant
                pre.wf(),
                i <= self.players@.len(),
                self.players@.len() == pre.players@.len(),
                forall|m: int| 0 <= m < i ==> #[trigger] self.players@[m] == (Player {
                    health: sat_add_u8(pre.players@[m].health as int, ht as int) as u8,
                    mana: sat_add_u8(
                        pre.players@[m].mana as int,
                        if pre.players@[m].class == Classes::Quickshot { qt as int } else { st as int },
                    ) as u8,
                    ..pre.players@[m]
                }),
                forall|m: int| i <= m < pre.players@.len() ==> #[trigger] self.players@[m] == pre.players@[m],
                *self == (GameServer { players: self.players, ..pre }),
            decreases pre.players@.len() - i,
        {
            let mut p = self.players.remove(i);
            let gain = match p.class {
                Classes::Quickshot => qt,
                Classes::Sniper => st,
            };
            p.regen(ht, gain);
            self.players.insert(i, p);
            i = i + 1;
        }
        self.health_tick = self.health_tick + hn * HEALTH_REGEN_MS;
        self.quickshot_mana = self.quickshot_mana + qn * QUICKSHOT_MANA_MS;
        self.sniper_mana = self.sniper_mana + sn * SNIPER_MANA_MS;
        proof {
            assert forall|x: int, y: int| 0 <= x < self.players@.len() && 0 <= y < self.players@.len() && x != y
                implies self.players@[x].id != self.players@[y].id by {
                assert(self.players@[x].id == pre.players@[x].id);
                assert(self.players@[y].id == pre.players@[y].id);
            }
            assert forall|x: int| 0 <= x < self.players@.len() implies (#[trigger] self.players@[x]).wf() by {
                assert(pre.players@[x].wf());
            }
        }
    }

    /// Moves every projectile along its velocity for `ms` milliseconds.
    pub fn advance_projectiles(&mut self, ms: u64)
        requires
            old(self).wf(),
        ensures
            final(self).wf(),
            advance_step(*old(self), *final(self), ms),
    {
        let ghost pre = *self;
        let mut i: usize = 0;
        while i < self.bullets.len()
            invariant
                pre.wf(),
                i <= self.bullets@.len(),
                self.bullets@.len() == pre.bullets@.len(),
                forall|m: int| 0 <= m < i ==> #[trigger] self.bullets@[m] == (Bullet {
                    pos: pre.bullets@[m].pos.advanced_spec(pre.bullets@[m].vel, ms as int),
                    ..pre.bullets@[m]
                }),
                forall|m: int| i <= m < pre.bullets@.len() ==> #[trigger] self.bullets@[m] == pre.bullets@[m],
                bullets_wf(self.bullets@),
                *self == (GameServer { bullets: self.bullets, ..pre }),
            decreases pre.bullets@.len() - i,
        {
            let mut b = self.bullets[i];
            b.advance(ms);
            self.bullets.set(i, b);
            i = i + 1;
        }
        let mut k: usize = 0;
        while k < self.boss_bullets.len()
            invariant
                pre.wf(),
                k <= self.boss_bullets@.len(),
                self.boss_bullets@.len() == pre.boss_bullets@.len(),
                forall|m: int| 0 <= m < k ==> #[trigger] self.boss_bullets@[m] == (BossBullet {
                    pos: pre.boss_bullets@[m].pos.advanced_spec(pre.boss_bullets@[m].vel, ms as int),
                    ..pre.boss_bullets@[m]
                }),
                forall|m: int| k <= m < pre.boss_bullets@.len() ==> #[trigger] self.boss_bullets@[m] == pre.boss_bullets@[m],
                bullets_wf(self.bullets@),
                boss_bullets_wf(self.boss_bullets@),
                self.bullets@.len() == pre.bullets@.len(),
                forall|m: int| 0 <= m < pre.bullets@.len() ==> #[trigger] self.bullets@[m] == (Bullet {
                    pos: pre.bullets@[m].pos.advanced_spec(pre.bullets@[m].vel, ms as int),
                    ..pre.bullets@[m]
                }),
                *self == (GameServer { bullets: self.bullets, boss_bullets: self.boss_bullets, ..pre }),
            decreases pre.boss_bullets@.len() - k,
        {
            let mut b = self.boss_bullets[k];
            b.advance(ms);
            self.boss_bullets.set(k, b);
            k = k + 1;
        }
    }
}

/// Whole steps of `period` milliseconds from `since` to `now`.
fn steps(now: u64, since: u64, period: u64) -> (r: u64)
    requires
        period > 0,
    ensures
        r == regen_steps(now as int, since as int, period as int),
        since + r * period <= now || r == 0,
{
    let n = elapsed_ms(now, since) / period;
    assert(n * period <= elapsed(now as int, since as int)) by (nonlinear_arith)
        requires
            n == elapsed(now as int, since as int) / (period as int),
            period > 0,
            elapsed(now as int, since as int) >= 0,
    ;
    n
}

/// `n`, saturated at 255.
fn capped_u8(n: u64) -> (r: u8)
    ensures
        r == cap(n as int),
{
    if n < 255 {
        n as u8
    } else {
        255
    }
}

/// What a player's own tick makes of it.
pub open spec fn ticked(p: Player, now: int, m: PlayerMotion) -> Player {
    let moved = p.moved(now, m.cruise_vel, m.boost_vel);
    if p.fire_ready_at(now) {
        Player { shot_time: Some(now as u64), ..moved }
    } else {
        moved
    }
}

impl GameServer {
    /// The boss's part of a tick. A living boss with players to chase steers
    /// and fires as `motion` and its cadence say; a living boss alone stays
    /// put. A dead boss stays exactly as it is, and fires nothing, until the
    /// respawn delay has passed since its death; then it comes back
    /// at a random position with full health.
    pub fn boss_phase(&mut self, now: u64, motion: &BossMotion)
        requires
            old(self).wf(),
        ensures
            final(self).wf(),
            boss_step(*old(self), *final(self), now, *motion),
    {
        let ghost pre = *self;
        let mut boss = match self.boss {
            Some(b) => b,
            None => {
                return;
            },
        };
        if boss.health > 0 {
            if self.players.len() > 0 {
                let ghost n0 = self.boss_bullets@.len();
                boss.tick(now, motion, &mut self.boss_bullets);
                self.boss = Some(boss);
                assert forall|i: int| 0 <= i < self.boss_bullets@.len() implies (#[trigger] self.boss_bullets@[i]).wf() by {
                    if i < n0 {
                        assert(self.boss_bullets@[i] == pre.boss_bullets@[i]);
                    }
                }
            }
        } else if elapsed_ms(now, self.boss_dead) >= BOSS_RESPAWN_MS {
            boss.respawn(now);
            self.boss = Some(boss);
        }
    }

    /// Every player's own tick, each with its entry of `motions`, whose burst
    /// has the class's size wherever the gun is ready. The bullets fired are
    /// appended in player order: for each player that fires, one per shot of
    /// its burst.
    pub fn players_phase(&mut self, now: u64, motions: &Vec<PlayerMotion>)
        requires
            old(self).wf(),
            motions@.len() == old(self).players@.len(),
            forall|i: int| 0 <= i < motions@.len() && old(self).players@[i].fire_ready_at(now as int)
                ==> (#[trigger] motions@[i]).burst@.len() == burst_spec(old(self).players@[i].class, old(self).players@[i].health as int),
        ensures
            final(self).wf(),
            players_step(*old(self), *final(self), now, motions@),
    {
        let ghost pre = *self;
        let ghost ps = pre.players@;
        let mut i: usize = 0;
        while i < self.players.len()
            invariant
                pre.wf(),
                ps == pre.players@,
                motions@.len() == ps.len(),
                forall|j: int| 0 <= j < motions@.len() && ps[j].fire_ready_at(now as int)
                    ==> (#[trigger] motions@[j]).burst@.len() == burst_spec(ps[j].class, ps[j].health as int),
                i <= self.players@.len(),
                self.players@.len() == ps.len(),
                forall|m: int| 0 <= m < i ==> #[trigger] self.players@[m] == ticked(ps[m], now as int, motions@[m]),
                forall|m: int| 0 <= m < i ==> (#[trigger] self.players@[m]).wf(),
                forall|m: int| i <= m < ps.len() ==> #[trigger] self.players@[m] == ps[m],
                self.bullets@.len() == pre.bullets@.len() + fired_before(ps, motions@, now as int, i as int),
                forall|m: int| 0 <= m < pre.bullets@.len() ==> #[trigger] self.bullets@[m] == pre.bullets@[m],
                forall|j: int, k: int|
                    0 <= j < i && ps[j].fire_ready_at(now as int) && 0 <= k < motions@[j].burst@.len()
                    ==> ps[j].moved(now as int, motions@[j].cruise_vel, motions@[j].boost_vel).fired(
                        self.bullets@[pre.bullets@.len() + fired_before(ps, motions@, now as int, j) + k],
                        #[trigger] motions@[j].burst@[k],
                        now as int,
                    ),
                bullets_wf(self.bullets@),
                *self == (GameServer { players: self.players, bullets: self.bullets, ..pre }),
            decreases ps.len() - i,
        {
            let mut p = self.players.remove(i);
            let ghost n0 = self.bullets@.len();
            let ghost b0 = self.bullets@;
            assert(p == ps[i as int]);
            p.tick(now, &motions[i], &mut self.bullets);
            proof {
                let mi = ps[i as int].moved(now as int, motions@[i as int].cruise_vel, motions@[i as int].boost_vel);
                lemma_fired_before_mono(ps, motions@, now as int, 0, i as int);
                assert forall|m: int| 0 <= m < n0 implies #[trigger] self.bullets@[m] == b0[m] by {}
                assert forall|k: int| 0 <= k < self.bullets@.len() implies (#[trigger] self.bullets@[k]).wf() by {
                    if k < n0 {
                        assert(self.bullets@[k] == b0[k]);
                    } else {
                        assert(mi.fired(self.bullets@[n0 + (k - n0)], motions@[i as int].burst@[k - n0], now as int));
                    }
                }
                assert forall|j: int, k: int|
                    0 <= j < i + 1 && ps[j].fire_ready_at(now as int) && 0 <= k < motions@[j].burst@.len()
                    implies ps[j].moved(now as int, motions@[j].cruise_vel, motions@[j].boost_vel).fired(
                        self.bullets@[pre.bullets@.len() + fired_before(ps, motions@, now as int, j) + k],
                        #[trigger] motions@[j].burst@[k],
                        now as int,
                    ) by {
                    if j < i {
                        lemma_fired_before_mono(ps, motions@, now as int, j + 1, i as int);
                        lemma_fired_before_mono(ps, motions@, now as int, 0, j);
                        assert(fired_before(ps, motions@, now as int, j + 1) == fired_before(ps, motions@, now as int, j)
                            + motions@[j].burst@.len());
                        let x = pre.bullets@.len() + fired_before(ps, motions@, now as int, j) + k;
                        assert(self.bullets@[x] == b0[x]);
                    } else {
                        assert(mi.fired(self.bullets@[n0 + k], motions@[i as int].burst@[k], now as int));
                    }
                }
            }
            self.players.insert(i, p);
            i = i + 1;
        }
        proof {
            assert forall|x: int, y: int| 0 <= x < self.players@.len() && 0 <= y < self.players@.len() && x != y
                implies self.players@[x].id != self.players@[y].id by {
                assert(self.players@[x].id == pre.players@[x].id);
                assert(self.players@[y].id == pre.players@[y].id);
            }
        }
    }
}

/// Number of bullets fired at `now` by the players of `ps` before index `i`,
/// each firing the burst of its motion in `ms` when its gun is ready.
pub open spec fn fired_before(ps: Seq<Player>, ms: Seq<PlayerMotion>, now: int, i: int) -> int
    decreases i,
{
    if i <= 0 {
        0
    } else {
        fired_before(ps, ms, now, i - 1) + if ps[i - 1].fire_ready_at(now) { ms[i - 1].burst@.len() as int } else { 0 }
    }
}

proof fn lemma_fired_before_mono(ps: Seq<Player>, ms: Seq<PlayerMotion>, now: int, a: int, b: int)
    requires
        0 <= a <= b,
    ensures
        fired_before(ps, ms, now, a) <= fired_before(ps, ms, now, b),
    decreases b - a,
{
    if a < b {
        lemma_fired_before_mono(ps, ms, now, a, b - 1);
    }
}

impl GameServer {
    /// One simulation step at `now`, in order: the boss, every player's own
    /// tick, regeneration, projectile motion over the time since the last
    /// step, wormhole capture, the hit pass, reaping of dead players, escapes
    /// home, and expiry of old projectiles. Reports the players that died and
    /// those leaving the instance. The states in between are linked by the
    /// phases' own relations (`tick_chain`); the result is the last of them
    /// with the clock stamped.
    pub fn tick(&mut self, now: u64, plan: &TickPlan) -> (r: TickEvents)
        requires
            old(self).wf(),
            plan.players@.len() == old(self).players@.len(),
            forall|i: int| 0 <= i < plan.players@.len() && old(self).players@[i].fire_ready_at(now as int)
                ==> (#[trigger] plan.players@[i]).burst@.len() == burst_spec(old(self).players@[i].class, old(self).players@[i].health as int),
        ensures
            final(self).wf(),
            final(self).last_tick == now,
            forall|i: int| 0 <= i < final(self).bullets@.len() ==> (#[trigger] final(self).bullets@[i]).alive_at(now as int),
            forall|i: int| 0 <= i < final(self).boss_bullets@.len() ==> (#[trigger] final(self).boss_bullets@[i]).alive_at(now as int),
            forall|i: int| 0 <= i < final(self).players@.len() ==> (#[trigger] final(self).players@[i]).health > 0,
            final(self).wormholes == old(self).wormholes,
            final(self).pvp_enabled == old(self).pvp_enabled,
            final(self).home_server == old(self).home_server,
            final(self).players@.len() + r.deaths@.len() + r.transfers@.len() == old(self).players@.len(),
            exists|s1: GameServer, s2: GameServer, s3: GameServer, s4: GameServer, s5: GameServer,
                s6: GameServer, s7: GameServer, s8: GameServer, s9: GameServer,
                captured: Seq<Transfer>, escaped: Seq<Transfer>|
                #[trigger] tick_chain(
                    *old(self), s1, s2, s3, s4, s5, s6, s7, s8, s9, now, plan.boss, plan.players@,
                    captured, r.deaths@, escaped,
                ) && *final(self) == (GameServer { last_tick: now, ..s9 })
                    && r.transfers@ == captured + escaped,
            old(self).boss matches Some(b) && b.health == 0 && elapsed(now as int, old(self).boss_dead as int) < BOSS_RESPAWN_MS
                ==> final(self).boss == old(self).boss && final(self).boss_bullets@.len() <= old(self).boss_bullets@.len(),
    {
        let ghost pre = *self;
        let ms = elapsed_ms(now, self.last_tick);
        self.boss_phase(now, &plan.boss);
        let ghost g1 = *self;
        self.players_phase(now, &plan.players);
        let ghost g2 = *self;
        self.regen(now);
        let ghost g3 = *self;
        self.advance_projectiles(ms);
        let ghost g4 = *self;
        let ghost before_capture = self.players@;
        let mut transfers = self.capture_players();
        let ghost captured = transfers@;
        let ghost g5 = *self;
        proof {
            let w = before_capture;
            lemma_filter_split(w, pre.not_captured_pred(), pre.captured_pred());
            assert(transfers@.map_values(|t: Transfer| t.player).len() == transfers@.len());
        }
        let ghost before_hits = *self;
        self.resolve_hits(now);
        let ghost g6 = *self;
        proof {
            before_hits.boss_bullets@.lemma_filter_len(before_hits.boss_bullet_kept_pred());
        }
        let ghost hit_players = self.players@;
        let deaths = self.reap_players();
        let ghost g7 = *self;
        proof {
            lemma_filter_split(hit_players, alive_pred(), dead_pred());
            assert(hit_players.filter(dead_pred()).map_values(|p: Player| p.id).len() == deaths@.len());
        }
        let ghost reaped = self.players@;
        let mut escaped = self.escape_players(now);
        let ghost escaped_seq = escaped@;
        let ghost g8 = *self;
        proof {
            lemma_filter_split(reaped, staying_pred(now as int), escaping_pred(now as int));
            assert(escaped@.map_values(|t: Transfer| t.player).len() == escaped@.len());
        }
        transfers.append(&mut escaped);
        let ghost before_expiry = *self;
        self.expire(now);
        let ghost g9 = *self;
        self.last_tick = now;
        proof {
            let bs = before_expiry.bullets@;
            let bbs = before_expiry.boss_bullets@;
            bbs.lemma_filter_len(boss_bullet_alive_pred(now as int));
            let nb = self.bullets@;
            assert forall|i: int| 0 <= i < nb.len() implies (#[trigger] nb[i]).alive_at(now as int) by {
                bs.lemma_filter_pred(bullet_alive_pred(now as int), i);
            }
            let nbb = self.boss_bullets@;
            assert forall|i: int| 0 <= i < nbb.len() implies (#[trigger] nbb[i]).alive_at(now as int) by {
                bbs.lemma_filter_pred(boss_bullet_alive_pred(now as int), i);
            }
            let ps = self.players@;
            assert forall|k: int| 0 <= k < reaped.len() implies (#[trigger] reaped[k]).health > 0 by {
                hit_players.lemma_filter_pred(alive_pred(), k);
            }
            assert forall|i: int| 0 <= i < ps.len() implies (#[trigger] ps[i]).health > 0 by {
                if pre.home_server.is_some() {
                    assert(ps.contains(ps[i]));
                    reaped.lemma_filter_contains_rev(staying_pred(now as int), ps[i]);
                }
            }
        }
        proof {
            assert(tick_chain(pre, g1, g2, g3, g4, g5, g6, g7, g8, g9, now, plan.boss, plan.players@, captured, deaths@, escaped_seq));
            assert(transfers@ =~= captured + escaped_seq);
        }
        TickEvents { deaths, transfers }
    }
}

/// A dead boss is never shown to clients, and the hit pass neither wounds,
/// heals nor kills it again.
pub proof fn lemma_dead_boss_inert(s: GameServer, b: Boss)
    requires
        s.boss == Some(b),
        b.health == 0,
    ensures
        shown_boss(s.boss).is_none(),
        s.boss_after_hits() == s.boss,
        !s.boss_killed(),
{
}
/// What `boss_phase` does to a state at `now` with the boss's motion.
pub open spec fn boss_step(pre: GameServer, post: GameServer, now: u64, motion: BossMotion) -> bool {
    &&& post == (GameServer { boss: post.boss, boss_bullets: post.boss_bullets, ..pre })
    &&& match pre.boss {
        None => post.boss.is_none() && post.boss_bullets@ == pre.boss_bullets@,
        Some(b) => if b.health == 0 {
            if elapsed(now as int, pre.boss_dead as int) >= BOSS_RESPAWN_MS {
                &&& post.boss matches Some(nb) && nb.health == 255 && nb.pos.in_world()
                    && nb.vel == (Point { x: 0, y: 0 }) && nb.shot_time == now && nb.shot_time2 == now
                    && nb.class == b.class
                &&& post.boss_bullets@ == pre.boss_bullets@
            } else {
                &&& post.boss == pre.boss
                &&& post.boss_bullets@ == pre.boss_bullets@
            }
        } else if pre.players@.len() == 0 {
            &&& post.boss == pre.boss
            &&& post.boss_bullets@ == pre.boss_bullets@
        } else {
            &&& post.boss matches Some(nb)
            &&& b.ticked_to(nb, now as int, motion, pre.boss_bullets@, post.boss_bullets@)
        }
    }
}

/// What `players_phase` does to a state at `now` with the players' motions.
pub open spec fn players_step(pre: GameServer, post: GameServer, now: u64, motions: Seq<PlayerMotion>) -> bool {
    &&& post.players@.len() == pre.players@.len()
    &&& forall|i: int| 0 <= i < pre.players@.len() ==> #[trigger] post.players@[i] == ticked(pre.players@[i], now as int, motions[i])
    &&& post.bullets@.len() == pre.bullets@.len() + fired_before(pre.players@, motions, now as int, pre.players@.len() as int)
    &&& forall|i: int| 0 <= i < pre.bullets@.len() ==> #[trigger] post.bullets@[i] == pre.bullets@[i]
    &&& forall|i: int, k: int|
        0 <= i < pre.players@.len() && pre.players@[i].fire_ready_at(now as int) && 0 <= k < motions[i].burst@.len()
        ==> pre.players@[i].moved(now as int, motions[i].cruise_vel, motions[i].boost_vel).fired(
            post.bullets@[pre.bullets@.len() + fired_before(pre.players@, motions, now as int, i) + k],
            #[trigger] motions[i].burst@[k],
            now as int,
        )
    &&& post == (GameServer { players: post.players, bullets: post.bullets, ..pre })
}

/// What `regen` does to a state at `now`.
pub open spec fn regen_step(pre: GameServer, post: GameServer, now: u64) -> bool {
    &&& ({
        let ht = regen_steps(now as int, pre.health_tick as int, HEALTH_REGEN_MS as int);
        let qt = regen_steps(now as int, pre.quickshot_mana as int, QUICKSHOT_MANA_MS as int);
        let st = regen_steps(now as int, pre.sniper_mana as int, SNIPER_MANA_MS as int);
        &&& post.players@.len() == pre.players@.len()
        &&& forall|i: int| 0 <= i < pre.players@.len() ==> #[trigger] post.players@[i] == (Player {
            health: sat_add_u8(pre.players@[i].health as int, ht) as u8,
            mana: sat_add_u8(
                pre.players@[i].mana as int,
                if pre.players@[i].class == Classes::Quickshot { qt } else { st },
            ) as u8,
            ..pre.players@[i]
        })
        &&& post.health_tick == pre.health_tick + ht * HEALTH_REGEN_MS
        &&& post.quickshot_mana == pre.quickshot_mana + qt * QUICKSHOT_MANA_MS
        &&& post.sniper_mana == pre.sniper_mana + st * SNIPER_MANA_MS
        &&& post == (GameServer {
            players: post.players,
            health_tick: post.health_tick,
            quickshot_mana: post.quickshot_mana,
            sniper_mana: post.sniper_mana,
            ..pre
        })
    })
}

/// What `advance_projectiles` does to a state over `ms` milliseconds.
pub open spec fn advance_step(pre: GameServer, post: GameServer, ms: u64) -> bool {
    &&& post.bullets@.len() == pre.bullets@.len()
    &&& forall|i: int| 0 <= i < pre.bullets@.len() ==> #[trigger] post.bullets@[i] == (Bullet {
        pos: pre.bullets@[i].pos.advanced_spec(pre.bullets@[i].vel, ms as int),
        ..pre.bullets@[i]
    })
    &&& post.boss_bullets@.len() == pre.boss_bullets@.len()
    &&& forall|i: int| 0 <= i < pre.boss_bullets@.len() ==> #[trigger] post.boss_bullets@[i] == (BossBullet {
        pos: pre.boss_bullets@[i].pos.advanced_spec(pre.boss_bullets@[i].vel, ms as int),
        ..pre.boss_bullets@[i]
    })
    &&& post == (GameServer { bullets: post.bullets, boss_bullets: post.boss_bullets, ..pre })
}

/// What `reap_players` does to a state, reporting the identifiers `r`.
pub open spec fn reap_step(pre: GameServer, post: GameServer, r: Seq<u64>) -> bool {
    &&& post.players@ == pre.players@.filter(alive_pred())
    &&& r == pre.players@.filter(dead_pred()).map_values(|p: Player| p.id)
    &&& post == (GameServer { players: post.players, ..pre })
}

/// What `escape_players` does to a state at `now`, handing out `r`.
pub open spec fn escape_step(pre: GameServer, post: GameServer, now: u64, r: Seq<Transfer>) -> bool {
    &&& post == (GameServer { players: post.players, ..pre })
    &&& match pre.home_server {
        Some(h) => {
            &&& post.players@ == pre.players@.filter(staying_pred(now as int))
            &&& r.map_values(|t: Transfer| t.player) == pre.players@.filter(escaping_pred(now as int))
            &&& forall|t: int| 0 <= t < r.len() ==> (#[trigger] r[t]).dest == h
        },
        None => post.players@ == pre.players@ && r.len() == 0
    }
}

/// What `expire` does to a state at `now`.
pub open spec fn expire_step(pre: GameServer, post: GameServer, now: u64) -> bool {
    &&& post.bullets@ == pre.bullets@.filter(bullet_alive_pred(now as int))
    &&& post.boss_bullets@ == pre.boss_bullets@.filter(boss_bullet_alive_pred(now as int))
    &&& post == (GameServer { bullets: post.bullets, boss_bullets: post.boss_bullets, ..pre })
}

/// The states a tick at `now` passes through, from `s0` to `s9`, one phase
/// at a time: the boss, the players' own ticks, regeneration, projectile
/// motion over the time since `s0`'s last tick, wormhole capture (handing out
/// `captured`), the hit pass, reaping (reporting `deaths`), escapes home
/// (handing out `escaped`) and expiry.
pub open spec fn tick_chain(
    s0: GameServer,
    s1: GameServer,
    s2: GameServer,
    s3: GameServer,
    s4: GameServer,
    s5: GameServer,
    s6: GameServer,
    s7: GameServer,
    s8: GameServer,
    s9: GameServer,
    now: u64,
    plan_boss: BossMotion,
    plan_players: Seq<PlayerMotion>,
    captured: Seq<Transfer>,
    deaths: Seq<u64>,
    escaped: Seq<Transfer>,
) -> bool {
    &&& boss_step(s0, s1, now, plan_boss)
    &&& players_step(s1, s2, now, plan_players)
    &&& regen_step(s2, s3, now)
    &&& advance_step(s3, s4, elapsed(now as int, s0.last_tick as int) as u64)
    &&& capture_step(s4, s5, captured)
    &&& hits_step(s5, s6, now)
    &&& reap_step(s6, s7, deaths)
    &&& escape_step(s7, s8, now, escaped)
    &&& expire_step(s8, s9, now)
}

} // verus!
