//! The collision resolver: wormhole capture, and the hit pass over bullets,
//! boss bullets, players and the boss, with its damage and lifesteal rules.
use crate::boss::Boss;
use crate::bullet::{BossBullet, Bullet};
use crate::collision::{
    bb_hits, bb_total, bb_victims, boss_bullet_boxes, boss_hits, boxes_of_boss_bullets, boxes_of_bullets, boxes_of_players, bullet_boxes, bullet_score, count_bb_hits, count_bb_victims, count_boss_hits, count_pvp_hits, count_victims, credit_hits, hits_boss, lemma_filter_step, player_boxes, pvp_hits, victims,
};
use crate::geometry::{overlap, overlaps};
use crate::player::{hit_health, Player};
use crate::server::{
    boss_bullets_wf, bullets_wf, lemma_filter_players, players_wf, GameServer, Transfer, Wormhole,
};
use crate::spatial::{indexed_boxes, BoxIndex};
use vstd::prelude::*;

verus! {

/// A wormhole takes in a player that holds join-intent and touches it.
pub open spec fn captures(w: Wormhole, p: Player) -> bool {
    p.join && overlap(p.pos, Player::RADIUS as int, w.pos, Wormhole::RADIUS as int)
}

pub open spec fn captured(ws: Seq<Wormhole>, p: Player) -> bool {
    exists|k: int| 0 <= k < ws.len() && captures(#[trigger] ws[k], p)
}

/// `k` is the first of the wormholes of `ws` that captures `p`.
pub open spec fn first_capture(ws: Seq<Wormhole>, p: Player, k: int) -> bool {
    &&& 0 <= k < ws.len()
    &&& captures(ws[k], p)
    &&& forall|j: int| 0 <= j < k ==> !captures(#[trigger] ws[j], p)
}

/// The destination of the first wormhole that captures `p`.
pub open spec fn capture_dest(ws: Seq<Wormhole>, p: Player) -> u64 {
    ws[choose|k: int| first_capture(ws, p, k)].dest
}

proof fn lemma_first_capture_unique(ws: Seq<Wormhole>, p: Player, k: int)
    requires
        first_capture(ws, p, k),
    ensures
        capture_dest(ws, p) == ws[k].dest,
{
    let c = choose|c: int| first_capture(ws, p, c);
    assert(first_capture(ws, p, c));
    if c < k {
        assert(!captures(ws[c], p));
    } else if c > k {
        assert(!captures(ws[k], p));
    }
}

/// The first wormhole of `ws` that captures `p`, if any.
pub fn capturing_wormhole(ws: &Vec<Wormhole>, p: &Player) -> (r: Option<usize>)
    requires
        forall|i: int| 0 <= i < ws@.len() ==> (#[trigger] ws@[i]).pos.wf(),
        p.pos.wf(),
    ensures
        r.is_none() <==> !captured(ws@, *p),
        r matches Some(k) ==> first_capture(ws@, *p, k as int),
{
    if !p.join {
        return None;
    }
    let mut k: usize = 0;
    while k < ws.len()
        invariant
            forall|i: int| 0 <= i < ws@.len() ==> (#[trigger] ws@[i]).pos.wf(),
            p.pos.wf(),
            p.join,
            k <= ws@.len(),
            forall|j: int| 0 <= j < k ==> !captures(#[trigger] ws@[j], *p),
        decreases ws@.len() - k,
    {
        if overlaps(p.pos, Player::RADIUS, ws[k].pos, Wormhole::RADIUS) {
            return Some(k);
        }
        k = k + 1;
    }
    None
}

impl GameServer {
    pub open spec fn not_captured_pred(self) -> spec_fn(Player) -> bool {
        |p: Player| !captured(self.wormholes@, p)
    }

    pub open spec fn captured_pred(self) -> spec_fn(Player) -> bool {
        |p: Player| captured(self.wormholes@, p)
    }

    /// Removes every player that a wormhole captures and hands each one out
    /// for transfer to the first capturing wormhole's destination; the others
    /// keep their order.
    pub fn capture_players(&mut self) -> (r: Vec<Transfer>)
        requires
            old(self).wf(),
        ensures
            final(self).wf(),
            capture_step(*old(self), *final(self), r@),
    {
        let ghost ps = self.players@;
        let ghost keep = self.not_captured_pred();
        let ghost take = self.captured_pred();
        let mut rest: Vec<Player> = Vec::new();
        std::mem::swap(&mut self.players, &mut rest);
        let total = rest.len();
        let mut moved: Vec<Transfer> = Vec::new();
        let mut i: usize = 0;
        assert(ps.subrange(0, 0).filter(keep) =~= Seq::<Player>::empty()) by {
            reveal_with_fuel(Seq::filter, 1);
        }
        assert(ps.subrange(0, 0).filter(take) =~= Seq::<Player>::empty()) by {
            reveal_with_fuel(Seq::filter, 1);
        }
        assert(moved@.map_values(|t: Transfer| t.player) =~= Seq::<Player>::empty());
        while rest.len() > 0
            invariant
                ps == old(self).players@,
                keep == old(self).not_captured_pred(),
                take == old(self).captured_pred(),
                self.wormholes == old(self).wormholes,
                forall|k: int| 0 <= k < self.wormholes@.len() ==> (#[trigger] self.wormholes@[k]).pos.wf(),
                players_wf(ps),
                ps.len() == total,
                i <= ps.len(),
                rest@ == ps.subrange(i as int, ps.len() as int),
                self.players@ == ps.subrange(0, i as int).filter(keep),
                moved@.map_values(|t: Transfer| t.player) == ps.subrange(0, i as int).filter(take),
                forall|t: int| 0 <= t < moved@.len() ==> (#[trigger] moved@[t]).dest == capture_dest(self.wormholes@, moved@[t].player),
                *self == (GameServer { players: self.players, ..*old(self) }),
            decreases rest@.len(),
        {
            let p = rest.remove(0);
            proof {
                assert(p == ps[i as int]);
                lemma_filter_step(ps, keep, i as int);
                lemma_filter_step(ps, take, i as int);
            }
            let ghost before = moved@;
            match capturing_wormhole(&self.wormholes, &p) {
                Some(k) => {
                    let dest = self.wormholes[k].dest;
                    proof {
                        lemma_first_capture_unique(self.wormholes@, p, k as int);
                    }
                    moved.push(Transfer { dest, player: p });
                    assert(moved@.map_values(|t: Transfer| t.player) =~= before.map_values(|t: Transfer| t.player).push(ps[i as int]));
                },
                None => {
                    self.players.push(p);
                },
            }
            i = i + 1;
            assert(rest@ =~= ps.subrange(i as int, ps.len() as int));
        }
        assert(ps.subrange(0, ps.len() as int) =~= ps);
        proof {
            lemma_filter_players(ps, keep);
        }
        moved
    }
}

/// Damage a player bullet deals to a player it hits.
pub const PVP_DAMAGE: u64 = 8;
/// Damage a player bullet deals to the boss.
pub const BOSS_DAMAGE: u64 = 8;
/// Health credited to a bullet's owner for each hit it scores.
pub const LIFESTEAL: u64 = 4;
/// Damage a boss bullet deals to a player it hits.
pub const BOSS_BULLET_DAMAGE: u64 = 50;
/// Health the living boss regains for each hit of its bullets.
pub const BOSS_HEAL: u64 = 20;

/// `x`, saturated at 255.
pub open spec fn cap(x: int) -> int {
    if x < 255 {
        x
    } else {
        255
    }
}

impl GameServer {
    /// Damage that player `p` takes in a hit pass over this state.
    pub open spec fn damage_of(self, p: Player) -> int {
        (if self.pvp_enabled { PVP_DAMAGE * pvp_hits(self.bullets@, p) } else { 0 })
            + BOSS_BULLET_DAMAGE * bb_hits(self.boss_bullets@, p)
    }

    /// Lifesteal credited to player `p` in a hit pass over this state.
    pub open spec fn credit_of(self, p: Player) -> int {
        LIFESTEAL * credit_hits(self.bullets@, self.players@, self.boss, self.pvp_enabled, p.id)
    }

    /// A bullet is used up when it scores any hit.
    pub open spec fn bullet_spent(self, b: Bullet) -> bool {
        bullet_score(b, self.players@, self.boss, self.pvp_enabled) > 0
    }

    pub open spec fn boss_bullet_spent(self, bb: BossBullet) -> bool {
        bb_victims(bb, self.players@) > 0
    }

    pub open spec fn bullet_kept_pred(self) -> spec_fn(Bullet) -> bool {
        |b: Bullet| !self.bullet_spent(b)
    }

    pub open spec fn boss_bullet_kept_pred(self) -> spec_fn(BossBullet) -> bool {
        |bb: BossBullet| !self.boss_bullet_spent(bb)
    }

    /// Boss health after the bullets that hit it.
    pub open spec fn boss_wounded(self, b: Boss) -> int {
        let d = BOSS_DAMAGE * boss_hits(self.bullets@, b);
        if b.health >= d {
            b.health - d
        } else {
            0
        }
    }

    /// The boss after a hit pass: a living boss loses health to the bullets
    /// that hit it and then, if still alive, heals for each hit its bullets score.
    pub open spec fn boss_after_hits(self) -> Option<Boss> {
        match self.boss {
            Some(b) => if b.health > 0 {
                let h1 = self.boss_wounded(b);
                let h2 = if h1 > 0 {
                    cap(h1 + BOSS_HEAL * bb_total(self.boss_bullets@, self.players@))
                } else {
                    0
                };
                Some(Boss { health: h2 as u8, ..b })
            } else {
                Some(b)
            },
            None => None,
        }
    }

    /// Whether a hit pass kills the boss.
    pub open spec fn boss_killed(self) -> bool {
        self.boss matches Some(b) && b.health > 0 && self.boss_wounded(b) == 0
    }

    /// For each bullet: whether it hits the living boss, and how many players
    /// it hits (none unless PvP is on).
    fn bullet_tallies(&self, pix: &BoxIndex) -> (r: (Vec<bool>, Vec<usize>))
        requires
            self.wf(),
            indexed_boxes(*pix) == player_boxes(self.players@),
        ensures
            r.0@.len() == self.bullets@.len(),
            r.1@.len() == self.bullets@.len(),
            forall|j: int| 0 <= j < self.bullets@.len() ==> #[trigger] r.0@[j] == (self.boss matches Some(bo) && bo.health > 0 && hits_boss(self.bullets@[j], bo)),
            forall|j: int| 0 <= j < self.bullets@.len() ==> #[trigger] r.1@[j] == if self.pvp_enabled { victims(self.bullets@[j], self.players@) } else { 0 },
    {
        let mut on_boss: Vec<bool> = Vec::new();
        let mut on_players: Vec<usize> = Vec::new();
        let mut j: usize = 0;
        while j < self.bullets.len()
            invariant
                self.wf(),
                indexed_boxes(*pix) == player_boxes(self.players@),
                j <= self.bullets@.len(),
                on_boss@.len() == j,
                on_players@.len() == j,
                forall|k: int| 0 <= k < j ==> #[trigger] on_boss@[k] == (self.boss matches Some(bo) && bo.health > 0 && hits_boss(self.bullets@[k], bo)),
                forall|k: int| 0 <= k < j ==> #[trigger] on_players@[k] == if self.pvp_enabled { victims(self.bullets@[k], self.players@) } else { 0 },
            decreases self.bullets@.len() - j,
        {
            let b = self.bullets[j];
            assert(b.wf());
            let hb = match &self.boss {
                Some(bo) => bo.health > 0 && overlaps(b.pos, Bullet::RADIUS, bo.pos, Boss::RADIUS),
                None => false,
            };
            let v = if self.pvp_enabled {
                count_victims(&b, &self.players, pix)
            } else {
                0
            };
            on_boss.push(hb);
            on_players.push(v);
            j = j + 1;
        }
        (on_boss, on_players)
    }

    /// Lifesteal owed to player `id`, capped at 255, from the bullet tallies.
    fn credit_for(&self, on_boss: &Vec<bool>, on_players: &Vec<usize>, id: u64) -> (r: u64)
        requires
            on_boss@.len() == self.bullets@.len(),
            on_players@.len() == self.bullets@.len(),
            forall|j: int| 0 <= j < self.bullets@.len() ==> #[trigger] on_boss@[j] == (self.boss matches Some(bo) && bo.health > 0 && hits_boss(self.bullets@[j], bo)),
            forall|j: int| 0 <= j < self.bullets@.len() ==> #[trigger] on_players@[j] == if self.pvp_enabled { victims(self.bullets@[j], self.players@) } else { 0 },
        ensures
            r == cap(LIFESTEAL * credit_hits(self.bullets@, self.players@, self.boss, self.pvp_enabled, id)),
    {
        let ghost bs = self.bullets@;
        let mut acc: u64 = 0;
        let mut j: usize = 0;
        while j < self.bullets.len()
            invariant
                bs == self.bullets@,
                on_boss@.len() == bs.len(),
                on_players@.len() == bs.len(),
                forall|k: int| 0 <= k < bs.len() ==> #[trigger] on_boss@[k] == (self.boss matches Some(bo) && bo.health > 0 && hits_boss(bs[k], bo)),
                forall|k: int| 0 <= k < bs.len() ==> #[trigger] on_players@[k] == if self.pvp_enabled { victims(bs[k], self.players@) } else { 0 },
                j <= bs.len(),
                acc == cap(LIFESTEAL * credit_hits(bs.subrange(0, j as int), self.players@, self.boss, self.pvp_enabled, id)),
            decreases bs.len() - j,
        {
            proof {
                let s = bs.subrange(0, j as int + 1);
                assert(s.drop_last() =~= bs.subrange(0, j as int));
                assert(s.last() == bs[j as int]);
            }
            if self.bullets[j].owner == id {
                let score: u128 = (if on_boss[j] { 1u128 } else { 0u128 }) + on_players[j] as u128;
                let sum: u128 = acc as u128 + LIFESTEAL as u128 * score;
                acc = if sum < 255 { sum as u64 } else { 255 };
            }
            j = j + 1;
        }
        assert(bs.subrange(0, bs.len() as int) =~= bs);
        acc
    }
}

impl GameServer {
    /// Damage and lifesteal owed to each player (each capped at 255), and the
    /// number of boss-bullet hits over all players (capped at 255).
    fn player_tallies(&self, on_boss: &Vec<bool>, on_players: &Vec<usize>, bix: &BoxIndex, bbix: &BoxIndex) -> (r: (Vec<u64>, Vec<u64>, u64))
        requires
            self.wf(),
            indexed_boxes(*bix) == bullet_boxes(self.bullets@),
            indexed_boxes(*bbix) == boss_bullet_boxes(self.boss_bullets@),
            on_boss@.len() == self.bullets@.len(),
            on_players@.len() == self.bullets@.len(),
            forall|j: int| 0 <= j < self.bullets@.len() ==> #[trigger] on_boss@[j] == (self.boss matches Some(bo) && bo.health > 0 && hits_boss(self.bullets@[j], bo)),
            forall|j: int| 0 <= j < self.bullets@.len() ==> #[trigger] on_players@[j] == if self.pvp_enabled { victims(self.bullets@[j], self.players@) } else { 0 },
        ensures
            r.0@.len() == self.players@.len(),
            r.1@.len() == self.players@.len(),
            forall|k: int| 0 <= k < self.players@.len() ==> #[trigger] r.0@[k] == cap(self.damage_of(self.players@[k])),
            forall|k: int| 0 <= k < self.players@.len() ==> #[trigger] r.1@[k] == cap(self.credit_of(self.players@[k])),
            r.2 == cap(bb_total(self.boss_bullets@, self.players@) as int),
    {
        let mut damage: Vec<u64> = Vec::new();
        let mut credit: Vec<u64> = Vec::new();
        let mut bb_sum: u64 = 0;
        let mut i: usize = 0;
        while i < self.players.len()
            invariant
                self.wf(),
                indexed_boxes(*bix) == bullet_boxes(self.bullets@),
                indexed_boxes(*bbix) == boss_bullet_boxes(self.boss_bullets@),
                on_boss@.len() == self.bullets@.len(),
                on_players@.len() == self.bullets@.len(),
                forall|j: int| 0 <= j < self.bullets@.len() ==> #[trigger] on_boss@[j] == (self.boss matches Some(bo) && bo.health > 0 && hits_boss(self.bullets@[j], bo)),
                forall|j: int| 0 <= j < self.bullets@.len() ==> #[trigger] on_players@[j] == if self.pvp_enabled { victims(self.bullets@[j], self.players@) } else { 0 },
                i <= self.players@.len(),
                damage@.len() == i,
                credit@.len() == i,
                forall|k: int| 0 <= k < i ==> #[trigger] damage@[k] == cap(self.damage_of(self.players@[k])),
                forall|k: int| 0 <= k < i ==> #[trigger] credit@[k] == cap(self.credit_of(self.players@[k])),
                bb_sum == cap(bb_total(self.boss_bullets@, self.players@.subrange(0, i as int)) as int),
            decreases self.players@.len() - i,
        {
            proof {
                let s = self.players@.subrange(0, i as int + 1);
                assert(s.drop_last() =~= self.players@.subrange(0, i as int));
                assert(s.last() == self.players@[i as int]);
            }
            let p = &self.players[i];
            assert(p.wf());
            let pv: usize = if self.pvp_enabled {
                count_pvp_hits(&self.bullets, bix, p)
            } else {
                0
            };
            let bbh = count_bb_hits(&self.boss_bullets, bbix, p);
            let (a, b) = (pv as u128, bbh as u128);
            assert(PVP_DAMAGE * a <= 8 * 0x1_0000_0000_0000_0000 && BOSS_BULLET_DAMAGE * b <= 50 * 0x1_0000_0000_0000_0000)
                by (nonlinear_arith)
                requires
                    a < 0x1_0000_0000_0000_0000,
                    b < 0x1_0000_0000_0000_0000,
            ;
            let d: u128 = PVP_DAMAGE as u128 * a + BOSS_BULLET_DAMAGE as u128 * b;
            damage.push(if d < 255 { d as u64 } else { 255 });
            credit.push(self.credit_for(on_boss, on_players, p.id));
            let t: u128 = bb_sum as u128 + bbh as u128;
            bb_sum = if t < 255 { t as u64 } else { 255 };
            i = i + 1;
        }
        assert(self.players@.subrange(0, self.players@.len() as int) =~= self.players@);
        (damage, credit, bb_sum)
    }

    /// The bullets that score no hit, in order.
    fn unspent_bullets(&self, on_boss: &Vec<bool>, on_players: &Vec<usize>) -> (r: Vec<Bullet>)
        requires
            self.wf(),
            on_boss@.len() == self.bullets@.len(),
            on_players@.len() == self.bullets@.len(),
            forall|j: int| 0 <= j < self.bullets@.len() ==> #[trigger] on_boss@[j] == (self.boss matches Some(bo) && bo.health > 0 && hits_boss(self.bullets@[j], bo)),
            forall|j: int| 0 <= j < self.bullets@.len() ==> #[trigger] on_players@[j] == if self.pvp_enabled { victims(self.bullets@[j], self.players@) } else { 0 },
        ensures
            r@ == self.bullets@.filter(self.bullet_kept_pred()),
            bullets_wf(r@),
    {
        let ghost bs = self.bullets@;
        let ghost keep = self.bullet_kept_pred();
        let mut kept: Vec<Bullet> = Vec::new();
        let mut j: usize = 0;
        assert(bs.subrange(0, 0).filter(keep) =~= Seq::<Bullet>::empty()) by {
            reveal_with_fuel(Seq::filter, 1);
        }
        while j < self.bullets.len()
            invariant
                bs == self.bullets@,
                keep == self.bullet_kept_pred(),
                on_boss@.len() == self.bullets@.len(),
                on_players@.len() == self.bullets@.len(),
                forall|j: int| 0 <= j < self.bullets@.len() ==> #[trigger] on_boss@[j] == (self.boss matches Some(bo) && bo.health > 0 && hits_boss(self.bullets@[j], bo)),
                forall|j: int| 0 <= j < self.bullets@.len() ==> #[trigger] on_players@[j] == if self.pvp_enabled { victims(self.bullets@[j], self.players@) } else { 0 },
                j <= bs.len(),
                kept@ == bs.subrange(0, j as int).filter(keep),
            decreases bs.len() - j,
        {
            proof {
                lemma_filter_step(bs, keep, j as int);
            }
            if !on_boss[j] && on_players[j] == 0 {
                kept.push(self.bullets[j]);
            }
            j = j + 1;
        }
        assert(bs.subrange(0, bs.len() as int) =~= bs);
        proof {
            let nb = kept@;
            assert forall|x: int| 0 <= x < nb.len() implies (#[trigger] nb[x]).wf() by {
                assert(nb.contains(nb[x]));
                bs.lemma_filter_contains_rev(keep, nb[x]);
            }
        }
        kept
    }

    /// The boss bullets that hit no player, in order.
    fn unspent_boss_bullets(&self, pix: &BoxIndex) -> (r: Vec<BossBullet>)
        requires
            self.wf(),
            indexed_boxes(*pix) == player_boxes(self.players@),
        ensures
            r@ == self.boss_bullets@.filter(self.boss_bullet_kept_pred()),
            boss_bullets_wf(r@),
    {
        let ghost bbs = self.boss_bullets@;
        let ghost keep = self.boss_bullet_kept_pred();
        let mut kept: Vec<BossBullet> = Vec::new();
        let mut m: usize = 0;
        assert(bbs.subrange(0, 0).filter(keep) =~= Seq::<BossBullet>::empty()) by {
            reveal_with_fuel(Seq::filter, 1);
        }
        while m < self.boss_bullets.len()
            invariant
                self.wf(),
                indexed_boxes(*pix) == player_boxes(self.players@),
                bbs == self.boss_bullets@,
                keep == self.boss_bullet_kept_pred(),
                m <= bbs.len(),
                kept@ == bbs.subrange(0, m as int).filter(keep),
            decreases bbs.len() - m,
        {
            proof {
                lemma_filter_step(bbs, keep, m as int);
            }
            let bb = self.boss_bullets[m];
            assert(bb.wf());
            if count_bb_victims(&bb, &self.players, pix) == 0 {
                kept.push(bb);
            }
            m = m + 1;
        }
        assert(bbs.subrange(0, bbs.len() as int) =~= bbs);
        proof {
            let nb = kept@;
            assert forall|x: int| 0 <= x < nb.len() implies (#[trigger] nb[x]).wf() by {
                assert(nb.contains(nb[x]));
                bbs.lemma_filter_contains_rev(keep, nb[x]);
            }
        }
        kept
    }

    /// One pass of the hit rules, all judged on the state before the pass and
    /// applied together. A player bullet that touches the living boss wounds
    /// it; with PvP on, one that touches a player it does not belong to
    /// damages that player; each such hit credits lifesteal to the bullet's
    /// owner. A boss bullet that touches a player damages it and heals a boss
    /// that is still alive. Every bullet that scored is removed. Players take
    /// their damage first and their credit after, both saturating. A boss
    /// killed in the pass records `now` as its time of death.
    pub fn resolve_hits(&mut self, now: u64)
        requires
            old(self).wf(),
        ensures
            final(self).wf(),
            hits_step(*old(self), *final(self), now),
    {
        let ghost pre = *self;
        // Spatial indexes over this pass's bodies and projectiles.
        let pix = BoxIndex::bulk_load(&boxes_of_players(&self.players));
        let bix = BoxIndex::bulk_load(&boxes_of_bullets(&self.bullets));
        let bbix = BoxIndex::bulk_load(&boxes_of_boss_bullets(&self.boss_bullets));
        let (on_boss, on_players) = self.bullet_tallies(&pix);
        let (damage, credit, bb_sum) = self.player_tallies(&on_boss, &on_players, &bix, &bbix);
        let kept = self.unspent_bullets(&on_boss, &on_players);
        let kept_bb = self.unspent_boss_bullets(&pix);
        self.wound_boss(now, bb_sum, &bix);
        self.bullets = kept;
        self.boss_bullets = kept_bb;
        let mut k: usize = 0;
        while k < self.players.len()
            invariant
                pre.wf(),
                k <= self.players@.len(),
                self.players@.len() == pre.players@.len(),
                damage@.len() == pre.players@.len(),
                credit@.len() == pre.players@.len(),
                forall|m: int| 0 <= m < pre.players@.len() ==> #[trigger] damage@[m] == cap(pre.damage_of(pre.players@[m])),
                forall|m: int| 0 <= m < pre.players@.len() ==> #[trigger] credit@[m] == cap(pre.credit_of(pre.players@[m])),
                forall|m: int| 0 <= m < k ==> #[trigger] self.players@[m] == (Player {
                    health: hit_health(pre.players@[m].health as int, pre.damage_of(pre.players@[m]), pre.credit_of(pre.players@[m])) as u8,
                    ..pre.players@[m]
                }),
                forall|m: int| k <= m < pre.players@.len() ==> #[trigger] self.players@[m] == pre.players@[m],
                self.bullets@ == pre.bullets@.filter(pre.bullet_kept_pred()),
                self.boss_bullets@ == pre.boss_bullets@.filter(pre.boss_bullet_kept_pred()),
                bullets_wf(self.bullets@),
                boss_bullets_wf(self.boss_bullets@),
                self.boss == pre.boss_after_hits(),
                self.boss_dead == if pre.boss_killed() { now } else { pre.boss_dead },
                self.wormholes == pre.wormholes,
                self.pvp_enabled == pre.pvp_enabled,
                self.home_server == pre.home_server,
                self.last_tick == pre.last_tick,
                self.health_tick == pre.health_tick,
                self.quickshot_mana == pre.quickshot_mana,
                self.sniper_mana == pre.sniper_mana,
            decreases pre.players@.len() - k,
        {
            let mut p = self.players.remove(k);
            p.apply_hits(damage[k], credit[k]);
            self.players.insert(k, p);
            k = k + 1;
        }
        proof {
            assert forall|x: int, y: int| 0 <= x < self.players@.len() && 0 <= y < self.players@.len() && x != y
                implies self.players@[x].id != self.players@[y].id by {
                assert(self.players@[x].id == pre.players@[x].id);
                assert(self.players@[y].id == pre.players@[y].id);
            }
            assert forall|x: int| 0 <= x < self.players@.len() implies (#[trigger] self.players@[x]).wf() by {
                assert(self.players@[x].pos == pre.players@[x].pos);
                assert(pre.players@[x].wf());
            }
        }
    }

    /// The boss's side of a hit pass, given the capped count of boss-bullet hits.
    fn wound_boss(&mut self, now: u64, bb_sum: u64, bix: &BoxIndex)
        requires
            old(self).wf(),
            indexed_boxes(*bix) == bullet_boxes(old(self).bullets@),
            bb_sum == cap(bb_total(old(self).boss_bullets@, old(self).players@) as int),
        ensures
            final(self).wf(),
            final(self).boss == old(self).boss_after_hits(),
            final(self).boss_dead == if old(self).boss_killed() { now } else { old(self).boss_dead },
            *final(self) == (GameServer { boss: final(self).boss, boss_dead: final(self).boss_dead, ..*old(self) }),
    {
        match self.boss {
            Some(b) => {
                if b.health > 0 {
                    let n = count_boss_hits(&self.bullets, bix, &b);
                    let d: u128 = BOSS_DAMAGE as u128 * n as u128;
                    let h1: u64 = if b.health as u128 >= d { (b.health as u128 - d) as u64 } else { 0 };
                    if h1 == 0 {
                        self.boss_dead = now;
                    }
                    let h2: u64 = if h1 > 0 {
                        let t: u128 = h1 as u128 + BOSS_HEAL as u128 * bb_sum as u128;
                        if t < 255 { t as u64 } else { 255 }
                    } else {
                        0
                    };
                    self.boss = Some(Boss { health: h2 as u8, ..b });
                }
            },
            None => {},
        }
    }
}


/// What `capture_players` does to a state, handing out `r`.
pub open spec fn capture_step(pre: GameServer, post: GameServer, r: Seq<Transfer>) -> bool {
    &&& post.players@ == pre.players@.filter(pre.not_captured_pred())
    &&& r.map_values(|t: Transfer| t.player) == pre.players@.filter(pre.captured_pred())
    &&& forall|t: int| 0 <= t < r.len() ==> (#[trigger] r[t]).dest == capture_dest(pre.wormholes@, r[t].player)
    &&& post == (GameServer { players: post.players, ..pre })
}

/// What `resolve_hits` does to a state at `now`.
pub open spec fn hits_step(pre: GameServer, post: GameServer, now: u64) -> bool {
    &&& post.players@.len() == pre.players@.len()
    &&& forall|i: int| 0 <= i < pre.players@.len() ==> #[trigger] post.players@[i] == (Player {
        health: hit_health(
            pre.players@[i].health as int,
            pre.damage_of(pre.players@[i]),
            pre.credit_of(pre.players@[i]),
        ) as u8,
        ..pre.players@[i]
    })
    &&& post.bullets@ == pre.bullets@.filter(pre.bullet_kept_pred())
    &&& post.boss_bullets@ == pre.boss_bullets@.filter(pre.boss_bullet_kept_pred())
    &&& post.boss == pre.boss_after_hits()
    &&& post.boss_dead == if pre.boss_killed() { now } else { pre.boss_dead }
    &&& post.wormholes == pre.wormholes
    &&& post.pvp_enabled == pre.pvp_enabled
    &&& post.home_server == pre.home_server
    &&& post.last_tick == pre.last_tick
    &&& post.health_tick == pre.health_tick
    &&& post.quickshot_mana == pre.quickshot_mana
    &&& post.sniper_mana == pre.sniper_mana
}

} // verus!
