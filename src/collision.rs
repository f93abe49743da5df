//! Collision rules: which projectile meets which body, and how many times.
use crate::boss::Boss;
use crate::bullet::{BossBullet, Bullet};
use crate::geometry::{lemma_overlap_symmetric, overlap, overlaps};
use crate::spatial::{
    boxes_by, count_candidates, count_upto, envelope, envelope_spec, indexed_boxes,
    lemma_overlap_meets, Aabb, BoxIndex,
};
use crate::player::Player;
use vstd::prelude::*;

verus! {

/// A player bullet meets a player it does not belong to.
pub open spec fn hits_player(b: Bullet, p: Player) -> bool {
    b.owner != p.id && overlap(b.pos, Bullet::RADIUS as int, p.pos, Player::RADIUS as int)
}

/// A player bullet meets the boss.
pub open spec fn hits_boss(b: Bullet, boss: Boss) -> bool {
    overlap(b.pos, Bullet::RADIUS as int, boss.pos, Boss::RADIUS as int)
}

/// A boss bullet meets a player.
pub open spec fn boss_bullet_hits(bb: BossBullet, p: Player) -> bool {
    overlap(bb.pos, BossBullet::RADIUS as int, p.pos, Player::RADIUS as int)
}

/// Number of bullets of `bs` that hit `p`.
pub open spec fn pvp_hits(bs: Seq<Bullet>, p: Player) -> nat {
    count_upto(bs.len() as int, |i: int| hits_player(bs[i], p))
}

/// Number of players of `ps` that bullet `b` hits.
pub open spec fn victims(b: Bullet, ps: Seq<Player>) -> nat {
    count_upto(ps.len() as int, |i: int| hits_player(b, ps[i]))
}

/// Number of bullets of `bs` that hit the boss.
pub open spec fn boss_hits(bs: Seq<Bullet>, boss: Boss) -> nat {
    count_upto(bs.len() as int, |i: int| hits_boss(bs[i], boss))
}

/// Number of boss bullets of `bbs` that hit `p`.
pub open spec fn bb_hits(bbs: Seq<BossBullet>, p: Player) -> nat {
    count_upto(bbs.len() as int, |i: int| boss_bullet_hits(bbs[i], p))
}

/// Number of players of `ps` that boss bullet `bb` hits.
pub open spec fn bb_victims(bb: BossBullet, ps: Seq<Player>) -> nat {
    count_upto(ps.len() as int, |i: int| boss_bullet_hits(bb, ps[i]))
}

pub open spec fn bullet_boxes(bs: Seq<Bullet>) -> Seq<Aabb> {
    bs.map_values(|b: Bullet| envelope_spec(b.pos, Bullet::RADIUS as int))
}

pub open spec fn boss_bullet_boxes(bbs: Seq<BossBullet>) -> Seq<Aabb> {
    bbs.map_values(|b: BossBullet| envelope_spec(b.pos, BossBullet::RADIUS as int))
}

pub open spec fn player_boxes(ps: Seq<Player>) -> Seq<Aabb> {
    ps.map_values(|p: Player| envelope_spec(p.pos, Player::RADIUS as int))
}

/// Number of boss-bullet hits taken by all players of `ps` together.
pub open spec fn bb_total(bbs: Seq<BossBullet>, ps: Seq<Player>) -> nat
    decreases ps.len(),
{
    if ps.len() == 0 {
        0
    } else {
        bb_total(bbs, ps.drop_last()) + bb_hits(bbs, ps.last())
    }
}

/// Hits that bullet `b` scores: on the boss if `boss_live`, on each player it
/// meets if `pvp`.
pub open spec fn bullet_score(b: Bullet, ps: Seq<Player>, boss: Option<Boss>, pvp: bool) -> nat {
    (if boss matches Some(bo) && bo.health > 0 && hits_boss(b, bo) { 1nat } else { 0nat })
        + if pvp { victims(b, ps) } else { 0nat }
}

/// Hits scored by the bullets of `bs` that belong to the player `id`.
pub open spec fn credit_hits(bs: Seq<Bullet>, ps: Seq<Player>, boss: Option<Boss>, pvp: bool, id: u64) -> nat
    decreases bs.len(),
{
    if bs.len() == 0 {
        0
    } else {
        credit_hits(bs.drop_last(), ps, boss, pvp, id) + if bs.last().owner == id {
            bullet_score(bs.last(), ps, boss, pvp)
        } else {
            0nat
        }
    }
}

proof fn lemma_prefix_last<A>(s: Seq<A>, j: int)
    requires
        0 <= j < s.len(),
    ensures
        s.subrange(0, j + 1).drop_last() == s.subrange(0, j),
        s.subrange(0, j + 1).last() == s[j],
        s.subrange(0, j + 1).len() > 0,
{
    assert(s.subrange(0, j + 1).drop_last() =~= s.subrange(0, j));
}

/// Keeping the elements of a longer prefix that satisfy `f`.
pub proof fn lemma_filter_step<A>(s: Seq<A>, f: spec_fn(A) -> bool, j: int)
    requires
        0 <= j < s.len(),
    ensures
        s.subrange(0, j + 1).filter(f) == if f(s[j]) {
            s.subrange(0, j).filter(f).push(s[j])
        } else {
            s.subrange(0, j).filter(f)
        },
{
    lemma_prefix_last(s, j);
    reveal_with_fuel(Seq::filter, 1);
}

/// The boxes of a list of bullets, for the spatial index.
pub fn boxes_of_bullets(bs: &Vec<Bullet>) -> (r: Vec<Aabb>)
    requires
        forall|i: int| 0 <= i < bs@.len() ==> (#[trigger] bs@[i]).wf(),
    ensures
        r@ == bullet_boxes(bs@),
{
    let boxer = |i: usize| -> (e: Aabb)
        requires
            i < bs@.len(),
        ensures
            e == envelope_spec(bs@[i as int].pos, Bullet::RADIUS as int),
        {
            let b = &bs[i];
            assert(b.wf());
            envelope(b.pos, Bullet::RADIUS)
        };
    let r = boxes_by(bs.len(), boxer, Ghost(|i: int| envelope_spec(bs@[i].pos, Bullet::RADIUS as int)));
    assert(r@ =~= bullet_boxes(bs@));
    r
}

/// The boxes of a list of boss bullets, for the spatial index.
pub fn boxes_of_boss_bullets(bbs: &Vec<BossBullet>) -> (r: Vec<Aabb>)
    requires
        forall|i: int| 0 <= i < bbs@.len() ==> (#[trigger] bbs@[i]).wf(),
    ensures
        r@ == boss_bullet_boxes(bbs@),
{
    let boxer = |i: usize| -> (e: Aabb)
        requires
            i < bbs@.len(),
        ensures
            e == envelope_spec(bbs@[i as int].pos, BossBullet::RADIUS as int),
        {
            let b = &bbs[i];
            assert(b.wf());
            envelope(b.pos, BossBullet::RADIUS)
        };
    let r = boxes_by(bbs.len(), boxer, Ghost(|i: int| envelope_spec(bbs@[i].pos, BossBullet::RADIUS as int)));
    assert(r@ =~= boss_bullet_boxes(bbs@));
    r
}

/// The boxes of a list of players, for the spatial index.
pub fn boxes_of_players(ps: &Vec<Player>) -> (r: Vec<Aabb>)
    requires
        forall|i: int| 0 <= i < ps@.len() ==> (#[trigger] ps@[i]).pos.wf(),
    ensures
        r@ == player_boxes(ps@),
{
    let boxer = |i: usize| -> (e: Aabb)
        requires
            i < ps@.len(),
        ensures
            e == envelope_spec(ps@[i as int].pos, Player::RADIUS as int),
        {
            let p = &ps[i];
            assert(p.pos.wf());
            envelope(p.pos, Player::RADIUS)
        };
    let r = boxes_by(ps.len(), boxer, Ghost(|i: int| envelope_spec(ps@[i].pos, Player::RADIUS as int)));
    assert(r@ =~= player_boxes(ps@));
    r
}

/// Splitting a sequence by a predicate and its negation loses nothing.
pub proof fn lemma_filter_split<A>(s: Seq<A>, f: spec_fn(A) -> bool, g: spec_fn(A) -> bool)
    requires
        forall|x: A| #[trigger] g(x) == !f(x),
    ensures
        s.filter(f).len() + s.filter(g).len() == s.len(),
    decreases s.len(),
{
    reveal_with_fuel(Seq::filter, 1);
    if s.len() > 0 {
        lemma_filter_split(s.drop_last(), f, g);
    }
}

/// Counts the bullets of `bs` that hit `p`, looking only at those whose
/// boxes meet the player's.
pub fn count_pvp_hits(bs: &Vec<Bullet>, ix: &BoxIndex, p: &Player) -> (r: usize)
    requires
        forall|i: int| 0 <= i < bs@.len() ==> (#[trigger] bs@[i]).wf(),
        p.pos.wf(),
        indexed_boxes(*ix) == bullet_boxes(bs@),
    ensures
        r == pvp_hits(bs@, *p),
{
    let ghost f = |i: int| hits_player(bs@[i], *p);
    let c = ix.intersecting(envelope(p.pos, Player::RADIUS));
    proof {
        assert forall|i: usize| 0 <= i < bs@.len() && f(i as int) implies #[trigger] c@.contains(i) by {
            lemma_overlap_meets(bs@[i as int].pos, Bullet::RADIUS as int, p.pos, Player::RADIUS as int);
        }
    }
    let test = |i: usize| -> (h: bool)
        requires
            i < bs@.len(),
        ensures
            h == hits_player(bs@[i as int], *p),
        {
            let b = &bs[i];
            assert(b.wf());
            b.owner != p.id && overlaps(b.pos, Bullet::RADIUS, p.pos, Player::RADIUS)
        };
    count_candidates(&c, bs.len(), test, Ghost(f))
}

/// Counts the players of `ps` that bullet `b` hits, looking only at those
/// whose boxes meet the bullet's.
pub fn count_victims(b: &Bullet, ps: &Vec<Player>, ix: &BoxIndex) -> (r: usize)
    requires
        forall|i: int| 0 <= i < ps@.len() ==> (#[trigger] ps@[i]).pos.wf(),
        b.pos.wf(),
        indexed_boxes(*ix) == player_boxes(ps@),
    ensures
        r == victims(*b, ps@),
{
    let ghost f = |i: int| hits_player(*b, ps@[i]);
    let c = ix.intersecting(envelope(b.pos, Bullet::RADIUS));
    proof {
        assert forall|i: usize| 0 <= i < ps@.len() && f(i as int) implies #[trigger] c@.contains(i) by {
            lemma_overlap_symmetric(b.pos, Bullet::RADIUS as int, ps@[i as int].pos, Player::RADIUS as int);
            lemma_overlap_meets(ps@[i as int].pos, Player::RADIUS as int, b.pos, Bullet::RADIUS as int);
        }
    }
    let test = |i: usize| -> (h: bool)
        requires
            i < ps@.len(),
        ensures
            h == hits_player(*b, ps@[i as int]),
        {
            let p = &ps[i];
            assert(p.pos.wf());
            b.owner != p.id && overlaps(b.pos, Bullet::RADIUS, p.pos, Player::RADIUS)
        };
    count_candidates(&c, ps.len(), test, Ghost(f))
}

/// Counts the bullets of `bs` that hit the boss, looking only at those whose
/// boxes meet the boss's.
pub fn count_boss_hits(bs: &Vec<Bullet>, ix: &BoxIndex, boss: &Boss) -> (r: usize)
    requires
        forall|i: int| 0 <= i < bs@.len() ==> (#[trigger] bs@[i]).wf(),
        boss.pos.wf(),
        indexed_boxes(*ix) == bullet_boxes(bs@),
    ensures
        r == boss_hits(bs@, *boss),
{
    let ghost f = |i: int| hits_boss(bs@[i], *boss);
    let c = ix.intersecting(envelope(boss.pos, Boss::RADIUS));
    proof {
        assert forall|i: usize| 0 <= i < bs@.len() && f(i as int) implies #[trigger] c@.contains(i) by {
            lemma_overlap_meets(bs@[i as int].pos, Bullet::RADIUS as int, boss.pos, Boss::RADIUS as int);
        }
    }
    let test = |i: usize| -> (h: bool)
        requires
            i < bs@.len(),
        ensures
            h == hits_boss(bs@[i as int], *boss),
        {
            let b = &bs[i];
            assert(b.wf());
            overlaps(b.pos, Bullet::RADIUS, boss.pos, Boss::RADIUS)
        };
    count_candidates(&c, bs.len(), test, Ghost(f))
}

/// Counts the boss bullets of `bbs` that hit `p`, looking only at those
/// whose boxes meet the player's.
pub fn count_bb_hits(bbs: &Vec<BossBullet>, ix: &BoxIndex, p: &Player) -> (r: usize)
    requires
        forall|i: int| 0 <= i < bbs@.len() ==> (#[trigger] bbs@[i]).wf(),
        p.pos.wf(),
        indexed_boxes(*ix) == boss_bullet_boxes(bbs@),
    ensures
        r == bb_hits(bbs@, *p),
{
    let ghost f = |i: int| boss_bullet_hits(bbs@[i], *p);
    let c = ix.intersecting(envelope(p.pos, Player::RADIUS));
    proof {
        assert forall|i: usize| 0 <= i < bbs@.len() && f(i as int) implies #[trigger] c@.contains(i) by {
            lemma_overlap_meets(bbs@[i as int].pos, BossBullet::RADIUS as int, p.pos, Player::RADIUS as int);
        }
    }
    let test = |i: usize| -> (h: bool)
        requires
            i < bbs@.len(),
        ensures
            h == boss_bullet_hits(bbs@[i as int], *p),
        {
            let b = &bbs[i];
            assert(b.wf());
            overlaps(b.pos, BossBullet::RADIUS, p.pos, Player::RADIUS)
        };
    count_candidates(&c, bbs.len(), test, Ghost(f))
}

/// Counts the players of `ps` that boss bullet `bb` hits, looking only at
/// those whose boxes meet the boss bullet's.
pub fn count_bb_victims(bb: &BossBullet, ps: &Vec<Player>, ix: &BoxIndex) -> (r: usize)
    requires
        forall|i: int| 0 <= i < ps@.len() ==> (#[trigger] ps@[i]).pos.wf(),
        bb.pos.wf(),
        indexed_boxes(*ix) == player_boxes(ps@),
    ensures
        r == bb_victims(*bb, ps@),
{
    let ghost f = |i: int| boss_bullet_hits(*bb, ps@[i]);
    let c = ix.intersecting(envelope(bb.pos, BossBullet::RADIUS));
    proof {
        assert forall|i: usize| 0 <= i < ps@.len() && f(i as int) implies #[trigger] c@.contains(i) by {
            lemma_overlap_symmetric(bb.pos, BossBullet::RADIUS as int, ps@[i as int].pos, Player::RADIUS as int);
            lemma_overlap_meets(ps@[i as int].pos, Player::RADIUS as int, bb.pos, BossBullet::RADIUS as int);
        }
    }
    let test = |i: usize| -> (h: bool)
        requires
            i < ps@.len(),
        ensures
            h == boss_bullet_hits(*bb, ps@[i as int]),
        {
            let p = &ps[i];
            assert(p.pos.wf());
            overlaps(bb.pos, BossBullet::RADIUS, p.pos, Player::RADIUS)
        };
    count_candidates(&c, ps.len(), test, Ghost(f))
}

/// Two predicates that agree below `n` count alike there.
pub proof fn lemma_count_upto_agree(n: int, f: spec_fn(int) -> bool, g: spec_fn(int) -> bool)
    requires
        forall|i: int| 0 <= i < n ==> #[trigger] f(i) == g(i),
    ensures
        count_upto(n, f) == count_upto(n, g),
    decreases n,
{
    if n > 0 {
        lemma_count_upto_agree(n - 1, f, g);
    }
}

/// A predicate that holds nowhere below `n` counts zero there.
pub proof fn lemma_count_upto_none(n: int, f: spec_fn(int) -> bool)
    requires
        forall|i: int| 0 <= i < n ==> !#[trigger] f(i),
    ensures
        count_upto(n, f) == 0,
    decreases n,
{
    if n > 0 {
        lemma_count_upto_none(n - 1, f);
    }
}

/// A player's own bullets never count against it: one more bullet of its own
/// leaves its hit count unchanged, and bullets that are all its own score no
/// hit on it at all.
pub proof fn lemma_own_bullets_harmless(bs: Seq<Bullet>, b: Bullet, p: Player)
    ensures
        b.owner == p.id ==> pvp_hits(bs.push(b), p) == pvp_hits(bs, p),
        (forall|i: int| 0 <= i < bs.len() ==> (#[trigger] bs[i]).owner == p.id) ==> pvp_hits(bs, p) == 0,
{
    let f = |i: int| hits_player(bs[i], p);
    let g = |i: int| hits_player(bs.push(b)[i], p);
    lemma_count_upto_agree(bs.len() as int, g, f);
    if forall|i: int| 0 <= i < bs.len() ==> (#[trigger] bs[i]).owner == p.id {
        lemma_count_upto_none(bs.len() as int, f);
    }
}

} // verus!
