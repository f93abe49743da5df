use shooter_sim::boss::{Boss, BossMotion, BossType};
use shooter_sim::bullet::{Bullet, BossBullet};
use shooter_sim::geometry::{Point, UNIT, WORLDSIZE};
use shooter_sim::player::{burst_size, Classes, Player, PlayerMotion, Shot};
use shooter_sim::server::{ClientMessage, DecodedMessage, GameServer, TickPlan};

fn still_boss() -> BossMotion {
    let zero = Point::new(0, 0);
    BossMotion { vel: zero, aim: zero, side: zero, side_vel: zero }
}

fn plan_for(server: &GameServer, burst: &[Shot]) -> TickPlan {
    let zero = Point::new(0, 0);
    let mut players = Vec::new();
    for _ in 0..server.players.len() {
        players.push(PlayerMotion { cruise_vel: zero, boost_vel: zero, burst: burst.to_vec() });
    }
    TickPlan { players, boss: still_boss() }
}

fn spawn(server: &mut GameServer, id: u64, class: Classes, now: u64) {
    server.handle_decoded(DecodedMessage { id, m: ClientMessage::Spawn("p".to_string(), class) }, now);
}

fn bullet_at(pos: Point, owner: u64, spawn: u64) -> Bullet {
    Bullet { vel: Point::new(0, 0), pos, spawn, class: Classes::Sniper, id: 77, owner }
}

#[test]
fn sniper_fires_one_odd_burst() {
    let mut server = GameServer::new(None, None, 10_000);
    spawn(&mut server, 1, Classes::Sniper, 10_000);
    server.players[0].pos = Point::new(1000 * UNIT, 1000 * UNIT);
    server.handle_decoded(DecodedMessage { id: 1, m: ClientMessage::Click(true) }, 10_000);
    let n = burst_size(Classes::Sniper, 255) as usize;
    assert!(n >= 5 && n % 2 == 1);
    let burst: Vec<Shot> = (0..n).map(|_| Shot { offset: Point::new(0, 50 * UNIT), vel: Point::new(15 * UNIT, 0) }).collect();
    let plan = plan_for(&server, &burst);
    server.tick(11_000, &plan);
    assert_eq!(server.bullets.len(), n);
    for b in &server.bullets {
        assert_eq!(b.owner, 1);
        let speed_sq = b.vel.x as i128 * b.vel.x as i128 + b.vel.y as i128 * b.vel.y as i128;
        assert_eq!(speed_sq, (15 * UNIT as i128) * (15 * UNIT as i128));
    }
    // The gun is cooling down: the next tick fires nothing.
    let plan = plan_for(&server, &burst);
    server.tick(11_016, &plan);
    assert_eq!(server.bullets.len(), n);
    assert_eq!(server.players[0].shot_time, Some(11_000));
}

#[test]
fn pvp_hit_at_exact_combined_radius() {
    let mut server = GameServer::new(None, None, 0);
    spawn(&mut server, 1, Classes::Sniper, 0);
    spawn(&mut server, 2, Classes::Sniper, 0);
    server.players[0].pos = Point::new(500 * UNIT, 500 * UNIT);
    server.players[1].pos = Point::new(1500 * UNIT, 1500 * UNIT);
    server.players[1].health = 200;
    let reach = Player::RADIUS + Bullet::RADIUS;
    server.bullets.push(bullet_at(Point::new(500 * UNIT + reach, 500 * UNIT), 2, 0));
    server.resolve_hits(0);
    assert_eq!(server.players[0].health, 247);
    assert_eq!(server.players[1].health, 204);
    assert_eq!(server.bullets.len(), 0);
}

#[test]
fn pvp_miss_just_beyond_combined_radius() {
    let mut server = GameServer::new(None, None, 0);
    spawn(&mut server, 1, Classes::Sniper, 0);
    spawn(&mut server, 2, Classes::Sniper, 0);
    server.players[0].pos = Point::new(500 * UNIT, 500 * UNIT);
    server.players[1].pos = Point::new(1500 * UNIT, 1500 * UNIT);
    let reach = Player::RADIUS + Bullet::RADIUS;
    server.bullets.push(bullet_at(Point::new(500 * UNIT + reach + 1, 500 * UNIT), 2, 0));
    server.resolve_hits(0);
    assert_eq!(server.players[0].health, 255);
    assert_eq!(server.bullets.len(), 1);
}

#[test]
fn escape_moves_player_home() {
    let mut home = GameServer::new(None, None, 0);
    let mut arena = GameServer::new(None, Some(0), 0);
    spawn(&mut arena, 9, Classes::Quickshot, 0);
    arena.handle_decoded(DecodedMessage { id: 9, m: ClientMessage::Escape(true) }, 1_000);
    assert_eq!(arena.players[0].escape_time, Some(1_000));
    let plan = plan_for(&arena, &[]);
    let events = arena.tick(2_200, &plan);
    assert_eq!(arena.players.len(), 0);
    assert_eq!(events.transfers.len(), 1);
    let t = events.transfers.into_iter().next().unwrap();
    assert_eq!(t.dest, 0);
    assert_eq!(t.player.id, 9);
    assert!(t.player.class == Classes::Quickshot);
    home.accept_transfer(t.player);
    assert_eq!(home.players.len(), 1);
    assert_eq!(home.players[0].id, 9);
    assert!(home.players[0].class == Classes::Quickshot);
}

#[test]
fn escape_needs_a_full_second() {
    let mut arena = GameServer::new(None, Some(0), 0);
    spawn(&mut arena, 9, Classes::Quickshot, 0);
    arena.handle_decoded(DecodedMessage { id: 9, m: ClientMessage::Escape(true) }, 1_000);
    let plan = plan_for(&arena, &[]);
    let events = arena.tick(1_999, &plan);
    assert_eq!(arena.players.len(), 1);
    assert_eq!(events.transfers.len(), 0);
    let plan = plan_for(&arena, &[]);
    let events = arena.tick(2_000, &plan);
    assert_eq!(arena.players.len(), 0);
    assert_eq!(events.transfers.len(), 1);
}

#[test]
fn home_instance_keeps_escapers() {
    let mut home = GameServer::new(None, None, 0);
    spawn(&mut home, 9, Classes::Sniper, 0);
    home.handle_decoded(DecodedMessage { id: 9, m: ClientMessage::Escape(true) }, 0);
    let plan = plan_for(&home, &[]);
    let events = home.tick(5_000, &plan);
    assert_eq!(home.players.len(), 1);
    assert_eq!(events.transfers.len(), 0);
}

#[test]
fn boss_dies_and_respawns() {
    let mut server = GameServer::new(Some(BossType::NormalBoss), Some(0), 0);
    let centre = Point::new(1000 * UNIT, 1000 * UNIT);
    server.boss = Some(Boss::new(BossType::NormalBoss, centre, 0));
    server.boss.as_mut().unwrap().health = 16;
    spawn(&mut server, 4, Classes::Sniper, 0);
    server.players[0].pos = Point::new(100 * UNIT, 100 * UNIT);
    server.players[0].health = 100;
    for _ in 0..3 {
        server.bullets.push(bullet_at(centre, 4, 0));
    }
    server.resolve_hits(500);
    assert_eq!(server.boss.unwrap().health, 0);
    assert_eq!(server.boss_dead, 500);
    assert_eq!(server.bullets.len(), 0);
    assert_eq!(server.players[0].health, 112);
    assert!(server.snapshot(500).boss.is_none());
    // Still dead just before the delay runs out.
    let plan = plan_for(&server, &[]);
    server.tick(3_499, &plan);
    assert_eq!(server.boss.unwrap().health, 0);
    assert_eq!(server.boss_bullets.len(), 0);
    let plan = plan_for(&server, &[]);
    server.tick(3_500, &plan);
    let b = server.boss.unwrap();
    assert_eq!(b.health, 255);
    assert!(b.pos.x >= 0 && b.pos.x <= WORLDSIZE && b.pos.y >= 0 && b.pos.y <= WORLDSIZE);
    assert!(server.snapshot(3_500).boss.is_some());
}

#[test]
fn boss_bullet_hurts_player_and_heals_boss() {
    let mut server = GameServer::new(None, None, 0);
    server.boss = Some(Boss::new(BossType::NormalBoss, Point::new(0, 0), 0));
    server.boss.as_mut().unwrap().health = 100;
    spawn(&mut server, 3, Classes::Quickshot, 0);
    let at = Point::new(1000 * UNIT, 1000 * UNIT);
    server.players[0].pos = at;
    server.boss_bullets.push(BossBullet { vel: Point::new(0, 0), pos: at, spawn: 0, id: 5 });
    server.resolve_hits(0);
    assert_eq!(server.players[0].health, 205);
    assert_eq!(server.boss.unwrap().health, 120);
    assert_eq!(server.boss_bullets.len(), 0);
}

#[test]
fn own_bullet_never_hurts_owner() {
    let mut server = GameServer::new(None, None, 0);
    spawn(&mut server, 1, Classes::Sniper, 0);
    let at = Point::new(700 * UNIT, 700 * UNIT);
    server.players[0].pos = at;
    server.players[0].health = 50;
    server.bullets.push(bullet_at(at, 1, 0));
    server.resolve_hits(0);
    assert_eq!(server.players[0].health, 50);
    assert_eq!(server.bullets.len(), 1);
}

#[test]
fn pvp_off_spares_players() {
    let mut server = GameServer::new(None, None, 0);
    server.pvp_enabled = false;
    spawn(&mut server, 1, Classes::Sniper, 0);
    let at = Point::new(700 * UNIT, 700 * UNIT);
    server.players[0].pos = at;
    server.bullets.push(bullet_at(at, 2, 0));
    server.resolve_hits(0);
    assert_eq!(server.players[0].health, 255);
    assert_eq!(server.bullets.len(), 1);
}

#[test]
fn lethal_damage_reaps_player() {
    let mut server = GameServer::new(None, None, 0);
    spawn(&mut server, 1, Classes::Sniper, 0);
    let at = Point::new(700 * UNIT, 700 * UNIT);
    server.players[0].pos = at;
    server.players[0].health = 40;
    server.boss_bullets.push(BossBullet { vel: Point::new(0, 0), pos: at, spawn: 0, id: 5 });
    let plan = plan_for(&server, &[]);
    let events = server.tick(10, &plan);
    assert_eq!(events.deaths, vec![1]);
    assert_eq!(server.players.len(), 0);
}

#[test]
fn damage_lands_before_lifesteal() {
    let mut server = GameServer::new(None, None, 0);
    spawn(&mut server, 1, Classes::Sniper, 0);
    spawn(&mut server, 2, Classes::Sniper, 0);
    let a = Point::new(300 * UNIT, 300 * UNIT);
    let b = Point::new(1700 * UNIT, 1700 * UNIT);
    server.players[0].pos = a;
    server.players[0].health = 8;
    server.players[1].pos = b;
    // Each shoots the other in the same pass.
    server.bullets.push(bullet_at(a, 2, 0));
    server.bullets.push(bullet_at(b, 1, 0));
    server.resolve_hits(0);
    assert_eq!(server.players[0].health, 4);
    assert_eq!(server.players[1].health, 251);
    let plan = plan_for(&server, &[]);
    let events = server.tick(1, &plan);
    assert!(events.deaths.is_empty());
    assert_eq!(server.players.len(), 2);
}

#[test]
fn one_bullet_scores_on_boss_and_player() {
    let mut server = GameServer::new(None, None, 0);
    let spot = Point::new(1000 * UNIT, 1000 * UNIT);
    server.boss = Some(Boss::new(BossType::NormalBoss, spot, 0));
    spawn(&mut server, 1, Classes::Sniper, 0);
    spawn(&mut server, 2, Classes::Sniper, 0);
    server.players[0].pos = spot;
    server.players[1].pos = Point::new(100 * UNIT, 100 * UNIT);
    server.players[1].health = 100;
    server.bullets.push(bullet_at(spot, 2, 0));
    server.resolve_hits(0);
    assert_eq!(server.boss.unwrap().health, 247);
    assert_eq!(server.players[0].health, 247);
    assert_eq!(server.players[1].health, 108);
    assert_eq!(server.bullets.len(), 0);
}
