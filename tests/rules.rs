use shooter_sim::boss::{Boss, BossMotion, BossType};
use shooter_sim::bullet::{bullet_ttl, elapsed_ms, BossBullet, Bullet, BOSS_BULLET_TTL};
use shooter_sim::geometry::{distance_squared, overlaps, Point, COORD_LIMIT, UNIT, WORLDSIZE};
use shooter_sim::player::{burst_size, fire_cooldown, Classes, Player, PlayerMotion, Shot};
use shooter_sim::server::{ClientMessage, DecodedMessage, Disconnect, GameServer, TickPlan};

fn fresh(id: u64, class: Classes, now: u64) -> Player {
    Player::new(id, "n".to_string(), class, Point::new(1000 * UNIT, 1000 * UNIT), now)
}

fn idle(n: usize) -> TickPlan {
    let zero = Point::new(0, 0);
    let players = (0..n).map(|_| PlayerMotion { cruise_vel: zero, boost_vel: zero, burst: Vec::new() }).collect();
    TickPlan { players, boss: BossMotion { vel: zero, aim: zero, side: zero, side_vel: zero } }
}

#[test]
fn overlap_is_symmetric_and_inclusive() {
    let a = Point::new(0, 0);
    let b = Point::new(30, 40);
    assert_eq!(distance_squared(a, b), 2500);
    assert!(overlaps(a, 20, b, 30));
    assert!(overlaps(b, 30, a, 20));
    assert!(!overlaps(a, 20, b, 29));
    assert!(!overlaps(b, 29, a, 20));
}

#[test]
fn class_constants() {
    assert_eq!(fire_cooldown(Classes::Quickshot), 750);
    assert_eq!(fire_cooldown(Classes::Sniper), 1000);
    assert_eq!(bullet_ttl(Classes::Quickshot), 600);
    assert_eq!(bullet_ttl(Classes::Sniper), 1000);
    assert_eq!(BOSS_BULLET_TTL, 1250);
}

#[test]
fn burst_sizes() {
    assert_eq!(burst_size(Classes::Quickshot, 255), 25);
    assert_eq!(burst_size(Classes::Quickshot, 9), 0);
    assert_eq!(burst_size(Classes::Sniper, 0), 11);
    assert_eq!(burst_size(Classes::Sniper, 51), 13);
    assert_eq!(burst_size(Classes::Sniper, 255), 21);
}

#[test]
fn health_saturates_both_ways() {
    let mut p = fresh(1, Classes::Sniper, 0);
    p.health = 10;
    p.apply_hits(50, 4);
    assert_eq!(p.health, 4);
    p.health = 250;
    p.apply_hits(0, 20);
    assert_eq!(p.health, 255);
    p.health = 3;
    p.apply_hits(u64::MAX, 0);
    assert_eq!(p.health, 0);
    p.mana = 250;
    p.regen(200, 9);
    assert_eq!(p.health, 200);
    assert_eq!(p.mana, 255);
}

#[test]
fn projectiles_expire_at_their_lifetime() {
    let mut server = GameServer::new(None, None, 0);
    let zero = Point::new(0, 0);
    server.bullets.push(Bullet { vel: zero, pos: zero, spawn: 100, class: Classes::Quickshot, id: 1, owner: 5 });
    server.bullets.push(Bullet { vel: zero, pos: zero, spawn: 100, class: Classes::Sniper, id: 2, owner: 5 });
    server.boss_bullets.push(BossBullet { vel: zero, pos: zero, spawn: 100, id: 3 });
    server.expire(699);
    assert_eq!(server.bullets.len(), 2);
    server.expire(700);
    assert_eq!(server.bullets.len(), 1);
    assert_eq!(server.bullets[0].id, 2);
    server.expire(1100);
    assert_eq!(server.bullets.len(), 0);
    assert_eq!(server.boss_bullets.len(), 1);
    server.expire(1350);
    assert_eq!(server.boss_bullets.len(), 0);
}

#[test]
fn bullets_advance_by_elapsed_steps() {
    let mut b = Bullet { vel: Point::new(16, -16), pos: Point::new(0, 0), spawn: 0, class: Classes::Sniper, id: 1, owner: 1 };
    b.advance(32);
    assert_eq!(b.pos, Point::new(32, -32));
    b.advance(8);
    assert_eq!(b.pos, Point::new(40, -40));
    let mut far = Bullet { vel: Point::new(COORD_LIMIT, 0), pos: Point::new(COORD_LIMIT, 0), spawn: 0, class: Classes::Sniper, id: 1, owner: 1 };
    far.advance(1_000_000);
    assert_eq!(far.pos.x, COORD_LIMIT);
}

#[test]
fn player_tick_boost_move_and_clamp() {
    let mut p = fresh(1, Classes::Quickshot, 5_000);
    p.split = true;
    let motion = PlayerMotion {
        cruise_vel: Point::new(1, 1),
        boost_vel: Point::new(-2_000 * UNIT, 5),
        burst: Vec::new(),
    };
    let mut bullets = Vec::new();
    assert!(p.boost_ready(5_000));
    assert!(p.boosted(5_000));
    p.tick(5_000, &motion, &mut bullets);
    assert_eq!(p.mana, 155);
    assert_eq!(p.split_time, Some(5_000));
    assert_eq!(p.vel, Point::new(-2_000 * UNIT, 5));
    assert_eq!(p.pos, Point::new(0, 1000 * UNIT + 5));
    assert!(bullets.is_empty());
    // Within the boost window no new boost starts, and the boosted velocity holds.
    p.tick(5_300, &motion, &mut bullets);
    assert_eq!(p.mana, 155);
    assert_eq!(p.vel.x, -2_000 * UNIT);
    // After the window the cruising velocity applies.
    p.split = false;
    p.tick(5_700, &motion, &mut bullets);
    assert_eq!(p.vel, Point::new(1, 1));
}

#[test]
fn boost_needs_more_than_the_cost() {
    let mut p = fresh(1, Classes::Sniper, 5_000);
    p.split = true;
    p.mana = 100;
    assert!(!p.boost_ready(5_000));
    p.mana = 101;
    assert!(p.boost_ready(5_000));
    p.split_time = Some(4_401);
    assert!(!p.boost_ready(5_000));
    p.split_time = Some(4_400);
    assert!(p.boost_ready(5_000));
}

#[test]
fn quickshot_burst_bullets_belong_to_shooter() {
    let mut p = fresh(6, Classes::Quickshot, 5_000);
    p.mouse = true;
    p.health = 20;
    assert_eq!(burst_size(Classes::Quickshot, 20), 2);
    let shots = vec![
        Shot { offset: Point::new(50 * UNIT, 0), vel: Point::new(0, 15 * UNIT) },
        Shot { offset: Point::new(0, -50 * UNIT), vel: Point::new(15 * UNIT, 0) },
    ];
    let motion = PlayerMotion { cruise_vel: Point::new(0, 0), boost_vel: Point::new(0, 0), burst: shots };
    let mut bullets = Vec::new();
    assert!(p.fire_ready(5_000));
    p.tick(5_000, &motion, &mut bullets);
    assert_eq!(bullets.len(), 2);
    assert_eq!(bullets[0].pos, Point::new(1050 * UNIT, 1000 * UNIT));
    assert_eq!(bullets[1].pos, Point::new(1000 * UNIT, 950 * UNIT));
    assert!(bullets.iter().all(|b| b.owner == 6 && b.spawn == 5_000 && b.class == Classes::Quickshot));
    assert!(!p.fire_ready(5_750));
    assert!(p.fire_ready(5_751));
}

#[test]
fn regen_catches_up_in_whole_steps() {
    let mut server = GameServer::new(None, None, 0);
    let mut q = fresh(1, Classes::Quickshot, 0);
    q.health = 100;
    q.mana = 0;
    let mut s = fresh(2, Classes::Sniper, 0);
    s.mana = 0;
    server.players.push(q);
    server.players.push(s);
    server.regen(500);
    assert_eq!(server.players[0].health, 110);
    assert_eq!(server.players[0].mana, 20);
    assert_eq!(server.players[1].mana, 31);
    assert_eq!(server.health_tick, 480);
    assert_eq!(server.quickshot_mana, 480);
    assert_eq!(server.sniper_mana, 496);
}

#[test]
fn commands_update_only_existing_players() {
    let mut server = GameServer::new(None, None, 0);
    server.handle_decoded(DecodedMessage { id: 3, m: ClientMessage::Click(true) }, 0);
    assert_eq!(server.players.len(), 0);
    server.handle_decoded(DecodedMessage { id: 3, m: ClientMessage::Spawn("ann".to_string(), Classes::Sniper) }, 0);
    assert_eq!(server.players.len(), 1);
    let p = &server.players[0];
    assert_eq!((p.health, p.mana), (255, 255));
    assert!(p.pos.x >= 0 && p.pos.x <= WORLDSIZE && p.pos.y >= 0 && p.pos.y <= WORLDSIZE);
    assert_eq!(p.name, "ann");
    server.handle_decoded(DecodedMessage { id: 3, m: ClientMessage::Click(true) }, 0);
    server.handle_decoded(DecodedMessage { id: 3, m: ClientMessage::Split(true) }, 0);
    server.handle_decoded(DecodedMessage { id: 3, m: ClientMessage::Join(true) }, 0);
    server.handle_decoded(DecodedMessage { id: 3, m: ClientMessage::Target(Point::new(i64::MIN, 7)) }, 0);
    server.handle_decoded(DecodedMessage { id: 3, m: ClientMessage::Escape(true) }, 40);
    server.handle_decoded(DecodedMessage { id: 3, m: ClientMessage::Escape(true) }, 90);
    let p = &server.players[0];
    assert!(p.mouse && p.split && p.join);
    assert_eq!(p.target, Point::new(-COORD_LIMIT, 7));
    assert_eq!(p.escape_time, Some(40));
    server.handle_decoded(DecodedMessage { id: 3, m: ClientMessage::Escape(false) }, 95);
    assert_eq!(server.players[0].escape_time, None);
    server.handle_decoded(DecodedMessage { id: 3, m: ClientMessage::Spawn("bo".to_string(), Classes::Quickshot) }, 0);
    assert_eq!(server.players.len(), 1);
    assert_eq!(server.players[0].name, "bo");
    server.disconnect(Disconnect { id: 3 });
    assert_eq!(server.players.len(), 0);
}

#[test]
fn wormhole_captures_joining_player() {
    let mut server = GameServer::new(None, None, 0);
    let pos = server.add_wormhole(42, 1);
    assert!(pos.x == 0 || pos.x == WORLDSIZE || pos.y == 0 || pos.y == WORLDSIZE);
    let mut a = fresh(1, Classes::Sniper, 0);
    a.pos = pos;
    a.join = true;
    let mut b = fresh(2, Classes::Sniper, 0);
    b.pos = pos;
    server.players.push(a);
    server.players.push(b);
    let moved = server.capture_players();
    assert_eq!(moved.len(), 1);
    assert_eq!(moved[0].dest, 42);
    assert_eq!(moved[0].player.id, 1);
    assert_eq!(server.players.len(), 1);
    assert_eq!(server.players[0].id, 2);
}

#[test]
fn boss_chases_nearest_and_fires_twin_stream() {
    let mut boss = Boss::new(BossType::HardcoreBoss, Point::new(1000 * UNIT, 1000 * UNIT), 0);
    let mut near = fresh(1, Classes::Sniper, 0);
    near.pos = Point::new(1100 * UNIT, 1000 * UNIT);
    let mut far = fresh(2, Classes::Sniper, 0);
    far.pos = Point::new(0, 0);
    let players = vec![far, near];
    assert_eq!(boss.nearest(&players), Some(1));
    assert_eq!(boss.nearest(&Vec::new()), None);
    let motion = BossMotion {
        vel: Point::new(3 * UNIT, 0),
        aim: Point::new(10 * UNIT, 0),
        side: Point::new(0, 50 * UNIT),
        side_vel: Point::new(UNIT, 0),
    };
    let mut shots = Vec::new();
    boss.tick(600, &motion, &mut shots);
    assert_eq!(boss.pos, Point::new(1003 * UNIT, 1000 * UNIT));
    assert_eq!(shots.len(), 3);
    assert_eq!(shots[0].pos, boss.pos);
    assert_eq!(shots[0].vel, Point::new(10 * UNIT, 0));
    assert_eq!(shots[1].pos, Point::new(1003 * UNIT, 950 * UNIT));
    assert_eq!(shots[2].pos, Point::new(1003 * UNIT, 1050 * UNIT));
    boss.tick(800, &motion, &mut shots);
    assert_eq!(shots.len(), 3);
    boss.tick(851, &motion, &mut shots);
    assert_eq!(shots.len(), 5);
}

#[test]
fn snapshot_lists_everything_visible() {
    let mut server = GameServer::new(Some(BossType::NormalBoss), None, 0);
    let mut shooter = fresh(1, Classes::Sniper, 3_000);
    shooter.shot_time = Some(1_000);
    server.players.push(shooter);
    let zero = Point::new(0, 0);
    server.bullets.push(Bullet { vel: zero, pos: zero, spawn: 0, class: Classes::Sniper, id: 10, owner: 1 });
    server.boss_bullets.push(BossBullet { vel: zero, pos: zero, spawn: 0, id: 11 });
    let view = server.snapshot(3_500);
    assert_eq!(view.players.len(), 1);
    assert_eq!(view.players[0].shot_time, Some(2_500));
    assert_eq!(view.players[0].name, "n");
    assert_eq!(view.bullets.iter().map(|b| b.id).collect::<Vec<_>>(), vec![10, 11]);
    assert_eq!(view.boss.unwrap().health, 255);
}

#[test]
fn idle_tick_stamps_time() {
    let mut server = GameServer::new(None, None, 0);
    server.players.push(fresh(1, Classes::Sniper, 0));
    let plan = idle(1);
    server.tick(16, &plan);
    assert_eq!(server.last_tick, 16);
    assert_eq!(elapsed_ms(10, 20), 0);
    assert_eq!(elapsed_ms(20, 10), 10);
}

#[test]
fn fresh_player_abilities_ready_at_clock_zero() {
    let mut server = GameServer::new(None, None, 0);
    server.handle_decoded(DecodedMessage { id: 8, m: ClientMessage::Spawn("z".to_string(), Classes::Sniper) }, 0);
    server.handle_decoded(DecodedMessage { id: 8, m: ClientMessage::Click(true) }, 0);
    server.handle_decoded(DecodedMessage { id: 8, m: ClientMessage::Split(true) }, 0);
    let p = &server.players[0];
    assert_eq!(p.shot_time, None);
    assert_eq!(p.split_time, None);
    assert!(p.fire_ready(0));
    assert!(p.boost_ready(0));
    assert_eq!(server.snapshot(0).players[0].shot_time, None);
}

#[test]
fn regen_pays_every_step_after_a_stall() {
    let mut server = GameServer::new(None, None, 0);
    let mut p = fresh(1, Classes::Sniper, 0);
    p.health = 1;
    p.mana = 0;
    server.players.push(p);
    server.regen(20_000);
    assert_eq!(server.players[0].health, 255);
    assert_eq!(server.players[0].mana, 255);
    assert_eq!(server.health_tick, 416 * 48);
    assert_eq!(server.quickshot_mana, 833 * 24);
    assert_eq!(server.sniper_mana, 1250 * 16);
    server.players[0].health = 0;
    server.regen(20_047);
    assert_eq!(server.players[0].health, 1);
    assert_eq!(server.health_tick, 417 * 48);
}
