use astroids::asteroid::{AsteroidMover, AstroidCollider};
use astroids::components::{
    Asteroid, Direction, GameData, Player, Position, Renderable, Rocket, TextureName,
};
use astroids::game::{load_world, tick, update, update_player, update_player_rotation};
use astroids::hud::hud_snapshot;
use astroids::rocket::{RocketDamage, RocketMover};
use astroids::utils::{is_key_pressed, key_down, KeyManager};
use astroids::world::{Entity, Kind, World};

fn player_at(id: u64, x: i32, y: i32, rot: i32, speed: i32, dir: Direction, damage: bool) -> Entity {
    Entity {
        id,
        doomed: false,
        position: Some(Position { x, y, rot }),
        renderable: Some(Renderable {
            texture_name: TextureName::Marco,
            input_width: 32,
            input_height: 42,
            output_width: 32,
            output_height: 42,
            frame: 1,
            total_frames: 9,
            render_rotation: 0,
        }),
        kind: Kind::Player(Player { speed, direction: dir, can_take_damage: damage }),
    }
}

fn asteroid_at(id: u64, x: i32, y: i32, rot: i32, mult: u32) -> Entity {
    Entity {
        id,
        doomed: false,
        position: Some(Position { x, y, rot }),
        renderable: Some(Renderable {
            texture_name: TextureName::Enemy,
            input_width: 33,
            input_height: 45,
            output_width: 33 * mult,
            output_height: 45 * mult,
            frame: 1,
            total_frames: 12,
            render_rotation: 0,
        }),
        kind: Kind::Asteroid(Asteroid { speed: 4, rotation_speed: 500, size_multiplier: mult }),
    }
}

fn rocket_at(id: u64, x: i32, y: i32, rot: i32) -> Entity {
    Entity {
        id,
        doomed: false,
        position: Some(Position { x, y, rot }),
        renderable: Some(Renderable {
            texture_name: TextureName::Rocket,
            input_width: 17,
            input_height: 61,
            output_width: 40,
            output_height: 61,
            frame: 0,
            total_frames: 1,
            render_rotation: 0,
        }),
        kind: Kind::Rocket(Rocket { speed: 10 }),
    }
}

fn data_with(id: u64, score: u32, level: u32) -> Entity {
    Entity {
        id,
        doomed: false,
        position: None,
        renderable: None,
        kind: Kind::Data(GameData { score, level }),
    }
}

fn world_of(entities: Vec<Entity>) -> World {
    let loaded = entities.iter().any(|e| matches!(e.kind, Kind::Data(_)));
    let next_id = entities.iter().map(|e| e.id + 1).max().unwrap_or(0);
    World { entities, pending: Vec::new(), next_id, loaded }
}

fn player_position(w: &World) -> Position {
    for e in w.entities.iter() {
        if matches!(e.kind, Kind::Player(_)) {
            return e.position.unwrap();
        }
    }
    panic!("no player");
}

fn data_of(w: &World) -> GameData {
    for e in w.entities.iter() {
        if let Kind::Data(g) = e.kind {
            return g;
        }
    }
    panic!("no data");
}

#[test]
fn player_wrap_right() {
    let mut w = world_of(vec![player_at(0, 799, 300, 0, 5, Direction::Right, true)]);
    update_player(&mut w);
    let p = player_position(&w);
    assert_eq!((p.x, p.y), (4, 300));
    update_player(&mut w);
    let p = player_position(&w);
    assert_eq!((p.x, p.y), (9, 300));
}

#[test]
fn player_wrap_is_noop_at_rest() {
    let mut w = world_of(vec![player_at(0, 800, 600, 0, 0, Direction::Right, true)]);
    update_player(&mut w);
    let p = player_position(&w);
    assert_eq!((p.x, p.y), (800, 600));
    update_player(&mut w);
    let p = player_position(&w);
    assert_eq!((p.x, p.y), (800, 600));
}

#[test]
fn fire_under_cap() {
    let mut w = world_of(vec![
        player_at(0, 100, 100, 45, 0, Direction::Right, true),
        asteroid_at(1, 700, 500, 0, 1),
        rocket_at(2, 10, 10, 0),
        rocket_at(3, 20, 10, 0),
        rocket_at(4, 30, 10, 0),
        rocket_at(5, 40, 10, 0),
        data_with(6, 0, 1),
    ]);
    let mut keys = KeyManager::new();
    key_down(&mut keys, String::from("Space"));
    update(&mut w, &mut keys);
    assert_eq!(w.count_rockets(), 5);
    assert!(!is_key_pressed(&keys, "Space"));
    let fired = w.entities.last().unwrap();
    assert!(matches!(fired.kind, Kind::Rocket(_)));
    let fp = fired.position.unwrap();
    assert_eq!((fp.x, fp.y, fp.rot), (100, 100, 135));
    update(&mut w, &mut keys);
    assert_eq!(w.count_rockets(), 5);
}

#[test]
fn fire_at_cap() {
    let mut w = world_of(vec![
        player_at(0, 100, 100, 0, 0, Direction::Right, true),
        asteroid_at(1, 700, 500, 0, 1),
        rocket_at(2, 10, 10, 0),
        rocket_at(3, 20, 10, 0),
        rocket_at(4, 30, 10, 0),
        rocket_at(5, 40, 10, 0),
        rocket_at(6, 50, 10, 0),
        data_with(7, 0, 1),
    ]);
    let mut keys = KeyManager::new();
    key_down(&mut keys, String::from("Space"));
    update(&mut w, &mut keys);
    assert_eq!(w.count_rockets(), 5);
    assert!(!is_key_pressed(&keys, "Space"));
}

#[test]
fn godmode_blocks_lethal_collision() {
    let mut w = world_of(vec![
        player_at(0, 100, 100, 0, 0, Direction::Right, false),
        asteroid_at(1, 100, 100, 0, 2),
    ]);
    let mut collider = AstroidCollider;
    collider.run(&mut w);
    w.maintain();
    assert_eq!(w.count_players(), 1);
}

#[test]
fn vulnerable_player_dies_on_collision() {
    let mut w = world_of(vec![
        player_at(0, 100, 100, 0, 0, Direction::Right, true),
        asteroid_at(1, 100, 100, 0, 2),
    ]);
    let mut collider = AstroidCollider;
    collider.run(&mut w);
    w.maintain();
    assert_eq!(w.count_players(), 0);
}

#[test]
fn fragmentation_splits_and_scores() {
    let mut w = world_of(vec![
        rocket_at(0, 400, 300, 0),
        asteroid_at(1, 400, 300, 0, 4),
        data_with(2, 0, 1),
    ]);
    let mut damage = RocketDamage;
    damage.run(&mut w);
    w.maintain();
    assert_eq!(w.count_rockets(), 0);
    assert_eq!(w.count_asteroids(), 2);
    let mut rots = Vec::new();
    for e in w.entities.iter() {
        if let Kind::Asteroid(a) = e.kind {
            assert_eq!(a.size_multiplier, 2);
            assert_eq!(a.speed, 6);
            let r = e.renderable.unwrap();
            assert_eq!((r.input_width, r.input_height), (33, 45));
            assert_eq!((r.output_width, r.output_height), (66, 90));
            assert_eq!(r.total_frames, 12);
            let p = e.position.unwrap();
            assert_eq!((p.x, p.y), (400, 300));
            rots.push(p.rot);
        }
    }
    rots.sort();
    assert_eq!(rots, vec![-90, 90]);
    assert_eq!(data_of(&w).score, 4);
}

#[test]
fn small_asteroid_leaves_no_fragments() {
    let mut w = world_of(vec![
        rocket_at(0, 400, 300, 0),
        asteroid_at(1, 400, 300, 0, 1),
        data_with(2, 5, 1),
    ]);
    let mut damage = RocketDamage;
    damage.run(&mut w);
    w.maintain();
    assert_eq!(w.count_rockets(), 0);
    assert_eq!(w.count_asteroids(), 0);
    assert_eq!(data_of(&w).score, 6);
}

#[test]
fn respawn_after_player_loss() {
    let mut w = World::new();
    let mut keys = KeyManager::new();
    tick(&mut w, &mut keys, 0);
    assert_eq!(w.count_players(), 1);
    assert_eq!(w.count_asteroids(), 1);
    let g = data_of(&w);
    assert_eq!((g.score, g.level), (0, 1));
    let p = player_position(&w);
    assert_eq!((p.x, p.y), (50, 50));
    for e in w.entities.iter() {
        if let Kind::Asteroid(a) = e.kind {
            assert_eq!(a.size_multiplier, 2);
        }
    }
}

#[test]
fn load_world_seeds_fixed_state() {
    let mut w = World::new();
    load_world(&mut w);
    assert_eq!(w.count_players(), 1);
    assert_eq!(w.count_asteroids(), 1);
    assert_eq!(w.count_data(), 1);
    assert!(w.loaded);
    let p = player_position(&w);
    assert_eq!((p.x, p.y, p.rot), (50, 50, 270));
    let g = data_of(&w);
    assert_eq!((g.score, g.level), (0, 1));
}

#[test]
fn wave_advances_level_and_spawns() {
    let mut w = world_of(vec![
        player_at(0, 400, 300, 0, 0, Direction::Right, true),
        data_with(1, 9, 1),
    ]);
    let mut keys = KeyManager::new();
    update(&mut w, &mut keys);
    let g = data_of(&w);
    assert_eq!(g.level, 2);
    assert_eq!(g.score, 9);
    assert_eq!(w.count_asteroids(), 1);
    for e in w.entities.iter() {
        if let Kind::Asteroid(a) = e.kind {
            assert!((1..=5).contains(&a.size_multiplier));
            let p = e.position.unwrap();
            assert!((50..750).contains(&p.x));
            assert!((50..550).contains(&p.y));
            assert!((0..360).contains(&p.rot));
        }
    }
}

#[test]
fn burst_key_spawns_twenty_thousand() {
    let mut w = world_of(vec![
        player_at(0, 400, 300, 0, 0, Direction::Right, true),
        asteroid_at(1, 700, 500, 0, 1),
        data_with(2, 0, 1),
    ]);
    let mut keys = KeyManager::new();
    key_down(&mut keys, String::from("V"));
    update(&mut w, &mut keys);
    assert_eq!(w.count_asteroids(), 20001);
    assert!(!is_key_pressed(&keys, "V"));
    let mut xs: Vec<i32> = Vec::new();
    for e in w.entities.iter() {
        if let Kind::Asteroid(_) = e.kind {
            let p = e.position.unwrap();
            assert!((50..750).contains(&p.x));
            assert!((50..550).contains(&p.y));
            xs.push(p.x);
        }
    }
    xs.sort();
    xs.dedup();
    assert!(xs.len() > 1);
    update(&mut w, &mut keys);
    assert_eq!(w.count_asteroids(), 20001);
}

#[test]
fn godmode_toggle_consumes_key() {
    let mut w = world_of(vec![
        player_at(0, 400, 300, 0, 0, Direction::Right, true),
        asteroid_at(1, 700, 500, 0, 1),
        data_with(2, 0, 1),
    ]);
    let mut keys = KeyManager::new();
    key_down(&mut keys, String::from("C"));
    update(&mut w, &mut keys);
    assert!(!is_key_pressed(&keys, "C"));
    let mut found = false;
    for e in w.entities.iter() {
        if let Kind::Player(p) = e.kind {
            assert!(!p.can_take_damage);
            found = true;
        }
    }
    assert!(found);
    update(&mut w, &mut keys);
    for e in w.entities.iter() {
        if let Kind::Player(p) = e.kind {
            assert!(!p.can_take_damage);
        }
    }
}

#[test]
fn movement_keys_set_intent_with_priority() {
    let mut w = world_of(vec![
        player_at(0, 400, 300, 0, 0, Direction::Up, true),
        asteroid_at(1, 700, 500, 0, 1),
        data_with(2, 0, 1),
    ]);
    let mut keys = KeyManager::new();
    key_down(&mut keys, String::from("A"));
    key_down(&mut keys, String::from("D"));
    update(&mut w, &mut keys);
    for e in w.entities.iter() {
        if let Kind::Player(p) = e.kind {
            assert_eq!(p.direction, Direction::Right);
            assert_eq!(p.speed, 5);
        }
    }
    let mut keys2 = KeyManager::new();
    key_down(&mut keys2, String::from("S"));
    update(&mut w, &mut keys2);
    for e in w.entities.iter() {
        if let Kind::Player(p) = e.kind {
            assert_eq!(p.direction, Direction::Down);
            assert_eq!(p.speed, 5);
        }
    }
    let mut keys3 = KeyManager::new();
    update(&mut w, &mut keys3);
    for e in w.entities.iter() {
        if let Kind::Player(p) = e.kind {
            assert_eq!(p.direction, Direction::Down);
            assert_eq!(p.speed, 0);
        }
    }
}

#[test]
fn asteroid_bounces_off_right_edge() {
    let mut w = world_of(vec![asteroid_at(0, 781, 300, 90, 1)]);
    let mut mover = AsteroidMover;
    mover.run(&mut w);
    let e = &w.entities[0];
    let p = e.position.unwrap();
    assert_eq!((p.x, p.y), (785, 300));
    assert_eq!(p.rot, 270);
    mover.run(&mut w);
    let e = &w.entities[0];
    let p = e.position.unwrap();
    assert_eq!((p.x, p.y), (781, 300));
    assert_eq!(p.rot, 270);
}

#[test]
fn asteroid_spin_stays_normalized() {
    let mut w = world_of(vec![asteroid_at(0, 400, 300, 0, 1)]);
    if let Some(r) = w.entities[0].renderable.as_mut() {
        r.render_rotation = 358;
    }
    let mut mover = AsteroidMover;
    mover.run(&mut w);
    let rr = w.entities[0].renderable.unwrap().render_rotation;
    assert_eq!(rr, 2);
    assert!((0..360).contains(&rr));
}

#[test]
fn rocket_expires_off_screen() {
    let mut w = world_of(vec![rocket_at(0, 795, 300, 90)]);
    let mut mover = RocketMover;
    mover.run(&mut w);
    assert_eq!(w.count_rockets(), 1);
    let p = w.entities[0].position.unwrap();
    assert_eq!((p.x, p.y), (805, 300));
    assert_eq!(w.entities[0].renderable.unwrap().render_rotation, 90);
    w.maintain();
    assert_eq!(w.count_rockets(), 0);
    assert_eq!(w.entity_count(), 0);
}

#[test]
fn aiming_turns_player_and_sprite() {
    let mut w = world_of(vec![player_at(0, 400, 300, 0, 0, Direction::Right, true)]);
    update_player_rotation(&mut w, 123);
    let e = &w.entities[0];
    assert_eq!(e.position.unwrap().rot, 123);
    assert_eq!(e.renderable.unwrap().render_rotation, 123);
}

#[test]
fn delete_defers_until_maintain() {
    let mut w = world_of(vec![
        player_at(0, 400, 300, 0, 0, Direction::Right, true),
        data_with(1, 0, 1),
    ]);
    w.delete(0);
    assert_eq!(w.entity_count(), 2);
    assert_eq!(w.count_players(), 1);
    w.delete(0);
    w.maintain();
    assert_eq!(w.entity_count(), 1);
    assert_eq!(w.count_players(), 0);
    assert!(w.loaded);
}

#[test]
fn hud_reports_score_level_and_godmode() {
    let w = world_of(vec![
        player_at(0, 400, 300, 0, 0, Direction::Right, true),
        data_with(1, 7, 3),
    ]);
    let h = hud_snapshot(&w);
    assert!(h.has_data);
    assert_eq!((h.score, h.level), (7, 3));
    assert!(!h.godmode);
    assert_eq!(h.entity_count, 2);
    let w2 = world_of(vec![player_at(0, 400, 300, 0, 0, Direction::Right, false)]);
    let h2 = hud_snapshot(&w2);
    assert!(!h2.has_data);
    assert_eq!((h2.score, h2.level), (0, 0));
    assert!(h2.godmode);
}

#[test]
fn every_sprite_has_a_position_after_a_tick() {
    let mut w = World::new();
    let mut keys = KeyManager::new();
    key_down(&mut keys, String::from("Space"));
    tick(&mut w, &mut keys, 45);
    for e in w.entities.iter() {
        if e.renderable.is_some() {
            assert!(e.position.is_some());
        }
        assert!(!e.doomed);
    }
    assert!(w.count_players() <= 1);
    assert!(w.count_rockets() <= 5);
    for e in w.entities.iter() {
        if let Kind::Asteroid(a) = e.kind {
            assert!((1..=5).contains(&a.size_multiplier));
        }
    }
}

#[test]
fn level_never_decreases_over_ticks() {
    let mut w = World::new();
    let mut keys = KeyManager::new();
    tick(&mut w, &mut keys, 0);
    let mut last = data_of(&w).level;
    for _ in 0..20 {
        tick(&mut w, &mut keys, 0);
        if w.count_players() >= 1 {
            let lv = data_of(&w).level;
            assert!(lv >= last);
            last = lv;
        } else {
            last = 1;
        }
    }
}
