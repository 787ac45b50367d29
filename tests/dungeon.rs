use arroba::ai::ai_take_turn;
use arroba::dungeon::{create_h_tunnel, create_room, create_v_tunnel, is_blocked, move_by};
use arroba::game::{Game, Messages};
use arroba::generator::make_map;
use arroba::geometry::Rect;
use arroba::object::{Ai, Color, DeathCallback, Fighter, Object, PlayerAction};
use arroba::session::{new_game, next_level};
use arroba::spawn::place_objects;
use arroba::tiles::{DungeonMap, Tile, Visibility};
use arroba::turn::{end_round, handle_command, player_move_or_attack, Command};

fn open_game() -> Game {
    let mut map = DungeonMap::filled_with_walls();
    create_room(Rect::new(0, 0, 30, 30), &mut map);
    Game { map, messages: Messages::new(), inventory: Vec::new(), dungeon_level: 1 }
}

fn player_at(x: i32, y: i32) -> Object {
    let mut p = Object::new(x, y, '@', "player", Color::White, true);
    p.alive = true;
    p.fighter = Some(Fighter { max_hp: 30, hp: 30, defense: 2, power: 5, xp: 0, on_death: DeathCallback::Player });
    p
}

fn orc(x: i32, y: i32) -> Object {
    let mut o = Object::new(x, y, 'o', "Orc", Color::DesaturatedGreen, true);
    o.alive = true;
    o.fighter = Some(Fighter { max_hp: 20, hp: 20, defense: 0, power: 4, xp: 35, on_death: DeathCallback::Monster });
    o.ai = Some(Ai::Basic);
    o
}

fn all_visible() -> Visibility {
    let mut fov = Visibility::new();
    for x in 0..80 {
        for y in 0..43 {
            fov.set_visible(x, y, true);
        }
    }
    fov
}

#[test]
fn room_carving_leaves_walls() {
    let mut map = DungeonMap::filled_with_walls();
    create_room(Rect::new(2, 2, 6, 6), &mut map);
    assert!(map.tile(2, 2).blocked);
    assert!(!map.tile(3, 3).blocked);
    assert!(!map.tile(7, 7).blocked);
    assert!(map.tile(8, 8).blocked);
}

#[test]
fn tunnels_include_both_ends() {
    let mut map = DungeonMap::filled_with_walls();
    create_h_tunnel(9, 4, 5, &mut map);
    create_v_tunnel(2, 6, 20, &mut map);
    for x in 4..=9 {
        assert!(!map.tile(x, 5).blocked);
    }
    assert!(map.tile(3, 5).blocked && map.tile(10, 5).blocked);
    for y in 2..=6 {
        assert!(!map.tile(20, y).blocked);
    }
    assert_eq!(map.tile(20, 7), Tile::wall());
}

#[test]
fn blocking_entities_and_walls_block() {
    let game = open_game();
    let objects = vec![player_at(5, 5), orc(6, 6)];
    assert!(is_blocked(6, 6, &game.map, &objects));
    assert!(!is_blocked(7, 6, &game.map, &objects));
    assert!(is_blocked(0, 0, &game.map, &objects));
    assert!(is_blocked(-1, 3, &game.map, &objects));
}

#[test]
fn movement_is_skipped_when_blocked() {
    let game = open_game();
    let mut objects = vec![player_at(5, 5), orc(6, 6)];
    move_by(0, 1, 1, &game.map, &mut objects);
    assert_eq!(objects[0].pos(), (5, 5));
    move_by(0, -1, 0, &game.map, &mut objects);
    assert_eq!(objects[0].pos(), (4, 5));
    move_by(0, -3, 0, &game.map, &mut objects);
    assert_eq!(objects[0].pos(), (1, 5));
    move_by(0, -1, 0, &game.map, &mut objects);
    assert_eq!(objects[0].pos(), (1, 5));
}

#[test]
fn stepping_into_a_fighter_attacks_it() {
    let mut game = open_game();
    let mut objects = vec![player_at(5, 5), orc(6, 5)];
    player_move_or_attack(1, 0, &mut game, &mut objects);
    assert_eq!(objects[0].pos(), (5, 5));
    assert_eq!(objects[1].fighter.unwrap().hp, 15);
    player_move_or_attack(0, 1, &mut game, &mut objects);
    assert_eq!(objects[0].pos(), (5, 6));
}

#[test]
fn basic_monster_approaches_then_attacks() {
    let mut game = open_game();
    let fov = all_visible();
    let mut objects = vec![player_at(5, 5), orc(9, 8)];
    ai_take_turn(1, &fov, &mut game, &mut objects);
    assert_eq!(objects[1].pos(), (8, 7));
    ai_take_turn(1, &fov, &mut game, &mut objects);
    ai_take_turn(1, &fov, &mut game, &mut objects);
    assert_eq!(objects[1].pos(), (6, 5));
    ai_take_turn(1, &fov, &mut game, &mut objects);
    assert_eq!(objects[1].pos(), (6, 5));
    assert_eq!(objects[0].fighter.unwrap().hp, 28);
    assert!(matches!(objects[1].ai, Some(Ai::Basic)));
}

#[test]
fn unseen_monster_waits() {
    let mut game = open_game();
    let mut objects = vec![player_at(5, 5), orc(9, 8)];
    ai_take_turn(1, &Visibility::new(), &mut game, &mut objects);
    assert_eq!(objects[1].pos(), (9, 8));
}

#[test]
fn confusion_ends_after_its_turns() {
    let mut game = open_game();
    let fov = all_visible();
    let mut confused = orc(15, 15);
    confused.ai = Some(Ai::Confused { previous_ai: Box::new(Ai::Basic), num_turns: 10 });
    let mut objects = vec![player_at(3, 3), confused];
    for turn in 1..=10 {
        ai_take_turn(1, &fov, &mut game, &mut objects);
        match &objects[1].ai {
            Some(Ai::Confused { num_turns, .. }) => {
                assert!(turn < 10);
                assert_eq!(*num_turns, 10 - turn);
            }
            Some(Ai::Basic) => assert_eq!(turn, 10),
            None => panic!("the AI went missing"),
        }
        let (x, y) = objects[1].pos();
        assert!((x - 15).abs() <= turn && (y - 15).abs() <= turn);
    }
    assert!(matches!(objects[1].ai, Some(Ai::Basic)));
    assert_eq!(game.messages.iter().last().unwrap().0, "The Orc is no longer confused!");
}

#[test]
fn monsters_act_only_after_a_turn_taken_alive() {
    let mut game = open_game();
    let fov = all_visible();
    let mut objects = vec![player_at(5, 5), orc(9, 5)];
    end_round(PlayerAction::DidntTakeTurn, &fov, &mut game, &mut objects);
    assert_eq!(objects[1].pos(), (9, 5));
    end_round(PlayerAction::TookTurn, &fov, &mut game, &mut objects);
    assert_eq!(objects[1].pos(), (8, 5));
    objects[0].alive = false;
    end_round(PlayerAction::TookTurn, &fov, &mut game, &mut objects);
    assert_eq!(objects[1].pos(), (8, 5));
}

#[test]
fn commands_report_whether_a_turn_passed() {
    let mut game = open_game();
    let fov = all_visible();
    let mut objects = vec![player_at(5, 5)];
    assert_eq!(handle_command(Command::Exit, &fov, &mut game, &mut objects), PlayerAction::Exit);
    assert_eq!(handle_command(Command::Wait, &fov, &mut game, &mut objects), PlayerAction::TookTurn);
    assert_eq!(handle_command(Command::Nothing, &fov, &mut game, &mut objects), PlayerAction::DidntTakeTurn);
    assert_eq!(handle_command(Command::Move { dx: 1, dy: 0 }, &fov, &mut game, &mut objects), PlayerAction::TookTurn);
    assert_eq!(objects[0].pos(), (6, 5));
    assert_eq!(handle_command(Command::UseItem { inventory_id: 3, target: None }, &fov, &mut game, &mut objects), PlayerAction::DidntTakeTurn);
    objects[0].alive = false;
    assert_eq!(handle_command(Command::Move { dx: 1, dy: 0 }, &fov, &mut game, &mut objects), PlayerAction::DidntTakeTurn);
    assert_eq!(objects[0].pos(), (6, 5));
    assert_eq!(handle_command(Command::Exit, &fov, &mut game, &mut objects), PlayerAction::Exit);
}

#[test]
fn pick_up_command_takes_item_underfoot() {
    let mut game = open_game();
    let fov = all_visible();
    let mut potion = Object::new(5, 5, '!', "healing potion", Color::Violet, false);
    potion.item = Some(arroba::object::Item::Heal);
    let mut objects = vec![player_at(5, 5), potion];
    assert_eq!(handle_command(Command::PickUp, &fov, &mut game, &mut objects), PlayerAction::DidntTakeTurn);
    assert_eq!(game.inventory.len(), 1);
    assert_eq!(objects.len(), 1);
}

fn rooms_of(map: &DungeonMap) -> usize {
    (0..80).flat_map(|x| (0..43).map(move |y| (x, y))).filter(|&(x, y)| !map.tile(x, y).blocked).count()
}

#[test]
fn generated_level_places_player_and_stairs() {
    for level in 1..6 {
        let mut objects = vec![player_at(0, 0), orc(1, 1)];
        let map = make_map(&mut objects, level);
        assert!(objects.len() >= 2);
        assert_eq!(objects[0].name, "player");
        let (px, py) = objects[0].pos();
        assert!(!map.tile(px, py).blocked);
        let stairs = objects.last().unwrap();
        assert_eq!(stairs.name, "stairs");
        assert!(stairs.always_visible);
        assert!(!map.tile(stairs.x, stairs.y).blocked);
        for o in &objects {
            assert!(!map.tile(o.x, o.y).blocked);
            assert!(o.x > 0 && o.x < 79 && o.y > 0 && o.y < 42);
        }
        assert!(rooms_of(&map) > 0);
    }
}

#[test]
fn stairs_lie_away_from_start() {
    let mut objects = vec![player_at(0, 0)];
    let _map = make_map(&mut objects, 1);
    assert_ne!(objects[0].pos(), objects.last().unwrap().pos());
}

#[test]
fn placed_entities_stay_inside_the_room() {
    let mut map = DungeonMap::filled_with_walls();
    let room = Rect::new(10, 10, 8, 7);
    create_room(room, &mut map);
    let mut objects = vec![player_at(0, 0)];
    for _ in 0..20 {
        place_objects(room, &map, &mut objects, 7);
    }
    for o in &objects[1..] {
        assert!(o.x > 10 && o.x < 18 && o.y > 10 && o.y < 17);
    }
    let blocking: Vec<(i32, i32)> = objects[1..].iter().filter(|o| o.blocks).map(|o| o.pos()).collect();
    for (i, p) in blocking.iter().enumerate() {
        assert!(!blocking[i + 1..].contains(p));
    }
}

#[test]
fn new_game_starts_on_level_one() {
    let (game, objects) = new_game();
    assert_eq!(game.dungeon_level, 1);
    assert_eq!(game.inventory.len(), 0);
    assert_eq!(game.messages.len(), 1);
    assert_eq!(objects[0].fighter.unwrap().hp, 30);
    assert!(objects[0].alive);
}

#[test]
fn descending_rests_and_regenerates() {
    let (mut game, mut objects) = new_game();
    objects[0].fighter = Some(Fighter { max_hp: 30, hp: 3, defense: 2, power: 5, xp: 0, on_death: DeathCallback::Player });
    next_level(&mut game, &mut objects);
    assert_eq!(game.dungeon_level, 2);
    assert_eq!(objects[0].fighter.unwrap().hp, 18);
    assert_eq!(game.messages.len(), 3);
    assert_eq!(objects.last().unwrap().name, "stairs");
}

#[test]
fn every_entity_is_reachable_from_the_start() {
    for level in 1..8 {
        let mut objects = vec![player_at(0, 0)];
        let map = make_map(&mut objects, level);
        let mut seen = vec![vec![false; 43]; 80];
        let start = objects[0].pos();
        let mut todo = vec![start];
        seen[start.0 as usize][start.1 as usize] = true;
        while let Some((x, y)) = todo.pop() {
            for (dx, dy) in [(1, 0), (-1, 0), (0, 1), (0, -1)] {
                let (nx, ny) = (x + dx, y + dy);
                if map.is_passable(nx, ny) && !seen[nx as usize][ny as usize] {
                    seen[nx as usize][ny as usize] = true;
                    todo.push((nx, ny));
                }
            }
        }
        for o in &objects {
            assert!(seen[o.x as usize][o.y as usize], "{} at {:?} cannot be reached", o.name, o.pos());
        }
    }
}

#[test]
fn deep_levels_spawn_both_monster_kinds() {
    let mut map = DungeonMap::filled_with_walls();
    let room = Rect::new(1, 1, 10, 10);
    create_room(room, &mut map);
    let mut names = Vec::new();
    for _ in 0..60 {
        let mut objects = vec![player_at(0, 0)];
        place_objects(room, &map, &mut objects, 7);
        for o in &objects[1..] {
            if let Some(f) = o.fighter {
                match o.name.as_str() {
                    "Orc" => assert_eq!((f.hp, f.defense, f.power, f.xp), (20, 0, 4, 35)),
                    "Troll" => assert_eq!((f.hp, f.defense, f.power, f.xp), (30, 2, 8, 100)),
                    other => panic!("unexpected monster {}", other),
                }
                names.push(o.name.clone());
            } else {
                assert!(o.item.is_some());
                assert!(o.always_visible);
            }
        }
        assert!(objects.len() <= 1 + 5 + 2);
    }
    assert!(names.iter().any(|n| n == "Orc"));
    assert!(names.iter().any(|n| n == "Troll"));
}

#[test]
fn first_level_spawns_no_trolls() {
    let mut map = DungeonMap::filled_with_walls();
    let room = Rect::new(1, 1, 10, 10);
    create_room(room, &mut map);
    for _ in 0..40 {
        let mut objects = vec![player_at(0, 0)];
        place_objects(room, &map, &mut objects, 1);
        assert!(objects.len() <= 1 + 2 + 1);
        assert!(objects.iter().all(|o| o.name != "Troll"));
    }
}

#[test]
fn names_under_mouse_lists_seen_entities() {
    let mut fov = Visibility::new();
    fov.set_visible(4, 4, true);
    let objects = vec![player_at(4, 4), orc(4, 4), orc(5, 4), Object::new(4, 4, '!', "potion", Color::Violet, false)];
    assert_eq!(arroba::dungeon::get_names_under_mouse(4, 4, &objects, &fov), "player, Orc, potion");
    assert_eq!(arroba::dungeon::get_names_under_mouse(5, 4, &objects, &fov), "");
    assert_eq!(arroba::dungeon::get_names_under_mouse(4, 4, &objects, &Visibility::new()), "");
}

#[test]
fn message_log_keeps_order() {
    let mut messages = Messages::new();
    messages.add("first".to_string(), Color::White);
    messages.add("second".to_string(), Color::Red);
    let texts: Vec<&str> = messages.iter().map(|(t, _)| t.as_str()).collect();
    assert_eq!(texts, vec!["first", "second"]);
    assert_eq!(messages.iter().rev().next().unwrap().1, Color::Red);
    assert_eq!(messages.len(), 2);
}

#[test]
fn layout_keeps_rooms_that_meet_none_before() {
    let candidates = vec![
        (Rect::new(1, 1, 6, 6), true),
        (Rect::new(5, 5, 6, 6), false),
        (Rect::new(20, 10, 8, 6), true),
    ];
    let (map, kept) = arroba::generator::lay_out_rooms(&candidates);
    assert_eq!(kept.len(), 2);
    assert_eq!(kept[0].0, Rect::new(1, 1, 6, 6));
    assert_eq!(kept[1].0, Rect::new(20, 10, 8, 6));
    assert!(!map.tile(4, 4).blocked);
    assert!(map.tile(7, 7).blocked);
    assert!(!map.tile(15, 4).blocked);
    assert!(!map.tile(24, 8).blocked);
    assert!(map.tile(15, 13).blocked);
    assert!(map.tile(9, 9).blocked);
}

#[test]
fn layout_bends_corridor_by_flag() {
    let candidates = vec![(Rect::new(1, 1, 6, 6), true), (Rect::new(20, 10, 8, 6), false)];
    let (map, kept) = arroba::generator::lay_out_rooms(&candidates);
    assert_eq!(kept.len(), 2);
    assert!(!map.tile(4, 10).blocked);
    assert!(!map.tile(15, 13).blocked);
    assert!(map.tile(15, 4).blocked);
}

#[test]
fn empty_layout_is_solid_rock() {
    let (map, kept) = arroba::generator::lay_out_rooms(&Vec::new());
    assert!(kept.is_empty());
    assert!(map.tiles.iter().all(|t| t.blocked && t.block_sight));
}

#[test]
fn drawn_spots_are_played_in_order() {
    let game = open_game();
    let mut objects = vec![player_at(3, 3)];
    let monsters = vec![(3, 3, 0), (4, 4, 1), (4, 4, 0), (5, 5, 0)];
    arroba::spawn::place_drawn(&game.map, &mut objects, &monsters, true);
    assert_eq!(objects.len(), 3);
    assert_eq!((objects[1].name.as_str(), objects[1].pos()), ("Troll", (4, 4)));
    assert_eq!((objects[2].name.as_str(), objects[2].pos()), ("Orc", (5, 5)));
    let items = vec![(4, 4, 2), (6, 6, 3), (6, 6, 9), (0, 0, 0)];
    arroba::spawn::place_drawn(&game.map, &mut objects, &items, false);
    assert_eq!(objects.len(), 5);
    assert_eq!(objects[3].item, Some(arroba::object::Item::ScrollConfusion));
    assert_eq!(objects[4].item, Some(arroba::object::Item::Sword));
    assert_eq!(objects[4].pos(), (6, 6));
}

#[test]
fn generated_blocking_entities_stand_apart() {
    for level in 1..10 {
        let mut objects = vec![player_at(0, 0)];
        let map = make_map(&mut objects, level);
        for (i, a) in objects.iter().enumerate() {
            assert!(map.is_passable(a.x, a.y));
            for b in &objects[i + 1..] {
                if a.blocks && b.blocks {
                    assert_ne!(a.pos(), b.pos());
                }
            }
        }
        if level < 3 {
            assert!(objects.iter().all(|o| o.name != "Troll"));
        }
    }
}
