use arroba::combat::{monster_death, player_death};
use arroba::constants::{MAX_DEFENSE, MAX_MAX_HP, MAX_POWER};
use arroba::game::{Game, Messages};
use arroba::object::{Ai, Color, DeathCallback, Fighter, Object};
use arroba::tiles::DungeonMap;

fn empty_game() -> Game {
    Game {
        map: DungeonMap::filled_with_walls(),
        messages: Messages::new(),
        inventory: Vec::new(),
        dungeon_level: 1,
    }
}

fn fresh_player() -> Object {
    let mut p = Object::new(0, 0, '@', "player", Color::White, true);
    p.alive = true;
    p.fighter = Some(Fighter { max_hp: 30, hp: 30, defense: 2, power: 5, xp: 0, on_death: DeathCallback::Player });
    p
}

fn orc(x: i32, y: i32) -> Object {
    let mut o = Object::new(x, y, 'o', "Orc", Color::DesaturatedGreen, true);
    o.alive = true;
    o.fighter = Some(Fighter { max_hp: 20, hp: 20, defense: 0, power: 4, xp: 35, on_death: DeathCallback::Monster });
    o.ai = Some(Ai::Basic);
    o
}

fn last_text(game: &Game) -> String {
    game.messages.iter().last().unwrap().0.clone()
}

#[test]
fn fresh_player_hits_fresh_orc_for_five() {
    let mut game = empty_game();
    let mut player = fresh_player();
    let mut target = orc(1, 0);
    player.attack(&mut target, &mut game);
    assert_eq!(target.fighter.unwrap().hp, 15);
    assert!(target.alive);
    assert!(target.fighter.is_some());
    assert_eq!(player.fighter.unwrap().xp, 0);
    assert_eq!(last_text(&game), "player attacks Orc for 5 hit points.");
}

#[test]
fn attack_without_advantage_changes_nothing() {
    let mut game = empty_game();
    let mut weak = fresh_player();
    weak.fighter = Some(Fighter { max_hp: 30, hp: 30, defense: 2, power: 3, xp: 0, on_death: DeathCallback::Player });
    let mut target = orc(1, 0);
    target.fighter = Some(Fighter { max_hp: 20, hp: 20, defense: 3, power: 4, xp: 35, on_death: DeathCallback::Monster });
    weak.attack(&mut target, &mut game);
    assert_eq!(target.fighter.unwrap().hp, 20);
    assert_eq!(last_text(&game), "player attacks Orc but it has no effect!");
}

#[test]
fn killing_blow_turns_monster_into_remains_and_credits_xp() {
    let mut game = empty_game();
    let mut player = fresh_player();
    let mut target = orc(1, 0);
    target.fighter = Some(Fighter { max_hp: 20, hp: 4, defense: 0, power: 4, xp: 35, on_death: DeathCallback::Monster });
    player.attack(&mut target, &mut game);
    assert!(!target.alive);
    assert!(!target.blocks);
    assert!(target.fighter.is_none());
    assert!(target.ai.is_none());
    assert_eq!(target.char, '%');
    assert_eq!(target.name, "remains of Orc");
    assert_eq!(player.fighter.unwrap().xp, 35);
    assert_eq!(last_text(&game), "Orc is dead! You gain 35 experience points.");
    assert_eq!(game.messages.len(), 2);
}

#[test]
fn take_damage_ignores_non_positive_amounts() {
    let mut game = empty_game();
    let mut target = orc(1, 0);
    assert_eq!(target.take_damage(0, &mut game), None);
    assert_eq!(target.take_damage(-7, &mut game), None);
    assert_eq!(target.fighter.unwrap().hp, 20);
    assert_eq!(game.messages.len(), 0);
}

#[test]
fn take_damage_to_zero_returns_experience() {
    let mut game = empty_game();
    let mut target = orc(1, 0);
    assert_eq!(target.take_damage(20, &mut game), Some(35));
    assert!(!target.alive);
    assert_eq!(target.color, Color::DarkRed);
}

#[test]
fn player_death_is_cosmetic() {
    let mut game = empty_game();
    let mut player = fresh_player();
    player_death(&mut player, &mut game);
    assert_eq!(player.char, '%');
    assert_eq!(player.color, Color::DarkRed);
    assert!(player.fighter.is_some());
    assert!(player.blocks);
    assert_eq!(last_text(&game), "You died!");
}

#[test]
fn dead_player_keeps_fighter_after_lethal_damage() {
    let mut game = empty_game();
    let mut player = fresh_player();
    assert_eq!(player.take_damage(31, &mut game), Some(0));
    assert!(!player.alive);
    assert_eq!(player.fighter.unwrap().hp, -1);
    assert_eq!(player.char, '%');
}

#[test]
fn monster_death_keeps_position() {
    let mut game = empty_game();
    let mut target = orc(7, 9);
    monster_death(&mut target, &mut game);
    assert_eq!(target.pos(), (7, 9));
    assert_eq!(target.name, "remains of Orc");
}

#[test]
fn heal_never_passes_max_hp() {
    let mut p = fresh_player();
    p.fighter = Some(Fighter { max_hp: 30, hp: 10, defense: 2, power: 5, xp: 0, on_death: DeathCallback::Player });
    p.heal(5);
    assert_eq!(p.fighter.unwrap().hp, 15);
    p.heal(i32::MAX);
    assert_eq!(p.fighter.unwrap().hp, 30);
    p.heal(4);
    assert_eq!(p.fighter.unwrap().hp, 30);
}

#[test]
fn stat_raises_stop_at_their_ceilings() {
    let mut p = fresh_player();
    p.inc_power(1);
    assert_eq!(p.fighter.unwrap().power, 6);
    p.inc_power(1000);
    assert_eq!(p.fighter.unwrap().power, MAX_POWER);
    p.inc_power(1);
    assert_eq!(p.fighter.unwrap().power, MAX_POWER);
    p.inc_defense(i32::MAX);
    assert_eq!(p.fighter.unwrap().defense, MAX_DEFENSE);
    p.inc_max_hp(5);
    assert_eq!(p.fighter.unwrap().max_hp, 35);
    p.inc_max_hp(500);
    assert_eq!(p.fighter.unwrap().max_hp, MAX_MAX_HP);
}

#[test]
fn raising_an_entity_without_fighter_does_nothing() {
    let mut o = Object::new(3, 4, '!', "potion", Color::Violet, false);
    o.heal(10);
    o.inc_power(1);
    assert!(o.fighter.is_none());
    assert_eq!(o.pos(), (3, 4));
}

#[test]
fn new_object_defaults() {
    let o = Object::new(2, 5, 'x', "thing", Color::Sky, true);
    assert_eq!(o.pos(), (2, 5));
    assert!(!o.alive);
    assert_eq!(o.level, 1);
    assert!(!o.always_visible);
    assert_eq!(o.name, "thing");
}

#[test]
fn squared_distance_is_exact() {
    let a = Object::new(1, 1, 'a', "a", Color::White, false);
    let b = Object::new(4, 5, 'b', "b", Color::White, false);
    assert_eq!(a.distance_sq_to(&b), 25);
    assert_eq!(a.distance_sq(1, 1), 0);
}
