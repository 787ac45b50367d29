use arroba::game::{Game, Messages};
use arroba::inventory::{drop_item, get_equipped_in_slot, pick_item_up, toggle_equipment, use_item};
use arroba::items::{cast_confusion, cast_fireball, cast_heal, cast_lightning, cast_potion_pwr, closest_monster};
use arroba::object::{Ai, Color, DeathCallback, Equipment, Fighter, Item, Object, Slot, UseResult};
use arroba::tiles::{DungeonMap, Visibility};

fn empty_game() -> Game {
    Game {
        map: DungeonMap::filled_with_walls(),
        messages: Messages::new(),
        inventory: Vec::new(),
        dungeon_level: 1,
    }
}

fn player_at(x: i32, y: i32) -> Object {
    let mut p = Object::new(x, y, '@', "player", Color::White, true);
    p.alive = true;
    p.fighter = Some(Fighter { max_hp: 30, hp: 30, defense: 2, power: 5, xp: 0, on_death: DeathCallback::Player });
    p
}

fn monster(name: &str, x: i32, y: i32, hp: i32) -> Object {
    let mut o = Object::new(x, y, 'o', name, Color::DesaturatedGreen, true);
    o.alive = true;
    o.fighter = Some(Fighter { max_hp: hp, hp, defense: 0, power: 4, xp: 35, on_death: DeathCallback::Monster });
    o.ai = Some(Ai::Basic);
    o
}

fn item(kind: Item, name: &str, x: i32, y: i32) -> Object {
    let mut o = Object::new(x, y, '!', name, Color::Violet, false);
    o.item = Some(kind);
    o
}

fn sword(x: i32, y: i32) -> Object {
    let mut o = item(Item::Sword, "sword", x, y);
    o.equipment = Some(Equipment { slot: Slot::RightHand, equipped: false });
    o
}

fn last_text(game: &Game) -> String {
    game.messages.iter().last().unwrap().0.clone()
}

fn all_visible() -> Visibility {
    let mut fov = Visibility::new();
    for x in 0..80 {
        for y in 0..43 {
            fov.set_visible(x, y, true);
        }
    }
    fov
}

#[test]
fn full_inventory_refuses_pickup() {
    let mut game = empty_game();
    for i in 0..26 {
        game.inventory.push(item(Item::Heal, "healing potion", 0, i));
    }
    let mut objects = vec![player_at(3, 3), item(Item::Heal, "healing potion", 3, 3)];
    pick_item_up(1, &mut game, &mut objects);
    assert_eq!(game.inventory.len(), 26);
    assert_eq!(objects.len(), 2);
    assert_eq!(last_text(&game), "Your inventory is full, cannot pick up healing potion.");
}

#[test]
fn pickup_moves_item_into_inventory() {
    let mut game = empty_game();
    let mut objects = vec![
        player_at(3, 3),
        item(Item::Heal, "healing potion", 3, 3),
        monster("Orc", 9, 9, 20),
    ];
    pick_item_up(1, &mut game, &mut objects);
    assert_eq!(game.inventory.len(), 1);
    assert_eq!(game.inventory[0].name, "healing potion");
    assert_eq!(objects.len(), 2);
    assert_eq!(objects[0].name, "player");
    assert_eq!(objects[1].name, "Orc");
    assert_eq!(last_text(&game), "You picked up a healing potion!");
}

#[test]
fn pickup_equips_when_slot_is_free() {
    let mut game = empty_game();
    let mut objects = vec![player_at(3, 3), sword(3, 3), sword(3, 3)];
    pick_item_up(1, &mut game, &mut objects);
    assert!(game.inventory[0].equipment.unwrap().equipped);
    assert_eq!(last_text(&game), "Equipped sword on right hand.");
    pick_item_up(1, &mut game, &mut objects);
    assert!(!game.inventory[1].equipment.unwrap().equipped);
    assert_eq!(get_equipped_in_slot(Slot::RightHand, &game.inventory), Some(0));
    assert_eq!(get_equipped_in_slot(Slot::Head, &game.inventory), None);
}

#[test]
fn toggling_swaps_worn_equipment() {
    let mut game = empty_game();
    let mut first = sword(0, 0);
    first.equipment = Some(Equipment { slot: Slot::RightHand, equipped: true });
    game.inventory.push(first);
    game.inventory.push(sword(0, 0));
    assert_eq!(toggle_equipment(1, &mut game), UseResult::UsedAndKept);
    assert!(!game.inventory[0].equipment.unwrap().equipped);
    assert!(game.inventory[1].equipment.unwrap().equipped);
    assert_eq!(toggle_equipment(1, &mut game), UseResult::UsedAndKept);
    assert!(!game.inventory[1].equipment.unwrap().equipped);
    assert_eq!(last_text(&game), "Dequipped sword from right hand.");
}

#[test]
fn drop_puts_item_under_player() {
    let mut game = empty_game();
    game.inventory.push(item(Item::Heal, "healing potion", 0, 0));
    let mut objects = vec![player_at(12, 7)];
    drop_item(0, &mut game, &mut objects);
    assert_eq!(game.inventory.len(), 0);
    assert_eq!(objects.len(), 2);
    assert_eq!(objects[1].pos(), (12, 7));
    assert_eq!(last_text(&game), "You dropped a healing potion.");
}

#[test]
fn heal_at_full_health_is_cancelled() {
    let mut game = empty_game();
    game.inventory.push(item(Item::Heal, "healing potion", 0, 0));
    let mut objects = vec![player_at(1, 1)];
    assert_eq!(cast_heal(0, &mut game, &mut objects), UseResult::Cancelled);
    assert_eq!(last_text(&game), "You are already at full health.");
}

#[test]
fn heal_tiers_restore_their_amounts() {
    for (kind, expected) in [(Item::MinorHeal, 14), (Item::Heal, 20), (Item::MajorHeal, 30)] {
        let mut game = empty_game();
        game.inventory.push(item(kind, "potion", 0, 0));
        let mut p = player_at(1, 1);
        p.fighter = Some(Fighter { max_hp: 30, hp: 10, defense: 2, power: 5, xp: 0, on_death: DeathCallback::Player });
        let mut objects = vec![p];
        assert_eq!(cast_heal(0, &mut game, &mut objects), UseResult::UsedUp);
        assert_eq!(objects[0].fighter.unwrap().hp, expected);
    }
}

#[test]
fn power_potion_stops_at_ceiling() {
    let mut game = empty_game();
    let mut p = player_at(1, 1);
    p.fighter = Some(Fighter { max_hp: 30, hp: 30, defense: 2, power: 30, xp: 0, on_death: DeathCallback::Player });
    let mut objects = vec![p];
    assert_eq!(cast_potion_pwr(0, &mut game, &mut objects), UseResult::Cancelled);
    assert_eq!(last_text(&game), "You are already at full power.");
}

#[test]
fn using_a_potion_consumes_it() {
    let mut game = empty_game();
    game.inventory.push(item(Item::PotionPwr, "potion of power", 0, 0));
    game.inventory.push(item(Item::PotionDef, "potion of defense", 0, 0));
    let mut objects = vec![player_at(1, 1)];
    use_item(0, &Visibility::new(), None, &mut game, &mut objects);
    assert_eq!(game.inventory.len(), 1);
    assert_eq!(game.inventory[0].name, "potion of defense");
    assert_eq!(objects[0].fighter.unwrap().power, 6);
}

#[test]
fn cancelled_use_keeps_item() {
    let mut game = empty_game();
    game.inventory.push(item(Item::Heal, "healing potion", 0, 0));
    let mut objects = vec![player_at(1, 1)];
    use_item(0, &Visibility::new(), None, &mut game, &mut objects);
    assert_eq!(game.inventory.len(), 1);
    assert_eq!(last_text(&game), "Cancelled");
}

#[test]
fn item_without_effect_cannot_be_used() {
    let mut game = empty_game();
    game.inventory.push(Object::new(0, 0, '?', "rock", Color::White, false));
    let mut objects = vec![player_at(1, 1)];
    use_item(0, &Visibility::new(), None, &mut game, &mut objects);
    assert_eq!(game.inventory.len(), 1);
    assert_eq!(last_text(&game), "The rock cannot be used.");
}

#[test]
fn fireball_hits_fighters_within_radius_only() {
    let mut game = empty_game();
    let mut objects = vec![
        player_at(40, 30),
        monster("Orc", 10, 10, 20),
        monster("Troll", 12, 11, 30),
        monster("Goblin", 14, 10, 20),
        item(Item::Heal, "healing potion", 10, 11),
    ];
    let r = cast_fireball(0, Some((10, 10)), &mut game, &mut objects);
    assert_eq!(r, UseResult::UsedUp);
    assert_eq!(objects[1].fighter.unwrap().hp, 8);
    assert_eq!(objects[2].fighter.unwrap().hp, 18);
    assert_eq!(objects[3].fighter.unwrap().hp, 20);
    assert_eq!(objects[0].fighter.unwrap().hp, 30);
    assert_eq!(last_text(&game), "The Troll gets burned for 12 hit points.");
}

#[test]
fn fireball_can_burn_the_player() {
    let mut game = empty_game();
    let mut objects = vec![player_at(10, 12)];
    cast_fireball(0, Some((10, 10)), &mut game, &mut objects);
    assert_eq!(objects[0].fighter.unwrap().hp, 18);
}

#[test]
fn fireball_without_target_is_cancelled() {
    let mut game = empty_game();
    let mut objects = vec![player_at(10, 12)];
    assert_eq!(cast_fireball(0, None, &mut game, &mut objects), UseResult::Cancelled);
    assert_eq!(objects[0].fighter.unwrap().hp, 30);
}

#[test]
fn closest_monster_prefers_nearest_seen() {
    let objects = vec![player_at(10, 10), monster("a", 14, 10, 20), monster("b", 12, 10, 20), monster("c", 11, 10, 20)];
    let mut fov = all_visible();
    assert_eq!(closest_monster(&fov, &objects, 5), Some(3));
    fov.set_visible(11, 10, false);
    assert_eq!(closest_monster(&fov, &objects, 5), Some(2));
    assert_eq!(closest_monster(&fov, &objects, 1), None);
    assert_eq!(closest_monster(&Visibility::new(), &objects, 5), None);
}

#[test]
fn lightning_strikes_nearest() {
    let mut game = empty_game();
    let mut objects = vec![player_at(10, 10), monster("Orc", 13, 10, 20), monster("Troll", 11, 11, 50)];
    let r = cast_lightning(0, &all_visible(), &mut game, &mut objects);
    assert_eq!(r, UseResult::UsedUp);
    assert_eq!(objects[2].fighter.unwrap().hp, 10);
    assert_eq!(objects[1].fighter.unwrap().hp, 20);
    assert_eq!(
        game.messages.iter().next().unwrap().0,
        "A lightning bolt strikes the Troll with a loud thunder! The damage is 40 hit points."
    );
}

#[test]
fn lightning_without_target_is_cancelled() {
    let mut game = empty_game();
    let mut objects = vec![player_at(10, 10), monster("Orc", 30, 10, 20)];
    assert_eq!(cast_lightning(0, &all_visible(), &mut game, &mut objects), UseResult::Cancelled);
    assert_eq!(last_text(&game), "No enemy is close enough to strike.");
}

#[test]
fn confusion_wraps_previous_ai() {
    let mut game = empty_game();
    let mut objects = vec![player_at(10, 10), monster("Orc", 13, 10, 20)];
    assert_eq!(cast_confusion(0, &all_visible(), &mut game, &mut objects), UseResult::UsedUp);
    match &objects[1].ai {
        Some(Ai::Confused { previous_ai, num_turns }) => {
            assert_eq!(*num_turns, 10);
            assert!(matches!(**previous_ai, Ai::Basic));
        }
        _ => panic!("the orc is not confused"),
    }
    assert_eq!(last_text(&game), "The eyes of Orc look vacant, as he starts to stumble around!");
}

#[test]
fn reequipping_after_drop_keeps_one_item_per_slot() {
    let mut game = empty_game();
    let mut objects = vec![player_at(3, 3), sword(3, 3)];
    pick_item_up(1, &mut game, &mut objects);
    assert!(game.inventory[0].equipment.unwrap().equipped);
    drop_item(0, &mut game, &mut objects);
    assert!(!objects[1].equipment.unwrap().equipped);
    let mut worn = sword(3, 3);
    worn.equipment = Some(Equipment { slot: Slot::RightHand, equipped: true });
    objects.push(sword(3, 3));
    pick_item_up(2, &mut game, &mut objects);
    objects.push(worn);
    pick_item_up(2, &mut game, &mut objects);
    pick_item_up(1, &mut game, &mut objects);
    let worn_count = game.inventory.iter().filter(|o| o.equipment.unwrap().equipped).count();
    assert_eq!(game.inventory.len(), 3);
    assert_eq!(worn_count, 1);
    assert!(game.inventory[0].equipment.unwrap().equipped);
}

#[test]
fn cancelled_fireball_logs_only_the_prompt() {
    let mut game = empty_game();
    let mut objects = vec![player_at(10, 12)];
    cast_fireball(0, None, &mut game, &mut objects);
    assert_eq!(game.messages.len(), 1);
    assert_eq!(last_text(&game), "Left-click a target tile for the fireball, or right-click to cancel.");
}

#[test]
fn fireball_logs_burns_and_deaths_in_order() {
    let mut game = empty_game();
    let mut objects = vec![player_at(40, 30), monster("Orc", 10, 10, 5), monster("Troll", 11, 10, 30)];
    cast_fireball(0, Some((10, 10)), &mut game, &mut objects);
    let texts: Vec<&str> = game.messages.iter().map(|(t, _)| t.as_str()).collect();
    assert_eq!(
        texts,
        vec![
            "Left-click a target tile for the fireball, or right-click to cancel.",
            "The fireball explodes, burning everything within 3 tiles!",
            "The Orc gets burned for 12 hit points.",
            "Orc is dead! You gain 35 experience points.",
            "The Troll gets burned for 12 hit points.",
        ]
    );
}
