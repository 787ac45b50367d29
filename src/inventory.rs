use vstd::prelude::*;
use crate::constants::{INVENTORY_CAPACITY, PLAYER};
use crate::game::{Game, LogLine, Messages, logged};
use crate::items::{
    cast_confusion, cast_fireball, cast_heal, cast_lightning, cast_potion_def, cast_potion_hp,
    cast_potion_pwr, confusion_outcome, defense_outcome, fireball_outcome, heal_outcome,
    lightning_outcome, max_hp_outcome, power_outcome,
};
use crate::object::{Color, Equipment, Item, Object, Slot, UseResult};
use crate::tiles::Visibility;

verus! {

/// How a slot is named in messages.
pub open spec fn slot_text(slot: Slot) -> Seq<char> {
    match slot {
        Slot::LeftHand => "left hand"@,
        Slot::RightHand => "right hand"@,
        Slot::Head => "head"@,
    }
}

fn slot_name(slot: Slot) -> (r: &'static str)
    ensures
        r@ == slot_text(slot),
{
    match slot {
        Slot::LeftHand => "left hand",
        Slot::RightHand => "right hand",
        Slot::Head => "head",
    }
}

/// Text logged when `name` is put on `slot`.
pub open spec fn equip_text(name: Seq<char>, slot: Slot) -> Seq<char> {
    "Equipped "@ + name + " on "@ + slot_text(slot) + "."@
}

/// Text logged when `name` is taken off `slot`.
pub open spec fn dequip_text(name: Seq<char>, slot: Slot) -> Seq<char> {
    "Dequipped "@ + name + " from "@ + slot_text(slot) + "."@
}

/// Text logged when `name`, which is not equipment, is to be put on.
pub open spec fn cant_equip_text(name: Seq<char>) -> Seq<char> {
    "Can't equip "@ + name + " because it's not an Equipment."@
}

/// Text logged when `name`, which is not equipment, is to be taken off.
pub open spec fn cant_dequip_text(name: Seq<char>) -> Seq<char> {
    "Can't dequip "@ + name + " because it's not an Equipment."@
}

/// The lines logged when every item of `inv` worn on `slot` is taken off,
/// in order.
pub open spec fn dequip_log(inv: Seq<Object>, slot: Slot) -> Seq<LogLine>
    decreases inv.len(),
{
    if inv.len() == 0 {
        Seq::empty()
    } else if worn_on(inv.last(), slot) {
        dequip_log(inv.drop_last(), slot).push((dequip_text(inv.last().name@, slot), Color::LightYellow))
    } else {
        dequip_log(inv.drop_last(), slot)
    }
}

/// Whether no item of `inv` is worn on `slot`.
pub open spec fn slot_free(inv: Seq<Object>, slot: Slot) -> bool {
    forall|i: int| 0 <= i < inv.len() ==> !#[trigger] worn_on(inv[i], slot)
}

/// `o` with its equipment marked worn (`on`) or not.
pub open spec fn with_equipped(o: Object, on: bool) -> Object {
    match o.equipment {
        Some(e) => Object { equipment: Some(Equipment { equipped: on, ..e }), ..o },
        None => o,
    }
}

/// Whether `o` is equipment worn on `slot`.
pub open spec fn worn_on(o: Object, slot: Slot) -> bool {
    match o.equipment {
        Some(e) => e.equipped && e.slot == slot,
        None => false,
    }
}

/// Index of the first item of `inventory` worn on `slot`.
pub fn get_equipped_in_slot(slot: Slot, inventory: &[Object]) -> (r: Option<usize>)
    ensures
        match r {
            None => forall|i: int| 0 <= i < inventory@.len() ==> !#[trigger] worn_on(inventory@[i], slot),
            Some(i) => i < inventory@.len() && worn_on(inventory@[i as int], slot) && forall|j: int|
                0 <= j < i ==> !#[trigger] worn_on(inventory@[j], slot),
        },
{
    let mut i: usize = 0;
    while i < inventory.len()
        invariant
            i <= inventory@.len(),
            forall|j: int| 0 <= j < i ==> !#[trigger] worn_on(inventory@[j], slot),
        decreases inventory@.len() - i,
    {
        match inventory[i].equipment {
            Some(e) => {
                if e.equipped && e.slot == slot {
                    return Some(i);
                }
            },
            None => {},
        }
        i = i + 1;
    }
    None
}

impl Object {
    /// Puts this equipment on, with a message; an item that is not
    /// equipment stays as it is, and the message says so.
    pub fn equip(&mut self, messages: &mut Messages)
        ensures
            match old(self).equipment {
                Some(e) => if e.equipped {
                    *final(self) == *old(self) && final(messages)@ == old(messages)@
                } else {
                    &&& *final(self) == with_equipped(*old(self), true)
                    &&& final(messages)@ == old(messages)@.push((equip_text(old(self).name@, e.slot), Color::LightGreen))
                },
                None => *final(self) == *old(self) && final(messages)@ == old(messages)@.push((cant_equip_text(old(self).name@), Color::Red)),
            },
    {
        match self.equipment {
            Some(e) => {
                if !e.equipped {
                    let mut e2 = e;
                    e2.equipped = true;
                    self.equipment = Some(e2);
                    let mut text = String::from_str("Equipped ");
                    text.append(self.name.as_str());
                    text.append(" on ");
                    text.append(slot_name(e.slot));
                    text.append(".");
                    messages.add(text, Color::LightGreen);
                }
            },
            None => {
                let mut text = String::from_str("Can't equip ");
                text.append(self.name.as_str());
                text.append(" because it's not an Equipment.");
                messages.add(text, Color::Red);
            },
        }
    }

    /// Takes this equipment off, with a message; an item that is not
    /// equipment stays as it is, and the message says so.
    pub fn dequip(&mut self, messages: &mut Messages)
        ensures
            match old(self).equipment {
                Some(e) => if !e.equipped {
                    *final(self) == *old(self) && final(messages)@ == old(messages)@
                } else {
                    &&& *final(self) == with_equipped(*old(self), false)
                    &&& final(messages)@ == old(messages)@.push((dequip_text(old(self).name@, e.slot), Color::LightYellow))
                },
                None => *final(self) == *old(self) && final(messages)@ == old(messages)@.push((cant_dequip_text(old(self).name@), Color::Red)),
            },
    {
        match self.equipment {
            Some(e) => {
                if e.equipped {
                    let mut e2 = e;
                    e2.equipped = false;
                    self.equipment = Some(e2);
                    let mut text = String::from_str("Dequipped ");
                    text.append(self.name.as_str());
                    text.append(" from ");
                    text.append(slot_name(e.slot));
                    text.append(".");
                    messages.add(text, Color::LightYellow);
                }
            },
            None => {
                let mut text = String::from_str("Can't dequip ");
                text.append(self.name.as_str());
                text.append(" because it's not an Equipment.");
                messages.add(text, Color::Red);
            },
        }
    }
}

/// Text logged when the inventory is full.
pub open spec fn inventory_full_text(name: Seq<char>) -> Seq<char> {
    "Your inventory is full, cannot pick up "@ + name + "."@
}

/// Text logged when an item is picked up.
pub open spec fn picked_up_text(name: Seq<char>) -> Seq<char> {
    "You picked up a "@ + name + "!"@
}

/// What `pick_item_up` does to the entities and the session. Picked-up
/// equipment is worn exactly when nothing in the inventory was worn on its
/// slot.
pub open spec fn pick_up_outcome(o1: Seq<Object>, g1: Game, o2: Seq<Object>, g2: Game, id: int) -> bool {
    let item = o1[id];
    if g1.inventory@.len() >= INVENTORY_CAPACITY {
        &&& o2 == o1
        &&& logged(g1, g2, seq![(inventory_full_text(item.name@), Color::Red)])
    } else {
        let auto_equip = item.equipment is Some && slot_free(g1.inventory@, item.equipment.unwrap().slot);
        &&& o2 == o1.update(id, o1.last()).drop_last()
        &&& g2.map == g1.map
        &&& g2.dungeon_level == g1.dungeon_level
        &&& g2.inventory@ == g1.inventory@.push(with_equipped(item, auto_equip))
        &&& g2.messages@ == g1.messages@.push((picked_up_text(item.name@), Color::Green)) + if auto_equip {
            seq![(equip_text(item.name@, item.equipment.unwrap().slot), Color::LightGreen)]
        } else {
            Seq::<LogLine>::empty()
        }
    }
}

/// Moves entity `object_id` from the floor into the inventory, unless the
/// inventory already holds `INVENTORY_CAPACITY` items; equipment is put on
/// at once when nothing in the inventory is worn on its slot.
pub fn pick_item_up(object_id: usize, game: &mut Game, objects: &mut Vec<Object>)
    requires
        PLAYER < object_id < old(objects)@.len(),
    ensures
        pick_up_outcome(old(objects)@, *old(game), final(objects)@, *final(game), object_id as int),
{
    if game.inventory.len() >= INVENTORY_CAPACITY {
        let mut text = String::from_str("Your inventory is full, cannot pick up ");
        text.append(objects[object_id].name.as_str());
        text.append(".");
        game.messages.add(text, Color::Red);
        assert(game.messages@ =~= old(game).messages@ + seq![(inventory_full_text(old(objects)@[object_id as int].name@), Color::Red)]);
    } else {
        let mut item = objects.swap_remove(object_id);
        let ghost picked = item;
        let mut text = String::from_str("You picked up a ");
        text.append(item.name.as_str());
        text.append("!");
        game.messages.add(text, Color::Green);
        let ghost m1 = game.messages@;
        let index = game.inventory.len();
        let slot = match item.equipment {
            Some(e) => {
                let mut e2 = e;
                e2.equipped = false;
                item.equipment = Some(e2);
                Some(e.slot)
            },
            None => None,
        };
        assert(item == with_equipped(picked, false));
        game.inventory.push(item);
        match slot {
            Some(slot) => {
                if get_equipped_in_slot(slot, game.inventory.as_slice()).is_none() {
                    assert forall|i: int| 0 <= i < old(game).inventory@.len() implies !#[trigger] worn_on(old(game).inventory@[i], slot) by {
                        assert(game.inventory@[i] == old(game).inventory@[i]);
                    }
                    game.inventory[index].equip(&mut game.messages);
                    assert(game.inventory@ =~= old(game).inventory@.push(with_equipped(picked, true)));
                    assert(game.messages@ =~= old(game).messages@.push((picked_up_text(picked.name@), Color::Green)) + seq![
                        (equip_text(picked.name@, slot), Color::LightGreen),
                    ]);
                } else {
                    proof {
                        assert(game.messages@ =~= m1 + Seq::<LogLine>::empty());
                        let j = choose|j: int| 0 <= j < game.inventory@.len() && worn_on(#[trigger] game.inventory@[j], slot);
                        if j < index as int {
                            assert(old(game).inventory@[j] == game.inventory@[j]);
                        }
                        assert(!slot_free(old(game).inventory@, slot));
                        assert(game.inventory@ =~= old(game).inventory@.push(with_equipped(picked, false)));
                        assert(game.messages@ =~= old(game).messages@.push((picked_up_text(picked.name@), Color::Green)) + Seq::<LogLine>::empty());
                    }
                }
            },
            None => {
                assert(game.inventory@ =~= old(game).inventory@.push(with_equipped(picked, false)));
                assert(game.messages@ =~= old(game).messages@.push((picked_up_text(picked.name@), Color::Green)) + Seq::<LogLine>::empty());
            },
        }
    }
}

/// What `drop_item` does.
pub open spec fn drop_outcome(o1: Seq<Object>, g1: Game, o2: Seq<Object>, g2: Game, inventory_id: usize) -> bool {
    let item = g1.inventory@[inventory_id as int];
    &&& g2.inventory@ == g1.inventory@.remove(inventory_id as int)
    &&& o2 == o1.push(with_equipped(Object { x: o1[0].x, y: o1[0].y, ..item }, false))
    &&& g2.map == g1.map
    &&& g2.dungeon_level == g1.dungeon_level
    &&& g2.messages@ == g1.messages@.push(("You dropped a "@ + item.name@ + "."@, Color::Yellow))
}

/// Puts inventory item `inventory_id` on the floor under the player; an
/// item worn is taken off as it is dropped.
pub fn drop_item(inventory_id: usize, game: &mut Game, objects: &mut Vec<Object>)
    requires
        inventory_id < old(game).inventory@.len(),
        old(objects)@.len() >= 1,
    ensures
        drop_outcome(old(objects)@, *old(game), final(objects)@, *final(game), inventory_id),
{
    let mut item = game.inventory.remove(inventory_id);
    item.set_pos(objects[PLAYER].x, objects[PLAYER].y);
    match item.equipment {
        Some(e) => {
            let mut e2 = e;
            e2.equipped = false;
            item.equipment = Some(e2);
        },
        None => {},
    }
    let mut text = String::from_str("You dropped a ");
    text.append(item.name.as_str());
    text.append(".");
    game.messages.add(text, Color::Yellow);
    objects.push(item);
}

/// What toggling the equipment in inventory slot `id` does to the session.
pub open spec fn toggle_outcome(g1: Game, g2: Game, r: UseResult, id: int) -> bool {
    let item = g1.inventory@[id];
    &&& r == UseResult::UsedAndKept
    &&& g2.map == g1.map
    &&& g2.dungeon_level == g1.dungeon_level
    &&& match item.equipment {
        Some(e) => if e.equipped {
            &&& g2.inventory@ == g1.inventory@.update(id, with_equipped(item, false))
            &&& g2.messages@ == g1.messages@.push((dequip_text(item.name@, e.slot), Color::LightYellow))
        } else {
            &&& exists|inv: Seq<Object>|
                g2.inventory@ == inv.update(id, with_equipped(item, true))
                && inv.len() == g1.inventory@.len()
                && forall|i: int| 0 <= i < inv.len() ==> #[trigger] inv[i] == if worn_on(g1.inventory@[i], e.slot) {
                    with_equipped(g1.inventory@[i], false)
                } else {
                    g1.inventory@[i]
                }
            &&& g2.messages@ == g1.messages@ + dequip_log(g1.inventory@, e.slot) + seq![
                (equip_text(item.name@, e.slot), Color::LightGreen),
            ]
        },
        None => {
            &&& g2.inventory@ == g1.inventory@
            &&& g2.messages@ == g1.messages@.push((cant_equip_text(item.name@), Color::Red))
        },
    }
}

/// Puts on the equipment in inventory slot `inventory_id`, first taking
/// off what was worn on that slot, or takes it off if it is worn.
pub fn toggle_equipment(inventory_id: usize, game: &mut Game) -> (r: UseResult)
    requires
        inventory_id < old(game).inventory@.len(),
    ensures
        toggle_outcome(*old(game), *final(game), r, inventory_id as int),
{
    let ghost m0 = game.messages@;
    match game.inventory[inventory_id].equipment {
        Some(e) => {
            if e.equipped {
                game.inventory[inventory_id].dequip(&mut game.messages);
            } else {
                let mut i: usize = 0;
                assert(old(game).inventory@.take(0) =~= Seq::<Object>::empty());
                assert(game.messages@ =~= m0 + dequip_log(old(game).inventory@.take(0), e.slot));
                while i < game.inventory.len()
                    invariant
                        i <= game.inventory@.len(),
                        inventory_id < game.inventory@.len(),
                        game.inventory@.len() == old(game).inventory@.len(),
                        game.map == old(game).map,
                        game.dungeon_level == old(game).dungeon_level,
                        old(game).inventory@[inventory_id as int].equipment == Some(e),
                        !e.equipped,
                        game.messages@ == m0 + dequip_log(old(game).inventory@.take(i as int), e.slot),
                        forall|j: int| 0 <= j < i ==> #[trigger] game.inventory@[j] == if worn_on(old(game).inventory@[j], e.slot) {
                            with_equipped(old(game).inventory@[j], false)
                        } else {
                            old(game).inventory@[j]
                        },
                        forall|j: int| i <= j < game.inventory@.len() ==> #[trigger] game.inventory@[j] == old(game).inventory@[j],
                    decreases game.inventory@.len() - i,
                {
                    assert(old(game).inventory@.take(i + 1).drop_last() =~= old(game).inventory@.take(i as int));
                    assert(old(game).inventory@.take(i + 1).last() == old(game).inventory@[i as int]);
                    if worn_on_slot(&game.inventory[i], e.slot) {
                        game.inventory[i].dequip(&mut game.messages);
                        assert(game.messages@ =~= m0 + dequip_log(old(game).inventory@.take(i + 1), e.slot));
                    } else {
                        assert(game.messages@ =~= m0 + dequip_log(old(game).inventory@.take(i + 1), e.slot));
                    }
                    i = i + 1;
                }
                let ghost inv = game.inventory@;
                assert(old(game).inventory@.take(i as int) =~= old(game).inventory@);
                game.inventory[inventory_id].equip(&mut game.messages);
                proof {
                    assert(game.messages@ =~= m0 + dequip_log(old(game).inventory@, e.slot) + seq![
                        (equip_text(old(game).inventory@[inventory_id as int].name@, e.slot), Color::LightGreen),
                    ]);
                    assert(inv[inventory_id as int] == old(game).inventory@[inventory_id as int]);
                    assert(game.inventory@ =~= inv.update(inventory_id as int, with_equipped(old(game).inventory@[inventory_id as int], true)));
                }
            }
        },
        None => {
            game.inventory[inventory_id].equip(&mut game.messages);
            assert(game.inventory@ =~= old(game).inventory@);
        },
    }
    UseResult::UsedAndKept
}

/// What the effect of `item`, used from inventory slot `id`, does.
pub open spec fn effect_outcome(
    item: Item,
    o1: Seq<Object>,
    g1: Game,
    o2: Seq<Object>,
    g2: Game,
    r: UseResult,
    id: usize,
    fov: Visibility,
    target: Option<(i32, i32)>,
) -> bool {
    match item {
        Item::MinorHeal | Item::Heal | Item::MajorHeal => heal_outcome(o1, g1, o2, g2, r, id),
        Item::PotionPwr => power_outcome(o1, g1, o2, g2, r),
        Item::PotionDef => defense_outcome(o1, g1, o2, g2, r),
        Item::PotionHp => max_hp_outcome(o1, g1, o2, g2, r),
        Item::ScrollLightning => lightning_outcome(o1, g1, o2, g2, r, fov),
        Item::ScrollConfusion => confusion_outcome(o1, g1, o2, g2, r, fov),
        Item::ScrollFireball => fireball_outcome(o1, g1, o2, g2, r, target),
        Item::Sword => o2 == o1 && toggle_outcome(g1, g2, r, id as int),
    }
}

/// What happens to the used item once its effect is done: it is gone when
/// used up, stays when kept, and a cancelled use is logged.
pub open spec fn settled(g1: Game, g2: Game, r: UseResult, id: int) -> bool {
    match r {
        UseResult::UsedUp => {
            &&& g2.inventory@ == g1.inventory@.remove(id)
            &&& g2.map == g1.map
            &&& g2.dungeon_level == g1.dungeon_level
            &&& g2.messages@ == g1.messages@
        },
        UseResult::UsedAndKept => g2 == g1,
        UseResult::Cancelled => logged(g1, g2, seq![("Cancelled"@, Color::White)]),
    }
}

/// What `use_item` does.
pub open spec fn use_outcome(o1: Seq<Object>, g1: Game, o2: Seq<Object>, g2: Game, inventory_id: usize, fov: Visibility, target: Option<(i32, i32)>) -> bool {
    match g1.inventory@[inventory_id as int].item {
        None => o2 == o1 && logged(
            g1,
            g2,
            seq![("The "@ + g1.inventory@[inventory_id as int].name@ + " cannot be used."@, Color::White)],
        ),
        Some(item) => exists|g_mid: Game, r: UseResult|
            effect_outcome(item, o1, g1, o2, g_mid, r, inventory_id, fov, target)
            && settled(g_mid, g2, r, inventory_id as int),
    }
}

/// Uses inventory item `inventory_id`: runs the effect of its kind, then
/// removes it when it was used up. `fov` is what the player sees, for the
/// spells that seek a monster; `target` is the tile the player picked for a
/// fireball, `None` when that was cancelled.
pub fn use_item(
    inventory_id: usize,
    fov: &Visibility,
    target: Option<(i32, i32)>,
    game: &mut Game,
    objects: &mut Vec<Object>,
)
    requires
        inventory_id < old(game).inventory@.len(),
        old(objects)@.len() >= 1,
    ensures
        use_outcome(old(objects)@, *old(game), final(objects)@, *final(game), inventory_id, *fov, target),
{
    match game.inventory[inventory_id].item {
        Some(item) => {
            let r = match item {
                Item::MinorHeal | Item::Heal | Item::MajorHeal => cast_heal(inventory_id, game, objects),
                Item::PotionPwr => cast_potion_pwr(inventory_id, game, objects),
                Item::PotionDef => cast_potion_def(inventory_id, game, objects),
                Item::PotionHp => cast_potion_hp(inventory_id, game, objects),
                Item::ScrollLightning => cast_lightning(inventory_id, fov, game, objects),
                Item::ScrollConfusion => cast_confusion(inventory_id, fov, game, objects),
                Item::ScrollFireball => cast_fireball(inventory_id, target, game, objects),
                Item::Sword => toggle_equipment(inventory_id, game),
            };
            let ghost g_mid = *game;
            assert(game.inventory@ == old(game).inventory@ || item == Item::Sword);
            match r {
                UseResult::UsedUp => {
                    game.inventory.remove(inventory_id);
                },
                UseResult::UsedAndKept => {},
                UseResult::Cancelled => {
                    game.messages.add(String::from_str("Cancelled"), Color::White);
                    assert(game.messages@ =~= g_mid.messages@ + seq![("Cancelled"@, Color::White)]);
                },
            }
            assert(settled(g_mid, *game, r, inventory_id as int));
        },
        None => {
            let mut text = String::from_str("The ");
            text.append(game.inventory[inventory_id].name.as_str());
            text.append(" cannot be used.");
            game.messages.add(text, Color::White);
            assert(game.messages@ =~= old(game).messages@ + seq![
                ("The "@ + old(game).inventory@[inventory_id as int].name@ + " cannot be used."@, Color::White),
            ]);
        },
    }
}

fn worn_on_slot(o: &Object, slot: Slot) -> (r: bool)
    ensures
        r == worn_on(*o, slot),
{
    match o.equipment {
        Some(e) => e.equipped && e.slot == slot,
        None => false,
    }
}

} // verus!
