use vstd::prelude::*;
use crate::combat::{damage_log, lemma_damage_log, took_damage};
use crate::constants::{
    CONFUSE_NUM_TURNS, CONFUSE_RANGE, FIREBALL_DAMAGE, FIREBALL_RADIUS, HEAL_AMOUNT,
    LIGHTNING_DAMAGE, LIGHTNING_RANGE, MAJOR_HEAL_AMOUNT, MAX_DEFENSE, MAX_MAX_HP, MAX_POWER,
    MINOR_HEAL_AMOUNT, PLAYER,
};
use crate::game::{Game, LogLine, logged};
use crate::object::{dist_sq, Ai, Color, Item, Object, UseResult};
use crate::text::{decimal, push_int};
use crate::tiles::Visibility;

verus! {

/// An entity that a targeted spell may pick: not the player, a fighter
/// with an AI, standing on a seen tile.
pub open spec fn is_target(objects: Seq<Object>, fov: Visibility, i: int) -> bool {
    &&& i != PLAYER
    &&& objects[i].fighter is Some
    &&& objects[i].ai is Some
    &&& fov.visible(objects[i].x as int, objects[i].y as int)
}

/// Squared distance from the player to entity `i`.
pub open spec fn player_dist(objects: Seq<Object>, i: int) -> int {
    dist_sq(objects[0].x as int, objects[0].y as int, objects[i].x as int, objects[i].y as int)
}

/// Whether entity `i` is a target nearer to the player than `max_range + 1`.
pub open spec fn in_reach(objects: Seq<Object>, fov: Visibility, max_range: int, i: int) -> bool {
    &&& max_range >= 0
    &&& is_target(objects, fov, i)
    &&& player_dist(objects, i) < (max_range + 1) * (max_range + 1)
}

/// Entity `c` is the target nearest to the player within `max_range`, and
/// the first in order among those as near.
pub open spec fn is_nearest(objects: Seq<Object>, fov: Visibility, max_range: int, c: int) -> bool {
    &&& 0 <= c < objects.len()
    &&& in_reach(objects, fov, max_range, c)
    &&& forall|i: int| 0 <= i < c && #[trigger] is_target(objects, fov, i) ==> player_dist(objects, i) > player_dist(objects, c)
    &&& forall|i: int| c < i < objects.len() && #[trigger] is_target(objects, fov, i) ==> player_dist(objects, i) >= player_dist(objects, c)
}

/// No target is within `max_range` of the player.
pub open spec fn none_in_reach(objects: Seq<Object>, fov: Visibility, max_range: int) -> bool {
    forall|i: int| 0 <= i < objects.len() ==> !#[trigger] in_reach(objects, fov, max_range, i)
}

/// The nearest target to the player within `max_range`, the first one on
/// a tie; `None` when there is none.
pub fn closest_monster(fov: &Visibility, objects: &[Object], max_range: i32) -> (r: Option<usize>)
    requires
        objects@.len() >= 1,
    ensures
        r is None <==> none_in_reach(objects@, *fov, max_range as int),
        r is Some ==> is_nearest(objects@, *fov, max_range as int, r.unwrap() as int),
{
    let mut closest: Option<usize> = None;
    if max_range < 0 {
        return None;
    }
    let m: i128 = max_range as i128 + 1;
    assert(0 <= m * m <= 0x1_0000_0000_0000_0000) by (nonlinear_arith)
        requires
            0 <= m <= 0x1_0000_0000,
    ;
    let reach: i128 = m * m;
    let mut closest_dist: i128 = reach;
    let mut id: usize = 0;
    while id < objects.len()
        invariant
            objects@.len() >= 1,
            max_range >= 0,
            id <= objects@.len(),
            reach == (max_range + 1) * (max_range + 1),
            closest is None ==> closest_dist == reach,
            closest is None ==> forall|i: int| 0 <= i < id ==> !#[trigger] in_reach(objects@, *fov, max_range as int, i),
            closest is Some ==> {
                let c = closest.unwrap() as int;
                &&& 0 <= c < id
                &&& closest_dist == player_dist(objects@, c)
                &&& in_reach(objects@, *fov, max_range as int, c)
                &&& forall|i: int| 0 <= i < c && #[trigger] is_target(objects@, *fov, i) ==> player_dist(objects@, i) > closest_dist
                &&& forall|i: int| c < i < id && #[trigger] is_target(objects@, *fov, i) ==> player_dist(objects@, i) >= closest_dist
            },
            closest_dist <= reach,
        decreases objects@.len() - id,
    {
        if id != PLAYER && objects[id].fighter.is_some() && objects[id].ai.is_some()
            && fov.is_in_fov(objects[id].x, objects[id].y) {
            let dist = objects[PLAYER].distance_sq_to(&objects[id]);
            if dist < closest_dist {
                proof {
                    assert forall|i: int| 0 <= i < id && #[trigger] is_target(objects@, *fov, i) implies player_dist(objects@, i) > dist by {
                        if closest is None {
                            assert(!in_reach(objects@, *fov, max_range as int, i));
                        } else if i == closest.unwrap() as int {
                        }
                    }
                }
                closest = Some(id);
                closest_dist = dist;
            }
        }
        id = id + 1;
    }
    closest
}

/// Hit points restored by a healing item; other items restore none.
pub open spec fn heal_amount(item: Option<Item>) -> int {
    match item {
        Some(Item::MinorHeal) => MINOR_HEAL_AMOUNT as int,
        Some(Item::Heal) => HEAL_AMOUNT as int,
        Some(Item::MajorHeal) => MAJOR_HEAL_AMOUNT as int,
        _ => 0,
    }
}

/// What `cast_heal` does, from entities `o1` and session `g1` to `o2`, `g2`
/// and the result `r`.
pub open spec fn heal_outcome(o1: Seq<Object>, g1: Game, o2: Seq<Object>, g2: Game, r: UseResult, inventory_id: usize) -> bool {
    match o1[0].fighter {
        None => r == UseResult::Cancelled && g2 == g1 && o2 == o1,
        Some(f) => if f.hp == f.max_hp {
            &&& r == UseResult::Cancelled
            &&& o2 == o1
            &&& logged(g1, g2, seq![("You are already at full health."@, Color::Red)])
        } else {
            &&& r == UseResult::UsedUp
            &&& o2 == o1.update(0, if heal_amount(g1.inventory@[inventory_id as int].item) > 0 {
                o1[0].spec_healed(heal_amount(g1.inventory@[inventory_id as int].item))
            } else {
                o1[0]
            })
            &&& logged(g1, g2, seq![("Your wounds start to feel better!"@, Color::LightViolet)])
        },
    }
}

/// Heals the player by the amount of the healing item in inventory slot
/// `inventory_id`; cancelled, with a message, at full health.
pub fn cast_heal(inventory_id: usize, game: &mut Game, objects: &mut Vec<Object>) -> (r: UseResult)
    requires
        inventory_id < old(game).inventory@.len(),
        old(objects)@.len() >= 1,
    ensures
        heal_outcome(old(objects)@, *old(game), final(objects)@, *final(game), r, inventory_id),
{
    match objects[PLAYER].fighter {
        Some(f) => {
            if f.hp == f.max_hp {
                game.messages.add(String::from_str("You are already at full health."), Color::Red);
                assert(game.messages@ =~= old(game).messages@ + seq![("You are already at full health."@, Color::Red)]);
                return UseResult::Cancelled;
            }
            game.messages.add(String::from_str("Your wounds start to feel better!"), Color::LightViolet);
            assert(game.messages@ =~= old(game).messages@ + seq![("Your wounds start to feel better!"@, Color::LightViolet)]);
            match game.inventory[inventory_id].item {
                Some(Item::MinorHeal) => objects[PLAYER].heal(MINOR_HEAL_AMOUNT),
                Some(Item::Heal) => objects[PLAYER].heal(HEAL_AMOUNT),
                Some(Item::MajorHeal) => objects[PLAYER].heal(MAJOR_HEAL_AMOUNT),
                _ => {},
            }
            assert(objects@ =~= old(objects)@.update(0, objects@[0]));
            UseResult::UsedUp
        },
        None => UseResult::Cancelled,
    }
}

/// What `cast_potion_pwr` does.
pub open spec fn power_outcome(o1: Seq<Object>, g1: Game, o2: Seq<Object>, g2: Game, r: UseResult) -> bool {
    match o1[0].fighter {
        None => r == UseResult::Cancelled && g2 == g1 && o2 == o1,
        Some(f) => if f.power >= MAX_POWER {
            &&& r == UseResult::Cancelled
            &&& o2 == o1
            &&& logged(g1, g2, seq![("You are already at full power."@, Color::Red)])
        } else {
            &&& r == UseResult::UsedUp
            &&& o2 == o1.update(0, o1[0].spec_power_raised(1))
            &&& logged(g1, g2, seq![("You feel the power through your veins!"@, Color::LightViolet)])
        },
    }
}

/// Raises the player's power by one; cancelled, with a message, once it is
/// at `MAX_POWER`.
pub fn cast_potion_pwr(_inventory_id: usize, game: &mut Game, objects: &mut Vec<Object>) -> (r: UseResult)
    requires
        old(objects)@.len() >= 1,
    ensures
        power_outcome(old(objects)@, *old(game), final(objects)@, *final(game), r),
{
    match objects[PLAYER].fighter {
        Some(f) => {
            if f.power >= MAX_POWER {
                game.messages.add(String::from_str("You are already at full power."), Color::Red);
                assert(game.messages@ =~= old(game).messages@ + seq![("You are already at full power."@, Color::Red)]);
                return UseResult::Cancelled;
            }
            game.messages.add(String::from_str("You feel the power through your veins!"), Color::LightViolet);
            assert(game.messages@ =~= old(game).messages@ + seq![("You feel the power through your veins!"@, Color::LightViolet)]);
            objects[PLAYER].inc_power(1);
            UseResult::UsedUp
        },
        None => UseResult::Cancelled,
    }
}

/// What `cast_potion_def` does.
pub open spec fn defense_outcome(o1: Seq<Object>, g1: Game, o2: Seq<Object>, g2: Game, r: UseResult) -> bool {
    match o1[0].fighter {
        None => r == UseResult::Cancelled && g2 == g1 && o2 == o1,
        Some(f) => if f.defense >= MAX_DEFENSE {
            &&& r == UseResult::Cancelled
            &&& o2 == o1
            &&& logged(g1, g2, seq![("You are already a defense lord."@, Color::Red)])
        } else {
            &&& r == UseResult::UsedUp
            &&& o2 == o1.update(0, o1[0].spec_defense_raised(1))
            &&& logged(g1, g2, seq![("You feel you can resist more!"@, Color::LightViolet)])
        },
    }
}

/// Raises the player's defense by one; cancelled, with a message, once it
/// is at `MAX_DEFENSE`.
pub fn cast_potion_def(_inventory_id: usize, game: &mut Game, objects: &mut Vec<Object>) -> (r: UseResult)
    requires
        old(objects)@.len() >= 1,
    ensures
        defense_outcome(old(objects)@, *old(game), final(objects)@, *final(game), r),
{
    match objects[PLAYER].fighter {
        Some(f) => {
            if f.defense >= MAX_DEFENSE {
                game.messages.add(String::from_str("You are already a defense lord."), Color::Red);
                assert(game.messages@ =~= old(game).messages@ + seq![("You are already a defense lord."@, Color::Red)]);
                return UseResult::Cancelled;
            }
            game.messages.add(String::from_str("You feel you can resist more!"), Color::LightViolet);
            assert(game.messages@ =~= old(game).messages@ + seq![("You feel you can resist more!"@, Color::LightViolet)]);
            objects[PLAYER].inc_defense(1);
            UseResult::UsedUp
        },
        None => UseResult::Cancelled,
    }
}

/// What `cast_potion_hp` does.
pub open spec fn max_hp_outcome(o1: Seq<Object>, g1: Game, o2: Seq<Object>, g2: Game, r: UseResult) -> bool {
    match o1[0].fighter {
        None => r == UseResult::Cancelled && g2 == g1 && o2 == o1,
        Some(f) => if f.max_hp >= MAX_MAX_HP {
            &&& r == UseResult::Cancelled
            &&& o2 == o1
            &&& logged(g1, g2, seq![("You are already at full max HP."@, Color::Red)])
        } else {
            &&& r == UseResult::UsedUp
            &&& o2 == o1.update(0, o1[0].spec_max_hp_raised(5))
            &&& logged(g1, g2, seq![("You feel you can resist more!"@, Color::LightViolet)])
        },
    }
}

/// Raises the player's maximum hit points by five; cancelled, with a
/// message, once they are at `MAX_MAX_HP`.
pub fn cast_potion_hp(_inventory_id: usize, game: &mut Game, objects: &mut Vec<Object>) -> (r: UseResult)
    requires
        old(objects)@.len() >= 1,
    ensures
        max_hp_outcome(old(objects)@, *old(game), final(objects)@, *final(game), r),
{
    match objects[PLAYER].fighter {
        Some(f) => {
            if f.max_hp >= MAX_MAX_HP {
                game.messages.add(String::from_str("You are already at full max HP."), Color::Red);
                assert(game.messages@ =~= old(game).messages@ + seq![("You are already at full max HP."@, Color::Red)]);
                return UseResult::Cancelled;
            }
            game.messages.add(String::from_str("You feel you can resist more!"), Color::LightViolet);
            assert(game.messages@ =~= old(game).messages@ + seq![("You feel you can resist more!"@, Color::LightViolet)]);
            objects[PLAYER].inc_max_hp(5);
            UseResult::UsedUp
        },
        None => UseResult::Cancelled,
    }
}

/// Text logged when no target is near enough.
pub open spec fn no_target_text() -> Seq<char> {
    "No enemy is close enough to strike."@
}

/// Text logged when lightning strikes a target named `name`.
pub open spec fn lightning_text(name: Seq<char>) -> Seq<char> {
    "A lightning bolt strikes the "@ + name + " with a loud thunder! The damage is "@ + decimal(
        LIGHTNING_DAMAGE as int,
    ) + " hit points."@
}

/// Text logged when a target named `name` is confused.
pub open spec fn confusion_text(name: Seq<char>) -> Seq<char> {
    "The eyes of "@ + name + " look vacant, as he starts to stumble around!"@
}

/// `o2` is `o` with its AI wrapped in a confusion that lasts `turns` turns
/// and then gives the old AI back.
pub open spec fn confused_from(o2: Object, o: Object, turns: int) -> bool {
    &&& Object { ai: o.ai, ..o2 } == o
    &&& match o2.ai {
        Some(Ai::Confused { previous_ai, num_turns }) => *previous_ai == o.ai.unwrap_or(Ai::Basic)
            && num_turns == turns,
        _ => false,
    }
}

/// What `cast_lightning` does.
pub open spec fn lightning_outcome(o1: Seq<Object>, g1: Game, o2: Seq<Object>, g2: Game, r: UseResult, fov: Visibility) -> bool {
    if none_in_reach(o1, fov, LIGHTNING_RANGE as int) {
        &&& r == UseResult::Cancelled
        &&& o2 == o1
        &&& logged(g1, g2, seq![(no_target_text(), Color::Red)])
    } else {
        &&& r == UseResult::UsedUp
        &&& exists|c: int, hit: Object, xp: Option<i32>, lines: Seq<LogLine>|
            is_nearest(o1, fov, LIGHTNING_RANGE as int, c)
            && took_damage(hit, xp, lines, o1[c], LIGHTNING_DAMAGE as int)
            && o2 == o1.update(c, hit)
            && logged(g1, g2, seq![(lightning_text(o1[c].name@), Color::LightBlue)] + lines)
    }
}

/// Strikes the nearest seen monster within `LIGHTNING_RANGE` for
/// `LIGHTNING_DAMAGE`; cancelled, with a message, when there is none.
pub fn cast_lightning(
    _inventory_id: usize,
    fov: &Visibility,
    game: &mut Game,
    objects: &mut Vec<Object>,
) -> (r: UseResult)
    requires
        old(objects)@.len() >= 1,
    ensures
        lightning_outcome(old(objects)@, *old(game), final(objects)@, *final(game), r, *fov),
{
    let monster_id = closest_monster(fov, objects.as_slice(), LIGHTNING_RANGE);
    match monster_id {
        Some(id) => {
            let mut text = String::from_str("A lightning bolt strikes the ");
            text.append(objects[id].name.as_str());
            text.append(" with a loud thunder! The damage is ");
            push_int(&mut text, LIGHTNING_DAMAGE);
            text.append(" hit points.");
            let ghost line = (text@, Color::LightBlue);
            game.messages.add(text, Color::LightBlue);
            let ghost g1 = *game;
            let xp = objects[id].take_damage(LIGHTNING_DAMAGE, game);
            proof {
                let lines = choose|lines: Seq<LogLine>|
                    took_damage(objects@[id as int], xp, lines, old(objects)@[id as int], LIGHTNING_DAMAGE as int)
                        && logged(g1, *game, lines);
                assert(game.messages@ =~= old(game).messages@ + (seq![line] + lines));
                assert(objects@ =~= old(objects)@.update(id as int, objects@[id as int]));
            }
            UseResult::UsedUp
        },
        None => {
            game.messages.add(String::from_str("No enemy is close enough to strike."), Color::Red);
            assert(game.messages@ =~= old(game).messages@ + seq![(no_target_text(), Color::Red)]);
            UseResult::Cancelled
        },
    }
}

/// What `cast_confusion` does.
pub open spec fn confusion_outcome(o1: Seq<Object>, g1: Game, o2: Seq<Object>, g2: Game, r: UseResult, fov: Visibility) -> bool {
    if none_in_reach(o1, fov, CONFUSE_RANGE as int) {
        &&& r == UseResult::Cancelled
        &&& o2 == o1
        &&& logged(g1, g2, seq![(no_target_text(), Color::Red)])
    } else {
        &&& r == UseResult::UsedUp
        &&& exists|c: int|
            is_nearest(o1, fov, CONFUSE_RANGE as int, c)
            && confused_from(o2[c], o1[c], CONFUSE_NUM_TURNS as int)
            && o2 == o1.update(c, o2[c])
            && logged(g1, g2, seq![(confusion_text(o1[c].name@), Color::LightGreen)])
    }
}

/// Confuses the nearest seen monster within `CONFUSE_RANGE` for
/// `CONFUSE_NUM_TURNS` turns; cancelled, with a message, when there is none.
pub fn cast_confusion(
    _inventory_id: usize,
    fov: &Visibility,
    game: &mut Game,
    objects: &mut Vec<Object>,
) -> (r: UseResult)
    requires
        old(objects)@.len() >= 1,
    ensures
        confusion_outcome(old(objects)@, *old(game), final(objects)@, *final(game), r, *fov),
{
    let monster_id = closest_monster(fov, objects.as_slice(), CONFUSE_RANGE);
    match monster_id {
        Some(id) => {
            let old_ai = objects[id].ai.take().unwrap_or(Ai::Basic);
            objects[id].ai = Some(Ai::Confused { previous_ai: Box::new(old_ai), num_turns: CONFUSE_NUM_TURNS });
            let mut text = String::from_str("The eyes of ");
            text.append(objects[id].name.as_str());
            text.append(" look vacant, as he starts to stumble around!");
            let ghost line = (text@, Color::LightGreen);
            game.messages.add(text, Color::LightGreen);
            proof {
                assert(game.messages@ =~= old(game).messages@ + seq![line]);
                assert(objects@ =~= old(objects)@.update(id as int, objects@[id as int]));
            }
            UseResult::UsedUp
        },
        None => {
            game.messages.add(String::from_str("No enemy is close enough to strike."), Color::Red);
            assert(game.messages@ =~= old(game).messages@ + seq![(no_target_text(), Color::Red)]);
            UseResult::Cancelled
        },
    }
}

/// Whether entity `o` is caught by a fireball bursting at `(x, y)`.
pub open spec fn in_blast(o: Object, x: int, y: int) -> bool {
    o.fighter is Some && dist_sq(o.x as int, o.y as int, x, y) <= FIREBALL_RADIUS * FIREBALL_RADIUS
}

/// Text of the prompt that asks for the fireball's tile.
pub open spec fn fireball_prompt_text() -> Seq<char> {
    "Left-click a target tile for the fireball, or right-click to cancel."@
}

/// Text logged when the fireball bursts.
pub open spec fn explosion_text() -> Seq<char> {
    "The fireball explodes, burning everything within "@ + decimal(FIREBALL_RADIUS as int) + " tiles!"@
}

/// Text logged when an entity named `name` is caught in the blast.
pub open spec fn burn_text(name: Seq<char>) -> Seq<char> {
    "The "@ + name + " gets burned for "@ + decimal(FIREBALL_DAMAGE as int) + " hit points."@
}

/// The lines a fireball bursting at `(x, y)` logs for the entities `objs`,
/// in order: for each one caught, its burn line and then any death line.
pub open spec fn blast_log(objs: Seq<Object>, x: int, y: int) -> Seq<LogLine>
    decreases objs.len(),
{
    if objs.len() == 0 {
        Seq::empty()
    } else if in_blast(objs.last(), x, y) {
        blast_log(objs.drop_last(), x, y) + seq![(burn_text(objs.last().name@), Color::Orange)] + damage_log(
            objs.last(),
            FIREBALL_DAMAGE as int,
        )
    } else {
        blast_log(objs.drop_last(), x, y)
    }
}

/// What `cast_fireball` does.
pub open spec fn fireball_outcome(o1: Seq<Object>, g1: Game, o2: Seq<Object>, g2: Game, r: UseResult, target: Option<(i32, i32)>) -> bool {
    &&& o2.len() == o1.len()
    &&& match target {
        None => {
            &&& r == UseResult::Cancelled
            &&& o2 == o1
            &&& logged(g1, g2, seq![(fireball_prompt_text(), Color::LightCyan)])
        },
        Some((x, y)) => {
            &&& r == UseResult::UsedUp
            &&& logged(
                g1,
                g2,
                seq![(fireball_prompt_text(), Color::LightCyan), (explosion_text(), Color::Orange)] + blast_log(
                    o1,
                    x as int,
                    y as int,
                ),
            )
            &&& forall|i: int| 0 <= i < o1.len() ==> if in_blast(#[trigger] o1[i], x as int, y as int) {
                exists|xp: Option<i32>, lines: Seq<LogLine>| took_damage(o2[i], xp, lines, o1[i], FIREBALL_DAMAGE as int)
            } else {
                o2[i] == o1[i]
            }
        },
    }
}

/// Bursts a fireball on the tile the player picked, `target`: every fighter
/// within `FIREBALL_RADIUS` of it, the player included, takes
/// `FIREBALL_DAMAGE`. Cancelled when no tile was picked.
pub fn cast_fireball(
    _inventory_id: usize,
    target: Option<(i32, i32)>,
    game: &mut Game,
    objects: &mut Vec<Object>,
) -> (r: UseResult)
    ensures
        fireball_outcome(old(objects)@, *old(game), final(objects)@, *final(game), r, target),
{
    game.messages.add(
        String::from_str("Left-click a target tile for the fireball, or right-click to cancel."),
        Color::LightCyan,
    );
    let ghost g1 = *game;
    assert(logged(*old(game), g1, seq![("Left-click a target tile for the fireball, or right-click to cancel."@, Color::LightCyan)])) by {
        assert(g1.messages@ =~= old(game).messages@ + seq![("Left-click a target tile for the fireball, or right-click to cancel."@, Color::LightCyan)]);
    }
    let (x, y) = match target {
        Some(tile_pos) => tile_pos,
        None => return UseResult::Cancelled,
    };
    let mut text = String::from_str("The fireball explodes, burning everything within ");
    push_int(&mut text, FIREBALL_RADIUS);
    text.append(" tiles!");
    let ghost first = seq![(fireball_prompt_text(), Color::LightCyan), (explosion_text(), Color::Orange)];
    game.messages.add(text, Color::Orange);
    let ghost mut so_far = first;
    assert(game.messages@ =~= old(game).messages@ + so_far);
    assert(old(objects)@.take(0) =~= Seq::<Object>::empty());
    assert(so_far =~= first + blast_log(old(objects)@.take(0), x as int, y as int));
    let radius: i128 = FIREBALL_RADIUS as i128;
    let mut i: usize = 0;
    while i < objects.len()
        invariant
            target == Some((x, y)),
            i <= objects@.len(),
            objects@.len() == old(objects)@.len(),
            radius == FIREBALL_RADIUS,
            logged(*old(game), *game, so_far),
            so_far == seq![(fireball_prompt_text(), Color::LightCyan), (explosion_text(), Color::Orange)] + blast_log(
                old(objects)@.take(i as int),
                x as int,
                y as int,
            ),
            forall|j: int| i <= j < objects@.len() ==> objects@[j] == old(objects)@[j],
            forall|j: int| 0 <= j < i ==> if in_blast(#[trigger] old(objects)@[j], x as int, y as int) {
                exists|xp: Option<i32>, lines: Seq<LogLine>| took_damage(objects@[j], xp, lines, old(objects)@[j], FIREBALL_DAMAGE as int)
            } else {
                objects@[j] == old(objects)@[j]
            },
        decreases objects@.len() - i,
    {
        assert(old(objects)@.take(i + 1).drop_last() =~= old(objects)@.take(i as int));
        assert(old(objects)@.take(i + 1).last() == old(objects)@[i as int]);
        if objects[i].distance_sq(x, y) <= radius * radius
            && objects[i].fighter.is_some() {
            let mut text = String::from_str("The ");
            text.append(objects[i].name.as_str());
            text.append(" gets burned for ");
            push_int(&mut text, FIREBALL_DAMAGE);
            text.append(" hit points.");
            proof {
                so_far = so_far.push((text@, Color::Orange));
            }
            game.messages.add(text, Color::Orange);
            let ghost g2 = *game;
            let ghost before = objects@;
            let xp = objects[i].take_damage(FIREBALL_DAMAGE, game);
            proof {
                let l1 = choose|lines: Seq<LogLine>|
                    took_damage(objects@[i as int], xp, lines, before[i as int], FIREBALL_DAMAGE as int)
                        && logged(g2, *game, lines);
                assert(game.messages@ =~= old(game).messages@ + (so_far + l1));
                lemma_damage_log(objects@[i as int], xp, l1, before[i as int], FIREBALL_DAMAGE as int);
                so_far = so_far + l1;
                assert(so_far =~= seq![(fireball_prompt_text(), Color::LightCyan), (explosion_text(), Color::Orange)] + blast_log(
                    old(objects)@.take(i + 1),
                    x as int,
                    y as int,
                ));
                assert(forall|j: int| 0 <= j < objects@.len() && j != i ==> objects@[j] == before[j]);
            }
        } else {
            proof {
                assert(dist_sq(objects@[i as int].x as int, objects@[i as int].y as int, x as int, y as int) == dist_sq(old(objects)@[i as int].x as int, old(objects)@[i as int].y as int, x as int, y as int));
                assert(so_far =~= seq![(fireball_prompt_text(), Color::LightCyan), (explosion_text(), Color::Orange)] + blast_log(
                    old(objects)@.take(i + 1),
                    x as int,
                    y as int,
                ));
            }
        }
        i = i + 1;
    }
    assert(old(objects)@.take(old(objects)@.len() as int) =~= old(objects)@);
    UseResult::UsedUp
}

} // verus!
