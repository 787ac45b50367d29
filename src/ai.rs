use vstd::prelude::*;
use crate::combat::{attack_in, attack_outcome, lemma_attack_logs};
use crate::constants::PLAYER;
use crate::dungeon::{move_by, move_outcome};
use crate::game::{Game, LogLine, logged};
use crate::object::{dist_sq, Ai, Color, Object};
use crate::random::rand_range;
use crate::tiles::Visibility;

verus! {

/// The AI an entity has after one more of its turns: a confusion counts
/// down and, on its last turn, gives back the AI it replaced.
pub open spec fn next_ai(ai: Ai) -> Ai {
    match ai {
        Ai::Basic => Ai::Basic,
        Ai::Confused { previous_ai, num_turns } => if num_turns <= 1 {
            *previous_ai
        } else {
            Ai::Confused { previous_ai, num_turns: (num_turns - 1) as i32 }
        },
    }
}

/// The AI after `n` more turns.
pub open spec fn ai_after(ai: Ai, n: nat) -> Ai
    decreases n,
{
    if n == 0 {
        ai
    } else {
        ai_after(next_ai(ai), (n - 1) as nat)
    }
}

/// A confusion that replaced `previous_ai`, with `num_turns` turns left.
pub open spec fn confused_ai(previous_ai: Ai, num_turns: int) -> Ai {
    Ai::Confused { previous_ai: Box::new(previous_ai), num_turns: num_turns as i32 }
}

/// A confusion of `num_turns` turns holds for each of its first
/// `num_turns - 1` turns, and after exactly `num_turns` turns the entity has
/// the AI it had before.
pub proof fn lemma_confusion_wears_off(previous_ai: Ai, num_turns: i32)
    requires
        num_turns >= 1,
    ensures
        ai_after(confused_ai(previous_ai, num_turns as int), num_turns as nat) == previous_ai,
        forall|k: nat|
            k < num_turns ==> #[trigger] ai_after(confused_ai(previous_ai, num_turns as int), k)
                == confused_ai(previous_ai, num_turns - k),
    decreases num_turns,
{
    let c = confused_ai(previous_ai, num_turns as int);
    if num_turns == 1 {
        assert(ai_after(next_ai(c), 0) == previous_ai);
        assert forall|k: nat| k < num_turns implies #[trigger] ai_after(c, k) == confused_ai(
            previous_ai,
            num_turns - k,
        ) by {
            assert(k == 0);
        }
    } else {
        lemma_confusion_wears_off(previous_ai, (num_turns - 1) as i32);
        let c1 = confused_ai(previous_ai, num_turns - 1);
        assert(next_ai(c) == c1);
        assert forall|k: nat| k < num_turns implies #[trigger] ai_after(c, k) == confused_ai(
            previous_ai,
            num_turns - k,
        ) by {
            if k > 0 {
                assert(ai_after(c, k) == ai_after(c1, (k - 1) as nat));
            }
        }
    }
}

/// -1, 0 or 1, the sign of `v`.
pub open spec fn sign(v: int) -> int {
    if v > 0 {
        1
    } else if v < 0 {
        -1
    } else {
        0
    }
}

fn step_toward(from: i32, to: i32) -> (r: i32)
    ensures
        r == sign(to - from),
{
    if to > from {
        1
    } else if to < from {
        -1
    } else {
        0
    }
}

/// Moves entity `id` one step, diagonals included, toward `(target_x, target_y)`.
pub fn move_towards(id: usize, target_x: i32, target_y: i32, map: &crate::tiles::DungeonMap, objects: &mut Vec<Object>)
    requires
        map.wf(),
        id < old(objects)@.len(),
    ensures
        move_outcome(
            *map,
            old(objects)@,
            final(objects)@,
            id as int,
            sign(target_x - old(objects)@[id as int].x),
            sign(target_y - old(objects)@[id as int].y),
        ),
{
    let dx = step_toward(objects[id].x, target_x);
    let dy = step_toward(objects[id].y, target_y);
    move_by(id, dx, dy, map, objects);
}

/// One turn of a plain monster: seen by the player, it walks toward the
/// player until next to them, then attacks while the player has hit points.
pub open spec fn basic_turn(o1: Seq<Object>, g1: Game, o2: Seq<Object>, g2: Game, id: int, fov: Visibility) -> bool {
    let m = o1[id];
    let p = o1[0];
    if !fov.visible(m.x as int, m.y as int) {
        o2 == o1 && g2 == g1
    } else if dist_sq(m.x as int, m.y as int, p.x as int, p.y as int) >= 4 {
        g2 == g1 && move_outcome(g1.map, o1, o2, id, sign(p.x - m.x), sign(p.y - m.y))
    } else if p.fighter is Some && p.fighter.unwrap().hp > 0 {
        exists|a2: Object, t2: Object|
            attack_outcome(m, p, g1, a2, t2, g2) && o2 == o1.update(id, a2).update(0, t2)
    } else {
        o2 == o1 && g2 == g1
    }
}

/// Text logged when a confusion ends.
pub open spec fn unconfused_text(name: Seq<char>) -> Seq<char> {
    "The "@ + name + " is no longer confused!"@
}

/// One turn of a confused monster with `num_turns` turns left: it stumbles
/// by a random offset, and a message says when the confusion ends.
pub open spec fn confused_turn(o1: Seq<Object>, g1: Game, o2: Seq<Object>, g2: Game, id: int, num_turns: int) -> bool {
    &&& exists|dx: int, dy: int| -1 <= dx <= 1 && -1 <= dy <= 1 && move_outcome(g1.map, o1, o2, id, dx, dy)
    &&& if num_turns <= 1 {
        logged(g1, g2, seq![(unconfused_text(o1[id].name@), Color::Red)])
    } else {
        g2 == g1
    }
}

/// What one turn of AI `ai` does for entity `id`.
pub open spec fn turn_outcome(ai: Ai, o1: Seq<Object>, g1: Game, o2: Seq<Object>, g2: Game, id: int, fov: Visibility) -> bool {
    match ai {
        Ai::Basic => basic_turn(o1, g1, o2, g2, id, fov),
        Ai::Confused { previous_ai, num_turns } => confused_turn(o1, g1, o2, g2, id, num_turns as int),
    }
}

fn ai_basic(monster_id: usize, fov: &Visibility, game: &mut Game, objects: &mut Vec<Object>)
    requires
        old(game).map.wf(),
        PLAYER < monster_id < old(objects)@.len(),
    ensures
        basic_turn(old(objects)@, *old(game), final(objects)@, *final(game), monster_id as int, *fov),
        exists|lines: Seq<LogLine>| logged(*old(game), *final(game), lines),
{
    let (monster_x, monster_y) = objects[monster_id].pos();
    assert(game.messages@ =~= old(game).messages@ + Seq::<LogLine>::empty());
    assert(logged(*old(game), *game, Seq::<LogLine>::empty()));
    if fov.is_in_fov(monster_x, monster_y) {
        if objects[monster_id].distance_sq_to(&objects[PLAYER]) >= 4 {
            let (player_x, player_y) = objects[PLAYER].pos();
            move_towards(monster_id, player_x, player_y, &game.map, objects);
        } else {
            let player_alive = match objects[PLAYER].fighter {
                Some(f) => f.hp > 0,
                None => false,
            };
            if player_alive {
                assert(logged(*old(game), *old(game), Seq::<LogLine>::empty()));
                attack_in(monster_id, PLAYER, game, objects);
                proof {
                    let (a2, t2) = choose|a2: Object, t2: Object|
                        attack_outcome(old(objects)@[monster_id as int], old(objects)@[0], *old(game), a2, t2, *game)
                            && objects@ == old(objects)@.update(monster_id as int, a2).update(0, t2);
                    lemma_attack_logs(old(objects)@[monster_id as int], old(objects)@[0], *old(game), a2, t2, *game);
                }
            }
        }
    }
}

fn ai_confused(monster_id: usize, num_turns: i32, game: &mut Game, objects: &mut Vec<Object>)
    requires
        old(game).map.wf(),
        monster_id < old(objects)@.len(),
    ensures
        confused_turn(old(objects)@, *old(game), final(objects)@, *final(game), monster_id as int, num_turns as int),
        exists|lines: Seq<LogLine>| logged(*old(game), *final(game), lines),
{
    let dx = rand_range(-1, 2);
    let dy = rand_range(-1, 2);
    move_by(monster_id, dx, dy, &game.map, objects);
    if num_turns <= 1 {
        let mut text = String::from_str("The ");
        text.append(objects[monster_id].name.as_str());
        text.append(" is no longer confused!");
        game.messages.add(text, Color::Red);
        assert(game.messages@ =~= old(game).messages@ + seq![(unconfused_text(old(objects)@[monster_id as int].name@), Color::Red)]);
        assert(logged(*old(game), *game, seq![(unconfused_text(old(objects)@[monster_id as int].name@), Color::Red)]));
    } else {
        assert(game.messages@ =~= old(game).messages@ + Seq::<LogLine>::empty());
        assert(logged(*old(game), *game, Seq::<LogLine>::empty()));
    }
}

/// `objs` with the AI of entity `id` replaced by `ai`.
pub open spec fn set_ai(objs: Seq<Object>, id: int, ai: Option<Ai>) -> Seq<Object> {
    objs.update(id, Object { ai, ..objs[id] })
}

/// What `ai_take_turn` does for entity `id`.
pub open spec fn ai_turn_outcome(o1: Seq<Object>, g1: Game, o2: Seq<Object>, g2: Game, id: int, fov: Visibility) -> bool {
    &&& o2.len() == o1.len()
    &&& g2.map == g1.map
    &&& g2.inventory == g1.inventory
    &&& g2.dungeon_level == g1.dungeon_level
    &&& exists|lines: Seq<LogLine>| g2.messages@ == g1.messages@ + lines
    &&& forall|j: int| 0 <= j < o1.len() && j != id && j != PLAYER ==> #[trigger] o2[j] == o1[j]
    &&& match o1[id].ai {
        None => o2 == o1 && g2 == g1,
        Some(ai) => exists|o_mid: Seq<Object>| {
            &&& #[trigger] turn_outcome(
                ai,
                set_ai(o1, id, None),
                g1,
                o_mid,
                g2,
                id,
                fov,
            )
            &&& o2 == set_ai(o_mid, id, Some(next_ai(ai)))
        },
    }
}

/// Runs one turn of entity `monster_id`'s AI, if it has one, and advances
/// that AI as `next_ai` says. Only that entity and the player can change.
pub fn ai_take_turn(monster_id: usize, fov: &Visibility, game: &mut Game, objects: &mut Vec<Object>)
    requires
        old(game).map.wf(),
        PLAYER < monster_id < old(objects)@.len(),
    ensures
        ai_turn_outcome(old(objects)@, *old(game), final(objects)@, *final(game), monster_id as int, *fov),
{
    match objects[monster_id].ai.take() {
        Some(ai) => {
            let ghost o_taken = objects@;
            assert(o_taken =~= set_ai(old(objects)@, monster_id as int, None));
            let new_ai = match ai {
                Ai::Basic => {
                    ai_basic(monster_id, fov, game, objects);
                    Ai::Basic
                },
                Ai::Confused { previous_ai, num_turns } => {
                    ai_confused(monster_id, num_turns, game, objects);
                    if num_turns <= 1 {
                        *previous_ai
                    } else {
                        Ai::Confused { previous_ai, num_turns: num_turns - 1 }
                    }
                },
            };
            let ghost o_mid = objects@;
            objects[monster_id].ai = Some(new_ai);
            proof {
                assert(objects@ =~= set_ai(o_mid, monster_id as int, Some(next_ai(ai))));
                assert(turn_outcome(ai, o_taken, *old(game), o_mid, *game, monster_id as int, *fov));
            }
        },
        None => {
            assert(objects@ =~= old(objects)@);
            assert(game.messages@ =~= old(game).messages@ + Seq::<LogLine>::empty());
        },
    }
}

} // verus!
