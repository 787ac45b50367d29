use vstd::prelude::*;
use crate::ai::{ai_take_turn, ai_turn_outcome, confused_ai, next_ai};
use crate::combat::{attack_in, attack_outcome};
use crate::constants::PLAYER;
use crate::dungeon::{move_by, move_outcome};
use crate::game::{Game, LogLine};
use crate::inventory::{drop_item, drop_outcome, pick_item_up, pick_up_outcome, use_item, use_outcome};
use crate::session::{descend_outcome, next_level};
use crate::object::{Ai, Object, PlayerAction};
use crate::tiles::Visibility;

verus! {

/// A player input, already resolved by the caller: which inventory slot a
/// menu picked, which tile a targeting prompt picked.
#[derive(Clone, Copy, Debug, PartialEq, Eq)]
pub enum Command {
    Exit,
    PickUp,
    UseItem { inventory_id: usize, target: Option<(i32, i32)> },
    DropItem { inventory_id: usize },
    Descend,
    Move { dx: i32, dy: i32 },
    Wait,
    Nothing,
}

/// Entity `t` is the first fighter standing on `(x, y)`.
pub open spec fn first_fighter_at(objs: Seq<Object>, x: int, y: int, t: int) -> bool {
    &&& 0 <= t < objs.len()
    &&& objs[t].fighter is Some && objs[t].x == x && objs[t].y == y
    &&& forall|i: int| 0 <= i < t ==> !(#[trigger] objs[i].fighter is Some && objs[i].x == x && objs[i].y == y)
}

/// No fighter stands on `(x, y)`.
pub open spec fn no_fighter_at(objs: Seq<Object>, x: int, y: int) -> bool {
    forall|i: int| 0 <= i < objs.len() ==> !(#[trigger] objs[i].fighter is Some && objs[i].x == x && objs[i].y == y)
}

/// What the player's step by `(dx, dy)` does: it attacks the first fighter
/// on the destination, or else moves there if it can be entered.
pub open spec fn move_or_attack_outcome(o1: Seq<Object>, g1: Game, o2: Seq<Object>, g2: Game, dx: int, dy: int) -> bool {
    let x = o1[0].x + dx;
    let y = o1[0].y + dy;
    if no_fighter_at(o1, x, y) {
        g2 == g1 && move_outcome(g1.map, o1, o2, 0, dx, dy)
    } else {
        exists|t: int, a2: Object, t2: Object|
            first_fighter_at(o1, x, y, t) && attack_outcome(o1[0], o1[t], g1, a2, t2, g2) && o2
                == o1.update(0, a2).update(t, t2)
    }
}

/// Moves the player by `(dx, dy)`, or attacks the fighter standing there.
pub fn player_move_or_attack(dx: i32, dy: i32, game: &mut Game, objects: &mut Vec<Object>)
    requires
        old(game).map.wf(),
        old(objects)@.len() >= 1,
        dx != 0 || dy != 0,
    ensures
        move_or_attack_outcome(old(objects)@, *old(game), final(objects)@, *final(game), dx as int, dy as int),
{
    let x: i64 = objects[PLAYER].x as i64 + dx as i64;
    let y: i64 = objects[PLAYER].y as i64 + dy as i64;
    let mut target_id: Option<usize> = None;
    let mut i: usize = 0;
    while i < objects.len() && target_id.is_none()
        invariant
            i <= objects@.len(),
            objects@ == old(objects)@,
            x == objects@[0].x + dx,
            y == objects@[0].y + dy,
            match target_id {
                None => forall|j: int| 0 <= j < i ==> !(#[trigger] objects@[j].fighter is Some && objects@[j].x == x && objects@[j].y == y),
                Some(t) => first_fighter_at(objects@, x as int, y as int, t as int),
            },
        decreases objects@.len() - i + (if target_id is None { 1int } else { 0int }),
    {
        if objects[i].fighter.is_some() && objects[i].x as i64 == x && objects[i].y as i64 == y {
            target_id = Some(i);
        } else {
            i = i + 1;
        }
    }
    match target_id {
        Some(t) => {
            attack_in(PLAYER, t, game, objects);
        },
        None => {
            move_by(PLAYER, dx, dy, &game.map, objects);
        },
    }
}

/// The AI after a round for an entity that had `ai` before it.
pub open spec fn advanced(ai: Option<Ai>) -> Option<Ai> {
    match ai {
        Some(a) => Some(next_ai(a)),
        None => None,
    }
}

proof fn lemma_rounds_still_confused(ais: Seq<Option<Ai>>, previous_ai: Ai, num_turns: i32, k: int)
    requires
        num_turns >= 1,
        ais.len() == num_turns + 1,
        ais[0] == Some(confused_ai(previous_ai, num_turns as int)),
        forall|i: int| 0 <= i < num_turns ==> #[trigger] ais[i + 1] == advanced(ais[i]),
        0 <= k < num_turns,
    ensures
        ais[k] == Some(confused_ai(previous_ai, num_turns - k)),
    decreases k,
{
    if k > 0 {
        lemma_rounds_still_confused(ais, previous_ai, num_turns, k - 1);
        assert(ais[(k - 1) + 1] == advanced(ais[k - 1]));
    }
}

/// Over rounds in which the player is alive and takes a turn, each of which
/// advances every AI by one step as `end_round` ensures, an entity confused
/// for `num_turns` turns stays confused, with one turn fewer after each
/// round, and has its pre-confusion AI back after exactly `num_turns`
/// rounds. `ais[k]` is its AI after `k` rounds.
pub proof fn lemma_confusion_over_rounds(ais: Seq<Option<Ai>>, previous_ai: Ai, num_turns: i32)
    requires
        num_turns >= 1,
        ais.len() == num_turns + 1,
        ais[0] == Some(confused_ai(previous_ai, num_turns as int)),
        forall|k: int| 0 <= k < num_turns ==> #[trigger] ais[k + 1] == advanced(ais[k]),
    ensures
        ais[num_turns as int] == Some(previous_ai),
        forall|k: int| 0 <= k < num_turns ==> #[trigger] ais[k] == Some(confused_ai(previous_ai, num_turns - k)),
{
    assert forall|k: int| 0 <= k < num_turns implies #[trigger] ais[k] == Some(confused_ai(previous_ai, num_turns - k)) by {
        lemma_rounds_still_confused(ais, previous_ai, num_turns, k);
    }
    lemma_rounds_still_confused(ais, previous_ai, num_turns, num_turns - 1);
    assert(ais[(num_turns - 1) + 1] == advanced(ais[num_turns - 1]));
}

/// One step of a round: entity `k` takes its turn if it has an AI.
pub open spec fn round_step(a: (Seq<Object>, Game), b: (Seq<Object>, Game), k: int, fov: Visibility) -> bool {
    if a.0[k].ai is Some {
        ai_turn_outcome(a.0, a.1, b.0, b.1, k, fov)
    } else {
        b == a
    }
}

/// `states` are the states of a round, one after each entity's turn, from
/// entity 1 on.
pub open spec fn round_chain(states: Seq<(Seq<Object>, Game)>, fov: Visibility) -> bool {
    forall|k: int| 1 <= k < states.len() ==> round_step(#[trigger] states[k - 1], states[k], k, fov)
}

/// Lets every entity with an AI, in order of index, take its turn, once
/// the player has taken one and is alive. Each AI then has moved on by one
/// turn; the map, the inventory and the dungeon level stay.
pub fn end_round(action: PlayerAction, fov: &Visibility, game: &mut Game, objects: &mut Vec<Object>)
    requires
        old(game).map.wf(),
        old(objects)@.len() >= 1,
    ensures
        final(objects)@.len() == old(objects)@.len(),
        final(game).map == old(game).map,
        final(game).inventory == old(game).inventory,
        final(game).dungeon_level == old(game).dungeon_level,
        exists|lines: Seq<LogLine>| final(game).messages@ == old(game).messages@ + lines,
        !(old(objects)@[0].alive && action == PlayerAction::TookTurn) ==> final(objects)@ == old(objects)@
            && *final(game) == *old(game),
        old(objects)@[0].alive && action == PlayerAction::TookTurn ==> forall|j: int|
            1 <= j < old(objects)@.len() ==> (#[trigger] final(objects)@[j]).ai == advanced(old(objects)@[j].ai),
        old(objects)@[0].alive && action == PlayerAction::TookTurn ==> exists|states: Seq<(Seq<Object>, Game)>|
            states.len() == old(objects)@.len() && states[0] == (old(objects)@, *old(game)) && round_chain(
                states,
                *fov,
            ) && #[trigger] states.last() == (final(objects)@, *final(game)),
{
    if !(objects[PLAYER].alive && action == PlayerAction::TookTurn) {
        assert(game.messages@ =~= old(game).messages@ + Seq::<LogLine>::empty());
        return;
    }
    let n = objects.len();
    let mut id: usize = 1;
    let ghost mut states: Seq<(Seq<Object>, Game)> = seq![(objects@, *game)];
    assert(game.messages@ =~= old(game).messages@ + Seq::<LogLine>::empty());
    while id < n
        invariant
            1 <= id <= n,
            n == old(objects)@.len(),
            objects@.len() == n,
            game.map == old(game).map,
            game.map.wf(),
            game.inventory == old(game).inventory,
            game.dungeon_level == old(game).dungeon_level,
            exists|lines: Seq<LogLine>| game.messages@ == old(game).messages@ + lines,
            forall|j: int| 1 <= j < id ==> (#[trigger] objects@[j]).ai == advanced(old(objects)@[j].ai),
            forall|j: int| id <= j < n ==> #[trigger] objects@[j] == old(objects)@[j],
            states.len() == id,
            states[0] == (old(objects)@, *old(game)),
            round_chain(states, *fov),
            states.last() == (objects@, *game),
        decreases n - id,
    {
        let ghost before = objects@;
        let ghost g_before = *game;
        let ghost m0 = game.messages@;
        if objects[id].ai.is_some() {
            ai_take_turn(id, fov, game, objects);
            proof {
                let l0 = choose|lines: Seq<LogLine>| m0 == old(game).messages@ + lines;
                let l1 = choose|lines: Seq<LogLine>| game.messages@ == m0 + lines;
                assert(game.messages@ =~= old(game).messages@ + (l0 + l1));
            }
        }
        proof {
            let prev = states;
            states = states.push((objects@, *game));
            assert forall|k: int| 1 <= k < states.len() implies round_step(#[trigger] states[k - 1], states[k], k, *fov) by {
                if k < prev.len() {
                    assert(states[k - 1] == prev[k - 1]);
                    assert(states[k] == prev[k]);
                } else {
                    assert(states[k - 1] == (before, g_before));
                }
            }
        }
        id = id + 1;
    }
}

/// Entity `i` is the first item, after the player, lying where the player
/// stands.
pub open spec fn first_item_under_player(objs: Seq<Object>, i: int) -> bool {
    &&& 1 <= i < objs.len()
    &&& objs[i].item is Some && objs[i].x == objs[0].x && objs[i].y == objs[0].y
    &&& forall|j: int| 1 <= j < i ==> !(#[trigger] objs[j].item is Some && objs[j].x == objs[0].x && objs[j].y == objs[0].y)
}

/// No item lies where the player stands.
pub open spec fn no_item_under_player(objs: Seq<Object>) -> bool {
    forall|j: int| 1 <= j < objs.len() ==> !(#[trigger] objs[j].item is Some && objs[j].x == objs[0].x && objs[j].y == objs[0].y)
}

/// The stairs are where the player stands.
pub open spec fn on_stairs(objs: Seq<Object>) -> bool {
    exists|i: int|
        0 <= i < objs.len() && (#[trigger] objs[i]).x == objs[0].x && objs[i].y == objs[0].y && objs[i].name@
            == "stairs"@
}

/// What `handle_command` does with command `c`.
pub open spec fn command_outcome(
    c: Command,
    o1: Seq<Object>,
    g1: Game,
    o2: Seq<Object>,
    g2: Game,
    fov: Visibility,
    r: PlayerAction,
) -> bool {
    let same = o2 == o1 && g2 == g1;
    if c == Command::Exit {
        r == PlayerAction::Exit && same
    } else if !o1[0].alive {
        r == PlayerAction::DidntTakeTurn && same
    } else {
        match c {
            Command::PickUp => r == PlayerAction::DidntTakeTurn && if no_item_under_player(o1) {
                same
            } else {
                exists|i: int| first_item_under_player(o1, i) && pick_up_outcome(o1, g1, o2, g2, i)
            },
            Command::UseItem { inventory_id, target } => r == PlayerAction::DidntTakeTurn && if inventory_id
                < g1.inventory@.len() {
                use_outcome(o1, g1, o2, g2, inventory_id, fov, target)
            } else {
                same
            },
            Command::DropItem { inventory_id } => r == PlayerAction::DidntTakeTurn && if inventory_id
                < g1.inventory@.len() {
                drop_outcome(o1, g1, o2, g2, inventory_id)
            } else {
                same
            },
            Command::Descend => r == PlayerAction::DidntTakeTurn && if on_stairs(o1) && g1.dungeon_level
                < u32::MAX {
                descend_outcome(o1, g1, o2, g2)
            } else {
                same
            },
            Command::Move { dx, dy } => r == PlayerAction::TookTurn && if dx != 0 || dy != 0 {
                move_or_attack_outcome(o1, g1, o2, g2, dx as int, dy as int)
            } else {
                same
            },
            Command::Wait => r == PlayerAction::TookTurn && same,
            _ => r == PlayerAction::DidntTakeTurn && same,
        }
    }
}

/// Carries out one player command. Exiting is always possible; a dead
/// player can do nothing else. Moving (or attacking) and waiting take a
/// turn; the other commands do not.
pub fn handle_command(command: Command, fov: &Visibility, game: &mut Game, objects: &mut Vec<Object>) -> (r: PlayerAction)
    requires
        old(game).map.wf(),
        old(objects)@.len() >= 1,
    ensures
        command_outcome(command, old(objects)@, *old(game), final(objects)@, *final(game), *fov, r),
{
    if let Command::Exit = command {
        return PlayerAction::Exit;
    }
    if !objects[PLAYER].alive {
        return PlayerAction::DidntTakeTurn;
    }
    match command {
        Command::PickUp => {
            let mut i: usize = 1;
            let mut found: Option<usize> = None;
            while i < objects.len() && found.is_none()
                invariant
                    1 <= i <= objects@.len(),
                    objects@ == old(objects)@,
                    match found {
                        None => forall|j: int| 1 <= j < i ==> !(#[trigger] objects@[j].item is Some && objects@[j].x == objects@[0].x && objects@[j].y == objects@[0].y),
                        Some(f) => first_item_under_player(objects@, f as int),
                    },
                decreases objects@.len() - i + (if found is None { 1int } else { 0int }),
            {
                if objects[i].item.is_some() && objects[i].x == objects[PLAYER].x && objects[i].y == objects[PLAYER].y {
                    found = Some(i);
                } else {
                    i = i + 1;
                }
            }
            match found {
                Some(item_id) => pick_item_up(item_id, game, objects),
                None => {},
            }
            PlayerAction::DidntTakeTurn
        },
        Command::UseItem { inventory_id, target } => {
            if inventory_id < game.inventory.len() {
                use_item(inventory_id, fov, target, game, objects);
            }
            PlayerAction::DidntTakeTurn
        },
        Command::DropItem { inventory_id } => {
            if inventory_id < game.inventory.len() {
                drop_item(inventory_id, game, objects);
            }
            PlayerAction::DidntTakeTurn
        },
        Command::Descend => {
            let mut i: usize = 0;
            let mut stairs = false;
            let label = String::from_str("stairs");
            while i < objects.len()
                invariant
                    i <= objects@.len(),
                    label@ == "stairs"@,
                    stairs == exists|j: int|
                        0 <= j < i && (#[trigger] objects@[j]).x == objects@[0].x && objects@[j].y == objects@[0].y
                            && objects@[j].name@ == "stairs"@,
                decreases objects@.len() - i,
            {
                if objects[i].x == objects[PLAYER].x && objects[i].y == objects[PLAYER].y && objects[i].name == label {
                    stairs = true;
                }
                i = i + 1;
            }
            if stairs && game.dungeon_level < u32::MAX {
                next_level(game, objects);
            }
            PlayerAction::DidntTakeTurn
        },
        Command::Move { dx, dy } => {
            if dx != 0 || dy != 0 {
                player_move_or_attack(dx, dy, game, objects);
            }
            PlayerAction::TookTurn
        },
        Command::Wait => PlayerAction::TookTurn,
        _ => PlayerAction::DidntTakeTurn,
    }
}

} // verus!
