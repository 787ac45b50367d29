use vstd::prelude::*;
use crate::constants::PLAYER;
use crate::game::{Game, Messages};
use crate::generator::{level_generated, make_map};
use crate::geometry::{half, Rect};
use crate::object::{Color, DeathCallback, Fighter, Object};

verus! {

/// The player of a new game, before the first level places them.
pub open spec fn is_fresh_player(o: Object) -> bool {
    &&& o.x == 0 && o.y == 0
    &&& o.char == '@' && o.name@ == "player"@ && o.color == Color::White
    &&& o.blocks && o.alive && !o.always_visible && o.level == 1
    &&& o.fighter == Some(
        Fighter { max_hp: 30, hp: 30, defense: 2, power: 5, xp: 0, on_death: DeathCallback::Player },
    )
    &&& o.ai is None && o.item is None && o.equipment is None
}

/// Text of the greeting that opens a new game.
pub open spec fn welcome_text() -> Seq<char> {
    "Welcome stranger! Prepare to perish in the Tombs of the Ancient Kings."@
}

/// Starts a game: a fresh player alone on a newly generated first level,
/// an empty inventory, and a greeting in the log.
pub fn new_game() -> (r: (Game, Vec<Object>))
    ensures
        r.0.dungeon_level == 1,
        r.0.inventory@.len() == 0,
        r.0.messages@ == seq![(welcome_text(), Color::Red)],
        exists|rooms: Seq<Rect>, player: Object|
            is_fresh_player(player) && #[trigger] level_generated(r.0.map, rooms, r.1@, player, 1),
{
    let mut player = Object::new(0, 0, '@', "player", Color::White, true);
    player.alive = true;
    player.fighter = Some(
        Fighter { max_hp: 30, hp: 30, defense: 2, power: 5, xp: 0, on_death: DeathCallback::Player },
    );
    let mut objects: Vec<Object> = Vec::new();
    objects.push(player);
    let ghost start = objects@[0];
    assert(is_fresh_player(start));
    let map = make_map(&mut objects, 1);
    let ghost map_view = map;
    let mut game = Game { map, messages: Messages::new(), inventory: Vec::new(), dungeon_level: 1 };
    game.messages.add(
        String::from_str("Welcome stranger! Prepare to perish in the Tombs of the Ancient Kings."),
        Color::Red,
    );
    assert(game.messages@ =~= seq![(welcome_text(), Color::Red)]);
    proof {
        assert(game.map == map_view);
        let rooms = choose|rooms: Seq<Rect>| level_generated(map_view, rooms, objects@, start, 1);
        assert(is_fresh_player(start) && level_generated(game.map, rooms, objects@, start, 1));
    }
    let ghost gv = game;
    let ghost ov = objects@;
    let r = (game, objects);
    assert(r.0 == gv && r.1@ == ov);
    r
}

/// Hit points the player recovers on the way down: half their maximum.
pub open spec fn rest_amount(o: Object) -> int {
    match o.fighter {
        Some(f) => half(f.max_hp as int),
        None => 0,
    }
}

/// Text logged when the player rests before descending.
pub open spec fn rest_text() -> Seq<char> {
    "You take a moment to rest, and recover your strength."@
}

/// Text logged when the player descends.
pub open spec fn descend_text() -> Seq<char> {
    "After a rare moment of peace, you descend deeper into the heart of the dungeon..."@
}

/// What `next_level` does.
pub open spec fn descend_outcome(o1: Seq<Object>, g1: Game, o2: Seq<Object>, g2: Game) -> bool {
    &&& g2.dungeon_level == g1.dungeon_level + 1
    &&& g2.inventory == g1.inventory
    &&& g2.messages@ == g1.messages@ + seq![(rest_text(), Color::Violet), (descend_text(), Color::Red)]
    &&& exists|rooms: Seq<Rect>| level_generated(g2.map, rooms, o2, o1[0].spec_healed(rest_amount(o1[0])), g2.dungeon_level as int)
}

/// Takes the player one level deeper: they recover half their maximum hit
/// points, and a new level, for the next depth, replaces the map and every
/// entity but the player.
pub fn next_level(game: &mut Game, objects: &mut Vec<Object>)
    requires
        old(objects)@.len() >= 1,
        old(game).dungeon_level < u32::MAX,
    ensures
        descend_outcome(old(objects)@, *old(game), final(objects)@, *final(game)),
{
    game.messages.add(
        String::from_str("You take a moment to rest, and recover your strength."),
        Color::Violet,
    );
    let heal_hp = match objects[PLAYER].fighter {
        Some(f) => f.max_hp / 2,
        None => 0,
    };
    objects[PLAYER].heal(heal_hp);
    game.messages.add(
        String::from_str("After a rare moment of peace, you descend deeper into the heart of the dungeon..."),
        Color::Red,
    );
    assert(game.messages@ =~= old(game).messages@ + seq![(rest_text(), Color::Violet), (descend_text(), Color::Red)]);
    assert(heal_hp == rest_amount(old(objects)@[0]));
    let ghost healed = objects@[0];
    game.dungeon_level = game.dungeon_level + 1;
    game.map = make_map(objects, game.dungeon_level);
    proof {
        let rooms = choose|rooms: Seq<Rect>| level_generated(game.map, rooms, objects@, healed, game.dungeon_level as int);
        assert(level_generated(game.map, rooms, objects@, old(objects)@[0].spec_healed(rest_amount(old(objects)@[0])), game.dungeon_level as int));
    }
}

} // verus!
