use vstd::prelude::*;
use crate::dungeon::{blocked_at, in_interior, is_blocked};
use crate::geometry::Rect;
use crate::object::{Ai, Color, DeathCallback, Equipment, Fighter, Item, Object, Slot};
use crate::random::{rand_range, weight_sum, weighted_index};
use crate::tiles::DungeonMap;

verus! {

/// One step of a difficulty curve: from dungeon level `level` on, the curve
/// is worth `value`.
#[derive(Clone, Copy, Debug, PartialEq, Eq, Structural)]
pub struct Transition {
    pub level: u32,
    pub value: u32,
}

/// The value of the step curve `table` at `level`: that of the last step
/// whose level is at most `level`, or zero where there is none.
pub open spec fn level_value(table: Seq<Transition>, level: int) -> int
    decreases table.len(),
{
    if table.len() == 0 {
        0
    } else if level >= table.last().level {
        table.last().value as int
    } else {
        level_value(table.drop_last(), level)
    }
}

/// Looks `level` up in the step curve `table`.
pub fn from_dungeon_level(table: &[Transition], level: u32) -> (r: u32)
    ensures
        r == level_value(table@, level as int),
{
    let mut i: usize = table.len();
    assert(table@.take(i as int) =~= table@);
    while i > 0
        invariant
            i <= table@.len(),
            level_value(table@, level as int) == level_value(table@.take(i as int), level as int),
        decreases i,
    {
        assert(table@.take(i as int).drop_last() =~= table@.take(i - 1));
        if level >= table[i - 1].level {
            return table[i - 1].value;
        }
        i = i - 1;
    }
    assert(table@.take(0).len() == 0);
    0
}

/// Monsters per room at most, by dungeon level.
pub open spec fn max_monsters_curve() -> Seq<Transition> {
    seq![
        Transition { level: 1, value: 2 },
        Transition { level: 4, value: 3 },
        Transition { level: 6, value: 5 },
    ]
}

/// Weight of a troll against an orc's 80, by dungeon level.
pub open spec fn troll_curve() -> Seq<Transition> {
    seq![
        Transition { level: 3, value: 15 },
        Transition { level: 5, value: 30 },
        Transition { level: 7, value: 60 },
    ]
}

/// Items per room at most, by dungeon level.
pub open spec fn max_items_curve() -> Seq<Transition> {
    seq![Transition { level: 1, value: 1 }, Transition { level: 4, value: 2 }]
}

pub open spec fn is_orc(o: Object, x: int, y: int) -> bool {
    &&& o.x == x && o.y == y
    &&& o.char == 'o' && o.name@ == "Orc"@ && o.color == Color::DesaturatedGreen
    &&& o.blocks && o.alive && !o.always_visible && o.level == 1
    &&& o.fighter == Some(
        Fighter { max_hp: 20, hp: 20, defense: 0, power: 4, xp: 35, on_death: DeathCallback::Monster },
    )
    &&& o.ai == Some(Ai::Basic)
    &&& o.item is None && o.equipment is None
}

pub open spec fn is_troll(o: Object, x: int, y: int) -> bool {
    &&& o.x == x && o.y == y
    &&& o.char == 'T' && o.name@ == "Troll"@ && o.color == Color::DarkerGreen
    &&& o.blocks && o.alive && !o.always_visible && o.level == 1
    &&& o.fighter == Some(
        Fighter { max_hp: 30, hp: 30, defense: 2, power: 8, xp: 100, on_death: DeathCallback::Monster },
    )
    &&& o.ai == Some(Ai::Basic)
    &&& o.item is None && o.equipment is None
}

/// A freshly placed monster at `(x, y)`.
pub open spec fn is_spawned_monster(o: Object, x: int, y: int) -> bool {
    is_orc(o, x, y) || is_troll(o, x, y)
}

/// A freshly placed floor item at `(x, y)`: always visible, not blocking,
/// with no fighter or AI, and a sword is the one that carries equipment.
pub open spec fn is_spawned_item(o: Object, x: int, y: int) -> bool {
    &&& o.x == x && o.y == y
    &&& !o.blocks && !o.alive && o.always_visible && o.level == 1
    &&& o.fighter is None && o.ai is None
    &&& o.item is Some
    &&& match o.item.unwrap() {
        Item::Heal => o.char == '!' && o.name@ == "healing potion"@ && o.color == Color::Violet
            && o.equipment is None,
        Item::ScrollLightning => o.char == '#' && o.name@ == "scroll of lightning bolt"@ && o.color
            == Color::LightYellow && o.equipment is None,
        Item::ScrollFireball => o.char == '#' && o.name@ == "scroll of fireball"@ && o.color
            == Color::LightYellow && o.equipment is None,
        Item::ScrollConfusion => o.char == '#' && o.name@ == "scroll of confusion"@ && o.color
            == Color::LightYellow && o.equipment is None,
        Item::Sword => o.char == '/' && o.name@ == "sword"@ && o.color == Color::Sky
            && o.equipment == Some(Equipment { slot: Slot::RightHand, equipped: false }),
        _ => false,
    }
}

fn spawn_monster(troll: bool, x: i32, y: i32) -> (o: Object)
    ensures
        if troll {
            is_troll(o, x as int, y as int)
        } else {
            is_orc(o, x as int, y as int)
        },
{
    if troll {
        let mut o = Object::new(x, y, 'T', "Troll", Color::DarkerGreen, true);
        o.fighter = Some(
            Fighter { max_hp: 30, hp: 30, defense: 2, power: 8, xp: 100, on_death: DeathCallback::Monster },
        );
        o.ai = Some(Ai::Basic);
        o.alive = true;
        o
    } else {
        let mut o = Object::new(x, y, 'o', "Orc", Color::DesaturatedGreen, true);
        o.fighter = Some(
            Fighter { max_hp: 20, hp: 20, defense: 0, power: 4, xp: 35, on_death: DeathCallback::Monster },
        );
        o.ai = Some(Ai::Basic);
        o.alive = true;
        o
    }
}

fn spawn_item(choice: usize, x: i32, y: i32) -> (o: Object)
    ensures
        is_spawned_item(o, x as int, y as int),
        o.item == Some(item_for(choice as int)),
{
    let mut o = if choice == 0 {
        let mut o = Object::new(x, y, '!', "healing potion", Color::Violet, false);
        o.item = Some(Item::Heal);
        o
    } else if choice == 1 {
        let mut o = Object::new(x, y, '#', "scroll of lightning bolt", Color::LightYellow, false);
        o.item = Some(Item::ScrollLightning);
        o
    } else if choice == 2 {
        let mut o = Object::new(x, y, '#', "scroll of fireball", Color::LightYellow, false);
        o.item = Some(Item::ScrollFireball);
        o
    } else if choice == 3 {
        let mut o = Object::new(x, y, '#', "scroll of confusion", Color::LightYellow, false);
        o.item = Some(Item::ScrollConfusion);
        o
    } else {
        let mut o = Object::new(x, y, '/', "sword", Color::Sky, false);
        o.item = Some(Item::Sword);
        o.equipment = Some(Equipment { slot: Slot::RightHand, equipped: false });
        o
    };
    o.always_visible = true;
    o
}

/// The item kind an item draw picks: healing potion, lightning, fireball,
/// confusion, and a sword for any higher pick.
pub open spec fn item_for(pick: int) -> Item {
    if pick == 0 {
        Item::Heal
    } else if pick == 1 {
        Item::ScrollLightning
    } else if pick == 2 {
        Item::ScrollFireball
    } else if pick == 3 {
        Item::ScrollConfusion
    } else {
        Item::Sword
    }
}

/// `o` is what a draw with kind `pick` puts on `(x, y)`: for monsters a
/// troll on pick 1 and an orc otherwise; for items the kind `item_for` says.
pub open spec fn is_drawn(o: Object, pick: int, x: int, y: int, monsters: bool) -> bool {
    if monsters {
        if pick == 1 {
            is_troll(o, x, y)
        } else {
            is_orc(o, x, y)
        }
    } else {
        is_spawned_item(o, x, y) && o.item == Some(item_for(pick))
    }
}

/// `objs` is what playing the draws `(x, y, pick)` in order gives from its
/// first `n0` entities: a draw whose spot nothing blocks adds an entity
/// there, and a draw on a blocked spot adds nothing.
pub open spec fn drawn_ok(
    objs: Seq<Object>,
    n0: int,
    map: DungeonMap,
    draws: Seq<(i32, i32, usize)>,
    monsters: bool,
) -> bool
    decreases draws.len(),
{
    if draws.len() == 0 {
        objs.len() == n0
    } else {
        let d = draws.last();
        let rest = draws.drop_last();
        ||| objs.len() > n0 && drawn_ok(objs.drop_last(), n0, map, rest, monsters) && !blocked_at(
            map,
            objs.drop_last(),
            d.0 as int,
            d.1 as int,
        ) && is_drawn(objs.last(), d.2 as int, d.0 as int, d.1 as int, monsters)
        ||| drawn_ok(objs, n0, map, rest, monsters) && blocked_at(map, objs, d.0 as int, d.1 as int)
    }
}

/// Plays the draws `(x, y, pick)` in order: each puts a fresh monster (or
/// item) of kind `pick` on `(x, y)` unless that spot is blocked by then, in
/// which case the draw is skipped, not retried.
pub fn place_drawn(map: &DungeonMap, objects: &mut Vec<Object>, draws: &Vec<(i32, i32, usize)>, monsters: bool)
    requires
        map.wf(),
    ensures
        final(objects)@.take(old(objects)@.len() as int) == old(objects)@,
        drawn_ok(final(objects)@, old(objects)@.len() as int, *map, draws@, monsters),
{
    let mut i: usize = 0;
    assert(objects@.take(objects@.len() as int) =~= objects@);
    while i < draws.len()
        invariant
            map.wf(),
            i <= draws@.len(),
            objects@.len() >= old(objects)@.len(),
            objects@.take(old(objects)@.len() as int) == old(objects)@,
            drawn_ok(objects@, old(objects)@.len() as int, *map, draws@.take(i as int), monsters),
        decreases draws@.len() - i,
    {
        let (x, y, pick) = draws[i];
        assert(draws@.take(i + 1).drop_last() =~= draws@.take(i as int));
        assert(draws@.take(i + 1).last() == draws@[i as int]);
        let ghost before = objects@;
        if !is_blocked(x, y, map, objects.as_slice()) {
            let o = if monsters {
                spawn_monster(pick == 1, x, y)
            } else {
                spawn_item(pick, x, y)
            };
            objects.push(o);
            proof {
                assert(objects@.drop_last() =~= before);
                assert(objects@.take(old(objects)@.len() as int) =~= before.take(old(objects)@.len() as int));
            }
        }
        i = i + 1;
    }
    assert(draws@.take(draws@.len() as int) =~= draws@);
}

/// Each entity of `objs` from index `from` up to `to` stands inside `room`,
/// on a tile nothing blocked when it came, and is a freshly spawned monster
/// (when `monsters`) or item.
pub open spec fn placed_in(
    map: DungeonMap,
    room: Rect,
    objs: Seq<Object>,
    from: int,
    to: int,
    monsters: bool,
) -> bool {
    forall|i: int|
        from <= i < to ==> {
            let o = #[trigger] objs[i];
            &&& in_interior(room, o.x as int, o.y as int)
            &&& !blocked_at(map, objs.take(i), o.x as int, o.y as int)
            &&& if monsters {
                is_spawned_monster(o, o.x as int, o.y as int)
            } else {
                is_spawned_item(o, o.x as int, o.y as int)
            }
        }
}

/// Whether `o` is of a kind the spawn tables can put down at `level`: a
/// troll only once trolls have a weight, a scroll only once its kind has one.
pub open spec fn allowed_kind(o: Object, level: int, monsters: bool) -> bool {
    if monsters {
        is_orc(o, o.x as int, o.y as int) || (is_troll(o, o.x as int, o.y as int) && level_value(
            troll_curve(),
            level,
        ) > 0)
    } else {
        &&& is_spawned_item(o, o.x as int, o.y as int)
        &&& match o.item.unwrap() {
            Item::ScrollLightning => level_value(seq![Transition { level: 4, value: 25 }], level) > 0,
            Item::ScrollFireball => level_value(seq![Transition { level: 6, value: 25 }], level) > 0,
            Item::ScrollConfusion => level_value(seq![Transition { level: 2, value: 10 }], level) > 0,
            _ => true,
        }
    }
}

/// The entities of `objs` from `from` up to `to` are what populating `room`
/// at `level` put down: monsters, then items, each group no larger than its
/// curve allows at `level`, of kinds allowed there, inside the room on tiles
/// nothing blocked when they came.
pub open spec fn room_populated(map: DungeonMap, room: Rect, objs: Seq<Object>, from: int, to: int, level: int) -> bool {
    exists|k: int|
        from <= k <= to && k - from <= level_value(max_monsters_curve(), level) && to - k <= level_value(
            max_items_curve(),
            level,
        ) && #[trigger] placed_in(map, room, objs, from, k, true) && placed_in(map, room, objs, k, to, false)
            && (forall|i: int| from <= i < k ==> allowed_kind(#[trigger] objs[i], level, true))
            && (forall|i: int| k <= i < to ==> allowed_kind(#[trigger] objs[i], level, false))
}

/// Draws that land inside `room` place entities inside it, each on a tile
/// nothing blocked when it came.
proof fn lemma_drawn_placed(
    objs: Seq<Object>,
    n0: int,
    map: DungeonMap,
    room: Rect,
    draws: Seq<(i32, i32, usize)>,
    monsters: bool,
    level: int,
)
    requires
        0 <= n0,
        drawn_ok(objs, n0, map, draws, monsters),
        forall|i: int| 0 <= i < draws.len() ==> in_interior(room, (#[trigger] draws[i]).0 as int, draws[i].1 as int),
        forall|i: int| 0 <= i < draws.len() ==> pick_allowed((#[trigger] draws[i]).2 as int, level, monsters),
    ensures
        n0 <= objs.len() <= n0 + draws.len(),
        placed_in(map, room, objs, n0, objs.len() as int, monsters),
        forall|i: int| n0 <= i < objs.len() ==> allowed_kind(#[trigger] objs[i], level, monsters),
    decreases draws.len(),
{
    if draws.len() > 0 {
        let d = draws.last();
        let rest = draws.drop_last();
        assert forall|i: int| 0 <= i < rest.len() implies in_interior(room, (#[trigger] rest[i]).0 as int, rest[i].1 as int) by {
            assert(rest[i] == draws[i]);
        }
        assert forall|i: int| 0 <= i < rest.len() implies pick_allowed((#[trigger] rest[i]).2 as int, level, monsters) by {
            assert(rest[i] == draws[i]);
        }
        if objs.len() > n0 && drawn_ok(objs.drop_last(), n0, map, rest, monsters) && !blocked_at(
            map,
            objs.drop_last(),
            d.0 as int,
            d.1 as int,
        ) && is_drawn(objs.last(), d.2 as int, d.0 as int, d.1 as int, monsters) {
            let prev = objs.drop_last();
            lemma_drawn_placed(prev, n0, map, room, rest, monsters, level);
            assert(objs[objs.len() - 1] == objs.last());
            assert(allowed_kind(objs.last(), level, monsters));
            assert forall|i: int| n0 <= i < objs.len() implies allowed_kind(#[trigger] objs[i], level, monsters) by {
                if i < prev.len() {
                    assert(objs[i] == prev[i]);
                }
            }
            assert(draws[draws.len() - 1] == d);
            assert forall|i: int| n0 <= i < objs.len() implies {
                let o = #[trigger] objs[i];
                &&& in_interior(room, o.x as int, o.y as int)
                &&& !blocked_at(map, objs.take(i), o.x as int, o.y as int)
                &&& if monsters {
                    is_spawned_monster(o, o.x as int, o.y as int)
                } else {
                    is_spawned_item(o, o.x as int, o.y as int)
                }
            } by {
                if i < prev.len() {
                    assert(objs[i] == prev[i]);
                    assert(objs.take(i) =~= prev.take(i));
                } else {
                    assert(objs.take(i) =~= prev);
                }
            }
        } else {
            lemma_drawn_placed(objs, n0, map, room, rest, monsters, level);
        }
    }
}

/// Whether a draw of kind `pick` can come out of the weights in force at
/// `level`: a kind of weight zero is never drawn.
pub open spec fn pick_allowed(pick: int, level: int, monsters: bool) -> bool {
    if monsters {
        pick == 0 || (pick == 1 && level_value(troll_curve(), level) > 0)
    } else {
        ||| pick == 0
        ||| pick == 1 && level_value(seq![Transition { level: 4, value: 25 }], level) > 0
        ||| pick == 2 && level_value(seq![Transition { level: 6, value: 25 }], level) > 0
        ||| pick == 3 && level_value(seq![Transition { level: 2, value: 10 }], level) > 0
        ||| pick == 4
    }
}

/// The draws `place_some` may make: at most `count`, inside `room`, of
/// kinds the weights allow.
pub open spec fn draws_fit(draws: Seq<(i32, i32, usize)>, room: Rect, count: int, level: int, monsters: bool) -> bool {
    &&& draws.len() <= if count > 0 { count } else { 0 }
    &&& forall|i: int|
        0 <= i < draws.len() ==> in_interior(room, (#[trigger] draws[i]).0 as int, draws[i].1 as int)
            && pick_allowed(draws[i].2 as int, level, monsters)
}

/// Draws `count` random spots inside `room`, each with a kind drawn by the
/// weights in force at `level`, and plays them with `place_drawn`.
fn place_some(
    room: Rect,
    map: &DungeonMap,
    objects: &mut Vec<Object>,
    level: u32,
    count: i32,
    monsters: bool,
)
    requires
        map.wf(),
        room.x1 + 1 < room.x2,
        room.y1 + 1 < room.y2,
    ensures
        final(objects)@.take(old(objects)@.len() as int) == old(objects)@,
        exists|draws: Seq<(i32, i32, usize)>|
            draws_fit(draws, room, count as int, level as int, monsters) && #[trigger] drawn_ok(
                final(objects)@,
                old(objects)@.len() as int,
                *map,
                draws,
                monsters,
            ),
        old(objects)@.len() <= final(objects)@.len() <= old(objects)@.len() + (if count > 0 {
            count as int
        } else {
            0
        }),
        placed_in(
            *map,
            room,
            final(objects)@,
            old(objects)@.len() as int,
            final(objects)@.len() as int,
            monsters,
        ),
        forall|i: int|
            old(objects)@.len() <= i < final(objects)@.len() ==> allowed_kind(#[trigger] final(objects)@[i], level as int, monsters),
{
    let mut weights: Vec<u32> = Vec::new();
    if monsters {
        let curve = vec![
            Transition { level: 3, value: 15 },
            Transition { level: 5, value: 30 },
            Transition { level: 7, value: 60 },
        ];
        assert(curve@ =~= troll_curve());
        let troll_chance = from_dungeon_level(curve.as_slice(), level);
        assert(troll_chance <= 60) by {
            reveal_with_fuel(level_value, 4);
        }
        weights.push(80);
        weights.push(troll_chance);
        assert(weight_sum(weights@) == 80 + troll_chance) by {
            reveal_with_fuel(weight_sum, 3);
        }
    } else {
        let curve = vec![Transition { level: 4, value: 25 }];
        assert(curve@ =~= seq![Transition { level: 4, value: 25 }]);
        let lightning = from_dungeon_level(curve.as_slice(), level);
        let curve = vec![Transition { level: 6, value: 25 }];
        assert(curve@ =~= seq![Transition { level: 6, value: 25 }]);
        let fireball = from_dungeon_level(curve.as_slice(), level);
        let curve = vec![Transition { level: 2, value: 10 }];
        assert(curve@ =~= seq![Transition { level: 2, value: 10 }]);
        let confusion = from_dungeon_level(curve.as_slice(), level);
        assert(lightning <= 25 && fireball <= 25 && confusion <= 10) by {
            reveal_with_fuel(level_value, 2);
        }
        weights.push(35);
        weights.push(lightning);
        weights.push(fireball);
        weights.push(confusion);
        weights.push(1000);
        let ghost w = weights@;
        assert(weight_sum(w) == 35 + lightning + fireball + confusion + 1000) by {
            assert(w.drop_last().drop_last().drop_last().drop_last().drop_last() =~= Seq::<u32>::empty());
            assert(w.drop_last().drop_last().drop_last().drop_last() =~= seq![35u32]);
            assert(w.drop_last().drop_last().drop_last() =~= seq![35u32, lightning]);
            assert(w.drop_last().drop_last() =~= seq![35u32, lightning, fireball]);
            assert(w.drop_last() =~= seq![35u32, lightning, fireball, confusion]);
            reveal_with_fuel(weight_sum, 6);
        }
    }
    let mut draws: Vec<(i32, i32, usize)> = Vec::new();
    let mut n: i32 = 0;
    while n < count
        invariant
            room.x1 + 1 < room.x2,
            room.y1 + 1 < room.y2,
            0 <= n,
            count > 0 ==> n <= count,
            count <= 0 ==> n == 0,
            draws@.len() == n,
            weights@.len() > 0,
            0 < weight_sum(weights@) <= u32::MAX,
            forall|k: int| 0 <= k < weights@.len() && weights@[k] > 0 ==> pick_allowed(k, level as int, monsters),
            forall|i: int|
                0 <= i < draws@.len() ==> in_interior(room, (#[trigger] draws@[i]).0 as int, draws@[i].1 as int)
                    && pick_allowed(draws@[i].2 as int, level as int, monsters),
        decreases count - n,
    {
        let x = rand_range(room.x1 + 1, room.x2);
        let y = rand_range(room.y1 + 1, room.y2);
        let pick = weighted_index(&weights);
        draws.push((x, y, pick));
        n = n + 1;
    }
    place_drawn(map, objects, &draws, monsters);
    proof {
        lemma_drawn_placed(objects@, old(objects)@.len() as int, *map, room, draws@, monsters, level as int);
    }
}

/// Puts monsters, then items, on free tiles inside `room`: up to as many as
/// the curves allow at `level`, of kinds drawn by level-dependent weights.
pub fn place_objects(room: Rect, map: &DungeonMap, objects: &mut Vec<Object>, level: u32)
    requires
        map.wf(),
        room.x1 + 1 < room.x2,
        room.y1 + 1 < room.y2,
    ensures
        final(objects)@.len() >= old(objects)@.len(),
        final(objects)@.take(old(objects)@.len() as int) == old(objects)@,
        room_populated(*map, room, final(objects)@, old(objects)@.len() as int, final(objects)@.len() as int, level as int),
        exists|k: int, monster_draws: Seq<(i32, i32, usize)>, item_draws: Seq<(i32, i32, usize)>|
            old(objects)@.len() <= k <= final(objects)@.len()
            && draws_fit(monster_draws, room, level_value(max_monsters_curve(), level as int), level as int, true)
            && draws_fit(item_draws, room, level_value(max_items_curve(), level as int), level as int, false)
            && #[trigger] drawn_ok(final(objects)@.take(k), old(objects)@.len() as int, *map, monster_draws, true)
            && #[trigger] drawn_ok(final(objects)@, k, *map, item_draws, false),
{
    let curve = vec![
        Transition { level: 1, value: 2 },
        Transition { level: 4, value: 3 },
        Transition { level: 6, value: 5 },
    ];
    assert(curve@ =~= max_monsters_curve());
    let max_monsters = from_dungeon_level(curve.as_slice(), level);
    assert(max_monsters <= 5) by {
        reveal_with_fuel(level_value, 4);
    }
    let num_monsters = rand_range(0, max_monsters as i32 + 1);
    place_some(room, map, objects, level, num_monsters, true);
    let ghost mid = objects@;
    let curve = vec![Transition { level: 1, value: 1 }, Transition { level: 4, value: 2 }];
    assert(curve@ =~= max_items_curve());
    let max_items = from_dungeon_level(curve.as_slice(), level);
    assert(max_items <= 2) by {
        reveal_with_fuel(level_value, 3);
    }
    let num_items = rand_range(0, max_items as i32 + 1);
    place_some(room, map, objects, level, num_items, false);
    proof {
        assert(objects@.take(old(objects)@.len() as int) =~= old(objects)@) by {
            assert(objects@.take(mid.len() as int).take(old(objects)@.len() as int) =~= objects@.take(old(objects)@.len() as int));
        }
        assert forall|i: int| old(objects)@.len() <= i < mid.len() implies #[trigger] objects@[i] == mid[i] by {
            assert(objects@.take(mid.len() as int)[i] == objects@[i]);
        }
        assert forall|i: int| old(objects)@.len() <= i < mid.len() implies objects@.take(i) =~= mid.take(i) by {
            assert forall|j: int| 0 <= j < i implies objects@.take(i)[j] == mid.take(i)[j] by {
                assert(objects@.take(mid.len() as int)[j] == objects@[j]);
            }
        }
        assert(placed_in(*map, room, objects@, old(objects)@.len() as int, mid.len() as int, true));
        let md = choose|draws: Seq<(i32, i32, usize)>|
            draws_fit(draws, room, num_monsters as int, level as int, true) && #[trigger] drawn_ok(
                mid,
                old(objects)@.len() as int,
                *map,
                draws,
                true,
            );
        let id = choose|draws: Seq<(i32, i32, usize)>|
            draws_fit(draws, room, num_items as int, level as int, false) && #[trigger] drawn_ok(
                objects@,
                mid.len() as int,
                *map,
                draws,
                false,
            );
        assert(objects@.take(mid.len() as int) =~= mid);
        assert(draws_fit(md, room, level_value(max_monsters_curve(), level as int), level as int, true));
        assert(draws_fit(id, room, level_value(max_items_curve(), level as int), level as int, false));
    }
}

} // verus!
