use vstd::prelude::*;
use crate::constants::{MAP_HEIGHT, MAP_WIDTH, MAX_ROOMS, PLAYER, ROOM_MAX_SIZE, ROOM_MIN_SIZE};
use crate::dungeon::{
    create_h_tunnel, create_room, create_v_tunnel, in_h_segment, in_interior, in_v_segment,
    max_of, min_of,
};
use crate::geometry::Rect;
use crate::object::{Color, Object};
use crate::random::{coin_flip, rand_range};
use crate::spawn::{
    allowed_kind, is_spawned_item, is_spawned_monster, level_value, max_items_curve, max_monsters_curve,
    place_objects, placed_in, room_populated,
};
use crate::tiles::{floor_tile, in_bounds, wall_tile, DungeonMap};

verus! {

/// A room lies on the map, with sides of an allowed length.
pub open spec fn room_fits(r: Rect) -> bool {
    &&& 0 <= r.x1 && r.x2 < MAP_WIDTH
    &&& 0 <= r.y1 && r.y2 < MAP_HEIGHT
    &&& ROOM_MIN_SIZE <= r.x2 - r.x1 <= ROOM_MAX_SIZE
    &&& ROOM_MIN_SIZE <= r.y2 - r.y1 <= ROOM_MAX_SIZE
}

/// No two rooms intersect, under the inclusive-bound test.
pub open spec fn rooms_apart(rooms: Seq<Rect>) -> bool {
    forall|i: int, j: int|
        0 <= i < rooms.len() && 0 <= j < rooms.len() && i != j ==> !(#[trigger] rooms[i]).spec_intersects(
            #[trigger] rooms[j],
        )
}

/// Every tile inside the walls of `r` is passable.
pub open spec fn room_open(map: DungeonMap, r: Rect) -> bool {
    forall|a: int, b: int| #[trigger] in_interior(r, a, b) ==> map.passable(a, b)
}

/// The row `y` is passable from column `x1` to column `x2`.
pub open spec fn h_open(map: DungeonMap, x1: int, x2: int, y: int) -> bool {
    forall|a: int| min_of(x1, x2) <= a <= max_of(x1, x2) ==> #[trigger] map.passable(a, y)
}

/// The column `x` is passable from row `y1` to row `y2`.
pub open spec fn v_open(map: DungeonMap, y1: int, y2: int, x: int) -> bool {
    forall|b: int| min_of(y1, y2) <= b <= max_of(y1, y2) ==> #[trigger] map.passable(x, b)
}

/// An L-shaped corridor joins `(px, py)` to `(nx, ny)`, bending either at
/// `(nx, py)` or at `(px, ny)`.
pub open spec fn tunnel_open(map: DungeonMap, px: int, py: int, nx: int, ny: int) -> bool {
    ||| h_open(map, px, nx, py) && v_open(map, py, ny, nx)
    ||| v_open(map, py, ny, px) && h_open(map, px, nx, ny)
}

/// Each room after the first is joined by a corridor to the one before it.
pub open spec fn rooms_linked(map: DungeonMap, rooms: Seq<Rect>) -> bool {
    forall|i: int|
        0 < i < rooms.len() ==> tunnel_open(
            map,
            (#[trigger] rooms[i - 1]).center_x(),
            rooms[i - 1].center_y(),
            rooms[i].center_x(),
            rooms[i].center_y(),
        )
}

/// The shape of a generated level: between one and `MAX_ROOMS` rooms that
/// fit, do not intersect, are carved open and are chained by corridors.
pub open spec fn dungeon_layout(map: DungeonMap, rooms: Seq<Rect>) -> bool {
    &&& map.wf()
    &&& 1 <= rooms.len() <= MAX_ROOMS
    &&& forall|i: int| 0 <= i < rooms.len() ==> room_fits(#[trigger] rooms[i])
    &&& forall|i: int| 0 <= i < rooms.len() ==> room_open(map, #[trigger] rooms[i])
    &&& rooms_apart(rooms)
    &&& rooms_linked(map, rooms)
}

/// The stairs down, at `(x, y)`.
pub open spec fn is_stairs(o: Object, x: int, y: int) -> bool {
    &&& o.x == x && o.y == y
    &&& o.char == '<' && o.name@ == "stairs"@ && o.color == Color::White
    &&& !o.blocks && o.always_visible
    &&& o.fighter is None && o.ai is None && o.item is None && o.equipment is None
}

/// Whether `(a, b)` is inside one of `rooms`.
pub open spec fn in_some_room(rooms: Seq<Rect>, a: int, b: int) -> bool {
    exists|j: int| 0 <= j < rooms.len() && in_interior(#[trigger] rooms[j], a, b)
}

/// Everything `make_map` promises of a level and of the entities on it.
pub open spec fn level_generated(
    map: DungeonMap,
    rooms: Seq<Rect>,
    objs: Seq<Object>,
    player: Object,
    level: int,
) -> bool {
    &&& dungeon_layout(map, rooms)
    &&& objs.len() >= 2
    &&& objs[0] == (Object {
        x: rooms[0].center_x() as i32,
        y: rooms[0].center_y() as i32,
        ..player
    })
    &&& is_stairs(objs.last(), rooms.last().center_x(), rooms.last().center_y())
    &&& forall|k: int|
        1 <= k < objs.len() - 1 ==> in_some_room(rooms, (#[trigger] objs[k]).x as int, objs[k].y as int)
    &&& forall|k: int| 1 <= k < objs.len() - 1 ==> is_spawned(#[trigger] objs[k])
    &&& forall|k: int| 0 <= k < objs.len() ==> map.passable((#[trigger] objs[k]).x as int, objs[k].y as int)
    &&& apart_if_blocking(objs)
    &&& exists|starts: Seq<int>| #[trigger] rooms_populated(map, rooms, objs, starts, level)
        && starts[rooms.len() as int] == objs.len() - 1
}

/// No two blocking entities stand on the same tile.
pub open spec fn apart_if_blocking(objs: Seq<Object>) -> bool {
    forall|i: int, k: int|
        0 <= i < k < objs.len() && (#[trigger] objs[i]).blocks && (#[trigger] objs[k]).blocks ==> objs[i].x
            != objs[k].x || objs[i].y != objs[k].y
}

/// Room `r` was populated with the entities from `starts[r]` up to
/// `starts[r + 1]`, for each room in turn, from index 1 on.
pub open spec fn rooms_populated(map: DungeonMap, rooms: Seq<Rect>, objs: Seq<Object>, starts: Seq<int>, level: int) -> bool {
    &&& starts.len() == rooms.len() + 1
    &&& starts[0] == 1
    &&& forall|r: int|
        0 <= r < rooms.len() ==> room_populated(
            map,
            #[trigger] rooms[r],
            objs,
            starts[r],
            starts[r + 1],
            level,
        )
}

/// What was put down in a room stays so when more entities follow.
proof fn lemma_populated_extend(map: DungeonMap, room: Rect, a: Seq<Object>, b: Seq<Object>, from: int, to: int, level: int)
    requires
        0 <= from <= to <= a.len() <= b.len(),
        forall|i: int| 0 <= i < a.len() ==> #[trigger] b[i] == a[i],
        room_populated(map, room, a, from, to, level),
    ensures
        room_populated(map, room, b, from, to, level),
{
    let k = choose|k: int|
        from <= k <= to && k - from <= level_value(max_monsters_curve(), level) && to - k <= level_value(
            max_items_curve(),
            level,
        ) && #[trigger] placed_in(map, room, a, from, k, true) && placed_in(map, room, a, k, to, false)
            && (forall|i: int| from <= i < k ==> allowed_kind(#[trigger] a[i], level, true))
            && (forall|i: int| k <= i < to ==> allowed_kind(#[trigger] a[i], level, false));
    assert forall|i: int| from <= i < to implies #[trigger] b.take(i) == a.take(i) by {
        assert(b.take(i) =~= a.take(i));
    }
    assert(placed_in(map, room, b, from, k, true)) by {
        assert forall|i: int| from <= i < k implies b[i] == a[i] && b.take(i) == a.take(i) by {}
    }
    assert(placed_in(map, room, b, k, to, false)) by {
        assert forall|i: int| k <= i < to implies b[i] == a[i] && b.take(i) == a.take(i) by {}
    }
}

/// A monster or an item as the spawn tables make them.
pub open spec fn is_spawned(o: Object) -> bool {
    is_spawned_monster(o, o.x as int, o.y as int) || is_spawned_item(o, o.x as int, o.y as int)
}

proof fn lemma_center_inside(r: Rect)
    requires
        room_fits(r),
    ensures
        in_interior(r, r.center_x(), r.center_y()),
        in_bounds(r.center_x(), r.center_y()),
{
}

/// Two places one step apart, horizontally or vertically.
pub open spec fn adjacent(a: (int, int), b: (int, int)) -> bool {
    ||| a.1 == b.1 && (a.0 - b.0 == 1 || b.0 - a.0 == 1)
    ||| a.0 == b.0 && (a.1 - b.1 == 1 || b.1 - a.1 == 1)
}

/// `p` is a walk over passable tiles from `from` to `to`, one step at a time.
pub open spec fn walk(map: DungeonMap, p: Seq<(int, int)>, from: (int, int), to: (int, int)) -> bool {
    &&& p.len() >= 1
    &&& p[0] == from
    &&& p.last() == to
    &&& forall|k: int| 0 <= k < p.len() ==> map.passable(#[trigger] p[k].0, p[k].1)
    &&& forall|k: int| 0 <= k < p.len() - 1 ==> adjacent(#[trigger] p[k], p[k + 1])
}

proof fn lemma_walk_join(map: DungeonMap, p: Seq<(int, int)>, q: Seq<(int, int)>, a: (int, int), b: (int, int), c: (int, int))
    requires
        walk(map, p, a, b),
        walk(map, q, b, c),
    ensures
        walk(map, p + q.drop_first(), a, c),
{
    let r = p + q.drop_first();
    assert forall|k: int| 0 <= k < r.len() implies map.passable(#[trigger] r[k].0, r[k].1) by {
        if k >= p.len() {
            assert(r[k] == q[k - p.len() + 1]);
        }
    }
    assert forall|k: int| 0 <= k < r.len() - 1 implies adjacent(#[trigger] r[k], r[k + 1]) by {
        if k == p.len() - 1 {
            assert(r[k + 1] == q[1]);
            assert(q[0] == b);
        } else if k >= p.len() {
            assert(r[k] == q[k - p.len() + 1]);
            assert(r[k + 1] == q[k - p.len() + 2]);
        }
    }
    if q.len() == 1 {
        assert(r =~= p);
    } else {
        assert(r.last() == q.last());
    }
}

proof fn lemma_row_walk(map: DungeonMap, x1: int, x2: int, y: int)
    requires
        h_open(map, x1, x2, y),
    ensures
        exists|p: Seq<(int, int)>| walk(map, p, (x1, y), (x2, y)),
{
    if x1 <= x2 {
        let p = Seq::new((x2 - x1 + 1) as nat, |k: int| (x1 + k, y));
        assert(map.passable(x1, y));
        assert forall|k: int| 0 <= k < p.len() implies map.passable(#[trigger] p[k].0, p[k].1) by {
            assert(map.passable(x1 + k, y));
        }
        assert(walk(map, p, (x1, y), (x2, y)));
    } else {
        let p = Seq::new((x1 - x2 + 1) as nat, |k: int| (x1 - k, y));
        assert forall|k: int| 0 <= k < p.len() implies map.passable(#[trigger] p[k].0, p[k].1) by {
            assert(map.passable(x1 - k, y));
        }
        assert(walk(map, p, (x1, y), (x2, y)));
    }
}

proof fn lemma_column_walk(map: DungeonMap, y1: int, y2: int, x: int)
    requires
        v_open(map, y1, y2, x),
    ensures
        exists|p: Seq<(int, int)>| walk(map, p, (x, y1), (x, y2)),
{
    if y1 <= y2 {
        let p = Seq::new((y2 - y1 + 1) as nat, |k: int| (x, y1 + k));
        assert forall|k: int| 0 <= k < p.len() implies map.passable(#[trigger] p[k].0, p[k].1) by {
            assert(map.passable(x, y1 + k));
        }
        assert(walk(map, p, (x, y1), (x, y2)));
    } else {
        let p = Seq::new((y1 - y2 + 1) as nat, |k: int| (x, y1 - k));
        assert forall|k: int| 0 <= k < p.len() implies map.passable(#[trigger] p[k].0, p[k].1) by {
            assert(map.passable(x, y1 - k));
        }
        assert(walk(map, p, (x, y1), (x, y2)));
    }
}

proof fn lemma_tunnel_walk(map: DungeonMap, px: int, py: int, nx: int, ny: int)
    requires
        tunnel_open(map, px, py, nx, ny),
    ensures
        exists|p: Seq<(int, int)>| walk(map, p, (px, py), (nx, ny)),
{
    if h_open(map, px, nx, py) && v_open(map, py, ny, nx) {
        lemma_row_walk(map, px, nx, py);
        lemma_column_walk(map, py, ny, nx);
        let p = choose|p: Seq<(int, int)>| walk(map, p, (px, py), (nx, py));
        let q = choose|q: Seq<(int, int)>| walk(map, q, (nx, py), (nx, ny));
        lemma_walk_join(map, p, q, (px, py), (nx, py), (nx, ny));
    } else {
        lemma_column_walk(map, py, ny, px);
        lemma_row_walk(map, px, nx, ny);
        let p = choose|p: Seq<(int, int)>| walk(map, p, (px, py), (px, ny));
        let q = choose|q: Seq<(int, int)>| walk(map, q, (px, ny), (nx, ny));
        lemma_walk_join(map, p, q, (px, py), (px, ny), (nx, ny));
    }
}

/// The centre of a room.
pub open spec fn center_of(r: Rect) -> (int, int) {
    (r.center_x(), r.center_y())
}

/// On a generated level, the centre of every room can be reached on foot
/// from the centre of the first room, where the player starts.
pub proof fn lemma_rooms_reachable(map: DungeonMap, rooms: Seq<Rect>, i: int)
    requires
        dungeon_layout(map, rooms),
        0 <= i < rooms.len(),
    ensures
        exists|p: Seq<(int, int)>| walk(map, p, center_of(rooms[0]), center_of(rooms[i])),
    decreases i,
{
    if i == 0 {
        lemma_center_inside(rooms[0]);
        assert(room_open(map, rooms[0]));
        let p = seq![center_of(rooms[0])];
        assert(walk(map, p, center_of(rooms[0]), center_of(rooms[0])));
    } else {
        lemma_rooms_reachable(map, rooms, i - 1);
        let p = choose|p: Seq<(int, int)>| #[trigger] walk(map, p, center_of(rooms[0]), center_of(rooms[i - 1]));
        assert(tunnel_open(map, rooms[i - 1].center_x(), rooms[i - 1].center_y(), rooms[i].center_x(), rooms[i].center_y()));
        lemma_tunnel_walk(map, rooms[i - 1].center_x(), rooms[i - 1].center_y(), rooms[i].center_x(), rooms[i].center_y());
        let q = choose|q: Seq<(int, int)>| #[trigger] walk(map, q, center_of(rooms[i - 1]), center_of(rooms[i]));
        lemma_walk_join(map, p, q, center_of(rooms[0]), center_of(rooms[i - 1]), center_of(rooms[i]));
    }
}

/// Whether `r` meets one of the rooms kept so far.
pub open spec fn meets_any(r: Rect, kept: Seq<(Rect, bool)>) -> bool {
    exists|j: int| 0 <= j < kept.len() && r.spec_intersects((#[trigger] kept[j]).0)
}

/// The candidates that are kept, in order, each with its bend flag: a
/// candidate is kept when it meets none of those kept before it.
pub open spec fn kept_rooms(cands: Seq<(Rect, bool)>) -> Seq<(Rect, bool)>
    decreases cands.len(),
{
    if cands.len() == 0 {
        Seq::empty()
    } else {
        let prev = kept_rooms(cands.drop_last());
        if meets_any(cands.last().0, prev) {
            prev
        } else {
            prev.push(cands.last())
        }
    }
}

/// Whether `(a, b)` is on the corridor from the centre of `from` to the
/// centre of `to`: along the row of the first and then the column of the
/// second when `horizontal_first`, else along the column of the first and
/// then the row of the second.
pub open spec fn on_corridor(from: Rect, to: Rect, horizontal_first: bool, a: int, b: int) -> bool {
    let px = from.center_x();
    let py = from.center_y();
    let nx = to.center_x();
    let ny = to.center_y();
    if horizontal_first {
        in_h_segment(px, nx, py, a, b) || in_v_segment(py, ny, nx, a, b)
    } else {
        in_v_segment(py, ny, px, a, b) || in_h_segment(px, nx, ny, a, b)
    }
}

/// Whether `(a, b)` is dug out by the kept rooms: inside one of them, or on
/// the corridor that joins one to the one kept before it.
pub open spec fn carved(kept: Seq<(Rect, bool)>, a: int, b: int) -> bool {
    ||| exists|j: int| 0 <= j < kept.len() && in_interior((#[trigger] kept[j]).0, a, b)
    ||| exists|j: int| 1 <= j < kept.len() && on_corridor(kept[j - 1].0, (#[trigger] kept[j]).0, kept[j].1, a, b)
}

proof fn lemma_carved_push(kept: Seq<(Rect, bool)>, c: (Rect, bool), a: int, b: int)
    ensures
        carved(kept.push(c), a, b) == (carved(kept, a, b) || in_interior(c.0, a, b) || (kept.len() > 0
            && on_corridor(kept.last().0, c.0, c.1, a, b))),
{
    let k2 = kept.push(c);
    if carved(kept, a, b) {
        if exists|j: int| 0 <= j < kept.len() && in_interior((#[trigger] kept[j]).0, a, b) {
            let j = choose|j: int| 0 <= j < kept.len() && in_interior((#[trigger] kept[j]).0, a, b);
            assert(k2[j] == kept[j]);
        } else {
            let j = choose|j: int| 1 <= j < kept.len() && on_corridor(kept[j - 1].0, (#[trigger] kept[j]).0, kept[j].1, a, b);
            assert(k2[j] == kept[j] && k2[j - 1] == kept[j - 1]);
        }
    }
    if in_interior(c.0, a, b) {
        assert(k2[kept.len() as int] == c);
    }
    if kept.len() > 0 && on_corridor(kept.last().0, c.0, c.1, a, b) {
        assert(k2[kept.len() as int] == c);
        assert(k2[kept.len() - 1] == kept.last());
    }
    if carved(k2, a, b) {
        if exists|j: int| 0 <= j < k2.len() && in_interior((#[trigger] k2[j]).0, a, b) {
            let j = choose|j: int| 0 <= j < k2.len() && in_interior((#[trigger] k2[j]).0, a, b);
            if j < kept.len() {
                assert(k2[j] == kept[j]);
            }
        } else {
            let j = choose|j: int| 1 <= j < k2.len() && on_corridor(k2[j - 1].0, (#[trigger] k2[j]).0, k2[j].1, a, b);
            if j < kept.len() {
                assert(k2[j] == kept[j] && k2[j - 1] == kept[j - 1]);
            } else {
                assert(k2[j - 1] == kept.last());
            }
        }
    }
}

/// Kept rooms come from the candidates, in order of first appearance, and
/// the first candidate is always kept.
proof fn lemma_kept_rooms(cands: Seq<(Rect, bool)>)
    ensures
        kept_rooms(cands).len() <= cands.len(),
        cands.len() > 0 ==> kept_rooms(cands).len() >= 1,
        forall|j: int| 0 <= j < kept_rooms(cands).len() ==> exists|i: int| 0 <= i < cands.len() && #[trigger] kept_rooms(cands)[j] == cands[i],
        forall|i: int, j: int|
            0 <= i < kept_rooms(cands).len() && 0 <= j < kept_rooms(cands).len() && i != j ==> !(#[trigger] kept_rooms(cands)[i]).0.spec_intersects((#[trigger] kept_rooms(cands)[j]).0),
    decreases cands.len(),
{
    if cands.len() > 0 {
        let rest = cands.drop_last();
        lemma_kept_rooms(rest);
        let prev = kept_rooms(rest);
        let k = kept_rooms(cands);
        assert forall|j: int| 0 <= j < k.len() implies exists|i: int| 0 <= i < cands.len() && #[trigger] k[j] == cands[i] by {
            if j < prev.len() {
                assert(k[j] == prev[j]);
                let i = choose|i: int| 0 <= i < rest.len() && #[trigger] prev[j] == rest[i];
                assert(cands[i] == rest[i]);
            } else {
                assert(k[j] == cands[cands.len() - 1]);
            }
        }
        if !meets_any(cands.last().0, prev) {
            assert forall|i: int, j: int|
                0 <= i < k.len() && 0 <= j < k.len() && i != j implies !(#[trigger] k[i]).0.spec_intersects((#[trigger] k[j]).0) by {
                if i == prev.len() {
                    assert(!cands.last().0.spec_intersects(prev[j].0));
                } else if j == prev.len() {
                    assert(!cands.last().0.spec_intersects(prev[i].0));
                } else {
                    assert(k[i] == prev[i] && k[j] == prev[j]);
                }
            }
        }
    }
}

/// Whether `map` is exactly the dungeon the kept rooms dig out of solid rock.
pub open spec fn carved_exactly(map: DungeonMap, kept: Seq<(Rect, bool)>) -> bool {
    &&& map.wf()
    &&& forall|a: int, b: int| in_bounds(a, b) ==> #[trigger] map.at(a, b) == if carved(kept, a, b) {
        floor_tile()
    } else {
        wall_tile()
    }
}

/// Digs the dungeon out of the candidate rooms `candidates`, each given
/// with its bend flag: a candidate is kept only when it meets no room kept
/// before it; a kept room is carved, and joined to the room kept before it
/// by an L-shaped corridor that runs along a row first when its flag is
/// set, along a column first otherwise. Returns the map and the kept rooms.
pub fn lay_out_rooms(candidates: &Vec<(Rect, bool)>) -> (r: (DungeonMap, Vec<(Rect, bool)>))
    requires
        forall|i: int| 0 <= i < candidates@.len() ==> room_fits((#[trigger] candidates@[i]).0),
    ensures
        r.1@ == kept_rooms(candidates@),
        carved_exactly(r.0, r.1@),
{
    let mut map = DungeonMap::filled_with_walls();
    let mut kept: Vec<(Rect, bool)> = Vec::new();
    let mut i: usize = 0;
    assert(candidates@.take(0) =~= Seq::<(Rect, bool)>::empty());
    while i < candidates.len()
        invariant
            i <= candidates@.len(),
            forall|j: int| 0 <= j < candidates@.len() ==> room_fits((#[trigger] candidates@[j]).0),
            kept@ == kept_rooms(candidates@.take(i as int)),
            forall|j: int| 0 <= j < kept@.len() ==> room_fits((#[trigger] kept@[j]).0),
            carved_exactly(map, kept@),
        decreases candidates@.len() - i,
    {
        let (new_room, horizontal_first) = candidates[i];
        assert(candidates@.take(i + 1).drop_last() =~= candidates@.take(i as int));
        assert(candidates@.take(i + 1).last() == candidates@[i as int]);
        let mut failed = false;
        let mut j: usize = 0;
        while j < kept.len()
            invariant
                j <= kept@.len(),
                failed == exists|k: int| 0 <= k < j && new_room.spec_intersects((#[trigger] kept@[k]).0),
            decreases kept@.len() - j,
        {
            if new_room.intersects_with(&kept[j].0) {
                failed = true;
            }
            j = j + 1;
        }
        if !failed {
            let ghost m0 = map;
            create_room(new_room, &mut map);
            let ghost m1 = map;
            let (new_x, new_y) = new_room.center();
            proof {
                lemma_center_inside(new_room);
            }
            if kept.len() > 0 {
                let (prev_x, prev_y) = kept[kept.len() - 1].0.center();
                proof {
                    lemma_center_inside(kept@[kept@.len() - 1].0);
                }
                if horizontal_first {
                    create_h_tunnel(prev_x, new_x, prev_y, &mut map);
                    create_v_tunnel(prev_y, new_y, new_x, &mut map);
                } else {
                    create_v_tunnel(prev_y, new_y, prev_x, &mut map);
                    create_h_tunnel(prev_x, new_x, new_y, &mut map);
                }
            }
            let ghost old_kept = kept@;
            kept.push((new_room, horizontal_first));
            proof {
                assert forall|a: int, b: int| in_bounds(a, b) implies #[trigger] map.at(a, b) == if carved(kept@, a, b) {
                    floor_tile()
                } else {
                    wall_tile()
                } by {
                    lemma_carved_push(old_kept, (new_room, horizontal_first), a, b);
                }
                assert forall|j: int| 0 <= j < kept@.len() implies room_fits((#[trigger] kept@[j]).0) by {
                    if j < old_kept.len() {
                        assert(kept@[j] == old_kept[j]);
                    }
                }
            }
        }
        i = i + 1;
    }
    assert(candidates@.take(candidates@.len() as int) =~= candidates@);
    (map, kept)
}

/// The rooms of a layout, without their bend flags.
pub open spec fn rooms_of(kept: Seq<(Rect, bool)>) -> Seq<Rect> {
    kept.map_values(|k: (Rect, bool)| k.0)
}

/// A map carved exactly from kept rooms that fit has the shape of a level.
proof fn lemma_layout(map: DungeonMap, cands: Seq<(Rect, bool)>)
    requires
        1 <= cands.len() <= MAX_ROOMS,
        forall|i: int| 0 <= i < cands.len() ==> room_fits((#[trigger] cands[i]).0),
        carved_exactly(map, kept_rooms(cands)),
    ensures
        dungeon_layout(map, rooms_of(kept_rooms(cands))),
{
    lemma_kept_rooms(cands);
    let kept = kept_rooms(cands);
    let rooms = rooms_of(kept);
    assert forall|j: int| 0 <= j < rooms.len() implies room_fits(#[trigger] rooms[j]) by {
        let i = choose|i: int| 0 <= i < cands.len() && #[trigger] kept[j] == cands[i];
        assert(room_fits(cands[i].0));
    }
    assert forall|j: int| 0 <= j < rooms.len() implies room_open(map, #[trigger] rooms[j]) by {
        assert forall|a: int, b: int| #[trigger] in_interior(rooms[j], a, b) implies map.passable(a, b) by {
            assert(kept[j].0 == rooms[j]);
            assert(carved(kept, a, b));
            assert(in_bounds(a, b));
            assert(map.at(a, b) == floor_tile());
        }
    }
    assert forall|i: int, j: int|
        0 <= i < rooms.len() && 0 <= j < rooms.len() && i != j implies !(#[trigger] rooms[i]).spec_intersects(#[trigger] rooms[j]) by {
        assert(rooms[i] == kept[i].0 && rooms[j] == kept[j].0);
        assert(!kept[i].0.spec_intersects(kept[j].0));
    }
    assert forall|j: int| 0 < j < rooms.len() implies tunnel_open(
        map,
        (#[trigger] rooms[j - 1]).center_x(),
        rooms[j - 1].center_y(),
        rooms[j].center_x(),
        rooms[j].center_y(),
    ) by {
        let from = kept[j - 1].0;
        let to = kept[j].0;
        assert(rooms[j - 1] == from && rooms[j] == to);
        lemma_center_inside(from);
        lemma_center_inside(to);
        let px = from.center_x();
        let py = from.center_y();
        let nx = to.center_x();
        let ny = to.center_y();
        assert forall|a: int, b: int| on_corridor(from, to, kept[j].1, a, b) implies #[trigger] map.passable(a, b) by {
            assert(carved(kept, a, b));
            assert(in_bounds(a, b));
            assert(map.at(a, b) == floor_tile());
        }
        if kept[j].1 {
            assert forall|a: int| min_of(px, nx) <= a <= max_of(px, nx) implies #[trigger] map.passable(a, py) by {
                assert(on_corridor(from, to, kept[j].1, a, py));
            }
            assert forall|b: int| min_of(py, ny) <= b <= max_of(py, ny) implies #[trigger] map.passable(nx, b) by {
                assert(on_corridor(from, to, kept[j].1, nx, b));
            }
        } else {
            assert forall|b: int| min_of(py, ny) <= b <= max_of(py, ny) implies #[trigger] map.passable(px, b) by {
                assert(on_corridor(from, to, kept[j].1, px, b));
            }
            assert forall|a: int| min_of(px, nx) <= a <= max_of(px, nx) implies #[trigger] map.passable(a, ny) by {
                assert(on_corridor(from, to, kept[j].1, a, ny));
            }
        }
    }
}

/// Builds a new level: `MAX_ROOMS` random candidate rooms, each with a
/// coin toss for the bend of its corridor, are laid out by `lay_out_rooms`.
/// The player, kept at index 0 while every other entity is dropped, goes to
/// the centre of the first room; each kept room, in order, is filled with
/// monsters and items for `level`; stairs down are put at the centre of the
/// last room.
pub fn make_map(objects: &mut Vec<Object>, level: u32) -> (map: DungeonMap)
    requires
        old(objects)@.len() >= 1,
    ensures
        exists|rooms: Seq<Rect>| level_generated(map, rooms, final(objects)@, old(objects)@[0], level as int),
        exists|cands: Seq<(Rect, bool)>|
            cands.len() == MAX_ROOMS && (forall|i: int| 0 <= i < cands.len() ==> room_fits((#[trigger] cands[i]).0))
                && #[trigger] carved_exactly(map, kept_rooms(cands)) && level_generated(
                map,
                rooms_of(kept_rooms(cands)),
                final(objects)@,
                old(objects)@[0],
                level as int,
            ),
{
    let mut candidates: Vec<(Rect, bool)> = Vec::new();
    let mut attempt: i32 = 0;
    while attempt < MAX_ROOMS
        invariant
            0 <= attempt <= MAX_ROOMS,
            candidates@.len() == attempt,
            forall|i: int| 0 <= i < candidates@.len() ==> room_fits((#[trigger] candidates@[i]).0),
        decreases MAX_ROOMS - attempt,
    {
        let w = rand_range(ROOM_MIN_SIZE, ROOM_MAX_SIZE + 1);
        let h = rand_range(ROOM_MIN_SIZE, ROOM_MAX_SIZE + 1);
        let x = rand_range(0, MAP_WIDTH - w);
        let y = rand_range(0, MAP_HEIGHT - h);
        let horizontal_first = coin_flip();
        candidates.push((Rect::new(x, y, w, h), horizontal_first));
        attempt = attempt + 1;
    }
    let (map, kept) = lay_out_rooms(&candidates);
    proof {
        lemma_kept_rooms(candidates@);
        lemma_layout(map, candidates@);
    }
    let ghost rooms = rooms_of(kept@);
    let ghost player = old(objects)@[0];
    objects.truncate(1);
    let ghost mut starts: Seq<int> = seq![1int];
    let mut j: usize = 0;
    while j < kept.len()
        invariant
            map.wf(),
            dungeon_layout(map, rooms),
            rooms == rooms_of(kept@),
            j <= kept@.len(),
            objects@.len() >= 1,
            j == 0 ==> objects@ == seq![player],
            j > 0 ==> objects@[0] == (Object {
                x: rooms[0].center_x() as i32,
                y: rooms[0].center_y() as i32,
                ..player
            }),
            forall|k: int|
                1 <= k < objects@.len() ==> in_some_room(rooms, (#[trigger] objects@[k]).x as int, objects@[k].y as int),
            forall|k: int| 1 <= k < objects@.len() ==> is_spawned(#[trigger] objects@[k]),
            j > 0 ==> forall|k: int| 0 <= k < objects@.len() ==> map.passable((#[trigger] objects@[k]).x as int, objects@[k].y as int),
            j > 0 ==> apart_if_blocking(objects@),
            starts.len() == j + 1,
            starts[0] == 1,
            starts[j as int] == objects@.len(),
            forall|r: int| 0 <= r <= j ==> 1 <= #[trigger] starts[r] <= objects@.len(),
            forall|r: int|
                0 <= r < j ==> room_populated(
                    map,
                    #[trigger] rooms[r],
                    objects@,
                    starts[r],
                    starts[r + 1],
                    level as int,
                ),
        decreases kept@.len() - j,
    {
        let room = kept[j].0;
        assert(room == rooms[j as int]);
        assert(room_fits(rooms[j as int]));
        assert(room_open(map, rooms[j as int]));
        if j == 0 {
            let (center_x, center_y) = room.center();
            objects[PLAYER].set_pos(center_x, center_y);
            proof {
                lemma_center_inside(room);
                assert(in_interior(rooms[0], rooms[0].center_x(), rooms[0].center_y()));
                assert(objects@.len() == 1);
            }
        }
        let ghost before = objects@;
        place_objects(room, &map, objects, level as u32);
        proof {
            assert forall|k: int| 0 <= k < before.len() implies #[trigger] objects@[k] == before[k] by {
                assert(objects@.take(before.len() as int)[k] == objects@[k]);
            }
            let kk = choose|kk: int| before.len() <= kk <= objects@.len()
                && placed_in(map, room, objects@, before.len() as int, kk, true)
                && placed_in(map, room, objects@, kk, objects@.len() as int, false);
            assert forall|k: int| before.len() <= k < objects@.len() implies
                !crate::dungeon::blocked_at(map, objects@.take(k), objects@[k].x as int, objects@[k].y as int)
                && in_interior(rooms[j as int], objects@[k].x as int, objects@[k].y as int)
                && is_spawned(#[trigger] objects@[k]) by {
                if k < kk {
                    assert(is_spawned_monster(objects@[k], objects@[k].x as int, objects@[k].y as int));
                } else {
                    assert(is_spawned_item(objects@[k], objects@[k].x as int, objects@[k].y as int));
                }
            }
            assert forall|k: int| 1 <= k < objects@.len() implies in_some_room(
                rooms,
                (#[trigger] objects@[k]).x as int,
                objects@[k].y as int,
            ) && is_spawned(objects@[k]) by {
                if k >= before.len() {
                    assert(in_interior(rooms[j as int], objects@[k].x as int, objects@[k].y as int));
                }
            }
            assert forall|k: int| 0 <= k < objects@.len() implies map.passable((#[trigger] objects@[k]).x as int, objects@[k].y as int) by {
                if k >= before.len() {
                    assert(!crate::dungeon::blocked_at(map, objects@.take(k), objects@[k].x as int, objects@[k].y as int));
                } else if k == 0 {
                    assert(objects@[0] == before[0]);
                } else {
                    assert(objects@[k] == before[k]);
                }
            }
            assert forall|a: int, b: int|
                0 <= a < b < objects@.len() && (#[trigger] objects@[a]).blocks && (#[trigger] objects@[b]).blocks implies objects@[a].x
                    != objects@[b].x || objects@[a].y != objects@[b].y by {
                if b >= before.len() {
                    let pre = objects@.take(b);
                    assert(pre[a] == objects@[a]);
                    if objects@[a].x == objects@[b].x && objects@[a].y == objects@[b].y {
                        assert(crate::dungeon::occupied(pre, objects@[b].x as int, objects@[b].y as int));
                        assert(!crate::dungeon::blocked_at(map, pre, objects@[b].x as int, objects@[b].y as int));
                    }
                } else {
                    assert(objects@[a] == before[a] && objects@[b] == before[b]);
                    if j == 0 {
                        assert(before.len() == 1);
                    }
                }
            }
            assert forall|r: int| 0 <= r < j implies room_populated(map, #[trigger] rooms[r], objects@, starts[r], starts[r + 1], level as int) by {
                lemma_populated_extend(map, rooms[r], before, objects@, starts[r], starts[r + 1], level as int);
            }
            let old_starts = starts;
            starts = starts.push(objects@.len() as int);
            assert forall|r: int| 0 <= r < j + 1 implies room_populated(
                map,
                #[trigger] rooms[r],
                objects@,
                starts[r],
                starts[r + 1],
                level as int,
            ) by {
                assert(starts[r] == old_starts[r]);
                if r < j {
                    assert(starts[r + 1] == old_starts[r + 1]);
                    assert(room_populated(map, rooms[r], objects@, old_starts[r], old_starts[r + 1], level as int));
                } else {
                    assert(starts[r] == before.len());
                    assert(starts[r + 1] == objects@.len());
                    assert(room_populated(map, room, objects@, before.len() as int, objects@.len() as int, level as int));
                }
            }
            assert forall|r: int| 0 <= r <= j + 1 implies 1 <= #[trigger] starts[r] <= objects@.len() by {
                if r <= j {
                    assert(starts[r] == old_starts[r]);
                }
            }
        }
        j = j + 1;
    }
    let (last_x, last_y) = kept[kept.len() - 1].0.center();
    let mut stairs = Object::new(last_x, last_y, '<', "stairs", Color::White, false);
    stairs.always_visible = true;
    let ghost before = objects@;
    objects.push(stairs);
    proof {
        assert forall|k: int| 0 <= k < before.len() implies #[trigger] objects@[k] == before[k] by {}
        assert forall|k: int| 1 <= k < objects@.len() - 1 implies in_some_room(
            rooms,
            (#[trigger] objects@[k]).x as int,
            objects@[k].y as int,
        ) by {
            assert(objects@[k] == before[k]);
        }
        assert forall|k: int| 1 <= k < objects@.len() - 1 implies is_spawned(#[trigger] objects@[k]) by {
            assert(objects@[k] == before[k]);
        }
        assert(rooms.last() == kept@[kept@.len() - 1].0);
        lemma_center_inside(rooms.last());
        assert(room_open(map, rooms[rooms.len() - 1]));
        assert forall|k: int| 0 <= k < objects@.len() implies map.passable((#[trigger] objects@[k]).x as int, objects@[k].y as int) by {
            if k < before.len() {
                assert(objects@[k] == before[k]);
            }
        }
        assert forall|a: int, b: int|
            0 <= a < b < objects@.len() && (#[trigger] objects@[a]).blocks && (#[trigger] objects@[b]).blocks implies objects@[a].x
                != objects@[b].x || objects@[a].y != objects@[b].y by {
            assert(objects@[a] == before[a]);
            if b < before.len() {
                assert(objects@[b] == before[b]);
            }
        }
        assert forall|r: int| 0 <= r < rooms.len() implies room_populated(map, #[trigger] rooms[r], objects@, starts[r], starts[r + 1], level as int) by {
            lemma_populated_extend(map, rooms[r], before, objects@, starts[r], starts[r + 1], level as int);
        }
        assert(rooms_populated(map, rooms, objects@, starts, level as int));
        assert(level_generated(map, rooms, objects@, player, level as int));
        assert(carved_exactly(map, kept_rooms(candidates@)));
    }
    map
}

} // verus!
