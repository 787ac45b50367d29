use vstd::prelude::*;
use crate::constants::{MAP_HEIGHT, MAP_WIDTH};
use crate::geometry::Rect;
use crate::object::Object;
use crate::tiles::{floor_tile, in_bounds, DungeonMap, Tile, Visibility};

verus! {

/// Whether `(a, b)` lies strictly inside `r`, inside its walls.
pub open spec fn in_interior(r: Rect, a: int, b: int) -> bool {
    r.x1 < a < r.x2 && r.y1 < b < r.y2
}

pub open spec fn min_of(a: int, b: int) -> int {
    if a <= b { a } else { b }
}

pub open spec fn max_of(a: int, b: int) -> int {
    if a <= b { b } else { a }
}

/// Whether `(a, b)` is on the row `y` between the columns `x1` and `x2`.
pub open spec fn in_h_segment(x1: int, x2: int, y: int, a: int, b: int) -> bool {
    b == y && min_of(x1, x2) <= a <= max_of(x1, x2)
}

/// Whether `(a, b)` is on the column `x` between the rows `y1` and `y2`.
pub open spec fn in_v_segment(y1: int, y2: int, x: int, a: int, b: int) -> bool {
    a == x && min_of(y1, y2) <= b <= max_of(y1, y2)
}

/// `m2` is `m1` with the tiles of `region` made floor.
pub open spec fn carved_over(m2: DungeonMap, m1: DungeonMap, region: spec_fn(int, int) -> bool) -> bool {
    &&& m2.wf()
    &&& forall|a: int, b: int|
        in_bounds(a, b) ==> #[trigger] m2.at(a, b) == if region(a, b) {
            floor_tile()
        } else {
            m1.at(a, b)
        }
}

/// Makes the inside of `room` floor, leaving its boundary as it was.
pub fn create_room(room: Rect, map: &mut DungeonMap)
    requires
        old(map).wf(),
        0 <= room.x1 <= room.x2 <= MAP_WIDTH,
        0 <= room.y1 <= room.y2 <= MAP_HEIGHT,
    ensures
        carved_over(*final(map), *old(map), |a: int, b: int| in_interior(room, a, b)),
{
    let mut x: i32 = room.x1 + 1;
    while x < room.x2
        invariant
            map.wf(),
            room.x1 + 1 <= x,
            0 <= room.x1 <= room.x2 <= MAP_WIDTH,
            0 <= room.y1 <= room.y2 <= MAP_HEIGHT,
            x <= room.x2 || room.x1 + 1 >= room.x2,
            forall|a: int, b: int|
                in_bounds(a, b) ==> #[trigger] map.at(a, b) == if in_interior(room, a, b) && a
                    < x {
                    floor_tile()
                } else {
                    old(map).at(a, b)
                },
        decreases room.x2 - x,
    {
        let mut y: i32 = room.y1 + 1;
        while y < room.y2
            invariant
                map.wf(),
                room.x1 < x < room.x2,
                room.y1 + 1 <= y,
                y <= room.y2 || room.y1 + 1 >= room.y2,
                0 <= room.x1 <= room.x2 <= MAP_WIDTH,
                0 <= room.y1 <= room.y2 <= MAP_HEIGHT,
                forall|a: int, b: int|
                    in_bounds(a, b) ==> #[trigger] map.at(a, b) == if in_interior(room, a, b) && (a
                        < x || (a == x && b < y)) {
                        floor_tile()
                    } else {
                        old(map).at(a, b)
                    },
            decreases room.y2 - y,
        {
            map.set_tile(x, y, Tile::empty());
            y = y + 1;
        }
        x = x + 1;
    }
}

/// Makes floor of the row `y` from column `x1` to column `x2`, both included.
pub fn create_h_tunnel(x1: i32, x2: i32, y: i32, map: &mut DungeonMap)
    requires
        old(map).wf(),
        in_bounds(x1 as int, y as int),
        in_bounds(x2 as int, y as int),
    ensures
        carved_over(*final(map), *old(map), |a: int, b: int| in_h_segment(x1 as int, x2 as int, y as int, a, b)),
{
    let lo: i32 = if x1 <= x2 { x1 } else { x2 };
    let hi: i32 = if x1 <= x2 { x2 } else { x1 };
    let mut x: i32 = lo;
    while x <= hi
        invariant
            map.wf(),
            lo == min_of(x1 as int, x2 as int),
            hi == max_of(x1 as int, x2 as int),
            in_bounds(lo as int, y as int),
            in_bounds(hi as int, y as int),
            lo <= x <= hi + 1,
            forall|a: int, b: int|
                in_bounds(a, b) ==> #[trigger] map.at(a, b) == if b == y && lo <= a < x {
                    floor_tile()
                } else {
                    old(map).at(a, b)
                },
        decreases hi + 1 - x,
    {
        map.set_tile(x, y, Tile::empty());
        x = x + 1;
    }
}

/// Makes floor of the column `x` from row `y1` to row `y2`, both included.
pub fn create_v_tunnel(y1: i32, y2: i32, x: i32, map: &mut DungeonMap)
    requires
        old(map).wf(),
        in_bounds(x as int, y1 as int),
        in_bounds(x as int, y2 as int),
    ensures
        carved_over(*final(map), *old(map), |a: int, b: int| in_v_segment(y1 as int, y2 as int, x as int, a, b)),
{
    let lo: i32 = if y1 <= y2 { y1 } else { y2 };
    let hi: i32 = if y1 <= y2 { y2 } else { y1 };
    let mut y: i32 = lo;
    while y <= hi
        invariant
            map.wf(),
            lo == min_of(y1 as int, y2 as int),
            hi == max_of(y1 as int, y2 as int),
            in_bounds(x as int, lo as int),
            in_bounds(x as int, hi as int),
            lo <= y <= hi + 1,
            forall|a: int, b: int|
                in_bounds(a, b) ==> #[trigger] map.at(a, b) == if a == x && lo <= b < y {
                    floor_tile()
                } else {
                    old(map).at(a, b)
                },
        decreases hi + 1 - y,
    {
        map.set_tile(x, y, Tile::empty());
        y = y + 1;
    }
}

/// Whether a blocking entity of `objects` stands on `(x, y)`.
pub open spec fn occupied(objects: Seq<Object>, x: int, y: int) -> bool {
    exists|i: int|
        0 <= i < objects.len() && #[trigger] objects[i].blocks && objects[i].x == x && objects[i].y
            == y
}

/// Whether `(x, y)` cannot be entered: off the map, a blocking tile, or
/// taken by a blocking entity.
pub open spec fn blocked_at(map: DungeonMap, objects: Seq<Object>, x: int, y: int) -> bool {
    !map.passable(x, y) || occupied(objects, x, y)
}

/// Whether `(x, y)` cannot be entered; a place off the map counts as blocked.
pub fn is_blocked(x: i32, y: i32, map: &DungeonMap, objects: &[Object]) -> (r: bool)
    requires
        map.wf(),
    ensures
        r == blocked_at(*map, objects@, x as int, y as int),
{
    if !map.is_passable(x, y) {
        return true;
    }
    let mut i: usize = 0;
    while i < objects.len()
        invariant
            i <= objects@.len(),
            forall|j: int|
                0 <= j < i ==> !(#[trigger] objects@[j].blocks && objects@[j].x == x && objects@[j].y
                    == y),
        decreases objects@.len() - i,
    {
        if objects[i].blocks && objects[i].x == x && objects[i].y == y {
            return true;
        }
        i = i + 1;
    }
    false
}

/// What moving entity `id` of `o1` by `(dx, dy)` on `map` gives: the
/// entity steps there when the place can be entered, else nothing changes.
pub open spec fn move_outcome(map: DungeonMap, o1: Seq<Object>, o2: Seq<Object>, id: int, dx: int, dy: int) -> bool {
    let o = o1[id];
    let nx = o.x + dx;
    let ny = o.y + dy;
    if blocked_at(map, o1, nx, ny) {
        o2 == o1
    } else {
        o2 == o1.update(id, Object { x: nx as i32, y: ny as i32, ..o })
    }
}

/// Moves entity `id` by `(dx, dy)` when the destination can be entered;
/// otherwise nothing changes.
pub fn move_by(id: usize, dx: i32, dy: i32, map: &DungeonMap, objects: &mut Vec<Object>)
    requires
        map.wf(),
        id < old(objects)@.len(),
    ensures
        move_outcome(*map, old(objects)@, final(objects)@, id as int, dx as int, dy as int),
{
    let (x, y) = objects[id].pos();
    let nx: i64 = x as i64 + dx as i64;
    let ny: i64 = y as i64 + dy as i64;
    if nx < 0 || nx >= MAP_WIDTH as i64 || ny < 0 || ny >= MAP_HEIGHT as i64 {
        return;
    }
    if !is_blocked(nx as i32, ny as i32, map, objects.as_slice()) {
        objects[id].set_pos(nx as i32, ny as i32);
    }
}

/// The names of the entities among `objs` that stand on `(x, y)` and are
/// seen, in order.
pub open spec fn seen_names_at(objs: Seq<Object>, fov: Visibility, x: int, y: int) -> Seq<Seq<char>>
    decreases objs.len(),
{
    if objs.len() == 0 {
        Seq::empty()
    } else {
        let rest = seen_names_at(objs.drop_last(), fov, x, y);
        let o = objs.last();
        if o.x == x && o.y == y && fov.visible(o.x as int, o.y as int) {
            rest.push(o.name@)
        } else {
            rest
        }
    }
}

/// `names` joined into one text, separated by commas.
pub open spec fn comma_joined(names: Seq<Seq<char>>) -> Seq<char>
    decreases names.len(),
{
    if names.len() == 0 {
        Seq::empty()
    } else if names.len() == 1 {
        names[0]
    } else {
        comma_joined(names.drop_last()) + ", "@ + names.last()
    }
}

/// The names of the seen entities on the tile `(x, y)` the mouse points
/// at, separated by commas.
pub fn get_names_under_mouse(x: i32, y: i32, objects: &[Object], fov: &Visibility) -> (r: String)
    ensures
        r@ == comma_joined(seen_names_at(objects@, *fov, x as int, y as int)),
{
    let mut text = String::new();
    let mut count: usize = 0;
    let mut i: usize = 0;
    while i < objects.len()
        invariant
            i <= objects@.len(),
            count <= i,
            count == seen_names_at(objects@.take(i as int), *fov, x as int, y as int).len(),
            text@ == comma_joined(seen_names_at(objects@.take(i as int), *fov, x as int, y as int)),
        decreases objects@.len() - i,
    {
        assert(objects@.take(i + 1).drop_last() =~= objects@.take(i as int));
        let ghost rest = seen_names_at(objects@.take(i as int), *fov, x as int, y as int);
        let ghost before = text@;
        if objects[i].x == x && objects[i].y == y && fov.is_in_fov(objects[i].x, objects[i].y) {
            if count > 0 {
                text.append(", ");
            }
            text.append(objects[i].name.as_str());
            count = count + 1;
            proof {
                let n = objects@[i as int].name@;
                assert(rest.push(n).drop_last() =~= rest);
                if rest.len() == 0 {
                    assert(before =~= Seq::<char>::empty());
                    assert(text@ =~= n);
                }
            }
        }
        i = i + 1;
    }
    assert(objects@.take(objects@.len() as int) =~= objects@);
    text
}

} // verus!
