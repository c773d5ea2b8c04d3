use vstd::prelude::*;

use crate::draw::{max, min, Corridor};
use crate::geometry::{
    can_generate, child_split, children, extent, fits, halves, lemma_children_fit, split_high, split_low, Point, Pos,
    Rect, Split, MAX_DEPTH,
};
use crate::layout::{cells_inside, lemma_layout_inside, Dungeon};
use crate::random::{random_between, shuffle_splits};

verus! {

/// The number of leaves below a partition with `levels` levels to go.
pub open spec fn leaves(levels: nat) -> nat
    decreases levels,
{
    if levels == 0 {
        1
    } else {
        2 * leaves((levels - 1) as nat)
    }
}

proof fn lemma_leaves_positive(levels: nat)
    ensures
        leaves(levels) >= 1,
    decreases levels,
{
    if levels > 0 {
        lemma_leaves_positive((levels - 1) as nat);
    }
}

/// The smallest room extent for a partition extent `e`: seventy percent of it,
/// rounded up.
pub open spec fn room_low(e: int) -> int {
    (7 * e + 9) / 10
}

/// The wall of a room that holds its door.
#[derive(Clone, Copy, Debug, PartialEq, Eq, Structural)]
pub enum Wall {
    Top,
    Bottom,
    Left,
    Right,
}

/// A leaf's door faces the sibling it must be joined to.
pub open spec fn spec_door_wall(split: Split) -> Option<Wall> {
    match split {
        Split::Ver(Some(Pos::First)) => Some(Wall::Bottom),
        Split::Ver(Some(Pos::Last)) => Some(Wall::Top),
        Split::Hor(Some(Pos::First)) => Some(Wall::Right),
        Split::Hor(Some(Pos::Last)) => Some(Wall::Left),
        _ => None,
    }
}

/// `p` lies on wall `w` of `room`, corners excluded.
pub open spec fn on_wall(room: Rect, w: Wall, p: Point) -> bool {
    match w {
        Wall::Top => room.left < p.x < room.left + room.cols && p.y == room.top,
        Wall::Bottom => room.left < p.x < room.left + room.cols && p.y == room.top + room.rows,
        Wall::Left => room.top < p.y < room.top + room.rows && p.x == room.left,
        Wall::Right => room.top < p.y < room.top + room.rows && p.x == room.left + room.cols,
    }
}

impl Corridor {
    /// Both doors and the split line lie inside `r`.
    pub open spec fn within(self, r: Rect) -> bool {
        &&& r.contains_point(self.from.x as int, self.from.y as int)
        &&& r.contains_point(self.to.x as int, self.to.y as int)
        &&& self.vertical ==> r.left <= self.mid <= r.left + r.cols
        &&& !self.vertical ==> r.top <= self.mid <= r.top + r.rows
    }
}

/// The door through which a split is reached: on the split line, halfway
/// (rounded down) between the two doors that its corridor joins.
pub open spec fn entrance(c: Corridor) -> Point {
    if c.vertical {
        let (lo, hi) = (min(c.from.y as int, c.to.y as int), max(c.from.y as int, c.to.y as int));
        Point { x: c.mid, y: (lo + (hi - lo) / 2) as u16 }
    } else {
        let (lo, hi) = (min(c.from.x as int, c.to.x as int), max(c.from.x as int, c.to.x as int));
        Point { x: (lo + (hi - lo) / 2) as u16, y: c.mid }
    }
}

/// Computes `entrance(c)`.
pub fn merge_doors(c: &Corridor) -> (p: Point)
    ensures
        p == entrance(*c),
{
    let (lo, hi) = if c.vertical {
        if c.from.y <= c.to.y { (c.from.y, c.to.y) } else { (c.to.y, c.from.y) }
    } else {
        if c.from.x <= c.to.x { (c.from.x, c.to.x) } else { (c.to.x, c.from.x) }
    };
    let centre = lo + (hi - lo) / 2;
    if c.vertical {
        Point { x: c.mid, y: centre }
    } else {
        Point { x: centre, y: c.mid }
    }
}

/// The wall that holds the door of a leaf reached through `split`; none for
/// a split without a side.
pub fn door_wall(split: Split) -> (w: Option<Wall>)
    ensures
        w == spec_door_wall(split),
{
    match split {
        Split::Ver(Some(Pos::First)) => Some(Wall::Bottom),
        Split::Ver(Some(Pos::Last)) => Some(Wall::Top),
        Split::Hor(Some(Pos::First)) => Some(Wall::Right),
        Split::Hor(Some(Pos::Last)) => Some(Wall::Left),
        _ => None,
    }
}

/// Draws a split offset for an extent of `size` cells: half of it, jittered
/// by up to fifteen percent either way, rounded down.
pub fn pick_split(rng: &mut rand::rngs::StdRng, size: u16) -> (sp: u16)
    ensures
        split_low(size as int) <= sp <= split_high(size as int),
{
    let lo = (35 * size as u32 / 100) as u16;
    let hi = (65 * size as u32 / 100) as u16;
    random_between(rng, lo, hi)
}

/// Draws a room inside partition `r`: each extent between seventy percent of
/// the partition's, rounded up, and all of it, placed anywhere in the slack.
pub fn pick_room(rng: &mut rand::rngs::StdRng, r: Rect) -> (room: Rect)
    requires
        r.wf(),
    ensures
        room_low(r.cols as int) <= room.cols <= r.cols,
        room_low(r.rows as int) <= room.rows <= r.rows,
        r.contains_rect(room),
        room.wf(),
{
    let min_cols = ((7 * r.cols as u32 + 9) / 10) as u16;
    let min_rows = ((7 * r.rows as u32 + 9) / 10) as u16;
    let cols = random_between(rng, min_cols, r.cols);
    let rows = random_between(rng, min_rows, r.rows);
    let left = random_between(rng, r.left, r.left + (r.cols - cols));
    let top = random_between(rng, r.top, r.top + (r.rows - rows));
    Rect { left, top, cols, rows }
}

/// Draws a door on wall `w` of `room`, away from the corners.
pub fn place_door(rng: &mut rand::rngs::StdRng, room: Rect, w: Wall) -> (p: Point)
    requires
        room.wf(),
        (w == Wall::Top || w == Wall::Bottom) ==> room.cols >= 2,
        (w == Wall::Left || w == Wall::Right) ==> room.rows >= 2,
    ensures
        on_wall(room, w, p),
{
    match w {
        Wall::Top | Wall::Bottom => {
            let x = random_between(rng, room.left + 1, room.left + room.cols - 1);
            let y = if w == Wall::Top { room.top } else { room.top + room.rows };
            Point { x, y }
        },
        Wall::Left | Wall::Right => {
            let y = random_between(rng, room.top + 1, room.top + room.rows - 1);
            let x = if w == Wall::Left { room.left } else { room.left + room.cols };
            Point { x, y }
        },
    }
}

/// `rooms`, `corridors` and `door` are what generation of partition `r` at
/// `depth` along `split` can produce. At the deepest level: one room of at
/// least seventy percent of each extent inside `r`, no corridor, and the door
/// on the wall that `split` selects. Above it: the first half's rooms and
/// corridors, then the second half's, then one corridor along the split line,
/// at an offset in the jitter range, that joins the doors of the two halves;
/// the door is that corridor's entrance.
#[verifier::opaque]
pub open spec fn generated(
    split: Split,
    r: Rect,
    depth: int,
    rooms: Seq<Rect>,
    corridors: Seq<Corridor>,
    door: Point,
) -> bool
    decreases MAX_DEPTH - depth,
{
    if depth >= MAX_DEPTH {
        &&& rooms.len() == 1
        &&& corridors.len() == 0
        &&& room_low(r.cols as int) <= rooms[0].cols <= r.cols
        &&& room_low(r.rows as int) <= rooms[0].rows <= r.rows
        &&& r.contains_rect(rooms[0])
        &&& spec_door_wall(split) is Some
        &&& on_wall(rooms[0], spec_door_wall(split).unwrap(), door)
    } else {
        let n = leaves((MAX_DEPTH - depth - 1) as nat) as int;
        let c = corridors.last();
        let v = split.is_ver();
        let sp = c.mid - (if v { r.left } else { r.top });
        &&& rooms.len() == 2 * n
        &&& corridors.len() == 2 * n - 1
        &&& c.vertical == v
        &&& split_low(extent(r, v)) <= sp <= split_high(extent(r, v))
        &&& generated(
            child_split(split, Pos::First),
            halves(r, v, sp).0,
            depth + 1,
            rooms.subrange(0, n),
            corridors.subrange(0, n - 1),
            c.from,
        )
        &&& generated(
            child_split(split, Pos::Last),
            halves(r, v, sp).1,
            depth + 1,
            rooms.subrange(n, 2 * n),
            corridors.subrange(n - 1, 2 * n - 2),
            c.to,
        )
        &&& door == entrance(c)
    }
}

/// Two halves generated side by side, followed by the corridor that joins
/// their doors along the split line, make a generated partition.
proof fn lemma_generated_step(
    split: Split,
    r: Rect,
    depth: int,
    sp: int,
    rooms1: Seq<Rect>,
    rooms2: Seq<Rect>,
    corrs1: Seq<Corridor>,
    corrs2: Seq<Corridor>,
    c: Corridor,
)
    requires
        0 <= depth < MAX_DEPTH,
        c.vertical == split.is_ver(),
        c.mid == (if split.is_ver() { r.left } else { r.top }) + sp,
        split_low(extent(r, split.is_ver())) <= sp <= split_high(extent(r, split.is_ver())),
        rooms1.len() == leaves((MAX_DEPTH - depth - 1) as nat),
        rooms2.len() == leaves((MAX_DEPTH - depth - 1) as nat),
        corrs1.len() + 1 == leaves((MAX_DEPTH - depth - 1) as nat),
        corrs2.len() + 1 == leaves((MAX_DEPTH - depth - 1) as nat),
        generated(child_split(split, Pos::First), halves(r, split.is_ver(), sp).0, depth + 1, rooms1, corrs1, c.from),
        generated(child_split(split, Pos::Last), halves(r, split.is_ver(), sp).1, depth + 1, rooms2, corrs2, c.to),
    ensures
        generated(split, r, depth, rooms1 + rooms2, (corrs1 + corrs2).push(c), entrance(c)),
{
    reveal(generated);
    let n = leaves((MAX_DEPTH - depth - 1) as nat) as int;
    let rooms = rooms1 + rooms2;
    let corridors = (corrs1 + corrs2).push(c);
    assert(rooms.subrange(0, n) =~= rooms1);
    assert(rooms.subrange(n, 2 * n) =~= rooms2);
    assert(corridors.subrange(0, n - 1) =~= corrs1);
    assert(corridors.subrange(n - 1, 2 * n - 2) =~= corrs2);
    assert(corridors.last() == c);
}

/// Whether the leaves below a partition at `depth` along `split` are split
/// vertically: orientation flips at each of the levels still to come.
pub open spec fn leaf_is_ver(split: Split, depth: int) -> bool {
    if (MAX_DEPTH - depth) % 2 == 0 {
        split.is_ver()
    } else {
        !split.is_ver()
    }
}

/// `p` is a door of `room` on a top or bottom wall when `ver`, on a left or
/// right wall otherwise.
pub open spec fn opens(room: Rect, p: Point, ver: bool) -> bool {
    if ver {
        on_wall(room, Wall::Top, p) || on_wall(room, Wall::Bottom, p)
    } else {
        on_wall(room, Wall::Left, p) || on_wall(room, Wall::Right, p)
    }
}

/// Every room of a generated partition has its door on the walls that the
/// leaves' orientation selects; that door is the partition's own door at the
/// deepest level, and an end of one of its corridors above it.
pub proof fn lemma_leaf_doors(
    split: Split,
    r: Rect,
    depth: int,
    rooms: Seq<Rect>,
    corridors: Seq<Corridor>,
    door: Point,
)
    requires
        0 <= depth <= MAX_DEPTH,
        generated(split, r, depth, rooms, corridors, door),
    ensures
        forall|i: int|
            0 <= i < rooms.len() ==> {
                ||| depth == MAX_DEPTH && opens(#[trigger] rooms[i], door, leaf_is_ver(split, depth))
                ||| exists|j: int|
                    0 <= j < corridors.len() && (opens(rooms[i], corridors[j].from, leaf_is_ver(split, depth))
                        || opens(rooms[i], corridors[j].to, leaf_is_ver(split, depth)))
            },
    decreases MAX_DEPTH - depth,
{
    reveal(generated);
    if depth < MAX_DEPTH {
        let n = leaves((MAX_DEPTH - depth - 1) as nat) as int;
        let c = corridors.last();
        let v = split.is_ver();
        let sp = c.mid - (if v { r.left } else { r.top });
        let lv = leaf_is_ver(split, depth);
        let s1 = child_split(split, Pos::First);
        let s2 = child_split(split, Pos::Last);
        let r1 = rooms.subrange(0, n);
        let r2 = rooms.subrange(n, 2 * n);
        let c1 = corridors.subrange(0, n - 1);
        let c2 = corridors.subrange(n - 1, 2 * n - 2);
        lemma_leaf_doors(s1, halves(r, v, sp).0, depth + 1, r1, c1, c.from);
        lemma_leaf_doors(s2, halves(r, v, sp).1, depth + 1, r2, c2, c.to);
        assert(leaf_is_ver(s1, depth + 1) == lv && leaf_is_ver(s2, depth + 1) == lv) by {
            assert((MAX_DEPTH - depth) % 2 == 0 <==> (MAX_DEPTH - (depth + 1)) % 2 != 0);
        }
        let last = corridors.len() - 1;
        assert forall|i: int| 0 <= i < rooms.len() implies {
            ||| depth == MAX_DEPTH && opens(#[trigger] rooms[i], door, lv)
            ||| exists|j: int|
                0 <= j < corridors.len() && (opens(rooms[i], corridors[j].from, lv)
                    || opens(rooms[i], corridors[j].to, lv))
        } by {
            if i < n {
                assert(rooms[i] == r1[i]);
                if depth + 1 == MAX_DEPTH && opens(r1[i], c.from, lv) {
                    assert(corridors[last] == c);
                } else {
                    let j = choose|j: int|
                        0 <= j < c1.len() && (opens(r1[i], c1[j].from, lv) || opens(r1[i], c1[j].to, lv));
                    assert(corridors[j] == c1[j]);
                }
            } else {
                assert(rooms[i] == r2[i - n]);
                if depth + 1 == MAX_DEPTH && opens(r2[i - n], c.to, lv) {
                    assert(corridors[last] == c);
                } else {
                    let j = choose|j: int|
                        0 <= j < c2.len() && (opens(r2[i - n], c2[j].from, lv) || opens(r2[i - n], c2[j].to, lv));
                    assert(corridors[j + n - 1] == c2[j]);
                }
            }
        }
    }
}

/// Generates the partition `r` at `depth` along `split`: at the deepest level
/// a room with its door, otherwise two halves of the opposite orientation
/// joined by a corridor. Appends what it generates to `d` and returns the door
/// through which the partition is reached; it lies inside `r`.
pub fn generate(rng: &mut rand::rngs::StdRng, d: &mut Dungeon, split: Split, r: Rect, depth: u16) -> (door: Point)
    requires
        fits(split, r, depth as int),
    ensures
        r.contains_point(door.x as int, door.y as int),
        generated(
            split,
            r,
            depth as int,
            final(d).rooms@.subrange(old(d).rooms@.len() as int, final(d).rooms@.len() as int),
            final(d).corridors@.subrange(
                old(d).corridors@.len() as int,
                final(d).corridors@.len() as int,
            ),
            door,
        ),
        final(d).rooms@.len() == old(d).rooms@.len() + leaves((MAX_DEPTH - depth) as nat),
        final(d).rooms@.subrange(0, old(d).rooms@.len() as int) == old(d).rooms@,
        forall|i: int|
            old(d).rooms@.len() <= i < final(d).rooms@.len() ==> #[trigger] r.contains_rect(
                final(d).rooms@[i],
            ) && final(d).rooms@[i].wf(),
        final(d).corridors@.len() + 1 == old(d).corridors@.len() + leaves(
            (MAX_DEPTH - depth) as nat,
        ),
        final(d).corridors@.subrange(0, old(d).corridors@.len() as int) == old(d).corridors@,
        forall|i: int|
            old(d).corridors@.len() <= i < final(d).corridors@.len() ==> #[trigger] final(d).corridors@[i].within(r),
    decreases MAX_DEPTH - depth,
{
    if depth == MAX_DEPTH {
        let room = pick_room(rng, r);
        d.rooms.push(room);
        let w = match door_wall(split) {
            Some(w) => w,
            None => { proof { assert(false); } Wall::Top },
        };
        proof {
            assert(d.rooms@.subrange(0, old(d).rooms@.len() as int) =~= old(d).rooms@);
            assert(d.corridors@.subrange(0, old(d).corridors@.len() as int) =~= old(d).corridors@);
        }
        let p = place_door(rng, room, w);
        proof {
            reveal(generated);
            let len0 = old(d).rooms@.len() as int;
            assert(d.rooms@.subrange(len0, len0 + 1) =~= seq![room]);
            assert(d.corridors@.subrange(
                old(d).corridors@.len() as int,
                d.corridors@.len() as int,
            ) =~= Seq::<Corridor>::empty());
        }
        return p;
    }
    let ghost rooms0 = d.rooms@;
    let ghost corrs0 = d.corridors@;
    let v = split.vertical();
    let size = if v { r.cols } else { r.rows };
    let sp = pick_split(rng, size);
    proof {
        lemma_children_fit(split, r, depth as int, sp as int);
        lemma_leaves_positive((MAX_DEPTH - depth - 1) as nat);
    }
    let (first, second) = children(split, r, sp);
    let a = generate(rng, d, first.0, first.1, depth + 1);
    let ghost rooms1 = d.rooms@;
    let ghost corrs1 = d.corridors@;
    let b = generate(rng, d, second.0, second.1, depth + 1);
    let ghost corrs2 = d.corridors@;
    let mid = if v { r.left + sp } else { r.top + sp };
    let c = Corridor { vertical: v, mid, from: a, to: b };
    d.corridors.push(c);
    proof {
        let (h0, h1) = halves(r, v, sp as int);
        assert(rooms1.subrange(0, rooms0.len() as int) == rooms0);
        assert(d.rooms@.subrange(0, rooms1.len() as int) == rooms1);
        assert(d.rooms@.subrange(0, rooms0.len() as int) =~= rooms0) by {
            assert(d.rooms@.subrange(0, rooms0.len() as int) =~= d.rooms@.subrange(0, rooms1.len() as int).subrange(0, rooms0.len() as int));
        }
        assert forall|i: int| rooms0.len() <= i < d.rooms@.len() implies #[trigger] r.contains_rect(
            d.rooms@[i],
        ) && d.rooms@[i].wf() by {
            if i < rooms1.len() {
                assert(d.rooms@[i] == d.rooms@.subrange(0, rooms1.len() as int)[i]);
                assert(h0.contains_rect(rooms1[i]));
            } else {
                assert(h1.contains_rect(d.rooms@[i]));
            }
        }
        let before_push = d.corridors@.drop_last();
        assert(d.corridors@.subrange(0, corrs0.len() as int) =~= corrs0) by {
            assert(d.corridors@.subrange(0, corrs0.len() as int) =~= before_push.subrange(0, corrs1.len() as int).subrange(0, corrs0.len() as int));
        }
        assert forall|i: int| corrs0.len() <= i < d.corridors@.len() implies #[trigger] d.corridors@[i].within(r) by {
            if i < corrs1.len() {
                assert(d.corridors@[i] == before_push.subrange(0, corrs1.len() as int)[i]);
                assert(corrs1[i].within(h0));
            } else if i < before_push.len() {
                assert(before_push[i].within(h1));
            }
        }
    }
    proof {
        let (len0, len1) = (rooms0.len() as int, rooms1.len() as int);
        let (lc0, lc1) = (corrs0.len() as int, corrs1.len() as int);
        let before_push = d.corridors@.drop_last();
        let first_rooms = rooms1.subrange(len0, len1);
        let second_rooms = d.rooms@.subrange(len1, d.rooms@.len() as int);
        let first_corrs = corrs1.subrange(lc0, lc1);
        assert(before_push =~= corrs2);
        let second_corrs = corrs2.subrange(lc1, corrs2.len() as int);
        assert(d.rooms@.subrange(len0, d.rooms@.len() as int) =~= first_rooms + second_rooms) by {
            assert forall|i: int| len0 <= i < len1 implies d.rooms@[i] == rooms1[i] by {
                assert(d.rooms@.subrange(0, len1)[i] == d.rooms@[i]);
            }
        }
        assert(d.corridors@.subrange(lc0, d.corridors@.len() as int) =~= (first_corrs
            + second_corrs).push(c)) by {
            assert forall|i: int| lc0 <= i < lc1 implies before_push[i] == corrs1[i] by {
                assert(before_push.subrange(0, lc1)[i] == before_push[i]);
            }
        }
        lemma_generated_step(split, r, depth as int, sp as int, first_rooms, second_rooms, first_corrs, second_corrs, c);
    }
    merge_doors(&c)
}

/// The region of a canvas of `cols` by `rows` cells, whose last column and row
/// are `cols - 1` and `rows - 1`.
pub open spec fn canvas(cols: u16, rows: u16) -> Rect {
    Rect { left: 0, top: 0, cols: (cols - 1) as u16, rows: (rows - 1) as u16 }
}

/// Draws the orientation of the root split: vertical or horizontal, without a
/// side.
pub fn pick_orientation(rng: &mut rand::rngs::StdRng) -> (s: Split)
    ensures
        s == Split::Ver(None) || s == Split::Hor(None),
{
    let mut v: Vec<Split> = Vec::new();
    v.push(Split::Ver(None));
    v.push(Split::Hor(None));
    let ghost before = v@;
    shuffle_splits(rng, &mut v);
    proof {
        before.to_multiset_ensures();
        v@.to_multiset_ensures();
        assert(v@.contains(v@[0]));
        assert(v@.to_multiset().count(v@[0]) > 0);
        assert(before.to_multiset().count(v@[0]) > 0);
        assert(before.contains(v@[0]));
        let k = choose|k: int| 0 <= k < before.len() && before[k] == v@[0];
        assert(k == 0 || k == 1);
    }
    v[0]
}

/// Generates a whole layout on a canvas of `cols` by `rows` cells with root
/// orientation `root`. Gives none when the canvas is empty or too small for
/// every split and door to find room. Otherwise the layout has one room per
/// leaf and one corridor per split, and every draw call lies on the canvas.
pub fn generate_dungeon(rng: &mut rand::rngs::StdRng, root: Split, cols: u16, rows: u16) -> (res: Option<Dungeon>)
    ensures
        res is None <==> (cols == 0 || rows == 0 || !fits(root, canvas(cols, rows), 0)),
        res matches Some(d) ==> {
            &&& d.wf()
            &&& d.rooms@.len() == leaves(MAX_DEPTH as nat) == 16
            &&& d.corridors@.len() == 15
            &&& cells_inside(d.cells(), canvas(cols, rows))
            &&& exists|door: Point| generated(root, canvas(cols, rows), 0, d.rooms@, d.corridors@, door)
        },
{
    if cols == 0 || rows == 0 {
        return None;
    }
    let r = Rect { left: 0, top: 0, cols: cols - 1, rows: rows - 1 };
    if !can_generate(root, r, 0) {
        return None;
    }
    let mut d = Dungeon::new();
    let door = generate(rng, &mut d, root, r, 0);
    proof {
        assert(d.rooms@.subrange(0, d.rooms@.len() as int) =~= d.rooms@);
        assert(d.corridors@.subrange(0, d.corridors@.len() as int) =~= d.corridors@);
        assert(generated(root, r, 0, d.rooms@, d.corridors@, door));
        reveal_with_fuel(leaves, 5);
        assert(d.rooms@.len() == leaves(MAX_DEPTH as nat));
        assert forall|i: int| 0 <= i < d.rooms@.len() implies #[trigger] d.rooms@[i].wf() by {
            assert(r.contains_rect(d.rooms@[i]));
        }
        lemma_layout_inside(d.rooms@, d.corridors@, r);
        assert(cells_inside(d.cells(), canvas(cols, rows)));
    }
    Some(d)
}

} // verus!
