use vstd::prelude::*;

use crate::draw::{Cell, Corridor, corridor_cells, draw_corridor, draw_room, room_cells, run, Glyph};
use crate::geometry::Rect;

verus! {

/// The rooms and corridors of one generated layout, in the order generated.
pub struct Dungeon {
    pub rooms: Vec<Rect>,
    pub corridors: Vec<Corridor>,
}

/// The borders of the rooms `s`, one after another.
pub open spec fn rooms_cells(s: Seq<Rect>) -> Seq<Cell>
    decreases s.len(),
{
    if s.len() == 0 {
        Seq::empty()
    } else {
        rooms_cells(s.drop_last()) + room_cells(s.last())
    }
}

/// The cells of the corridors `s`, one after another.
pub open spec fn corridors_cells(s: Seq<Corridor>) -> Seq<Cell>
    decreases s.len(),
{
    if s.len() == 0 {
        Seq::empty()
    } else {
        corridors_cells(s.drop_last()) + corridor_cells(s.last())
    }
}

/// Every cell of `s` lies inside `r`.
pub open spec fn cells_inside(s: Seq<Cell>, r: Rect) -> bool {
    forall|i: int| 0 <= i < s.len() ==> #[trigger] r.contains_point(s[i].x as int, s[i].y as int)
}

impl Dungeon {
    pub open spec fn wf(&self) -> bool {
        forall|i: int| 0 <= i < self.rooms@.len() ==> #[trigger] self.rooms@[i].wf()
    }

    /// The draw calls of the layout: every room border, then every corridor.
    pub open spec fn cells(&self) -> Seq<Cell> {
        rooms_cells(self.rooms@) + corridors_cells(self.corridors@)
    }

    /// A layout with nothing in it.
    pub fn new() -> (d: Dungeon)
        ensures
            d.rooms@.len() == 0,
            d.corridors@.len() == 0,
    {
        Dungeon { rooms: Vec::new(), corridors: Vec::new() }
    }

    /// The draw calls of the layout, in order.
    pub fn draw_calls(&self) -> (out: Vec<Cell>)
        requires
            self.wf(),
        ensures
            out@ == self.cells(),
    {
        let mut out: Vec<Cell> = Vec::new();
        let mut i: usize = 0;
        assert(self.rooms@.subrange(0, 0) =~= Seq::<Rect>::empty());
        while i < self.rooms.len()
            invariant
                self.wf(),
                i <= self.rooms@.len(),
                out@ == rooms_cells(self.rooms@.subrange(0, i as int)),
            decreases self.rooms@.len() - i,
        {
            let ghost prev = self.rooms@.subrange(0, i as int);
            draw_room(&mut out, self.rooms[i]);
            assert(self.rooms@.subrange(0, i + 1).drop_last() =~= prev);
            i = i + 1;
        }
        assert(self.rooms@.subrange(0, i as int) =~= self.rooms@);
        let ghost rooms_part = out@;
        let mut j: usize = 0;
        assert(self.corridors@.subrange(0, 0) =~= Seq::<Corridor>::empty());
        assert(out@ =~= rooms_part + corridors_cells(self.corridors@.subrange(0, 0)));
        while j < self.corridors.len()
            invariant
                j <= self.corridors@.len(),
                out@ == rooms_part + corridors_cells(self.corridors@.subrange(0, j as int)),
            decreases self.corridors@.len() - j,
        {
            let ghost prev = self.corridors@.subrange(0, j as int);
            draw_corridor(&mut out, self.corridors[j]);
            assert(self.corridors@.subrange(0, j + 1).drop_last() =~= prev);
            assert(out@ =~= rooms_part + corridors_cells(self.corridors@.subrange(0, j + 1)));
            j = j + 1;
        }
        assert(self.corridors@.subrange(0, j as int) =~= self.corridors@);
        out
    }
}

proof fn lemma_run_inside(horizontal: bool, from: int, to: int, at: int, g: Glyph, r: Rect)
    requires
        horizontal ==> r.left <= from && to <= r.left + r.cols && r.top <= at <= r.top + r.rows,
        !horizontal ==> r.top <= from && to <= r.top + r.rows && r.left <= at <= r.left + r.cols,
        r.wf(),
    ensures
        cells_inside(run(horizontal, from, to, at, g), r),
{
}

proof fn lemma_concat_inside(a: Seq<Cell>, b: Seq<Cell>, r: Rect)
    requires
        cells_inside(a, r),
        cells_inside(b, r),
    ensures
        cells_inside(a + b, r),
{
    assert forall|i: int| 0 <= i < (a + b).len() implies #[trigger] r.contains_point(
        (a + b)[i].x as int,
        (a + b)[i].y as int,
    ) by {
        if i >= a.len() {
            assert((a + b)[i] == b[i - a.len()]);
        }
    }
}

/// A room inside `r` is drawn inside `r`.
pub proof fn lemma_room_inside(room: Rect, r: Rect)
    requires
        r.wf(),
        r.contains_rect(room),
    ensures
        cells_inside(room_cells(room), r),
{
    let (l, t, c, h) = (room.left as int, room.top as int, room.cols as int, room.rows as int);
    let a = run(true, l, l + c, t, Glyph::Wall);
    let b = run(true, l, l + c, t + h, Glyph::Wall);
    let s1 = run(false, t + 1, t + h - 1, l, Glyph::Side);
    let s2 = run(false, t + 1, t + h - 1, l + c, Glyph::Side);
    lemma_run_inside(true, l, l + c, t, Glyph::Wall, r);
    lemma_run_inside(true, l, l + c, t + h, Glyph::Wall, r);
    lemma_run_inside(false, t + 1, t + h - 1, l, Glyph::Side, r);
    lemma_run_inside(false, t + 1, t + h - 1, l + c, Glyph::Side, r);
    lemma_concat_inside(a, b, r);
    lemma_concat_inside(a + b, s1, r);
    lemma_concat_inside(a + b + s1, s2, r);
}

/// A corridor whose doors and split line lie inside `r` is drawn inside `r`.
pub proof fn lemma_corridor_inside(c: Corridor, r: Rect)
    requires
        r.wf(),
        c.within(r),
    ensures
        cells_inside(corridor_cells(c), r),
{
    let (fx, fy) = (c.from.x as int, c.from.y as int);
    let (tx, ty) = (c.to.x as int, c.to.y as int);
    let m = c.mid as int;
    if c.vertical {
        lemma_run_inside(true, fx, m, fy, Glyph::Floor, r);
        lemma_run_inside(true, m, tx, ty, Glyph::Floor, r);
        lemma_run_inside(false, crate::draw::min(fy, ty), crate::draw::max(fy, ty), m, Glyph::Floor, r);
        lemma_concat_inside(run(true, fx, m, fy, Glyph::Floor), run(true, m, tx, ty, Glyph::Floor), r);
        lemma_concat_inside(
            run(true, fx, m, fy, Glyph::Floor) + run(true, m, tx, ty, Glyph::Floor),
            run(false, crate::draw::min(fy, ty), crate::draw::max(fy, ty), m, Glyph::Floor),
            r,
        );
    } else {
        lemma_run_inside(false, fy, m, fx, Glyph::Floor, r);
        lemma_run_inside(false, m, ty, tx, Glyph::Floor, r);
        lemma_run_inside(true, crate::draw::min(fx, tx), crate::draw::max(fx, tx), m, Glyph::Floor, r);
        lemma_concat_inside(run(false, fy, m, fx, Glyph::Floor), run(false, m, ty, tx, Glyph::Floor), r);
        lemma_concat_inside(
            run(false, fy, m, fx, Glyph::Floor) + run(false, m, ty, tx, Glyph::Floor),
            run(true, crate::draw::min(fx, tx), crate::draw::max(fx, tx), m, Glyph::Floor),
            r,
        );
    }
}

/// When every room lies inside `r` and every corridor keeps its doors and split
/// line inside `r`, no draw call of the layout falls outside `r`.
pub proof fn lemma_layout_inside(rooms: Seq<Rect>, corridors: Seq<Corridor>, r: Rect)
    requires
        r.wf(),
        forall|i: int| 0 <= i < rooms.len() ==> #[trigger] r.contains_rect(rooms[i]),
        forall|i: int| 0 <= i < corridors.len() ==> #[trigger] corridors[i].within(r),
    ensures
        cells_inside(rooms_cells(rooms) + corridors_cells(corridors), r),
    decreases rooms.len() + corridors.len(),
{
    if corridors.len() > 0 {
        let init = corridors.drop_last();
        assert forall|i: int| 0 <= i < init.len() implies #[trigger] init[i].within(r) by {
            assert(init[i] == corridors[i]);
        }
        lemma_layout_inside(rooms, init, r);
        assert(corridors[corridors.len() - 1].within(r));
        lemma_corridor_inside(corridors.last(), r);
        lemma_concat_inside(rooms_cells(rooms) + corridors_cells(init), corridor_cells(corridors.last()), r);
        assert(rooms_cells(rooms) + corridors_cells(corridors) =~= rooms_cells(rooms) + corridors_cells(init) + corridor_cells(corridors.last()));
    } else if rooms.len() > 0 {
        let init = rooms.drop_last();
        assert forall|i: int| 0 <= i < init.len() implies #[trigger] r.contains_rect(init[i]) by {
            assert(init[i] == rooms[i]);
        }
        lemma_layout_inside(init, corridors, r);
        assert(r.contains_rect(rooms[rooms.len() - 1]));
        lemma_room_inside(rooms.last(), r);
        assert(corridors_cells(corridors) =~= Seq::<Cell>::empty());
        assert(rooms_cells(init) + corridors_cells(corridors) =~= rooms_cells(init));
        lemma_concat_inside(rooms_cells(init), room_cells(rooms.last()), r);
        assert(rooms_cells(rooms) + corridors_cells(corridors) =~= rooms_cells(init) + room_cells(rooms.last()));
    } else {
        assert(rooms_cells(rooms) + corridors_cells(corridors) =~= Seq::<Cell>::empty());
    }
}

} // verus!
