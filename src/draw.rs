use vstd::prelude::*;

use crate::geometry::{Point, Rect};

verus! {

/// What a drawn cell shows.
#[derive(Clone, Copy, Debug, PartialEq, Eq, Structural)]
pub enum Glyph {
    /// A top or bottom wall of a room.
    Wall,
    /// A left or right wall of a room.
    Side,
    /// A corridor cell.
    Floor,
}

impl Glyph {
    pub open spec fn spec_symbol(self) -> char {
        match self {
            Glyph::Wall => '-',
            Glyph::Side => '|',
            Glyph::Floor => '░',
        }
    }

    /// The character that stands for the glyph on a terminal.
    pub fn symbol(&self) -> (c: char)
        ensures
            c == self.spec_symbol(),
    {
        match self {
            Glyph::Wall => '-',
            Glyph::Side => '|',
            Glyph::Floor => '░',
        }
    }
}

/// One draw call: put `glyph` at column `x`, row `y`.
#[derive(Clone, Copy, Debug, PartialEq, Eq, Structural)]
pub struct Cell {
    pub x: u16,
    pub y: u16,
    pub glyph: Glyph,
}

/// The cells `from ..= to` of a straight line at fixed coordinate `at`: a row
/// when `horizontal`, else a column. Empty when `to < from`.
pub open spec fn run(horizontal: bool, from: int, to: int, at: int, g: Glyph) -> Seq<Cell> {
    Seq::new(
        if to >= from { (to - from + 1) as nat } else { 0 },
        |i: int|
            if horizontal {
                Cell { x: (from + i) as u16, y: at as u16, glyph: g }
            } else {
                Cell { x: at as u16, y: (from + i) as u16, glyph: g }
            },
    )
}

/// Appends the line `run(horizontal, from, to, at, g)` to `out`.
fn push_run(out: &mut Vec<Cell>, horizontal: bool, from: u16, to: u16, at: u16, g: Glyph)
    ensures
        final(out)@ == old(out)@ + run(horizontal, from as int, to as int, at as int, g),
{
    let ghost start = out@;
    let mut k: u32 = from as u32;
    if from > to {
        assert(run(horizontal, from as int, to as int, at as int, g) =~= Seq::<Cell>::empty());
        assert(out@ =~= start + Seq::<Cell>::empty());
        return;
    }
    assert(run(horizontal, from as int, from - 1, at as int, g) =~= Seq::<Cell>::empty());
    assert(out@ =~= start + Seq::<Cell>::empty());
    while k <= to as u32
        invariant
            from <= k <= to as int + 1,
            from <= to,
            out@ == start + run(horizontal, from as int, k - 1, at as int, g),
        decreases to as int + 1 - k,
    {
        let c = if horizontal {
            Cell { x: k as u16, y: at, glyph: g }
        } else {
            Cell { x: at, y: k as u16, glyph: g }
        };
        out.push(c);
        assert(run(horizontal, from as int, k as int, at as int, g) =~= run(
            horizontal,
            from as int,
            k - 1,
            at as int,
            g,
        ).push(c));
        k = k + 1;
    }
}

/// The border of a room, as drawn: top wall, bottom wall, then the left and the
/// right side between them.
pub open spec fn room_cells(r: Rect) -> Seq<Cell> {
    run(true, r.left as int, r.left + r.cols, r.top as int, Glyph::Wall)
        + run(true, r.left as int, r.left + r.cols, r.top + r.rows, Glyph::Wall)
        + run(false, r.top + 1, r.top + r.rows - 1, r.left as int, Glyph::Side)
        + run(false, r.top + 1, r.top + r.rows - 1, r.left + r.cols, Glyph::Side)
}

/// Appends the border of room `r` to `out`.
pub fn draw_room(out: &mut Vec<Cell>, r: Rect)
    requires
        r.wf(),
    ensures
        final(out)@ == old(out)@ + room_cells(r),
{
    let ghost start = out@;
    let right = r.left + r.cols;
    let bottom = r.top + r.rows;
    push_run(out, true, r.left, right, r.top, Glyph::Wall);
    push_run(out, true, r.left, right, bottom, Glyph::Wall);
    if r.rows >= 2 {
        push_run(out, false, r.top + 1, bottom - 1, r.left, Glyph::Side);
        push_run(out, false, r.top + 1, bottom - 1, right, Glyph::Side);
    } else {
        let ghost e = Seq::<Cell>::empty();
        assert(run(false, r.top + 1, r.top + r.rows - 1, r.left as int, Glyph::Side) =~= e);
        assert(run(false, r.top + 1, r.top + r.rows - 1, r.left + r.cols, Glyph::Side) =~= e);
        assert(out@ =~= out@ + e + e);
    }
    assert(out@ =~= start + room_cells(r));
}

/// A corridor of the split at line `mid`, vertical or not, between the doors
/// `from` and `to` of the split's two halves.
#[derive(Clone, Copy, Debug, PartialEq, Eq, Structural)]
pub struct Corridor {
    pub vertical: bool,
    pub mid: u16,
    pub from: Point,
    pub to: Point,
}

pub open spec fn min(a: int, b: int) -> int {
    if a <= b { a } else { b }
}

pub open spec fn max(a: int, b: int) -> int {
    if a <= b { b } else { a }
}

/// The cells of a corridor, in order: from the first door straight to the split
/// line, from the split line straight to the second door, and along the split
/// line between the two.
pub open spec fn corridor_cells(c: Corridor) -> Seq<Cell> {
    let (fx, fy) = (c.from.x as int, c.from.y as int);
    let (tx, ty) = (c.to.x as int, c.to.y as int);
    let m = c.mid as int;
    if c.vertical {
        run(true, fx, m, fy, Glyph::Floor) + run(true, m, tx, ty, Glyph::Floor) + run(
            false,
            min(fy, ty),
            max(fy, ty),
            m,
            Glyph::Floor,
        )
    } else {
        run(false, fy, m, fx, Glyph::Floor) + run(false, m, ty, tx, Glyph::Floor) + run(
            true,
            min(fx, tx),
            max(fx, tx),
            m,
            Glyph::Floor,
        )
    }
}

/// Appends the cells of corridor `c` to `out`. The run along the split line
/// covers every coordinate between the two doors, whichever is larger.
pub fn draw_corridor(out: &mut Vec<Cell>, c: Corridor)
    ensures
        final(out)@ == old(out)@ + corridor_cells(c),
        c.vertical ==> forall|y: u16|
            min(c.from.y as int, c.to.y as int) <= y <= max(c.from.y as int, c.to.y as int)
                ==> #[trigger] final(out)@.contains(Cell { x: c.mid, y, glyph: Glyph::Floor }),
        !c.vertical ==> forall|x: u16|
            min(c.from.x as int, c.to.x as int) <= x <= max(c.from.x as int, c.to.x as int)
                ==> #[trigger] final(out)@.contains(Cell { x, y: c.mid, glyph: Glyph::Floor }),
{
    let ghost start = out@;
    let (fx, fy) = (c.from.x, c.from.y);
    let (tx, ty) = (c.to.x, c.to.y);
    if c.vertical {
        push_run(out, true, fx, c.mid, fy, Glyph::Floor);
        push_run(out, true, c.mid, tx, ty, Glyph::Floor);
        let ghost before = out@;
        let (s, t) = if fy <= ty { (fy, ty) } else { (ty, fy) };
        push_run(out, false, s, t, c.mid, Glyph::Floor);
        assert forall|y: u16| s <= y <= t implies #[trigger] out@.contains(
            Cell { x: c.mid, y, glyph: Glyph::Floor },
        ) by {
            assert(out@[before.len() + (y - s)] == Cell { x: c.mid, y, glyph: Glyph::Floor });
        }
    } else {
        push_run(out, false, fy, c.mid, fx, Glyph::Floor);
        push_run(out, false, c.mid, ty, tx, Glyph::Floor);
        let ghost before = out@;
        let (s, t) = if fx <= tx { (fx, tx) } else { (tx, fx) };
        push_run(out, true, s, t, c.mid, Glyph::Floor);
        assert forall|x: u16| s <= x <= t implies #[trigger] out@.contains(
            Cell { x, y: c.mid, glyph: Glyph::Floor },
        ) by {
            assert(out@[before.len() + (x - s)] == Cell { x, y: c.mid, glyph: Glyph::Floor });
        }
    }
    assert(out@ =~= start + corridor_cells(c));
}

} // verus!
