use vstd::prelude::*;

verus! {

/// Depth at which partitions stop splitting and receive a room.
pub const MAX_DEPTH: u16 = 4;

/// Which side of its parent's split a partition occupies.
#[derive(Clone, Copy, Debug, PartialEq, Eq, Structural)]
pub enum Pos {
    First,
    Last,
}

/// The axis along which a partition is split, with the side of the parent's
/// split that the partition occupies (none for the root).
#[derive(Clone, Copy, Debug, PartialEq, Eq, Structural)]
pub enum Split {
    Ver(Option<Pos>),
    Hor(Option<Pos>),
}

/// A grid coordinate: column `x`, row `y`.
#[derive(Clone, Copy, Debug, PartialEq, Eq, Structural)]
pub struct Point {
    pub x: u16,
    pub y: u16,
}

/// An axis-aligned region of the grid: columns `left ..= left + cols` and rows
/// `top ..= top + rows`.
#[derive(Clone, Copy, Debug, PartialEq, Eq, Structural)]
pub struct Rect {
    pub left: u16,
    pub top: u16,
    pub cols: u16,
    pub rows: u16,
}

impl Rect {
    /// Every cell of the region has a coordinate that fits in a `u16`.
    pub open spec fn wf(self) -> bool {
        &&& self.left + self.cols <= u16::MAX
        &&& self.top + self.rows <= u16::MAX
    }

    pub open spec fn contains_point(self, x: int, y: int) -> bool {
        &&& self.left <= x <= self.left + self.cols
        &&& self.top <= y <= self.top + self.rows
    }

    pub open spec fn contains_rect(self, inner: Rect) -> bool {
        &&& self.left <= inner.left
        &&& inner.left + inner.cols <= self.left + self.cols
        &&& self.top <= inner.top
        &&& inner.top + inner.rows <= self.top + self.rows
    }
}

impl Split {
    pub open spec fn is_ver(self) -> bool {
        self is Ver
    }

    pub open spec fn pos(self) -> Option<Pos> {
        match self {
            Split::Ver(p) => p,
            Split::Hor(p) => p,
        }
    }

    /// Tells whether the split is vertical.
    pub fn vertical(&self) -> (r: bool)
        ensures
            r == self.is_ver(),
    {
        match self {
            Split::Ver(_) => true,
            Split::Hor(_) => false,
        }
    }
}

/// The split that a child on side `pos` of a split along `parent` receives:
/// always the other orientation.
pub open spec fn child_split(parent: Split, pos: Pos) -> Split {
    if parent.is_ver() {
        Split::Hor(Some(pos))
    } else {
        Split::Ver(Some(pos))
    }
}

/// Orientation alternates from one level to the next: a child of a split
/// has the other orientation and carries the side it occupies.
pub proof fn lemma_orientation_alternates(parent: Split, pos: Pos)
    ensures
        child_split(parent, pos).is_ver() != parent.is_ver(),
        child_split(parent, pos).pos() == Some(pos),
{
}

/// The smallest and largest split offset for an extent of `size` cells: half of
/// it, give or take fifteen percent, rounded down.
pub open spec fn split_low(size: int) -> int {
    (35 * size) / 100
}

pub open spec fn split_high(size: int) -> int {
    (65 * size) / 100
}

/// The two halves of `r` split at offset `sp` along the given axis: each stops
/// two cells short of the split line.
pub open spec fn halves(r: Rect, vertical: bool, sp: int) -> (Rect, Rect) {
    if vertical {
        (
            Rect { left: r.left, top: r.top, cols: (sp - 2) as u16, rows: r.rows },
            Rect {
                left: (r.left + sp + 2) as u16,
                top: r.top,
                cols: (r.cols - sp - 2) as u16,
                rows: r.rows,
            },
        )
    } else {
        (
            Rect { left: r.left, top: r.top, cols: r.cols, rows: (sp - 2) as u16 },
            Rect {
                left: r.left,
                top: (r.top + sp + 2) as u16,
                cols: r.cols,
                rows: (r.rows - sp - 2) as u16,
            },
        )
    }
}

/// The extent of `r` along the axis that a split of the given orientation cuts.
pub open spec fn extent(r: Rect, vertical: bool) -> int {
    if vertical {
        r.cols as int
    } else {
        r.rows as int
    }
}

/// A split offset that leaves room for both halves and the gap between them.
pub open spec fn valid_offset(r: Rect, vertical: bool, sp: int) -> bool {
    2 <= sp && sp + 2 <= extent(r, vertical)
}

/// Siblings of one split are disjoint: the first ends two cells before the split
/// line, the second starts two cells after it, and together with the gap they
/// cover the parent exactly.
pub proof fn lemma_siblings_separated(r: Rect, vertical: bool, sp: int)
    requires
        r.wf(),
        valid_offset(r, vertical, sp),
    ensures
        ({
            let (a, b) = halves(r, vertical, sp);
            let line = if vertical { r.left + sp } else { r.top + sp };
            &&& a.wf() && b.wf()
            &&& r.contains_rect(a) && r.contains_rect(b)
            &&& vertical ==> {
                &&& a.left == r.left && a.left + a.cols + 2 == line
                &&& b.left == line + 2 && b.left + b.cols == r.left + r.cols
                &&& a.top == r.top && b.top == r.top && a.rows == r.rows && b.rows == r.rows
                &&& a.cols + b.cols + 4 == r.cols
            }
            &&& !vertical ==> {
                &&& a.top == r.top && a.top + a.rows + 2 == line
                &&& b.top == line + 2 && b.top + b.rows == r.top + r.rows
                &&& a.left == r.left && b.left == r.left && a.cols == r.cols && b.cols == r.cols
                &&& a.rows + b.rows + 4 == r.rows
            }
            &&& forall|x: int, y: int| !(a.contains_point(x, y) && b.contains_point(x, y))
        }),
{
}

/// The two children of a split of `r` along `split` at offset `sp`, in the order
/// in which they are visited, each with the opposite orientation.
pub fn children(split: Split, r: Rect, sp: u16) -> (res: ((Split, Rect), (Split, Rect)))
    requires
        r.wf(),
        valid_offset(r, split.is_ver(), sp as int),
    ensures
        res.0.0 == child_split(split, Pos::First),
        res.1.0 == child_split(split, Pos::Last),
        res.0.0.is_ver() != split.is_ver() && res.1.0.is_ver() != split.is_ver(),
        (res.0.1, res.1.1) == halves(r, split.is_ver(), sp as int),
        res.0.1.wf() && res.1.1.wf(),
{
    match split {
        Split::Ver(_) => (
            (Split::Hor(Some(Pos::First)), Rect { left: r.left, top: r.top, cols: sp - 2, rows: r.rows }),
            (Split::Hor(Some(Pos::Last)), Rect { left: r.left + sp + 2, top: r.top, cols: r.cols - sp - 2, rows: r.rows }),
        ),
        Split::Hor(_) => (
            (Split::Ver(Some(Pos::First)), Rect { left: r.left, top: r.top, cols: r.cols, rows: sp - 2 }),
            (Split::Ver(Some(Pos::Last)), Rect { left: r.left, top: r.top + sp + 2, cols: r.cols, rows: r.rows - sp - 2 }),
        ),
    }
}

/// The extent that survives one more split when each half must keep `inner`
/// cells: the smaller half of a split holds at least thirty-five percent.
pub open spec fn grow(inner: nat) -> nat {
    ((100 * (inner + 2) + 34) / 35) as nat
}

/// The extent that an axis needs when `levels` more recursion levels follow,
/// `split_here` telling whether the current level cuts this axis. At the
/// leaf, the axis that holds the door needs two cells; the other needs none.
pub open spec fn need(levels: nat, split_here: bool) -> nat
    decreases levels,
{
    if levels == 0 {
        if split_here { 2 } else { 0 }
    } else if split_here {
        grow(need((levels - 1) as nat, false))
    } else {
        need((levels - 1) as nat, true)
    }
}

/// A partition on which generation at `depth` cannot run out of room: every
/// split offset that may be drawn below it leaves both halves large enough,
/// and every leaf can hold a door.
pub open spec fn fits(split: Split, r: Rect, depth: int) -> bool {
    &&& 0 <= depth <= MAX_DEPTH
    &&& r.wf()
    &&& depth == MAX_DEPTH ==> split.pos() is Some
    &&& r.cols >= need((MAX_DEPTH - depth) as nat, split.is_ver())
    &&& r.rows >= need((MAX_DEPTH - depth) as nat, !split.is_ver())
}

/// Any split offset in the jitter range keeps both children within `fits`.
pub proof fn lemma_children_fit(split: Split, r: Rect, depth: int, sp: int)
    requires
        fits(split, r, depth),
        depth < MAX_DEPTH,
        split_low(extent(r, split.is_ver())) <= sp <= split_high(extent(r, split.is_ver())),
    ensures
        valid_offset(r, split.is_ver(), sp),
        fits(child_split(split, Pos::First), halves(r, split.is_ver(), sp).0, depth + 1),
        fits(child_split(split, Pos::Last), halves(r, split.is_ver(), sp).1, depth + 1),
{
    let v = split.is_ver();
    let levels = (MAX_DEPTH - depth) as nat;
    let m = need((levels - 1) as nat, false);
    let e = extent(r, v);
    assert(e >= grow(m));
    assert(35 * e >= 100 * (m + 2)) by (nonlinear_arith)
        requires
            e >= (100 * (m + 2) + 34) / 35,
            m >= 0,
    ;
    assert((35 * e) / 100 >= m + 2) by (nonlinear_arith)
        requires
            35 * e >= 100 * (m + 2),
    ;
    assert((35 * e) / 100 + (65 * e) / 100 <= e) by (nonlinear_arith)
        requires
            e >= 0,
    ;
    lemma_siblings_separated(r, v, sp);
}

/// A bound on `need` that keeps its executable computation in range.
proof fn lemma_need_small(levels: nat, split_here: bool)
    requires
        levels <= MAX_DEPTH,
    ensures
        need(levels, split_here) <= 500,
{
    reveal_with_fuel(need, 5);
}

/// Computes `need` for a level count no greater than the maximum depth.
fn span_needed(levels: u16, split_here: bool) -> (r: u32)
    requires
        levels <= MAX_DEPTH,
    ensures
        r == need(levels as nat, split_here),
    decreases levels,
{
    if levels == 0 {
        if split_here { 2 } else { 0 }
    } else if split_here {
        let inner = span_needed(levels - 1, false);
        proof {
            lemma_need_small((levels - 1) as nat, false);
        }
        (100 * (inner + 2) + 34) / 35
    } else {
        span_needed(levels - 1, true)
    }
}

/// Tells whether generation of `r` along `split` at `depth` is guaranteed to
/// find room for every split and every door.
pub fn can_generate(split: Split, r: Rect, depth: u16) -> (ok: bool)
    ensures
        ok == fits(split, r, depth as int),
{
    if depth > MAX_DEPTH {
        return false;
    }
    if r.left as u32 + r.cols as u32 > u16::MAX as u32 || r.top as u32 + r.rows as u32 > u16::MAX as u32 {
        return false;
    }
    let v = split.vertical();
    if depth == MAX_DEPTH {
        match split {
            Split::Ver(None) | Split::Hor(None) => { return false; },
            _ => {},
        }
    }
    let levels = MAX_DEPTH - depth;
    r.cols as u32 >= span_needed(levels, v) && r.rows as u32 >= span_needed(levels, !v)
}

} // verus!
