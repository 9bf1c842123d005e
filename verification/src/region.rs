//! Sets of pixels, built from rectangles that are added and taken away.
use vstd::prelude::*;

verus! {

/// A rectangle as a client gives it.
#[derive(Debug, Clone, Copy, PartialEq, Eq, Structural)]
pub struct Rect {
    pub x: i32,
    pub y: i32,
    pub width: i32,
    pub height: i32,
}

impl Rect {
    /// Whether the rectangle has pixels: both sides are positive and it ends within the
    /// coordinates. Any other rectangle counts as empty.
    pub open spec fn good(self) -> bool {
        &&& self.width > 0
        &&& self.height > 0
        &&& self.x + self.width <= i32::MAX
        &&& self.y + self.height <= i32::MAX
    }

    /// Whether the rectangle holds a pixel.
    pub open spec fn covers(self, p: (int, int)) -> bool {
        &&& self.good()
        &&& self.x <= p.0 < self.x + self.width
        &&& self.y <= p.1 < self.y + self.height
    }

    /// The pixels of the rectangle.
    pub open spec fn points(self) -> Set<(int, int)> {
        Set::new(|p: (int, int)| self.covers(p))
    }

    /// Whether the rectangle holds the pixel `(px, py)`.
    pub fn contains(&self, px: i32, py: i32) -> (r: bool)
        ensures
            r == self.covers((px as int, py as int)),
    {
        if self.width <= 0 || self.height <= 0 {
            return false;
        }
        let x2: i64 = self.x as i64 + self.width as i64;
        let y2: i64 = self.y as i64 + self.height as i64;
        x2 <= i32::MAX as i64 && y2 <= i32::MAX as i64 && self.x <= px && (px as i64) < x2 && self.y <= py && (
        py as i64) < y2
    }
}

/// One step in the making of a region.
#[derive(Debug, Clone, Copy, PartialEq, Eq, Structural)]
pub struct RegionOp {
    pub add: bool,
    pub rect: Rect,
}

/// The pixels that are left when the steps are done in order.
pub open spec fn region_points(ops: Seq<RegionOp>) -> Set<(int, int)>
    decreases ops.len(),
{
    if ops.len() == 0 {
        Set::empty()
    } else {
        let before = region_points(ops.drop_last());
        if ops.last().add {
            before.union(ops.last().rect.points())
        } else {
            before.difference(ops.last().rect.points())
        }
    }
}

/// A set of pixels.
#[derive(Debug)]
pub struct Region {
    ops: Vec<RegionOp>,
}

impl View for Region {
    type V = Set<(int, int)>;

    closed spec fn view(&self) -> Set<(int, int)> {
        region_points(self.ops@)
    }
}

impl Region {
    /// The region without pixels.
    pub fn new() -> (r: Self)
        ensures
            r@ == Set::<(int, int)>::empty(),
    {
        Self { ops: Vec::new() }
    }

    /// Adds the pixels of a rectangle.
    pub fn union_rect(&mut self, rect: Rect)
        ensures
            final(self)@ == old(self)@.union(rect.points()),
    {
        let ghost before = self.ops@;
        self.ops.push(RegionOp { add: true, rect });
        assert(self.ops@.drop_last() =~= before);
    }

    /// Takes the pixels of a rectangle away.
    pub fn subtract_rect(&mut self, rect: Rect)
        ensures
            final(self)@ == old(self)@.difference(rect.points()),
    {
        let ghost before = self.ops@;
        self.ops.push(RegionOp { add: false, rect });
        assert(self.ops@.drop_last() =~= before);
    }

    /// Whether the region holds the pixel `(x, y)`.
    pub fn contains_point(&self, x: i32, y: i32) -> (r: bool)
        ensures
            r == self@.contains((x as int, y as int)),
    {
        let ghost p = (x as int, y as int);
        let mut i: usize = self.ops.len();
        assert(self.ops@.take(i as int) =~= self.ops@);
        while i > 0
            invariant
                i <= self.ops.len(),
                p == (x as int, y as int),
                region_points(self.ops@).contains(p) == region_points(self.ops@.take(i as int)).contains(p),
            decreases i,
        {
            i = i - 1;
            let op = self.ops[i];
            assert(self.ops@.take(i + 1).drop_last() =~= self.ops@.take(i as int));
            assert(self.ops@.take(i + 1).last() == op);
            if op.rect.contains(x, y) {
                return op.add;
            }
        }
        false
    }

    /// A region with the same pixels.
    pub fn copy(&self) -> (r: Self)
        ensures
            r@ == self@,
    {
        let mut ops: Vec<RegionOp> = Vec::new();
        let mut i: usize = 0;
        while i < self.ops.len()
            invariant
                i <= self.ops.len(),
                ops@ == self.ops@.take(i as int),
            decreases self.ops.len() - i,
        {
            ops.push(self.ops[i]);
            assert(ops@ =~= self.ops@.take(i + 1));
            i = i + 1;
        }
        assert(ops@ =~= self.ops@);
        Self { ops }
    }

    /// The steps that make the region, in order.
    pub fn ops(&self) -> (r: &Vec<RegionOp>)
        ensures
            region_points(r@) == self@,
    {
        &self.ops
    }

    /// Whether the region holds all pixels of a rectangle that has some.
    pub fn contains_rectangle(&self, rect: Rect) -> (r: bool)
        ensures
            r == (rect.good() && rect.points().subset_of(self@)),
    {
        if rect.width <= 0 || rect.height <= 0 {
            return false;
        }
        let b = Area {
            x1: rect.x as i64,
            y1: rect.y as i64,
            x2: rect.x as i64 + rect.width as i64,
            y2: rect.y as i64 + rect.height as i64,
        };
        if b.x2 > i32::MAX as i64 || b.y2 > i32::MAX as i64 {
            return false;
        }
        let r = covered(&self.ops, self.ops.len(), b);
        proof {
            assert(self.ops@.take(self.ops@.len() as int) =~= self.ops@);
            if r {
                assert forall|p: (int, int)| rect.points().contains(p) implies self@.contains(p) by {
                    assert(b.holds(p));
                }
            } else {
                let p = choose|p: (int, int)| #[trigger] b.holds(p) && !region_points(self.ops@).contains(p);
                assert(rect.points().contains(p) && !self@.contains(p));
            }
        }
        r
    }
}

/// A rectangle by its corners. It holds its left and top side, not the right and bottom one.
#[derive(Debug, Clone, Copy, PartialEq, Eq, Structural)]
struct Area {
    x1: i64,
    y1: i64,
    x2: i64,
    y2: i64,
}

impl Area {
    spec fn holds(self, p: (int, int)) -> bool {
        &&& self.x1 <= p.0 < self.x2
        &&& self.y1 <= p.1 < self.y2
    }
}

/// Whether every pixel of an area is left when the first `n` steps are done.
fn covered(ops: &Vec<RegionOp>, n: usize, a: Area) -> (r: bool)
    requires
        n <= ops.len(),
    ensures
        r == (forall|p: (int, int)| #[trigger] a.holds(p) ==> region_points(ops@.take(n as int)).contains(p)),
    decreases n,
{
    if a.x1 >= a.x2 || a.y1 >= a.y2 {
        return true;
    }
    let ghost corner = (a.x1 as int, a.y1 as int);
    if n == 0 {
        assert(a.holds(corner));
        return false;
    }
    let op = ops[n - 1];
    let ghost before = region_points(ops@.take(n - 1));
    let ghost after = region_points(ops@.take(n as int));
    assert(ops@.take(n as int).drop_last() =~= ops@.take(n - 1));
    assert(ops@.take(n as int).last() == op);
    let c = Area {
        x1: if (op.rect.x as i64) < a.x1 {
            a.x1
        } else {
            op.rect.x as i64
        },
        y1: if (op.rect.y as i64) < a.y1 {
            a.y1
        } else {
            op.rect.y as i64
        },
        x2: if op.rect.x as i64 + (op.rect.width as i64) > a.x2 {
            a.x2
        } else {
            op.rect.x as i64 + op.rect.width as i64
        },
        y2: if op.rect.y as i64 + (op.rect.height as i64) > a.y2 {
            a.y2
        } else {
            op.rect.y as i64 + op.rect.height as i64
        },
    };
    let good = op.rect.width > 0 && op.rect.height > 0 && op.rect.x as i64 + op.rect.width as i64 <= i32::MAX as i64
        && op.rect.y as i64 + op.rect.height as i64 <= i32::MAX as i64;
    if !good || c.x1 >= c.x2 || c.y1 >= c.y2 {
        assert forall|p: (int, int)| #[trigger] a.holds(p) implies before.contains(p) == after.contains(p) by {
            assert(!op.rect.points().contains(p));
        }
        return covered(ops, n - 1, a);
    }
    assert forall|p: (int, int)| #[trigger] a.holds(p) implies c.holds(p) == op.rect.points().contains(p) by {}
    if !op.add {
        let ghost p = (c.x1 as int, c.y1 as int);
        assert(c.holds(p));
        assert(a.holds(p));
        assert(!after.contains(p));
        return false;
    }
    let top = Area { y2: c.y1, ..a };
    let bottom = Area { y1: c.y2, ..a };
    let left = Area { y1: c.y1, y2: c.y2, x2: c.x1, ..a };
    let right = Area { y1: c.y1, y2: c.y2, x1: c.x2, ..a };
    let r = covered(ops, n - 1, top) && covered(ops, n - 1, bottom) && covered(ops, n - 1, left) && covered(
        ops,
        n - 1,
        right,
    );
    proof {
        assert forall|p: (int, int)| #[trigger] a.holds(p) implies {
            c.holds(p) || top.holds(p) || bottom.holds(p) || left.holds(p) || right.holds(p)
        } by {}
        assert forall|p: (int, int)|
            #![trigger top.holds(p)]
            #![trigger bottom.holds(p)]
            #![trigger left.holds(p)]
            #![trigger right.holds(p)]
            top.holds(p) || bottom.holds(p) || left.holds(p) || right.holds(p) implies a.holds(p) && !c.holds(p) by {}
        if r {
            assert forall|p: (int, int)| #[trigger] a.holds(p) implies after.contains(p) by {
                if c.holds(p) {
                    assert(op.rect.points().contains(p));
                }
            }
        } else {
            let p = choose|p: (int, int)|
                #![trigger before.contains(p)]
                (top.holds(p) || bottom.holds(p) || left.holds(p) || right.holds(p)) && !before.contains(p);
            assert(a.holds(p) && !after.contains(p));
        }
    }
    r
}

} // verus!
