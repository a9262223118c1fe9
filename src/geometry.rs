use vstd::prelude::*;

verus! {

/// A cell position; either component may be negative, in which case it lies
/// outside every grid.
#[derive(Clone, Copy, Debug, PartialEq, Eq, Hash, Structural)]
pub struct Coord {
    pub x: i32,
    pub y: i32,
}

impl Coord {
    pub fn new(x: i32, y: i32) -> (r: Coord)
        ensures
            r == (Coord { x, y }),
    {
        Coord { x, y }
    }
}

/// The width and height of a grid.
#[derive(Clone, Copy, Debug, PartialEq, Eq, Hash, Structural)]
pub struct Size {
    pub width: u32,
    pub height: u32,
}

impl Size {
    pub fn new(width: u32, height: u32) -> (r: Size)
        ensures
            r == (Size { width, height }),
    {
        Size { width, height }
    }

    pub fn width(&self) -> (r: u32)
        ensures
            r == self.width,
    {
        self.width
    }

    pub fn height(&self) -> (r: u32)
        ensures
            r == self.height,
    {
        self.height
    }

    /// Whether a grid of this size can be allocated: each side fits an `i32`
    /// and the number of cells fits a `u32`.
    pub open spec fn allocatable(self) -> bool {
        &&& self.width <= i32::MAX
        &&& self.height <= i32::MAX
        &&& self.width * self.height <= u32::MAX
    }

    pub open spec fn contains(self, c: Coord) -> bool {
        0 <= c.x < self.width && 0 <= c.y < self.height
    }

    /// Row-major position of a coordinate among the cells.
    pub open spec fn index_of(self, c: Coord) -> int {
        c.y * self.width + c.x
    }

    /// The coordinate stored at a row-major position.
    pub open spec fn coord_at(self, i: int) -> Coord {
        Coord { x: (i % self.width as int) as i32, y: (i / self.width as int) as i32 }
    }
}

pub proof fn lemma_index_in_range(s: Size, c: Coord)
    requires
        s.contains(c),
    ensures
        0 <= s.index_of(c) < s.width * s.height,
{
    let w = s.width as int;
    let h = s.height as int;
    let x = c.x as int;
    let y = c.y as int;
    assert(y * w <= (h - 1) * w) by (nonlinear_arith)
        requires
            0 <= y <= h - 1,
            w >= 0,
    ;
    assert((h - 1) * w + w == h * w) by (nonlinear_arith);
    assert(0 <= y * w) by (nonlinear_arith)
        requires
            0 <= y,
            w >= 0,
    ;
}

pub proof fn lemma_index_injective(s: Size, a: Coord, b: Coord)
    requires
        s.contains(a),
        s.contains(b),
        s.index_of(a) == s.index_of(b),
    ensures
        a == b,
{
    let w = s.width as int;
    let (ax, ay, bx, by) = (a.x as int, a.y as int, b.x as int, b.y as int);
    if ay < by {
        assert(ay * w + w <= by * w) by (nonlinear_arith)
            requires
                ay < by,
                w >= 0,
        ;
    } else if by < ay {
        assert(by * w + w <= ay * w) by (nonlinear_arith)
            requires
                by < ay,
                w >= 0,
        ;
    }
}

pub proof fn lemma_coord_at(s: Size, i: int)
    requires
        s.allocatable(),
        0 <= i < s.width * s.height,
    ensures
        s.contains(s.coord_at(i)),
        s.index_of(s.coord_at(i)) == i,
{
    let w = s.width as int;
    let h = s.height as int;
    assert(w > 0) by (nonlinear_arith)
        requires
            0 <= i < w * h,
            h >= 0,
    ;
    vstd::arithmetic::div_mod::lemma_fundamental_div_mod(i, w);
    assert(i / w < h) by (nonlinear_arith)
        requires
            i < w * h,
            w > 0,
            i == w * (i / w) + i % w,
            0 <= i % w,
    ;
    assert(i / w >= 0) by (nonlinear_arith)
        requires
            i >= 0,
            w > 0,
    ;
    assert((i / w) * w == w * (i / w)) by (nonlinear_arith);
}

} // verus!
