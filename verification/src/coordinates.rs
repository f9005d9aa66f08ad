use vstd::prelude::*;

verus! {

/// A 2D unsigned grid index.  `x` counts columns, `y` counts rows, both
/// 0-based.  Arithmetic saturates so that a coordinate can never leave the
/// `u16` domain: addition caps at `u16::MAX`, subtraction stops at zero.
#[derive(Clone, Copy, Debug, PartialEq, Eq, Structural, PartialOrd, Ord, Hash, Default)]
pub struct Coordinates {
    pub x: u16,
    pub y: u16,
}

/// True when `c` lies inside a `w` by `h` grid.
pub open spec fn coord_in_bounds(c: Coordinates, w: int, h: int) -> bool {
    c.x < w && c.y < h
}

/// The neighbors of `c` inside a `w` by `h` grid, in row-major offset
/// order: the row above left to right, then the two side cells, then the
/// row below — each listed exactly when it stays inside the grid.
pub open spec fn neighbor_list(c: Coordinates, w: int, h: int) -> Seq<Coordinates> {
    let xl = (c.x - 1) as u16;
    let xr = (c.x + 1) as u16;
    let yu = (c.y - 1) as u16;
    let yd = (c.y + 1) as u16;
    (if c.x > 0 && c.y > 0 {
        seq![Coordinates { x: xl, y: yu }]
    } else {
        Seq::empty()
    }) + (if c.y > 0 {
        seq![Coordinates { x: c.x, y: yu }]
    } else {
        Seq::empty()
    }) + (if c.x + 1 < w && c.y > 0 {
        seq![Coordinates { x: xr, y: yu }]
    } else {
        Seq::empty()
    }) + (if c.x > 0 {
        seq![Coordinates { x: xl, y: c.y }]
    } else {
        Seq::empty()
    }) + (if c.x + 1 < w {
        seq![Coordinates { x: xr, y: c.y }]
    } else {
        Seq::empty()
    }) + (if c.x > 0 && c.y + 1 < h {
        seq![Coordinates { x: xl, y: yd }]
    } else {
        Seq::empty()
    }) + (if c.y + 1 < h {
        seq![Coordinates { x: c.x, y: yd }]
    } else {
        Seq::empty()
    }) + (if c.x + 1 < w && c.y + 1 < h {
        seq![Coordinates { x: xr, y: yd }]
    } else {
        Seq::empty()
    })
}

impl Coordinates {
    /// True when the two coordinates are distinct and differ by at most one
    /// step on each axis: the eight king-move neighbors.
    pub open spec fn adjacent(self, other: Coordinates) -> bool {
        let dx = other.x as int - self.x as int;
        let dy = other.y as int - self.y as int;
        -1 <= dx <= 1 && -1 <= dy <= 1 && !(dx == 0 && dy == 0)
    }

    /// Per-axis saturating addition: each axis caps at `u16::MAX` instead of
    /// wrapping around.
    pub fn add(self, rhs: Coordinates) -> (r: Coordinates)
        ensures
            r.x as int == if self.x + rhs.x > u16::MAX { u16::MAX as int } else { self.x + rhs.x },
            r.y as int == if self.y + rhs.y > u16::MAX { u16::MAX as int } else { self.y + rhs.y },
    {
        Coordinates { x: self.x.saturating_add(rhs.x), y: self.y.saturating_add(rhs.y) }
    }

    /// Per-axis saturating subtraction: each axis stops at zero instead of
    /// underflowing.
    pub fn sub(self, rhs: Coordinates) -> (r: Coordinates)
        ensures
            r.x as int == if self.x - rhs.x < 0 { 0int } else { self.x - rhs.x },
            r.y as int == if self.y - rhs.y < 0 { 0int } else { self.y - rhs.y },
    {
        Coordinates { x: self.x.saturating_sub(rhs.x), y: self.y.saturating_sub(rhs.y) }
    }

    /// The neighbors of `self` that lie inside a `width` by `height` grid,
    /// as `neighbor_list` gives them: row-major offset order, each listed
    /// once, a coordinate present exactly when it is adjacent to `self` and
    /// in bounds.
    pub fn neighbors(self, width: u16, height: u16) -> (r: Vec<Coordinates>)
        requires
            coord_in_bounds(self, width as int, height as int),
        ensures
            r@ == neighbor_list(self, width as int, height as int),
            forall|i: int|
                0 <= i < r@.len() ==> (coord_in_bounds(#[trigger] r@[i], width as int, height as int)
                    && self.adjacent(r@[i])),
            forall|c: Coordinates|
                #![trigger self.adjacent(c)]
                coord_in_bounds(c, width as int, height as int) && self.adjacent(c)
                    ==> r@.contains(c),
    {
        broadcast use vstd::seq_lib::lemma_seq_contains_after_push;

        let mut r: Vec<Coordinates> = Vec::new();
        let x = self.x;
        let y = self.y;
        let ghost c1 = x > 0 && y > 0;
        let ghost c2 = y > 0;
        let ghost c3 = x + 1 < width && y > 0;
        let ghost c4 = x > 0;
        let ghost c5 = x + 1 < width;
        let ghost c6 = x > 0 && y + 1 < height;
        let ghost c7 = y + 1 < height;
        let ghost c8 = x + 1 < width && y + 1 < height;
        let ghost e1 = Coordinates { x: (x - 1) as u16, y: (y - 1) as u16 };
        let ghost e2 = Coordinates { x, y: (y - 1) as u16 };
        let ghost e3 = Coordinates { x: (x + 1) as u16, y: (y - 1) as u16 };
        let ghost e4 = Coordinates { x: (x - 1) as u16, y };
        let ghost e5 = Coordinates { x: (x + 1) as u16, y };
        let ghost e6 = Coordinates { x: (x - 1) as u16, y: (y + 1) as u16 };
        let ghost e7 = Coordinates { x, y: (y + 1) as u16 };
        let ghost e8 = Coordinates { x: (x + 1) as u16, y: (y + 1) as u16 };
        let ghost r0 = r@;
        if x > 0 && y > 0 {
            r.push(Coordinates { x: x - 1, y: y - 1 });
        }
        let ghost r1 = r@;
        if y > 0 {
            r.push(Coordinates { x, y: y - 1 });
        }
        let ghost r2 = r@;
        if x + 1 < width && y > 0 {
            r.push(Coordinates { x: x + 1, y: y - 1 });
        }
        let ghost r3 = r@;
        if x > 0 {
            r.push(Coordinates { x: x - 1, y });
        }
        let ghost r4 = r@;
        if x + 1 < width {
            r.push(Coordinates { x: x + 1, y });
        }
        let ghost r5 = r@;
        if x > 0 && y + 1 < height {
            r.push(Coordinates { x: x - 1, y: y + 1 });
        }
        let ghost r6 = r@;
        if y + 1 < height {
            r.push(Coordinates { x, y: y + 1 });
        }
        let ghost r7 = r@;
        if x + 1 < width && y + 1 < height {
            r.push(Coordinates { x: x + 1, y: y + 1 });
        }
        let ghost r8 = r@;
        proof {
            assert(if c1 { r1 == r0.push(e1) } else { r1 == r0 });
            assert(if c2 { r2 == r1.push(e2) } else { r2 == r1 });
            assert(if c3 { r3 == r2.push(e3) } else { r3 == r2 });
            assert(if c4 { r4 == r3.push(e4) } else { r4 == r3 });
            assert(if c5 { r5 == r4.push(e5) } else { r5 == r4 });
            assert(if c6 { r6 == r5.push(e6) } else { r6 == r5 });
            assert(if c7 { r7 == r6.push(e7) } else { r7 == r6 });
            assert(if c8 { r8 == r7.push(e8) } else { r8 == r7 });
            assert forall|c: Coordinates| #![trigger r@.contains(c)]
                r@.contains(c) implies (coord_in_bounds(c, width as int, height as int)
                    && self.adjacent(c)) by {
                assert(!r0.contains(c));
            }
            assert forall|i: int| 0 <= i < r@.len() implies (coord_in_bounds(
                #[trigger] r@[i],
                width as int,
                height as int,
            ) && self.adjacent(r@[i])) by {
                assert(r@.contains(r@[i]));
            }
            let ghost t1 = if c1 { seq![e1] } else { Seq::<Coordinates>::empty() };
            let ghost t2 = if c2 { seq![e2] } else { Seq::<Coordinates>::empty() };
            let ghost t3 = if c3 { seq![e3] } else { Seq::<Coordinates>::empty() };
            let ghost t4 = if c4 { seq![e4] } else { Seq::<Coordinates>::empty() };
            let ghost t5 = if c5 { seq![e5] } else { Seq::<Coordinates>::empty() };
            let ghost t6 = if c6 { seq![e6] } else { Seq::<Coordinates>::empty() };
            let ghost t7 = if c7 { seq![e7] } else { Seq::<Coordinates>::empty() };
            let ghost t8 = if c8 { seq![e8] } else { Seq::<Coordinates>::empty() };
            assert(r1 =~= t1);
            assert(r2 =~= t1 + t2);
            assert(r3 =~= t1 + t2 + t3);
            assert(r4 =~= t1 + t2 + t3 + t4);
            assert(r5 =~= t1 + t2 + t3 + t4 + t5);
            assert(r6 =~= t1 + t2 + t3 + t4 + t5 + t6);
            assert(r7 =~= t1 + t2 + t3 + t4 + t5 + t6 + t7);
            assert(r8 =~= t1 + t2 + t3 + t4 + t5 + t6 + t7 + t8);
            assert(r@ =~= neighbor_list(self, width as int, height as int));
            assert forall|c: Coordinates|
                coord_in_bounds(c, width as int, height as int) && self.adjacent(c)
                    implies r@.contains(c) by {
                let dx = c.x as int - x as int;
                let dy = c.y as int - y as int;
                if dx == -1 && dy == -1 {
                    assert(c1 && c == e1);
                    assert(r1.contains(c));
                } else if dx == 0 && dy == -1 {
                    assert(c2 && c == e2);
                    assert(r2.contains(c));
                } else if dx == 1 && dy == -1 {
                    assert(c3 && c == e3);
                    assert(r3.contains(c));
                } else if dx == -1 && dy == 0 {
                    assert(c4 && c == e4);
                    assert(r4.contains(c));
                } else if dx == 1 && dy == 0 {
                    assert(c5 && c == e5);
                    assert(r5.contains(c));
                } else if dx == -1 && dy == 1 {
                    assert(c6 && c == e6);
                    assert(r6.contains(c));
                } else if dx == 0 && dy == 1 {
                    assert(c7 && c == e7);
                    assert(r7.contains(c));
                } else {
                    assert(c8 && c == e8);
                    assert(r8.contains(c));
                }
                assert(r@ == r8);
            }
        }
        r
    }
}

} // verus!
