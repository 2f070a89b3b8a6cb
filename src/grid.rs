//! A rectangular grid of cells addressed by `i32` coordinates, stored row by
//! row, with a walk over any rectangular region of it.
use vstd::prelude::*;

verus! {

/// The largest coordinate a grid can address.
pub const MAX_COORD: usize = 0x7fff_ffff;

/// `v` clamped into `[0, hi]`.
pub open spec fn clamp(v: int, hi: int) -> int {
    if v < 0 {
        0
    } else if v > hi {
        hi
    } else {
        v
    }
}

/// A `width` by `height` grid of cells, stored row after row.
pub struct Grid2D<T> {
    width: usize,
    height: usize,
    grid: Vec<T>,
}

/// A walk over a rectangular region of a grid, row by row.
pub struct GridIter<'a, T> {
    slice: &'a [T],
    x: i32,
    y: i32,
    /// distance between the end of one row of the region and the start of the next
    stride: usize,
    x1: i32,
    x2: i32,
    y2: i32,
}

impl<T> Grid2D<T> {
    pub closed spec fn spec_width(&self) -> int {
        self.width as int
    }

    pub closed spec fn spec_height(&self) -> int {
        self.height as int
    }

    /// The cells, row after row.
    pub closed spec fn cells(&self) -> Seq<T> {
        self.grid@
    }

    /// The grid holds one cell per coordinate pair, and its sides fit in `i32`.
    pub open spec fn wf(&self) -> bool {
        &&& self.cells().len() == self.spec_width() * self.spec_height()
        &&& self.spec_width() <= MAX_COORD
        &&& self.spec_height() <= MAX_COORD
    }

    pub open spec fn in_bounds(&self, x: int, y: int) -> bool {
        0 <= x < self.spec_width() && 0 <= y < self.spec_height()
    }

    /// Where the cell at `(x, y)` stands among the cells.
    pub open spec fn offset(&self, x: int, y: int) -> int {
        y * self.spec_width() + x
    }

    /// The rectangle `[x1, x2) x [y1, y2)` clipped to the grid; an empty result
    /// is `(0, 0, 0, 0)`.
    pub open spec fn clipped(&self, x1: int, y1: int, x2: int, y2: int) -> (int, int, int, int) {
        let cx1 = clamp(x1, self.spec_width());
        let cx2 = clamp(x2, self.spec_width());
        let cy1 = clamp(y1, self.spec_height());
        let cy2 = clamp(y2, self.spec_height());
        if cx2 <= cx1 || cy2 <= cy1 {
            (0, 0, 0, 0)
        } else {
            (cx1, cy1, cx2, cy2)
        }
    }
}

proof fn lemma_offset_in_grid(x: int, y: int, w: int, h: int)
    requires
        0 <= x < w,
        0 <= y < h,
    ensures
        0 <= y * w + x < w * h,
{
    assert(y * w + x < w * h) by (nonlinear_arith)
        requires
            0 <= x < w,
            0 <= y < h,
    ;
    assert(0 <= y * w) by (nonlinear_arith)
        requires
            0 <= y,
            0 <= w,
    ;
}

impl<T: Clone> Grid2D<T> {
    /// An empty grid.
    pub fn new() -> (r: Grid2D<T>)
        ensures
            r.wf(),
            r.spec_width() == 0,
            r.spec_height() == 0,
    {
        Grid2D { width: 0, height: 0, grid: Vec::new() }
    }

    /// A `width` by `height` grid whose every cell is a clone of `val`.
    pub fn new_sized(width: usize, height: usize, val: &T) -> (r: Grid2D<T>)
        requires
            width <= MAX_COORD,
            height <= MAX_COORD,
            width * height <= usize::MAX,
        ensures
            r.wf(),
            r.spec_width() == width,
            r.spec_height() == height,
            forall|i: int| 0 <= i < r.cells().len() ==> cloned(*val, #[trigger] r.cells()[i]),
    {
        let n = width * height;
        let mut grid: Vec<T> = Vec::new();
        let mut i: usize = 0;
        while i < n
            invariant
                i <= n,
                grid@.len() == i,
                forall|j: int| 0 <= j < i ==> cloned(*val, #[trigger] grid@[j]),
            decreases n - i,
        {
            grid.push(val.clone());
            i += 1;
        }
        Grid2D { width, height, grid }
    }

    /// Where the cell at `(x, y)` is stored, when it lies in the grid.
    fn to_offset(&self, x: i32, y: i32) -> (r: Option<usize>)
        requires
            self.wf(),
        ensures
            r is Some == self.in_bounds(x as int, y as int),
            r matches Some(o) ==> o == self.offset(x as int, y as int) && o < self.cells().len(),
    {
        let len = self.grid.len();
        if x >= 0 && y >= 0 && (x as usize) < self.width && (y as usize) < self.height {
            proof {
                assert(len == self.width * self.height);
                lemma_offset_in_grid(x as int, y as int, self.width as int, self.height as int);
            }
            Some((y as usize) * self.width + (x as usize))
        } else {
            None
        }
    }

    /// The cell at `(x, y)`, when it lies in the grid.
    pub fn get(&self, x: i32, y: i32) -> (r: Option<&T>)
        requires
            self.wf(),
        ensures
            r is Some == self.in_bounds(x as int, y as int),
            r matches Some(v) ==> *v == self.cells()[self.offset(x as int, y as int)],
    {
        match self.to_offset(x, y) {
            Some(ofs) => Some(&self.grid[ofs]),
            None => None,
        }
    }

    /// Puts `tile_in` at `(x, y)` when that lies in the grid, and says whether
    /// it did.
    pub fn set(&mut self, x: i32, y: i32, tile_in: T) -> (r: bool)
        requires
            old(self).wf(),
        ensures
            final(self).wf(),
            r == old(self).in_bounds(x as int, y as int),
            final(self).spec_width() == old(self).spec_width(),
            final(self).spec_height() == old(self).spec_height(),
            final(self).cells() == (if r {
                old(self).cells().update(old(self).offset(x as int, y as int), tile_in)
            } else {
                old(self).cells()
            }),
    {
        match self.to_offset(x, y) {
            Some(ofs) => {
                self.grid.set(ofs, tile_in);
                true
            },
            None => false,
        }
    }

    /// Clips the rectangle `[x1, x2) x [y1, y2)` against the grid.
    fn clip_rect(&self, x1: i32, y1: i32, x2: i32, y2: i32) -> (r: (i32, i32, i32, i32))
        requires
            self.wf(),
        ensures
            (r.0 as int, r.1 as int, r.2 as int, r.3 as int) == self.clipped(
                x1 as int,
                y1 as int,
                x2 as int,
                y2 as int,
            ),
    {
        let w = self.width as i32;
        let h = self.height as i32;
        let x1 = clamp_coord(x1, w);
        let x2 = clamp_coord(x2, w);
        let y1 = clamp_coord(y1, h);
        let y2 = clamp_coord(y2, h);
        if x2 <= x1 || y2 <= y1 {
            (0, 0, 0, 0)
        } else {
            (x1, y1, x2, y2)
        }
    }
}

impl<'a, T: Clone> Grid2D<T> {
    /// A walk over the rectangle `[x1, x2) x [y1, y2)` clipped to the grid.
    pub fn iter_region(&'a self, x1: i32, y1: i32, x2: i32, y2: i32) -> (r: GridIter<'a, T>)
        requires
            self.wf(),
        ensures
            r.wf(),
            ({
                let c = self.clipped(x1 as int, y1 as int, x2 as int, y2 as int);
                &&& r.at() == (c.0, c.1)
                &&& r.region() == (c.0, c.2, c.3)
                &&& r.spec_stride() == self.spec_width() - (c.2 - c.0)
                &&& r.rest() == self.cells().skip(
                    if self.in_bounds(c.0, c.1) { self.offset(c.0, c.1) } else { 0 },
                )
            }),
    {
        let (x1, y1, x2, y2) = self.clip_rect(x1, y1, x2, y2);
        let ofs = match self.to_offset(x1, y1) {
            Some(o) => o,
            None => 0,
        };
        let stride = self.width - (x2 - x1) as usize;
        proof {
            let w = self.width as int;
            let h = self.height as int;
            if y1 < y2 {
                let (a, b, c, d) = (x1 as int, y1 as int, x2 as int, y2 as int);
                assert(w * h - (b * w + a) >= (c - a) + (d - 1 - b) * (stride + (c - a)))
                    by (nonlinear_arith)
                    requires
                        0 <= a < c <= w,
                        0 <= b < d <= h,
                        stride == w - (c - a),
                ;
            }
        }
        GridIter { slice: self.grid.as_slice().split_at(ofs).1, x: x1, y: y1, stride, x1, x2, y2 }
    }

    /// A walk over the whole grid.
    pub fn iter(&'a self) -> (r: GridIter<'a, T>)
        requires
            self.wf(),
        ensures
            r.wf(),
            r.at() == (0int, 0int),
            self.spec_width() > 0 && self.spec_height() > 0 ==> r.region() == (
                0int,
                self.spec_width(),
                self.spec_height(),
            ) && r.spec_stride() == 0 && r.rest() == self.cells(),
            self.spec_width() == 0 || self.spec_height() == 0 ==> r.region() == (0int, 0int, 0int),
    {
        let r = self.iter_region(0, 0, self.width as i32, self.height as i32);
        assert(self.cells().skip(0) =~= self.cells());
        r
    }
}

impl<'a, T> GridIter<'a, T> {
    /// The coordinates of the next cell, `(x, y)`.
    pub closed spec fn at(&self) -> (int, int) {
        (self.x as int, self.y as int)
    }

    /// The region's first column, the column past its last, and the row past
    /// its last.
    pub closed spec fn region(&self) -> (int, int, int) {
        (self.x1 as int, self.x2 as int, self.y2 as int)
    }

    /// How many cells lie between the end of one row of the region and the
    /// start of the next.
    pub closed spec fn spec_stride(&self) -> int {
        self.stride as int
    }

    /// The cells from the next one on, row after row.
    pub closed spec fn rest(&self) -> Seq<T> {
        self.slice@
    }

    /// While cells are left, the position lies in the region and the cells
    /// left cover the rest of it.
    pub open spec fn wf(&self) -> bool {
        let (x, y) = self.at();
        let (x1, x2, y2) = self.region();
        &&& 0 <= self.spec_stride()
        &&& y < y2 ==> {
            &&& 0 <= x1 <= x < x2
            &&& self.rest().len() >= (x2 - x) + (y2 - 1 - y) * (self.spec_stride() + (x2 - x1))
        }
    }

    /// The next cell and its coordinates; `None` once the region is walked.
    pub fn next(&mut self) -> (r: Option<((i32, i32), &'a T)>)
        requires
            old(self).wf(),
        ensures
            final(self).wf(),
            final(self).region() == old(self).region(),
            final(self).spec_stride() == old(self).spec_stride(),
            ({
                let (x, y) = old(self).at();
                let (x1, x2, y2) = old(self).region();
                let rest = old(self).rest();
                if y < y2 {
                    &&& r matches Some((p, v)) && p.0 == x && p.1 == y && *v == rest[0]
                    &&& x + 1 < x2 ==> final(self).at() == (x + 1, y) && final(self).rest()
                        == rest.skip(1)
                    &&& x + 1 >= x2 ==> final(self).at() == (x1, y + 1)
                    &&& x + 1 >= x2 && y + 1 < y2 ==> final(self).rest() == rest.skip(
                        1 + old(self).spec_stride(),
                    )
                    &&& x + 1 >= x2 && y + 1 >= y2 ==> final(self).rest() == rest.skip(1)
                } else {
                    r is None && final(self).at() == old(self).at() && final(self).rest() == rest
                }
            }),
    {
        if self.y < self.y2 {
            proof {
                let (x, y, x1, x2, y2) = (
                    self.x as int,
                    self.y as int,
                    self.x1 as int,
                    self.x2 as int,
                    self.y2 as int,
                );
                assert((y2 - 1 - y) * (self.stride + (x2 - x1)) >= 0) by (nonlinear_arith)
                    requires
                        y < y2,
                        x1 < x2,
                        self.stride >= 0,
                ;
            }
            let (cell, rest) = self.slice.split_at(1);
            let ret = Some(((self.x, self.y), &cell[0]));
            self.slice = rest;
            self.x = self.x + 1;
            if self.x >= self.x2 {
                self.x = self.x1;
                proof {
                    let (y, x1, x2, y2) = (self.y as int, self.x1 as int, self.x2 as int, self.y2 as int);
                    let k = self.stride + (x2 - x1);
                    assert((y2 - 1 - y) * k == (y2 - 1 - (y + 1)) * k + k) by (nonlinear_arith);
                }
                self.y = self.y + 1;
                if self.y < self.y2 {
                    self.slice = self.slice.split_at(self.stride).1;
                }
            }
            ret
        } else {
            None
        }
    }
}

/// `v` clamped into `[0, hi]`.
fn clamp_coord(v: i32, hi: i32) -> (r: i32)
    requires
        0 <= hi,
    ensures
        r == clamp(v as int, hi as int),
{
    if v < 0 {
        0
    } else if v > hi {
        hi
    } else {
        v
    }
}

} // verus!
