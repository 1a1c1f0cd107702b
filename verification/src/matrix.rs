//! Row-major grid storage with bounds-checked access, plus the coordinate
//! and size types the rest of the crate is addressed by.

use vstd::arithmetic::div_mod::lemma_fundamental_div_mod_converse;
use vstd::prelude::*;

verus! {

/// Width and height of a grid.
#[derive(Clone, Copy, PartialEq, Eq, Structural, Debug)]
pub struct Size {
    pub width: usize,
    pub height: usize,
}

/// A cell address: `x` grows rightward (column), `y` grows downward (row).
#[derive(Clone, Copy, PartialEq, Eq, Structural, Debug, Hash)]
pub struct Position {
    pub x: usize,
    pub y: usize,
}

/// A dense row-major grid of `T` with `size.width * size.height` cells.
pub struct Matrix<T> {
    pub size: Size,
    pub data: Vec<T>,
}

/// Uniform sample from `[0, n)`.
///
/// Relies on rand's `thread_rng` and `Rng::gen_range`: the sample lies in
/// the given range; `gen_range` panics on an empty range, so `n` must be
/// positive.
#[verifier::external_body]
fn rand_below(n: usize) -> (r: usize)
    requires
        1 <= n,
    ensures
        r < n,
{
    rand::Rng::gen_range(&mut rand::thread_rng(), 0..n)
}

impl Size {
    /// Number of cells a grid of this size holds.
    pub open spec fn spec_area(self) -> int {
        self.width * self.height
    }

    /// Whether `point` addresses a cell inside a grid of this size.
    pub open spec fn spec_contains(self, point: Position) -> bool {
        point.x < self.width && point.y < self.height
    }

    pub fn width(self) -> (r: usize)
        ensures
            r == self.width,
    {
        self.width
    }

    pub fn height(self) -> (r: usize)
        ensures
            r == self.height,
    {
        self.height
    }

    pub fn rows(self) -> (r: usize)
        ensures
            r == self.height,
    {
        self.height
    }

    pub fn columns(self) -> (r: usize)
        ensures
            r == self.width,
    {
        self.width
    }

    pub fn area(self) -> (r: usize)
        requires
            self.spec_area() <= usize::MAX,
        ensures
            r == self.spec_area(),
    {
        self.width * self.height
    }

    pub fn from_width_height(width: usize, height: usize) -> (r: Self)
        ensures
            r == (Size { width, height }),
    {
        Size { width, height }
    }

    pub fn from_rows_cols(rows: usize, columns: usize) -> (r: Self)
        ensures
            r == (Size { width: columns, height: rows }),
    {
        Size { width: columns, height: rows }
    }

    pub fn contains(self, point: Position) -> (r: bool)
        ensures
            r == self.spec_contains(point),
    {
        point.x < self.width && point.y < self.height
    }

    /// The largest address inside this size, column-most and row-most.
    pub fn max_within(self) -> (r: Position)
        requires
            1 <= self.width,
            1 <= self.height,
        ensures
            r == (Position { x: (self.width - 1) as usize, y: (self.height - 1) as usize }),
    {
        Position { x: self.width - 1, y: self.height - 1 }
    }

    /// A uniformly random address inside this size.
    pub fn random_within(self) -> (r: Position)
        requires
            1 <= self.width,
            1 <= self.height,
        ensures
            self.spec_contains(r),
    {
        let row = rand_below(self.height);
        let col = rand_below(self.width);
        Position { x: col, y: row }
    }
}

impl Position {
    pub fn x(self) -> (r: usize)
        ensures
            r == self.x,
    {
        self.x
    }

    pub fn y(self) -> (r: usize)
        ensures
            r == self.y,
    {
        self.y
    }

    pub fn row(self) -> (r: usize)
        ensures
            r == self.y,
    {
        self.y
    }

    pub fn column(self) -> (r: usize)
        ensures
            r == self.x,
    {
        self.x
    }

    pub fn from_xy(x: usize, y: usize) -> (r: Self)
        ensures
            r == (Position { x, y }),
    {
        Position { x, y }
    }

    pub fn from_row_col(row: usize, column: usize) -> (r: Self)
        ensures
            r == (Position { x: column, y: row }),
    {
        Position { x: column, y: row }
    }

    pub fn with_x(self, x: usize) -> (r: Self)
        ensures
            r == (Position { x, y: self.y }),
    {
        Position { x, y: self.y }
    }

    pub fn with_y(self, y: usize) -> (r: Self)
        ensures
            r == (Position { x: self.x, y }),
    {
        Position { x: self.x, y }
    }

    pub fn with_row(self, row: usize) -> (r: Self)
        ensures
            r == (Position { x: self.x, y: row }),
    {
        Position { x: self.x, y: row }
    }

    pub fn with_column(self, column: usize) -> (r: Self)
        ensures
            r == (Position { x: column, y: self.y }),
    {
        Position { x: column, y: self.y }
    }

    /// Whether `other` is exactly one step away along exactly one axis.
    pub open spec fn spec_is_neighbor_with(self, other: Position) -> bool {
        let horizontal = self.x + 1 == other.x || other.x + 1 == self.x;
        let vertical = self.y + 1 == other.y || other.y + 1 == self.y;
        horizontal != vertical
    }

    pub fn is_neighbor_with(self, other: Position) -> (r: bool)
        ensures
            r == self.spec_is_neighbor_with(other),
    {
        let horizontal = if self.x < other.x {
            other.x - self.x == 1
        } else {
            self.x - other.x == 1
        };
        let vertical = if self.y < other.y {
            other.y - self.y == 1
        } else {
            self.y - other.y == 1
        };
        horizontal != vertical
    }

    /// A uniformly random address strictly below `max` on both axes.
    pub fn random(max: Position) -> (r: Self)
        requires
            1 <= max.x,
            1 <= max.y,
        ensures
            r.x < max.x,
            r.y < max.y,
    {
        Position { x: rand_below(max.x), y: rand_below(max.y) }
    }

    /// Where one wrapping step of `d` from coordinate `v` lands, modulo `n`.
    pub open spec fn spec_wrap_step(v: int, d: int, n: int) -> int {
        (v + d + n) % n
    }

    /// One toroidal cursor step: move by `(dx, dy)` and wrap around the
    /// edges of `within` on each axis independently.
    pub fn move_wrapping(&mut self, dx: isize, dy: isize, within: Size)
        requires
            -1 <= dx <= 1,
            -1 <= dy <= 1,
            1 <= within.width,
            1 <= within.height,
            old(self).x < within.width,
            old(self).y < within.height,
        ensures
            final(self).x == Position::spec_wrap_step(old(self).x as int, dx as int, within.width as int),
            final(self).y == Position::spec_wrap_step(old(self).y as int, dy as int, within.height as int),
            final(self).x < within.width,
            final(self).y < within.height,
    {
        self.x = wrap_step(self.x, dx, within.width);
        self.y = wrap_step(self.y, dy, within.height);
    }
}

/// One wrapping step along a single axis.
fn wrap_step(v: usize, d: isize, n: usize) -> (r: usize)
    requires
        -1 <= d <= 1,
        1 <= n,
        v < n,
    ensures
        r == Position::spec_wrap_step(v as int, d as int, n as int),
        r < n,
{
    proof {
        vstd::arithmetic::div_mod::lemma_mod_add_multiples_vanish(v + d, n as int);
        if v >= 1 {
            vstd::arithmetic::div_mod::lemma_small_mod((v - 1) as nat, n as nat);
        }
        vstd::arithmetic::div_mod::lemma_small_mod((n - 1) as nat, n as nat);
    }
    if d < 0 {
        if v >= 1 {
            v - 1
        } else {
            n - 1
        }
    } else {
        (v + (d as usize)) % n
    }
}

/// While a bordered copy of a `w` by `h` grid is built cell by cell, how
/// many of the original cells the first `j` cells of the copy hold.
spec fn border_covered(j: int, w: int, h: int) -> int {
    let w2 = w + 2;
    let r = j / w2;
    let c = j % w2;
    if r <= 0 {
        0
    } else if r <= h {
        (r - 1) * w + (if c - 1 < 0 {
            0
        } else if c - 1 > w {
            w
        } else {
            c - 1
        })
    } else {
        h * w
    }
}

/// One build step of a bordered copy covers one more original cell
/// exactly when it lies strictly inside the new grid's edge ring.
proof fn lemma_border_covered_step(j: int, w: int, h: int)
    requires
        0 <= w,
        0 <= h,
        0 <= j < (w + 2) * (h + 2),
    ensures
        border_covered(j + 1, w, h) == border_covered(j, w, h) + (if 1 <= j / (w + 2) <= h && 1 <= j
            % (w + 2) <= w {
            1int
        } else {
            0int
        }),
{
    let w2 = w + 2;
    vstd::arithmetic::div_mod::lemma_fundamental_div_mod(j, w2);
    vstd::arithmetic::div_mod::lemma_mod_bound(j, w2);
    let r = j / w2;
    let c = j % w2;
    assert(0 <= r < h + 2) by (nonlinear_arith)
        requires
            1 <= w2,
            w2 * r + c == j,
            0 <= c < w2,
            0 <= j < w2 * (h + 2),
    ;
    if c + 1 < w2 {
        lemma_fundamental_div_mod_converse(j + 1, w2, r, c + 1);
    } else {
        assert(j + 1 == (r + 1) * w2) by (nonlinear_arith)
            requires
                j == w2 * r + c,
                c == w2 - 1,
        ;
        lemma_fundamental_div_mod_converse(j + 1, w2, r + 1, 0);
    }
    assert((r - 1) * w + w == r * w && r * w + w == (r + 1) * w && 0 * w == 0) by (nonlinear_arith);
}

/// A flat row-major index stays inside the grid and decomposes back into
/// its coordinates.
pub proof fn lemma_flat_index(w: int, h: int, x: int, y: int)
    requires
        0 <= x < w,
        0 <= y < h,
    ensures
        0 <= y * w + x < w * h,
        (y * w + x) % w == x,
        (y * w + x) / w == y,
{
    assert(0 <= y * w + x < w * h) by (nonlinear_arith)
        requires
            0 <= x < w,
            0 <= y < h,
    ;
    lemma_fundamental_div_mod_converse(y * w + x, w, y, x);
}

impl<T> Matrix<T> {
    /// The stored cells fill the stated size exactly.
    pub open spec fn wf(self) -> bool {
        &&& self.data.len() == self.size.width * self.size.height
        &&& self.size.width * self.size.height <= usize::MAX
    }

    /// Flat index of an address (meaningful when the size contains it).
    pub open spec fn spec_idx(self, p: Position) -> int {
        p.y * self.size.width + p.x
    }

    /// The cell stored at an in-bounds address.
    pub open spec fn cell(self, p: Position) -> T
        recommends
            self.wf(),
            self.size.spec_contains(p),
    {
        self.data@[self.spec_idx(p)]
    }

    /// Distinct in-bounds addresses use distinct flat indices.
    pub proof fn lemma_idx_injective(self, p: Position, q: Position)
        requires
            self.size.spec_contains(p),
            self.size.spec_contains(q),
        ensures
            self.spec_idx(p) == self.spec_idx(q) ==> p == q,
            0 <= self.spec_idx(p) < self.size.width * self.size.height,
    {
        lemma_flat_index(self.size.width as int, self.size.height as int, p.x as int, p.y as int);
        lemma_flat_index(self.size.width as int, self.size.height as int, q.x as int, q.y as int);
    }

    /// Wraps cells into a grid of the given size; refuses a cell count
    /// that does not match the size's area.
    pub fn new(size: Size, data: Vec<T>) -> (r: Option<Self>)
        ensures
            match r {
                Some(m) => {
                    &&& size.spec_area() == data.len()
                    &&& m.size == size
                    &&& m.data@ == data@
                    &&& m.wf()
                },
                None => size.spec_area() != data.len(),
            },
    {
        match size.width.checked_mul(size.height) {
            Some(area) => {
                if area != data.len() {
                    None
                } else {
                    Some(Matrix { size, data })
                }
            },
            None => {
                // the area overflows usize, so it cannot equal any Vec length
                None
            },
        }
    }

    pub fn size(&self) -> (r: Size)
        ensures
            r == self.size,
    {
        self.size
    }

    /// Flat index of an address, or absent when out of range.
    pub fn index(&self, position: Position) -> (r: Option<usize>)
        requires
            self.wf(),
        ensures
            match r {
                Some(i) => {
                    &&& self.size.spec_contains(position)
                    &&& i == self.spec_idx(position)
                    &&& i < self.data.len()
                },
                None => !self.size.spec_contains(position),
            },
    {
        if self.size.contains(position) {
            proof {
                lemma_flat_index(
                    self.size.width as int,
                    self.size.height as int,
                    position.x as int,
                    position.y as int,
                );
            }
            Some(position.y * self.size.width + position.x)
        } else {
            None
        }
    }

    /// Bounds-checked read: absent, never a failure, when out of range.
    pub fn get(&self, position: Position) -> (r: Option<&T>)
        requires
            self.wf(),
        ensures
            match r {
                Some(cell) => self.size.spec_contains(position) && *cell == self.cell(position),
                None => !self.size.spec_contains(position),
            },
    {
        match self.index(position) {
            Some(i) => Some(&self.data[i]),
            None => None,
        }
    }

    /// Bounds-checked write: a no-op, reported as `false`, out of range.
    pub fn set(&mut self, position: Position, value: T) -> (r: bool)
        requires
            old(self).wf(),
        ensures
            final(self).wf(),
            final(self).size == old(self).size,
            r == old(self).size.spec_contains(position),
            r ==> final(self).data@ == old(self).data@.update(old(self).spec_idx(position), value),
            !r ==> *final(self) == *old(self),
    {
        match self.index(position) {
            Some(i) => {
                self.data[i] = value;
                true
            },
            None => false,
        }
    }
}

impl<T: Copy> Matrix<T> {
    /// Exchanges two cells; a no-op if either address is out of range.
    pub fn swap(&mut self, a: Position, b: Position)
        requires
            old(self).wf(),
        ensures
            final(self).wf(),
            final(self).size == old(self).size,
            if old(self).size.spec_contains(a) && old(self).size.spec_contains(b) {
                final(self).data@ == old(self).data@.update(
                    old(self).spec_idx(a),
                    old(self).cell(b),
                ).update(old(self).spec_idx(b), old(self).cell(a))
            } else {
                *final(self) == *old(self)
            },
    {
        match (self.index(a), self.index(b)) {
            (Some(ia), Some(ib)) => {
                let va = self.data[ia];
                let vb = self.data[ib];
                self.data[ia] = vb;
                self.data[ib] = va;
            },
            _ => (),
        }
    }

    /// A row-major snapshot of the cells, one `Vec` per row.
    pub fn rows(&self) -> (r: Vec<Vec<T>>)
        requires
            self.wf(),
        ensures
            r@.len() == self.size.height,
            forall|y: int| 0 <= y < self.size.height ==> #[trigger] r@[y]@.len() == self.size.width,
            forall|y: int, x: int|
                0 <= y < self.size.height && 0 <= x < self.size.width ==> #[trigger] r@[y]@[x]
                    == self.cell(Position { x: x as usize, y: y as usize }),
    {
        let w = self.size.width;
        let h = self.size.height;
        let mut r: Vec<Vec<T>> = Vec::new();
        let mut y: usize = 0;
        while y < h
            invariant
                y <= h,
                w == self.size.width,
                h == self.size.height,
                self.wf(),
                r@.len() == y,
                forall|yy: int| 0 <= yy < y ==> #[trigger] r@[yy]@.len() == w,
                forall|yy: int, xx: int|
                    0 <= yy < y && 0 <= xx < w ==> #[trigger] r@[yy]@[xx]
                        == self.cell(Position { x: xx as usize, y: yy as usize }),
            decreases h - y,
        {
            let mut row: Vec<T> = Vec::new();
            let mut x: usize = 0;
            while x < w
                invariant
                    x <= w,
                    y < h,
                    w == self.size.width,
                    h == self.size.height,
                    self.wf(),
                    row@.len() == x,
                    forall|xx: int|
                        0 <= xx < x ==> #[trigger] row@[xx]
                            == self.cell(Position { x: xx as usize, y: y as usize }),
                decreases w - x,
            {
                proof {
                    lemma_flat_index(w as int, h as int, x as int, y as int);
                }
                row.push(self.data[y * w + x]);
                x = x + 1;
            }
            r.push(row);
            y = y + 1;
        }
        r
    }

    /// Grows the grid by one ring of `element` on all four sides,
    /// preserving the row order of the existing cells.
    #[verifier::rlimit(100)]
    pub fn add_border(&mut self, element: T)
        requires
            old(self).wf(),
            (old(self).size.width + 2) * (old(self).size.height + 2) <= usize::MAX,
        ensures
            final(self).wf(),
            final(self).size.width == old(self).size.width + 2,
            final(self).size.height == old(self).size.height + 2,
            forall|p: Position|
                final(self).size.spec_contains(p) ==> #[trigger] final(self).cell(p) == (if p.x == 0
                    || p.y == 0 || p.x == old(self).size.width + 1 || p.y == old(self).size.height
                    + 1 {
                    element
                } else {
                    old(self).cell(Position { x: (p.x - 1) as usize, y: (p.y - 1) as usize })
                }),
            forall|v: T| #[trigger]
                final(self).data@.to_multiset().count(v) == old(self).data@.to_multiset().count(v)
                    + (if v == element {
                    2 * old(self).size.width + 2 * old(self).size.height + 4
                } else {
                    0int
                }),
    {
        broadcast use vstd::seq_lib::group_to_multiset_ensures;
        broadcast use vstd::multiset::group_multiset_axioms;

        let w = self.size.width;
        let h = self.size.height;
        proof {
            assert(w + 2 <= (w + 2) * (h + 2) && h + 2 <= (w + 2) * (h + 2)) by (nonlinear_arith)
                requires
                    0 <= w,
                    0 <= h,
            ;
        }
        let w2 = w + 2;
        let h2 = h + 2;
        let total = w2 * h2;
        let ghost old_self = *self;
        let mut data: Vec<T> = Vec::new();
        let mut j: usize = 0;
        let ghost mut covered: int = 0;
        while j < total
            invariant
                j <= total,
                total == w2 * h2,
                w2 == w + 2,
                h2 == h + 2,
                w == old_self.size.width,
                h == old_self.size.height,
                old_self.wf(),
                *self == old_self,
                data@.len() == j,
                covered == border_covered(j as int, w as int, h as int),
                0 <= covered <= w * h,
                forall|i: int|
                    0 <= i < j ==> #[trigger] data@[i] == (if i % (w2 as int) == 0 || i % (
                    w2 as int) == w + 1 || i / (w2 as int) == 0 || i / (w2 as int) == h + 1 {
                        element
                    } else {
                        old_self.data@[(i / (w2 as int) - 1) * w + (i % (w2 as int) - 1)]
                    }),
                forall|v: T| #[trigger]
                    data@.to_multiset().count(v) == old_self.data@.take(
                        covered,
                    ).to_multiset().count(v) + (if v == element {
                        j - covered
                    } else {
                        0int
                    }),
            decreases total - j,
        {
            let r = j / w2;
            let c = j % w2;
            proof {
                vstd::arithmetic::div_mod::lemma_fundamental_div_mod(j as int, w2 as int);
                vstd::arithmetic::div_mod::lemma_mod_bound(j as int, w2 as int);
                assert((j as int) / (w2 as int) < h2) by (nonlinear_arith)
                    requires
                        j < total,
                        total == w2 * h2,
                        1 <= w2,
                        (j as int) == (w2 as int) * ((j as int) / (w2 as int)) + (j as int) % (
                        w2 as int),
                        0 <= (j as int) % (w2 as int) < w2,
                ;
                lemma_flat_index(w2 as int, h2 as int, c as int, r as int);
                lemma_border_covered_step(j as int, w as int, h as int);
            }
            if r == 0 || r == h + 1 || c == 0 || c == w + 1 {
                let ghost prev = data@;
                data.push(element);
                proof {
                    assert(data@ == prev.push(element));
                    vstd::seq_lib::to_multiset_build(prev, element);
                }
            } else {
                proof {
                    lemma_flat_index(w as int, h as int, c - 1, r - 1);
                    assert(((r - 1) * w + (c - 1)) as int == covered);
                }
                let ghost prev = data@;
                data.push(self.data[(r - 1) * w + (c - 1)]);
                proof {
                    assert(data@ == prev.push(old_self.data@[covered]));
                    vstd::seq_lib::to_multiset_build(prev, old_self.data@[covered]);
                    old_self.data@.lemma_take_succ_push(covered);
                    vstd::seq_lib::to_multiset_build(
                        old_self.data@.take(covered),
                        old_self.data@[covered],
                    );
                    assert(old_self.data@.take(covered + 1).to_multiset() =~= old_self.data@.take(
                        covered,
                    ).to_multiset().insert(old_self.data@[covered]));
                    covered = covered + 1;
                }
            }
            j = j + 1;
        }
        self.size = Size { width: w2, height: h2 };
        self.data = data;
        proof {
            assert(total as int == (h as int + 2) * (w2 as int)) by (nonlinear_arith)
                requires
                    total == w2 * h2,
                    h2 == h + 2,
            ;
            lemma_fundamental_div_mod_converse(total as int, w2 as int, h as int + 2, 0);
            assert(covered == w * h);
            assert(old_self.data@.take(covered) =~= old_self.data@);
            assert(total == w * h + (2 * w + 2 * h + 4)) by (nonlinear_arith)
                requires
                    total == (w + 2) * (h + 2),
            ;
            assert forall|p: Position| self.size.spec_contains(p) implies #[trigger] self.cell(p)
                == (if p.x == 0 || p.y == 0 || p.x == old_self.size.width + 1 || p.y
                == old_self.size.height + 1 {
                element
            } else {
                old_self.cell(Position { x: (p.x - 1) as usize, y: (p.y - 1) as usize })
            }) by {
                lemma_flat_index(w2 as int, h2 as int, p.x as int, p.y as int);
            }
        }
    }
}

} // verus!
