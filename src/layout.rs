use vstd::arithmetic::div_mod::{lemma_fundamental_div_mod, lemma_fundamental_div_mod_converse};
use vstd::prelude::*;

use crate::dimension::Dimensions;
use crate::error::StitchError;
use crate::write_direction::WriteDirection;

verus! {

/// The side of a tile along the major axis.
pub open spec fn major_side(t: Dimensions, d: WriteDirection) -> int {
    match d {
        WriteDirection::X => t.x as int,
        WriteDirection::Y => t.y as int,
    }
}

/// Tiles along the major axis: as many as fit in `max_extent`, and at least one.
pub open spec fn major_tile_count(max_extent: int, t: Dimensions, d: WriteDirection) -> int {
    let c = max_extent / major_side(t, d);
    if c < 1 {
        1
    } else {
        c
    }
}

/// The smallest `q` with `q * b >= a`, for `a >= 0` and `b > 0`.
pub open spec fn ceil_div(a: int, b: int) -> int {
    a / b + if a % b == 0 {
        0int
    } else {
        1int
    }
}

/// Tiles along the minor axis: enough rows (or columns) for every image.
pub open spec fn minor_tile_count(n: int, max_extent: int, t: Dimensions, d: WriteDirection) -> int {
    ceil_div(n, major_tile_count(max_extent, t, d))
}

/// The canvas width that the layout asks for.
pub open spec fn canvas_width_of(n: int, max_extent: int, t: Dimensions, d: WriteDirection) -> int {
    match d {
        WriteDirection::X => major_tile_count(max_extent, t, d) * t.x,
        WriteDirection::Y => minor_tile_count(n, max_extent, t, d) * t.x,
    }
}

/// The canvas height that the layout asks for.
pub open spec fn canvas_height_of(n: int, max_extent: int, t: Dimensions, d: WriteDirection) -> int {
    match d {
        WriteDirection::X => minor_tile_count(n, max_extent, t, d) * t.y,
        WriteDirection::Y => major_tile_count(max_extent, t, d) * t.y,
    }
}

/// Both sides of the canvas fit in a `u32`.
pub open spec fn canvas_fits(n: int, max_extent: int, t: Dimensions, d: WriteDirection) -> bool {
    canvas_width_of(n, max_extent, t, d) <= u32::MAX && canvas_height_of(n, max_extent, t, d)
        <= u32::MAX
}

/// The layout that `compute_layout` returns when it succeeds.
pub open spec fn layout_of(n: int, max_extent: int, t: Dimensions, d: WriteDirection) -> Layout {
    Layout {
        tile: t,
        direction: d,
        image_count: n as usize,
        major: major_tile_count(max_extent, t, d) as u32,
        minor: minor_tile_count(n, max_extent, t, d) as u32,
        width: canvas_width_of(n, max_extent, t, d) as u32,
        height: canvas_height_of(n, max_extent, t, d) as u32,
    }
}

/// The grid into which a run places its images.
#[derive(Clone, Copy, Debug, PartialEq, Eq, Structural)]
pub struct Layout {
    pub tile: Dimensions,
    pub direction: WriteDirection,
    pub image_count: usize,
    /// Tiles along the major axis.
    pub major: u32,
    /// Tiles along the minor axis.
    pub minor: u32,
    /// Canvas width in pixels.
    pub width: u32,
    /// Canvas height in pixels.
    pub height: u32,
}

impl Layout {
    /// The grid has a cell for every image and the canvas is exactly the grid.
    pub open spec fn wf(self) -> bool {
        &&& self.tile.wf()
        &&& self.image_count >= 1
        &&& self.major >= 1
        &&& self.minor >= 1
        &&& self.image_count <= self.major * self.minor
        &&& match self.direction {
            WriteDirection::X => self.width == self.major * self.tile.x && self.height
                == self.minor * self.tile.y,
            WriteDirection::Y => self.width == self.minor * self.tile.x && self.height
                == self.major * self.tile.y,
        }
    }

    /// The column of the `k`-th cell.
    pub open spec fn cell_col(self, k: int) -> int {
        match self.direction {
            WriteDirection::X => k % (self.major as int),
            WriteDirection::Y => k / (self.major as int),
        }
    }

    /// The row of the `k`-th cell.
    pub open spec fn cell_row(self, k: int) -> int {
        match self.direction {
            WriteDirection::X => k / (self.major as int),
            WriteDirection::Y => k % (self.major as int),
        }
    }

    /// Left edge of the `k`-th cell.
    pub open spec fn origin_x(self, k: int) -> int {
        self.cell_col(k) * self.tile.x
    }

    /// Top edge of the `k`-th cell.
    pub open spec fn origin_y(self, k: int) -> int {
        self.cell_row(k) * self.tile.y
    }

    /// Pixel `(x, y)` lies in the `k`-th cell.
    pub open spec fn in_cell(self, k: int, x: int, y: int) -> bool {
        &&& self.origin_x(k) <= x < self.origin_x(k) + self.tile.x
        &&& self.origin_y(k) <= y < self.origin_y(k) + self.tile.y
    }

    /// The index of the cell that holds pixel `(x, y)` of the canvas.
    pub open spec fn cell_at(self, x: int, y: int) -> int {
        let c = x / (self.tile.x as int);
        let r = y / (self.tile.y as int);
        match self.direction {
            WriteDirection::X => r * self.major + c,
            WriteDirection::Y => c * self.major + r,
        }
    }

    /// Where the `k`-th image goes: the top-left pixel of its cell.
    pub fn cell_origin(&self, k: usize) -> (o: (u32, u32))
        requires
            self.wf(),
            k < self.image_count,
        ensures
            o.0 == self.origin_x(k as int),
            o.1 == self.origin_y(k as int),
            o.0 + self.tile.x <= self.width,
            o.1 + self.tile.y <= self.height,
    {
        proof {
            lemma_cell_in_canvas(*self, k as int);
        }
        let m = self.major as usize;
        let (col, row): (usize, usize) = match self.direction {
            WriteDirection::X => (k % m, k / m),
            WriteDirection::Y => (k / m, k % m),
        };
        proof {
            assert(col == self.cell_col(k as int) && row == self.cell_row(k as int));
            assert(col <= col * self.tile.x) by (nonlinear_arith)
                requires
                    self.tile.x >= 1,
            ;
            assert(row <= row * self.tile.y) by (nonlinear_arith)
                requires
                    self.tile.y >= 1,
            ;
        }
        ((col as u32) * self.tile.x, (row as u32) * self.tile.y)
    }
}

/// Computes the grid for `image_count` tiles of size `tile`, with at most
/// `max_extent` pixels along the major axis (but never fewer than one tile).
pub fn compute_layout(
    image_count: usize,
    tile: Dimensions,
    max_extent: u32,
    direction: WriteDirection,
) -> (r: Result<Layout, StitchError>)
    requires
        tile.wf(),
    ensures
        image_count == 0 ==> r == Err::<Layout, StitchError>(StitchError::EmptyInput),
        image_count > 0 && !canvas_fits(image_count as int, max_extent as int, tile, direction)
            ==> r == Err::<Layout, StitchError>(StitchError::CanvasTooLarge),
        image_count > 0 && canvas_fits(image_count as int, max_extent as int, tile, direction)
            ==> r is Ok,
        r matches Ok(l) ==> {
            &&& l.wf()
            &&& l == layout_of(image_count as int, max_extent as int, tile, direction)
            &&& l.tile == tile
            &&& l.direction == direction
            &&& l.image_count == image_count
            &&& l.major == major_tile_count(max_extent as int, tile, direction)
            &&& l.minor == minor_tile_count(image_count as int, max_extent as int, tile, direction)
            &&& l.width == canvas_width_of(image_count as int, max_extent as int, tile, direction)
            &&& l.height == canvas_height_of(image_count as int, max_extent as int, tile, direction)
        },
{
    if image_count == 0 {
        return Err(StitchError::EmptyInput);
    }
    let side: u32 = match direction {
        WriteDirection::X => tile.x,
        WriteDirection::Y => tile.y,
    };
    let c: u32 = max_extent / side;
    let major: u32 = if c == 0 {
        1
    } else {
        c
    };
    let n: u128 = image_count as u128;
    let m: u128 = major as u128;
    let minor: u128 = n / m + if n % m == 0 {
        0
    } else {
        1
    };
    proof {
        lemma_layout_covers(image_count as int, tile, max_extent as int, direction);
        assert(n / m <= n) by (nonlinear_arith)
            requires
                m >= 1,
                n >= 0,
        ;
    }
    let tx: u128 = tile.x as u128;
    let ty: u128 = tile.y as u128;
    proof {
        assert(minor * tx <= (n + 1) * 0xffff_ffff) by (nonlinear_arith)
            requires
                minor <= n + 1,
                tx <= 0xffff_ffff,
                minor >= 0,
        ;
        assert(minor * ty <= (n + 1) * 0xffff_ffff) by (nonlinear_arith)
            requires
                minor <= n + 1,
                ty <= 0xffff_ffff,
                minor >= 0,
        ;
        assert(m * tx <= 0xffff_ffff * 0xffff_ffff) by (nonlinear_arith)
            requires
                m <= 0xffff_ffff,
                tx <= 0xffff_ffff,
        ;
        assert(m * ty <= 0xffff_ffff * 0xffff_ffff) by (nonlinear_arith)
            requires
                m <= 0xffff_ffff,
                ty <= 0xffff_ffff,
        ;
    }
    let (w, h): (u128, u128) = match direction {
        WriteDirection::X => (m * tx, minor * ty),
        WriteDirection::Y => (minor * tx, m * ty),
    };
    if w > u32::MAX as u128 || h > u32::MAX as u128 {
        return Err(StitchError::CanvasTooLarge);
    }
    proof {
        assert(minor <= w || minor <= h) by (nonlinear_arith)
            requires
                tx >= 1,
                ty >= 1,
                minor >= 0,
                w == minor * tx || h == minor * ty,
        ;
    }
    Ok(
        Layout {
            tile,
            direction,
            image_count,
            major,
            minor: minor as u32,
            width: w as u32,
            height: h as u32,
        },
    )
}

/// For at least one image, the grid has at least one tile along each axis,
/// and enough cells for every image.
pub proof fn lemma_layout_covers(n: int, t: Dimensions, max_extent: int, d: WriteDirection)
    requires
        n >= 1,
        t.wf(),
        max_extent >= 0,
    ensures
        major_tile_count(max_extent, t, d) >= 1,
        minor_tile_count(n, max_extent, t, d) >= 1,
        major_tile_count(max_extent, t, d) * minor_tile_count(n, max_extent, t, d) >= n,
{
    let m = major_tile_count(max_extent, t, d);
    let q = n / m;
    let r = n % m;
    lemma_fundamental_div_mod(n, m);
    assert(0 <= r < m);
    assert(q >= 0) by (nonlinear_arith)
        requires
            m >= 1,
            n >= 0,
            q == n / m,
    ;
    if r == 0 {
        assert(q >= 1) by (nonlinear_arith)
            requires
                n == m * q,
                n >= 1,
                m >= 1,
        ;
        assert(m * ceil_div(n, m) == n);
    } else {
        assert(m * (q + 1) >= n) by (nonlinear_arith)
            requires
                n == m * q + r,
                r < m,
        ;
    }
}

/// `a * b + b <= bound * b` whenever `a < bound`.
proof fn lemma_mul_bound(a: int, b: int, bound: int)
    requires
        0 <= a < bound,
        0 <= b,
    ensures
        a * b + b <= bound * b,
{
    assert(a * b + b <= bound * b) by (nonlinear_arith)
        requires
            a < bound,
            b >= 0,
    ;
}

/// `q == x / d` exactly when `x` lies in the window `[q * d, q * d + d)`.
proof fn lemma_div_window(x: int, d: int, q: int)
    requires
        d > 0,
    ensures
        (q * d <= x < q * d + d) <==> q == x / d,
{
    lemma_fundamental_div_mod(x, d);
    assert(0 <= x % d < d);
    assert(x == (x / d) * d + x % d) by (nonlinear_arith)
        requires
            x == d * (x / d) + (x % d),
    ;
    if q * d <= x < q * d + d {
        lemma_fundamental_div_mod_converse(x, d, q, x - q * d);
    }
}

/// A pair `(q, r)` with `0 <= r < m` is the quotient and remainder of `k` by `m`
/// exactly when `k == q * m + r`.
proof fn lemma_div_mod_pair(k: int, m: int, q: int, r: int)
    requires
        m > 0,
        0 <= r < m,
    ensures
        (k == q * m + r) <==> (q == k / m && r == k % m),
{
    lemma_fundamental_div_mod(k, m);
    assert(k == (k / m) * m + k % m) by (nonlinear_arith)
        requires
            k == m * (k / m) + (k % m),
    ;
    if k == q * m + r {
        lemma_fundamental_div_mod_converse(k, m, q, r);
    }
}

/// Every image's cell lies inside the canvas.
pub proof fn lemma_cell_in_canvas(l: Layout, k: int)
    requires
        l.wf(),
        0 <= k < l.image_count,
    ensures
        0 <= l.cell_col(k),
        0 <= l.cell_row(k),
        0 <= l.origin_x(k),
        0 <= l.origin_y(k),
        l.origin_x(k) + l.tile.x <= l.width,
        l.origin_y(k) + l.tile.y <= l.height,
{
    let m = l.major as int;
    let mi = l.minor as int;
    lemma_fundamental_div_mod(k, m);
    assert(0 <= k % m < m);
    assert(0 <= k / m < mi) by (nonlinear_arith)
        requires
            k == m * (k / m) + (k % m),
            0 <= k % m < m,
            0 <= k < m * mi,
            m >= 1,
    ;
    match l.direction {
        WriteDirection::X => {
            lemma_mul_bound(k % m, l.tile.x as int, m);
            lemma_mul_bound(k / m, l.tile.y as int, mi);
        },
        WriteDirection::Y => {
            lemma_mul_bound(k / m, l.tile.x as int, mi);
            lemma_mul_bound(k % m, l.tile.y as int, m);
        },
    }
    assert(0 <= l.cell_col(k) * l.tile.x) by (nonlinear_arith)
        requires
            0 <= l.cell_col(k),
    ;
    assert(0 <= l.cell_row(k) * l.tile.y) by (nonlinear_arith)
        requires
            0 <= l.cell_row(k),
    ;
}

/// A pixel of the canvas lies in the `k`-th cell exactly when `k` is the
/// index that `cell_at` gives it: each pixel has one cell and one only.
pub proof fn lemma_cell_unique(l: Layout, k: int, x: int, y: int)
    requires
        l.wf(),
        0 <= k,
        0 <= x < l.width,
        0 <= y < l.height,
    ensures
        l.in_cell(k, x, y) <==> k == l.cell_at(x, y),
        0 <= l.cell_at(x, y),
{
    let m = l.major as int;
    let tx = l.tile.x as int;
    let ty = l.tile.y as int;
    lemma_fundamental_div_mod(k, m);
    assert(0 <= k % m < m);
    assert(k / m >= 0) by (nonlinear_arith)
        requires
            k >= 0,
            m >= 1,
    ;
    lemma_div_window(x, tx, l.cell_col(k));
    lemma_div_window(y, ty, l.cell_row(k));
    lemma_fundamental_div_mod(x, tx);
    lemma_fundamental_div_mod(y, ty);
    match l.direction {
        WriteDirection::X => {
            assert(x / tx < m) by (nonlinear_arith)
                requires
                    x == tx * (x / tx) + (x % tx),
                    0 <= x % tx,
                    x < m * tx,
                    tx >= 1,
            ;
            assert(x / tx >= 0) by (nonlinear_arith)
                requires
                    x >= 0,
                    tx >= 1,
            ;
            lemma_div_mod_pair(k, m, y / ty, x / tx);
            assert(y / ty >= 0) by (nonlinear_arith)
                requires
                    y >= 0,
                    ty >= 1,
            ;
            assert((y / ty) * m >= 0) by (nonlinear_arith)
                requires
                    y / ty >= 0,
                    m >= 1,
            ;
        },
        WriteDirection::Y => {
            assert(y / ty < m) by (nonlinear_arith)
                requires
                    y == ty * (y / ty) + (y % ty),
                    0 <= y % ty,
                    y < m * ty,
                    ty >= 1,
            ;
            assert(y / ty >= 0) by (nonlinear_arith)
                requires
                    y >= 0,
                    ty >= 1,
            ;
            lemma_div_mod_pair(k, m, x / tx, y / ty);
            assert(x / tx >= 0) by (nonlinear_arith)
                requires
                    x >= 0,
                    tx >= 1,
            ;
            assert((x / tx) * m >= 0) by (nonlinear_arith)
                requires
                    x / tx >= 0,
                    m >= 1,
            ;
        },
    }
}

/// No two images' cells overlap.
pub proof fn lemma_cells_disjoint(l: Layout, k1: int, k2: int, x: int, y: int)
    requires
        l.wf(),
        0 <= k1 < l.image_count,
        0 <= k2 < l.image_count,
        k1 != k2,
    ensures
        !(l.in_cell(k1, x, y) && l.in_cell(k2, x, y)),
{
    if l.in_cell(k1, x, y) {
        lemma_cell_in_canvas(l, k1);
        lemma_cell_unique(l, k1, x, y);
        lemma_cell_unique(l, k2, x, y);
    }
}

} // verus!
