//! Canvas dimensions, the row-major cell index and the quadrant partition.

use vstd::arithmetic::div_mod::{
    lemma_div_by_multiple, lemma_fundamental_div_mod, lemma_fundamental_div_mod_converse,
};
use vstd::arithmetic::mul::{lemma_mul_inequality, lemma_mul_strict_inequality};
use vstd::prelude::*;

verus! {

/// Why a set of canvas dimensions was refused.
#[derive(Debug, Clone, Copy, PartialEq, Eq, Structural)]
pub enum GeometryError {
    /// A dimension or the quadrant size is zero.
    ZeroDimension,
    /// The quadrant size does not divide the width or the height.
    UnevenQuadrants,
    /// The bit offset of the last cell would not fit in a `usize`.
    TooLarge,
}

/// The dimensions of a canvas of `width` × `height` cells, cut into square
/// quadrants of `quadrant_size` cells a side.
#[derive(Debug, Clone, Copy, PartialEq, Eq, Structural)]
pub struct Geometry {
    pub width: usize,
    pub height: usize,
    pub quadrant_size: usize,
}

/// A quadrant of the canvas: its id and the coordinates of its top-left cell.
#[derive(Debug, Clone, Copy, PartialEq, Eq, Structural)]
pub struct Quadrant {
    pub id: usize,
    pub x: usize,
    pub y: usize,
}

impl Geometry {
    /// Dimensions that the rest of the library can work with: nothing is
    /// zero, quadrants tile both axes exactly, and `4 · width · height` (the
    /// bit length of the packed canvas) fits in a `usize`.
    pub open spec fn wf(&self) -> bool {
        &&& self.width > 0
        &&& self.height > 0
        &&& self.quadrant_size > 0
        &&& self.width % self.quadrant_size == 0
        &&& self.height % self.quadrant_size == 0
        &&& 4 * self.width * self.height <= usize::MAX
    }

    pub open spec fn cell_count(&self) -> nat {
        (self.width * self.height) as nat
    }

    pub open spec fn in_bounds(&self, x: int, y: int) -> bool {
        0 <= x < self.width && 0 <= y < self.height
    }

    /// Row-major linear index of a cell.
    pub open spec fn index_of(&self, x: int, y: int) -> int {
        y * self.width + x
    }

    /// Number of quadrant columns.
    pub open spec fn columns(&self) -> int {
        self.width as int / self.quadrant_size as int
    }

    /// Number of quadrant rows.
    pub open spec fn rows(&self) -> int {
        self.height as int / self.quadrant_size as int
    }

    pub open spec fn quadrant_count(&self) -> int {
        self.columns() * self.rows()
    }

    /// Id of the quadrant that holds cell `(x, y)`.
    pub open spec fn quadrant_id_of(&self, x: int, y: int) -> int {
        x / self.quadrant_size as int + (y / self.quadrant_size as int) * self.columns()
    }

    /// The quadrant whose id is `k`: quadrants are numbered row by row.
    pub open spec fn quadrant_at(&self, k: int) -> Quadrant {
        Quadrant {
            id: k as usize,
            x: ((k % self.columns()) * self.quadrant_size) as usize,
            y: ((k / self.columns()) * self.quadrant_size) as usize,
        }
    }

    /// Every quadrant, in id order.
    pub open spec fn quadrants(&self) -> Seq<Quadrant> {
        Seq::new(self.quadrant_count() as nat, |k: int| self.quadrant_at(k))
    }

    /// Whether cell `(x, y)` lies in quadrant `q`.
    pub open spec fn covers(&self, q: Quadrant, x: int, y: int) -> bool {
        &&& q.x <= x < q.x + self.quadrant_size
        &&& q.y <= y < q.y + self.quadrant_size
    }

    /// Builds a geometry, refusing dimensions that cannot be tiled or packed.
    pub fn new(width: usize, height: usize, quadrant_size: usize) -> (r: Result<
        Geometry,
        GeometryError,
    >)
        ensures
            (width == 0 || height == 0 || quadrant_size == 0) <==> r == Err::<
                Geometry,
                GeometryError,
            >(GeometryError::ZeroDimension),
            (width > 0 && height > 0 && quadrant_size > 0 && (width % quadrant_size != 0
                || height % quadrant_size != 0)) <==> r == Err::<Geometry, GeometryError>(
                GeometryError::UnevenQuadrants,
            ),
            r == Err::<Geometry, GeometryError>(GeometryError::TooLarge) <==> (width > 0
                && height > 0 && quadrant_size > 0 && width % quadrant_size == 0 && height
                % quadrant_size == 0 && 4 * width * height > usize::MAX),
            r is Ok <==> (Geometry { width, height, quadrant_size }).wf(),
            r matches Ok(g) ==> g.wf() && g.width == width && g.height == height
                && g.quadrant_size == quadrant_size,
    {
        if width == 0 || height == 0 || quadrant_size == 0 {
            return Err(GeometryError::ZeroDimension);
        }
        if width % quadrant_size != 0 || height % quadrant_size != 0 {
            return Err(GeometryError::UnevenQuadrants);
        }
        let cells = width.checked_mul(height);
        match cells {
            None => {
                proof {
                    lemma_mul_inequality(1, 4, width as int * height as int);
                    assert(4 * width * height == 4 * (width * height)) by (nonlinear_arith);
                }
                Err(GeometryError::TooLarge)
            },
            Some(c) => match c.checked_mul(4) {
                None => {
                    assert(4 * width * height == c * 4) by (nonlinear_arith)
                        requires c == width * height;
                    Err(GeometryError::TooLarge)
                },
                Some(_) => {
                    assert(4 * width * height == c * 4) by (nonlinear_arith)
                        requires c == width * height;
                    Ok(Geometry { width, height, quadrant_size })
                },
            },
        }
    }
}

/// Row-major linear index of cell `(x, y)`: `y · width + x`.
pub fn calculate_index(g: &Geometry, x: usize, y: usize) -> (r: usize)
    requires
        g.wf(),
        g.in_bounds(x as int, y as int),
    ensures
        r == g.index_of(x as int, y as int),
        r < g.cell_count(),
{
    proof {
        lemma_index_in_range(*g, x as int, y as int);
    }
    y * g.width + x
}

/// Id of the quadrant that holds cell `(x, y)`.
pub fn calculate_quadrant_id(g: &Geometry, x: usize, y: usize) -> (r: usize)
    requires
        g.wf(),
        g.in_bounds(x as int, y as int),
    ensures
        r == g.quadrant_id_of(x as int, y as int),
        r < g.quadrant_count(),
{
    proof {
        lemma_quadrant_id_in_range(*g, x as int, y as int);
    }
    let q = g.quadrant_size;
    x / q + (y / q) * (g.width / q)
}

/// Every quadrant of the canvas, row of quadrants by row, left to right.
pub fn enumerate_quadrants(g: &Geometry) -> (r: Vec<Quadrant>)
    requires
        g.wf(),
    ensures
        r@ == g.quadrants(),
{
    let q = g.quadrant_size;
    let cols = g.width / q;
    let rows = g.height / q;
    proof {
        lemma_tiles(*g);
    }
    let mut out: Vec<Quadrant> = Vec::new();
    let mut ty: usize = 0;
    while ty < rows
        invariant
            g.wf(),
            q == g.quadrant_size,
            cols == g.columns(),
            rows == g.rows(),
            cols * q == g.width,
            rows * q == g.height,
            0 <= ty <= rows,
            out@ == g.quadrants().take(ty * cols),
        decreases rows - ty,
    {
        let mut tx: usize = 0;
        while tx < cols
            invariant
                g.wf(),
                q == g.quadrant_size,
                cols == g.columns(),
                rows == g.rows(),
                cols * q == g.width,
                rows * q == g.height,
                0 <= ty < rows,
                0 <= tx <= cols,
                out@ == g.quadrants().take(ty * cols + tx),
            decreases cols - tx,
        {
            proof {
                lemma_mul_strict_inequality(tx as int, cols as int, q as int);
                lemma_mul_strict_inequality(ty as int, rows as int, q as int);
                lemma_mul_inequality(ty as int + 1, rows as int, cols as int);
                assert((ty + 1) * cols == ty * cols + cols) by (nonlinear_arith);
                assert(rows * cols == cols * rows) by (nonlinear_arith);
            }
            let x = tx * q;
            let y = ty * q;
            let id = calculate_quadrant_id(g, x, y);
            proof {
                let k = ty * cols + tx;
                lemma_div_by_multiple(tx as int, q as int);
                lemma_div_by_multiple(ty as int, q as int);
                lemma_fundamental_div_mod_converse(k, cols as int, ty as int, tx as int);
                assert(id == k);
                assert(g.quadrant_at(k) == Quadrant { id, x, y });
                assert(g.quadrants().take(k + 1) =~= g.quadrants().take(k).push(
                    Quadrant { id, x, y },
                ));
            }
            out.push(Quadrant { id, x, y });
            tx = tx + 1;
        }
        assert((ty + 1) * cols == ty * cols + cols) by (nonlinear_arith);
        ty = ty + 1;
    }
    proof {
        assert(rows * cols == cols * rows) by (nonlinear_arith);
        assert(g.quadrants().take(rows * cols) =~= g.quadrants());
    }
    out
}

/// The quadrants tile the canvas: each cell lies in exactly one quadrant of
/// the enumeration, and that quadrant's position and id are the id that the
/// row-major quadrant formula gives for the cell.
pub proof fn lemma_quadrant_coverage(g: Geometry, x: int, y: int)
    requires
        g.wf(),
        g.in_bounds(x, y),
    ensures
        0 <= g.quadrant_id_of(x, y) < g.quadrants().len(),
        g.quadrants()[g.quadrant_id_of(x, y)].id == g.quadrant_id_of(x, y),
        g.covers(g.quadrants()[g.quadrant_id_of(x, y)], x, y),
        forall|k: int|
            0 <= k < g.quadrants().len() && #[trigger] g.covers(g.quadrants()[k], x, y) ==> k
                == g.quadrant_id_of(x, y),
{
    let q = g.quadrant_size as int;
    let cols = g.columns();
    lemma_tiles(g);
    lemma_quadrant_id_in_range(g, x, y);
    let tx = x / q;
    let ty = y / q;
    let k0 = g.quadrant_id_of(x, y);
    assert(k0 == ty * cols + tx);
    lemma_fundamental_div_mod_converse(k0, cols, ty, tx);
    lemma_fundamental_div_mod(x, q);
    lemma_fundamental_div_mod(y, q);
    assert(tx * q == q * tx) by (nonlinear_arith);
    assert(ty * q == q * ty) by (nonlinear_arith);
    assert forall|k: int|
        0 <= k < g.quadrants().len() && #[trigger] g.covers(g.quadrants()[k], x, y) implies k
            == k0 by {
        let kx = k % cols;
        let ky = k / cols;
        lemma_fundamental_div_mod(k, cols);
        assert(0 <= kx < cols);
        assert(0 <= ky) by (nonlinear_arith)
            requires
                k >= 0,
                cols > 0,
                ky == k / cols,
        ;
        assert(0 <= kx * q) by (nonlinear_arith)
            requires
                0 <= kx,
                q > 0,
        ;
        assert(0 <= ky * q) by (nonlinear_arith)
            requires
                0 <= ky,
                q > 0,
        ;
        assert(ky < g.rows()) by (nonlinear_arith)
            requires
                k == cols * ky + kx,
                0 <= kx,
                k < cols * g.rows(),
                cols > 0,
        ;
        lemma_mul_strict_inequality(kx, cols, q);
        lemma_mul_strict_inequality(ky, g.rows(), q);
        let kq = g.quadrants()[k];
        assert(kq.x == kx * q);
        assert(kq.y == ky * q);
        lemma_fundamental_div_mod_converse(x, q, kx, x - kx * q);
        lemma_fundamental_div_mod_converse(y, q, ky, y - ky * q);
        assert(k == cols * ky + kx);
        assert(cols * ky == ky * cols) by (nonlinear_arith);
    }
}

/// Where each quadrant lies: the one in tile column `tx` and tile row `ty`
/// has id `tx + ty · columns` and its top-left cell at
/// `(tx · quadrant_size, ty · quadrant_size)`.
pub proof fn lemma_quadrant_at(g: Geometry, tx: int, ty: int)
    requires
        g.wf(),
        0 <= tx < g.columns(),
        0 <= ty < g.rows(),
    ensures
        0 <= tx + ty * g.columns() < g.quadrants().len(),
        g.quadrants()[tx + ty * g.columns()] == (Quadrant {
            id: (tx + ty * g.columns()) as usize,
            x: (tx * g.quadrant_size) as usize,
            y: (ty * g.quadrant_size) as usize,
        }),
{
    let cols = g.columns();
    let k = tx + ty * cols;
    lemma_tiles(g);
    assert(ty * cols == cols * ty) by (nonlinear_arith);
    lemma_fundamental_div_mod_converse(k, cols, ty, tx);
    lemma_mul_inequality(ty + 1, g.rows(), cols);
    assert((ty + 1) * cols == ty * cols + cols) by (nonlinear_arith);
    assert(g.rows() * cols == cols * g.rows()) by (nonlinear_arith);
    assert(0 <= ty * cols) by (nonlinear_arith)
        requires
            0 <= ty,
            0 <= cols,
    ;
}

/// The column and row counts multiply back to the dimensions.
pub(crate) proof fn lemma_tiles(g: Geometry)
    requires
        g.wf(),
    ensures
        g.columns() * g.quadrant_size == g.width,
        g.rows() * g.quadrant_size == g.height,
        g.columns() > 0,
        g.rows() > 0,
        g.quadrant_count() <= g.cell_count(),
        g.cell_count() <= usize::MAX,
{
    lemma_fundamental_div_mod(g.width as int, g.quadrant_size as int);
    lemma_fundamental_div_mod(g.height as int, g.quadrant_size as int);
    assert(g.columns() * g.quadrant_size == g.quadrant_size * g.columns()) by (nonlinear_arith);
    assert(g.rows() * g.quadrant_size == g.quadrant_size * g.rows()) by (nonlinear_arith);
    assert(g.columns() > 0) by (nonlinear_arith)
        requires
            g.columns() * g.quadrant_size == g.width,
            g.width > 0,
            g.quadrant_size > 0,
            g.columns() >= 0,
    ;
    assert(g.rows() > 0) by (nonlinear_arith)
        requires
            g.rows() * g.quadrant_size == g.height,
            g.height > 0,
            g.quadrant_size > 0,
            g.rows() >= 0,
    ;
    assert(g.quadrant_count() <= g.cell_count()) by (nonlinear_arith)
        requires
            g.columns() * g.quadrant_size == g.width,
            g.rows() * g.quadrant_size == g.height,
            g.quadrant_size >= 1,
            g.columns() > 0,
            g.rows() > 0,
            g.quadrant_count() == g.columns() * g.rows(),
    ;
    assert(4 * g.width * g.height == 4 * (g.width * g.height)) by (nonlinear_arith);
}

proof fn lemma_index_in_range(g: Geometry, x: int, y: int)
    requires
        g.wf(),
        g.in_bounds(x, y),
    ensures
        0 <= g.index_of(x, y) < g.cell_count(),
        4 * g.index_of(x, y) + 3 <= usize::MAX,
{
    lemma_mul_inequality(y + 1, g.height as int, g.width as int);
    assert((y + 1) * g.width == y * g.width + g.width) by (nonlinear_arith);
    assert(0 <= y * g.width) by (nonlinear_arith)
        requires
            0 <= y,
            0 <= g.width,
    ;
    assert(g.height * g.width == g.width * g.height) by (nonlinear_arith);
    assert(4 * g.width * g.height == 4 * (g.width * g.height)) by (nonlinear_arith);
}

proof fn lemma_quadrant_id_in_range(g: Geometry, x: int, y: int)
    requires
        g.wf(),
        g.in_bounds(x, y),
    ensures
        0 <= g.quadrant_id_of(x, y) < g.quadrant_count(),
        0 <= x / (g.quadrant_size as int) < g.columns(),
        0 <= y / (g.quadrant_size as int) < g.rows(),
        g.quadrant_count() <= usize::MAX,
{
    let q = g.quadrant_size as int;
    lemma_tiles(g);
    lemma_fundamental_div_mod(x, q);
    lemma_fundamental_div_mod(y, q);
    let tx = x / q;
    let ty = y / q;
    assert(0 <= tx) by (nonlinear_arith)
        requires
            x >= 0,
            q > 0,
            tx == x / q,
    ;
    assert(0 <= ty) by (nonlinear_arith)
        requires
            y >= 0,
            q > 0,
            ty == y / q,
    ;
    assert(tx < g.columns()) by (nonlinear_arith)
        requires
            x == q * tx + x % q,
            0 <= x % q,
            x < g.width,
            g.columns() * q == g.width,
            q > 0,
    ;
    assert(ty < g.rows()) by (nonlinear_arith)
        requires
            y == q * ty + y % q,
            0 <= y % q,
            y < g.height,
            g.rows() * q == g.height,
            q > 0,
    ;
    lemma_mul_inequality(ty + 1, g.rows(), g.columns());
    assert((ty + 1) * g.columns() == ty * g.columns() + g.columns()) by (nonlinear_arith);
    assert(g.rows() * g.columns() == g.columns() * g.rows()) by (nonlinear_arith);
    assert(0 <= ty * g.columns()) by (nonlinear_arith)
        requires
            0 <= ty,
            0 <= g.columns(),
    ;
}

} // verus!
