//! An in-memory canvas: one coloured, timestamped cell per coordinate.

use crate::clock::now_millis;
use crate::codec::{
    lemma_write_cell_isolation, pack, packed, CodecError, valid_color, valid_colors, with_nibble,
    PALETTE_SIZE,
};
use crate::geometry::{calculate_index, lemma_tiles, Geometry};
use rand::Rng;
use vstd::prelude::*;

verus! {

/// Relies on rand's `thread_rng` and `Rng::gen_range`: a value drawn from
/// `0..bound` (which panics on an empty range, hence `bound > 0`).
#[verifier::external_body]
fn random_below(bound: u8) -> (r: u8)
    requires
        bound > 0,
    ensures
        r < bound,
{
    rand::thread_rng().gen_range(0..bound)
}

/// One cell of the canvas: a palette index and the time of its last write,
/// in milliseconds (truncated to 32 bits).
#[derive(Debug, Clone, Copy, PartialEq, Eq, Structural)]
pub struct Cell {
    pub color: u8,
    pub timestamp: u32,
}

impl Cell {
    pub open spec fn new_spec(color: u8, timestamp: u32) -> Cell {
        Cell { color, timestamp }
    }

    pub fn new(color: u8, timestamp: u32) -> (r: Cell)
        requires
            valid_color(color),
        ensures
            r == (Cell { color, timestamp }),
    {
        Cell { color, timestamp }
    }

    pub fn color(&self) -> (r: u8)
        ensures
            r == self.color,
    {
        self.color
    }

    pub fn timestamp(&self) -> (r: u32)
        ensures
            r == self.timestamp,
    {
        self.timestamp
    }
}

/// The colours of a row of cells.
pub open spec fn colors_of(cells: Seq<Cell>) -> Seq<u8> {
    cells.map_values(|c: Cell| c.color)
}

/// A canvas held in memory, cells in row-major order.
pub struct Grid {
    pub geometry: Geometry,
    pub cells: Vec<Cell>,
}

impl Grid {
    /// One cell per coordinate, each with a colour of the palette.
    pub open spec fn wf(&self) -> bool {
        &&& self.geometry.wf()
        &&& self.cells@.len() == self.geometry.cell_count()
        &&& valid_colors(colors_of(self.cells@))
    }

    /// A canvas of the given dimensions filled with random colours, every
    /// timestamp zero.
    pub fn new(geometry: &Geometry) -> (r: Grid)
        requires
            geometry.wf(),
        ensures
            r.wf(),
            r.geometry == *geometry,
            forall|i: int| 0 <= i < r.cells@.len() ==> (#[trigger] r.cells@[i]).timestamp == 0,
    {
        proof {
            lemma_tiles(*geometry);
        }
        let n = geometry.width * geometry.height;
        let mut cells: Vec<Cell> = Vec::with_capacity(n);
        let mut i: usize = 0;
        while i < n
            invariant
                0 <= i <= n,
                n == geometry.cell_count(),
                cells@.len() == i,
                valid_colors(colors_of(cells@)),
                forall|k: int| 0 <= k < cells@.len() ==> (#[trigger] cells@[k]).timestamp == 0,
            decreases n - i,
        {
            let color = random_below(PALETTE_SIZE);
            proof {
                assert(colors_of(cells@.push(Cell { color, timestamp: 0 })) =~= colors_of(
                    cells@,
                ).push(color));
            }
            cells.push(Cell { color, timestamp: 0 });
            i = i + 1;
        }
        Grid { geometry: *geometry, cells }
    }

    /// Sets the colour of cell `(x, y)`, stamped with the current time.
    /// `None`, with nothing changed, where the cell is off the canvas or the
    /// colour is not in the palette.
    pub fn modify_cell(&mut self, x: usize, y: usize, color: u8) -> (r: Option<()>)
        requires
            old(self).wf(),
        ensures
            final(self).wf(),
            final(self).geometry == old(self).geometry,
            r is Some <==> old(self).geometry.in_bounds(x as int, y as int) && valid_color(color),
            r is None ==> final(self).cells@ == old(self).cells@,
            r is Some ==> exists|t: u32|
                final(self).cells@ == old(self).cells@.update(
                    old(self).geometry.index_of(x as int, y as int),
                    #[trigger] Cell::new_spec(color, t),
                ),
    {
        let now = now_millis();
        let stamp: u32 = #[verifier::truncate] (now as u32);
        let r = self.modify_cell_at(x, y, color, stamp);
        proof {
            assert(Cell::new_spec(color, stamp) == Cell { color, timestamp: stamp });
        }
        r
    }

    /// Sets cell `(x, y)` to `color` with the given timestamp.
    /// `None`, with nothing changed, where the cell is off the canvas or the
    /// colour is not in the palette.
    pub fn modify_cell_at(&mut self, x: usize, y: usize, color: u8, timestamp: u32) -> (r: Option<
        (),
    >)
        requires
            old(self).wf(),
        ensures
            final(self).wf(),
            final(self).geometry == old(self).geometry,
            r is Some <==> old(self).geometry.in_bounds(x as int, y as int) && valid_color(color),
            r is None ==> final(self).cells@ == old(self).cells@,
            r is Some ==> final(self).cells@ == old(self).cells@.update(
                old(self).geometry.index_of(x as int, y as int),
                Cell { color, timestamp },
            ),
    {
        if x >= self.geometry.width || y >= self.geometry.height || color >= PALETTE_SIZE {
            return None;
        }
        let index = calculate_index(&self.geometry, x, y);
        self.cells.set(index, Cell::new(color, timestamp));
        proof {
            assert(colors_of(self.cells@) =~= colors_of(old(self).cells@).update(
                index as int,
                color,
            ));
        }
        Some(())
    }

    /// The cell at `(x, y)`, or `None` off the canvas.
    pub fn get_cell(&self, x: usize, y: usize) -> (r: Option<&Cell>)
        requires
            self.wf(),
        ensures
            r is Some <==> self.geometry.in_bounds(x as int, y as int),
            r matches Some(c) ==> *c == self.cells@[self.geometry.index_of(x as int, y as int)],
    {
        if x < self.geometry.width && y < self.geometry.height {
            let index = calculate_index(&self.geometry, x, y);
            Some(&self.cells[index])
        } else {
            None
        }
    }

    /// The canvas in packed form; `InvalidColor` if a cell holds a colour
    /// outside the palette.
    pub fn to_bitfield(&self) -> (r: Result<Vec<u8>, CodecError>)
        ensures
            r is Err <==> !valid_colors(colors_of(self.cells@)),
            r is Err ==> r == Err::<Vec<u8>, CodecError>(CodecError::InvalidColor),
            r matches Ok(b) ==> b@ == packed(colors_of(self.cells@)),
    {
        let mut colors: Vec<u8> = Vec::with_capacity(self.cells.len());
        let mut i: usize = 0;
        while i < self.cells.len()
            invariant
                0 <= i <= self.cells@.len(),
                colors@ == colors_of(self.cells@).take(i as int),
            decreases self.cells@.len() - i,
        {
            colors.push(self.cells[i].color);
            proof {
                assert(colors_of(self.cells@).take(i + 1) =~= colors@);
            }
            i = i + 1;
        }
        proof {
            assert(colors_of(self.cells@).take(i as int) =~= colors_of(self.cells@));
        }
        pack(&colors)
    }
}

/// Repainting one cell of a grid changes its packed form in that cell's
/// nibble alone: the bitfield after `modify_cell_at` is the old bitfield
/// with a single-nibble write.
pub proof fn lemma_grid_write_isolation(cells: Seq<Cell>, i: int, cell: Cell)
    requires
        valid_colors(colors_of(cells)),
        0 <= i < cells.len(),
        valid_color(cell.color),
    ensures
        packed(colors_of(cells.update(i, cell))) == with_nibble(
            packed(colors_of(cells)),
            i,
            cell.color,
        ),
{
    assert(colors_of(cells.update(i, cell)) =~= colors_of(cells).update(i, cell.color));
    lemma_write_cell_isolation(colors_of(cells), i, cell.color);
}

} // verus!
