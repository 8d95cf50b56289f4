//! The packed canvas: two 4-bit colours per byte, cell `i` in byte `i / 2`.
//! An even cell takes the high half of its byte and an odd cell the low
//! half, so cell `i` starts at bit `4 · i` counted from the most significant
//! bit of the first byte — the addressing that a bit-field store uses.

use crate::geometry::{calculate_index, Geometry};
use vstd::arithmetic::div_mod::lemma_fundamental_div_mod_converse;
use vstd::prelude::*;

verus! {

/// Number of colours in the palette; a colour is an index below it.
pub const PALETTE_SIZE: u8 = 16;

/// Why a codec operation refused its input.
#[derive(Debug, Clone, Copy, PartialEq, Eq, Structural)]
pub enum CodecError {
    /// A colour does not fit in four bits.
    InvalidColor,
    /// A coordinate lies outside the canvas.
    OutOfBounds,
    /// A packed buffer holds fewer cells than asked for.
    BufferTooShort,
}

pub open spec fn valid_color(c: u8) -> bool {
    c < 16
}

pub open spec fn valid_colors(cells: Seq<u8>) -> bool {
    forall|i: int| 0 <= i < cells.len() ==> valid_color(#[trigger] cells[i])
}

/// Bytes needed for `n` cells: `ceil(n / 2)`.
pub open spec fn packed_len(n: int) -> int {
    (n + 1) / 2
}

/// Colour of cell `i`, or 0 past the end (the padding nibble of an odd count).
pub open spec fn color_or_zero(cells: Seq<u8>, i: int) -> u8 {
    if 0 <= i < cells.len() {
        cells[i]
    } else {
        0
    }
}

/// The packed form of a colour sequence.
pub open spec fn packed(cells: Seq<u8>) -> Seq<u8> {
    Seq::new(
        packed_len(cells.len() as int) as nat,
        |j: int| (color_or_zero(cells, 2 * j) * 16 + color_or_zero(cells, 2 * j + 1)) as u8,
    )
}

/// The colour that a packed buffer holds for cell `i`.
pub open spec fn nibble(bytes: Seq<u8>, i: int) -> u8 {
    if i % 2 == 0 {
        (bytes[i / 2] / 16) as u8
    } else {
        (bytes[i / 2] % 16) as u8
    }
}

/// The first `n` colours that a packed buffer holds.
pub open spec fn unpacked(bytes: Seq<u8>, n: nat) -> Seq<u8> {
    Seq::new(n, |i: int| nibble(bytes, i))
}

/// A packed buffer after a single-nibble write of colour `c` to cell `i`:
/// only the half byte of that cell changes.
pub open spec fn with_nibble(bytes: Seq<u8>, i: int, c: u8) -> Seq<u8> {
    let b = bytes[i / 2];
    bytes.update(
        i / 2,
        if i % 2 == 0 {
            (c * 16 + b % 16) as u8
        } else {
            ((b / 16) * 16 + c) as u8
        },
    )
}

/// Packs a colour per cell into two cells per byte.
pub fn pack(cells: &Vec<u8>) -> (r: Result<Vec<u8>, CodecError>)
    ensures
        r is Err <==> !valid_colors(cells@),
        r is Err ==> r == Err::<Vec<u8>, CodecError>(CodecError::InvalidColor),
        r matches Ok(b) ==> b@ == packed(cells@),
{
    let mut i: usize = 0;
    while i < cells.len()
        invariant
            0 <= i <= cells@.len(),
            forall|k: int| 0 <= k < i ==> valid_color(#[trigger] cells@[k]),
        decreases cells@.len() - i,
    {
        if cells[i] >= PALETTE_SIZE {
            return Err(CodecError::InvalidColor);
        }
        i = i + 1;
    }
    Ok(pack_valid(cells))
}

/// Packs colours already known to fit in four bits.
pub(crate) fn pack_valid(cells: &Vec<u8>) -> (r: Vec<u8>)
    requires
        valid_colors(cells@),
    ensures
        r@ == packed(cells@),
{
    let n = cells.len();
    let m = n / 2 + n % 2;
    assert(m == packed_len(n as int));
    let mut out: Vec<u8> = Vec::with_capacity(m);
    let mut j: usize = 0;
    while j < m
        invariant
            n == cells@.len(),
            m == packed_len(n as int),
            valid_colors(cells@),
            0 <= j <= m,
            out@ == packed(cells@).take(j as int),
        decreases m - j,
    {
        let hi = cells[2 * j];
        let lo = if 2 * j + 1 < n {
            cells[2 * j + 1]
        } else {
            0
        };
        assert(hi < 16 && lo < 16);
        assert(packed(cells@).take(j + 1) =~= packed(cells@).take(j as int).push(
            (hi * 16 + lo) as u8,
        ));
        out.push(hi * 16 + lo);
        j = j + 1;
    }
    assert(packed(cells@).take(m as int) =~= packed(cells@));
    out
}

/// Reads the first `count` colours out of a packed buffer.
pub fn unpack(bytes: &Vec<u8>, count: usize) -> (r: Result<Vec<u8>, CodecError>)
    ensures
        r is Err <==> bytes@.len() < packed_len(count as int),
        r is Err ==> r == Err::<Vec<u8>, CodecError>(CodecError::BufferTooShort),
        r matches Ok(c) ==> c@ == unpacked(bytes@, count as nat) && valid_colors(c@),
{
    if bytes.len() < count / 2 + count % 2 {
        return Err(CodecError::BufferTooShort);
    }
    let mut out: Vec<u8> = Vec::with_capacity(count);
    let mut i: usize = 0;
    while i < count
        invariant
            bytes@.len() >= packed_len(count as int),
            0 <= i <= count,
            out@ == unpacked(bytes@, count as nat).take(i as int),
            valid_colors(out@),
        decreases count - i,
    {
        let b = bytes[i / 2];
        let c = if i % 2 == 0 {
            b / 16
        } else {
            b % 16
        };
        assert(unpacked(bytes@, count as nat).take(i + 1) =~= out@.push(c));
        out.push(c);
        i = i + 1;
    }
    assert(unpacked(bytes@, count as nat).take(count as int) =~= unpacked(bytes@, count as nat));
    Ok(out)
}

/// Bit offset, from the start of the packed buffer, of the colour of cell
/// `(x, y)`: four times its row-major index.
pub fn bit_offset(g: &Geometry, x: usize, y: usize) -> (r: Result<usize, CodecError>)
    requires
        g.wf(),
    ensures
        r is Err <==> !g.in_bounds(x as int, y as int),
        r is Err ==> r == Err::<usize, CodecError>(CodecError::OutOfBounds),
        r matches Ok(o) ==> o == 4 * g.index_of(x as int, y as int),
{
    if x >= g.width || y >= g.height {
        return Err(CodecError::OutOfBounds);
    }
    let i = calculate_index(g, x, y);
    proof {
        assert(4 * g.width * g.height == 4 * (g.width * g.height)) by (nonlinear_arith);
    }
    Ok(4 * i)
}

/// Checks a single-cell write: the cell must lie on the canvas, then the
/// colour must fit in four bits. Returns the cell's row-major index.
pub fn validate_cell(g: &Geometry, x: usize, y: usize, color: u8) -> (r: Result<
    usize,
    CodecError,
>)
    requires
        g.wf(),
    ensures
        !g.in_bounds(x as int, y as int) ==> r == Err::<usize, CodecError>(
            CodecError::OutOfBounds,
        ),
        g.in_bounds(x as int, y as int) && !valid_color(color) ==> r == Err::<usize, CodecError>(
            CodecError::InvalidColor,
        ),
        g.in_bounds(x as int, y as int) && valid_color(color) ==> r == Ok::<usize, CodecError>(
            g.index_of(x as int, y as int) as usize,
        ),
        r matches Ok(i) ==> i == g.index_of(x as int, y as int) && i < g.cell_count(),
{
    if x >= g.width || y >= g.height {
        return Err(CodecError::OutOfBounds);
    }
    if color >= PALETTE_SIZE {
        return Err(CodecError::InvalidColor);
    }
    Ok(calculate_index(g, x, y))
}

/// The packed form of a canvas whose cells all hold colour 0.
pub fn blank_canvas(g: &Geometry) -> (r: Vec<u8>)
    requires
        g.wf(),
    ensures
        r@ == packed(Seq::new(g.cell_count(), |i: int| 0u8)),
{
    proof {
        crate::geometry::lemma_tiles(*g);
    }
    let n = g.width * g.height;
    let m = n / 2 + n % 2;
    let ghost zeros = Seq::new(g.cell_count(), |i: int| 0u8);
    let mut out: Vec<u8> = Vec::with_capacity(m);
    let mut j: usize = 0;
    while j < m
        invariant
            m == packed_len(n as int),
            n == zeros.len(),
            zeros == Seq::new(g.cell_count(), |i: int| 0u8),
            0 <= j <= m,
            out@ == packed(zeros).take(j as int),
        decreases m - j,
    {
        assert(packed(zeros).take(j + 1) =~= out@.push(0u8));
        out.push(0);
        j = j + 1;
    }
    assert(packed(zeros).take(m as int) =~= packed(zeros));
    out
}

/// Unpacking what was packed gives the colours back.
pub proof fn lemma_round_trip(cells: Seq<u8>)
    requires
        valid_colors(cells),
    ensures
        unpacked(packed(cells), cells.len()) == cells,
{
    let p = packed(cells);
    assert forall|i: int| 0 <= i < cells.len() implies #[trigger] nibble(p, i) == cells[i] by {
        lemma_nibble_of_packed(cells, i);
    }
    assert(unpacked(p, cells.len()) =~= cells);
}

/// Writing one nibble of a packed canvas gives the packed form of the canvas
/// with that one cell changed: no other cell is touched.
pub proof fn lemma_write_cell_isolation(cells: Seq<u8>, i: int, c: u8)
    requires
        valid_colors(cells),
        0 <= i < cells.len(),
        valid_color(c),
    ensures
        with_nibble(packed(cells), i, c) == packed(cells.update(i, c)),
{
    let p = packed(cells);
    let u = cells.update(i, c);
    let j = i / 2;
    let hi = color_or_zero(cells, 2 * j);
    let lo = color_or_zero(cells, 2 * j + 1);
    assert(0 <= j < p.len());
    assert(p[j] == hi * 16 + lo);
    lemma_fundamental_div_mod_converse(p[j] as int, 16, hi as int, lo as int);
    assert(packed(u).len() == p.len());
    assert forall|k: int| 0 <= k < p.len() implies #[trigger] with_nibble(p, i, c)[k] == packed(
        u,
    )[k] by {
        if k != j {
            assert(color_or_zero(u, 2 * k) == color_or_zero(cells, 2 * k));
            assert(color_or_zero(u, 2 * k + 1) == color_or_zero(cells, 2 * k + 1));
        }
    }
    assert(with_nibble(p, i, c) =~= packed(u));
}

/// Cell `i` of a packed buffer is the colour it was packed from.
proof fn lemma_nibble_of_packed(cells: Seq<u8>, i: int)
    requires
        valid_colors(cells),
        0 <= i < cells.len(),
    ensures
        nibble(packed(cells), i) == cells[i],
{
    let j = i / 2;
    let hi = color_or_zero(cells, 2 * j);
    let lo = color_or_zero(cells, 2 * j + 1);
    assert(packed(cells)[j] == hi * 16 + lo);
    lemma_fundamental_div_mod_converse(hi * 16 + lo, 16, hi as int, lo as int);
}

} // verus!
