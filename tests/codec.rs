use canvas_hub::codec::{bit_offset, blank_canvas, pack, unpack, validate_cell, CodecError};
use canvas_hub::geometry::Geometry;

#[test]
fn pack_puts_even_cells_in_the_high_nibble() {
    assert_eq!(pack(&vec![1, 2, 3]), Ok(vec![0x12, 0x30]));
    assert_eq!(pack(&vec![15, 0, 0, 15]), Ok(vec![0xF0, 0x0F]));
    assert_eq!(pack(&vec![]), Ok(vec![]));
}

#[test]
fn pack_rejects_a_colour_over_four_bits() {
    assert_eq!(pack(&vec![1, 16, 3]), Err(CodecError::InvalidColor));
    assert_eq!(pack(&vec![255]), Err(CodecError::InvalidColor));
}

#[test]
fn unpack_reads_nibbles_in_order() {
    assert_eq!(unpack(&vec![0x12, 0x30], 3), Ok(vec![1, 2, 3]));
    assert_eq!(unpack(&vec![0xAB], 2), Ok(vec![10, 11]));
    assert_eq!(unpack(&vec![0xAB], 1), Ok(vec![10]));
}

#[test]
fn unpack_refuses_a_short_buffer() {
    assert_eq!(unpack(&vec![0x12], 3), Err(CodecError::BufferTooShort));
    assert_eq!(unpack(&vec![], 1), Err(CodecError::BufferTooShort));
    assert_eq!(unpack(&vec![], 0), Ok(vec![]));
}

#[test]
fn round_trip_on_every_colour() {
    let cells: Vec<u8> = (0..16u8).chain((0..16u8).rev()).chain([7u8]).collect();
    let packed = pack(&cells).unwrap();
    assert_eq!(packed.len(), (cells.len() + 1) / 2);
    assert_eq!(unpack(&packed, cells.len()), Ok(cells));
}

#[test]
fn single_nibble_write_matches_packing_the_changed_grid() {
    let cells: Vec<u8> = vec![3, 4, 5, 6, 7];
    let mut buffer = pack(&cells).unwrap();
    for (i, c) in [(0usize, 9u8), (3, 1), (4, 15)] {
        let byte = &mut buffer[i / 2];
        if i % 2 == 0 {
            *byte = (c << 4) | (*byte & 0x0F);
        } else {
            *byte = (*byte & 0xF0) | c;
        }
    }
    assert_eq!(buffer, pack(&vec![9, 4, 5, 1, 15]).unwrap());
}

#[test]
fn bit_offset_is_four_times_the_row_major_index() {
    let g = Geometry::new(100, 100, 50).unwrap();
    assert_eq!(bit_offset(&g, 0, 0), Ok(0));
    assert_eq!(bit_offset(&g, 70, 70), Ok(4 * (70 * 100 + 70)));
    assert_eq!(bit_offset(&g, 99, 99), Ok(4 * 9999));
    assert_eq!(bit_offset(&g, 100, 0), Err(CodecError::OutOfBounds));
    assert_eq!(bit_offset(&g, 0, 100), Err(CodecError::OutOfBounds));
}

#[test]
fn validate_cell_checks_bounds_before_colour() {
    let g = Geometry::new(100, 100, 50).unwrap();
    assert_eq!(validate_cell(&g, 3, 2, 15), Ok(203));
    assert_eq!(validate_cell(&g, 3, 2, 16), Err(CodecError::InvalidColor));
    assert_eq!(validate_cell(&g, 100, 2, 16), Err(CodecError::OutOfBounds));
    assert_eq!(validate_cell(&g, 3, 200, 1), Err(CodecError::OutOfBounds));
}

#[test]
fn blank_canvas_has_the_canonical_size() {
    let g = Geometry::new(100, 100, 50).unwrap();
    let b = blank_canvas(&g);
    assert_eq!(b.len(), 5000);
    assert!(b.iter().all(|&x| x == 0));
    let odd = Geometry::new(3, 3, 1).unwrap();
    assert_eq!(blank_canvas(&odd), vec![0u8; 5]);
}
