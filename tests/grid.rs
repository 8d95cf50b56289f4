use canvas_hub::codec::{pack, CodecError};
use canvas_hub::geometry::Geometry;
use canvas_hub::grid::{Cell, Grid};

fn colors(g: &Grid) -> Vec<u8> {
    g.cells.iter().map(|c| c.color()).collect()
}

#[test]
fn new_grid_holds_palette_colours() {
    let g = Grid::new(&Geometry::new(20, 10, 5).unwrap());
    assert_eq!(g.cells.len(), 200);
    assert!(g.cells.iter().all(|c| c.color() < 16 && c.timestamp() == 0));
}

#[test]
fn get_cell_in_and_out_of_bounds() {
    let mut g = Grid::new(&Geometry::new(20, 10, 5).unwrap());
    assert_eq!(g.modify_cell_at(4, 3, 9, 77), Some(()));
    assert_eq!(g.get_cell(4, 3), Some(&Cell::new(9, 77)));
    assert_eq!(g.get_cell(20, 3), None);
    assert_eq!(g.get_cell(4, 10), None);
}

#[test]
fn modify_cell_refuses_bad_input() {
    let mut g = Grid::new(&Geometry::new(20, 10, 5).unwrap());
    let before = colors(&g);
    assert_eq!(g.modify_cell(20, 0, 1), None);
    assert_eq!(g.modify_cell(0, 0, 16), None);
    assert_eq!(colors(&g), before);
    assert_eq!(g.modify_cell(19, 9, 5), Some(()));
    assert_eq!(g.get_cell(19, 9).unwrap().color(), 5);
}

#[test]
fn single_cell_write_changes_one_nibble_of_the_bitfield() {
    let mut g = Grid::new(&Geometry::new(20, 10, 5).unwrap());
    let mut expected = colors(&g);
    assert_eq!(g.modify_cell_at(7, 2, 12, 1), Some(()));
    expected[2 * 20 + 7] = 12;
    assert_eq!(g.to_bitfield(), Ok(pack(&expected).unwrap()));
    assert_eq!(g.to_bitfield().unwrap().len(), 100);
}

#[test]
fn to_bitfield_reports_a_colour_outside_the_palette() {
    let mut g = Grid::new(&Geometry::new(4, 2, 2).unwrap());
    g.cells[5] = Cell { color: 16, timestamp: 0 };
    assert_eq!(g.to_bitfield(), Err(CodecError::InvalidColor));
}
