use canvas_hub::geometry::{
    calculate_index, calculate_quadrant_id, enumerate_quadrants, Geometry, GeometryError, Quadrant,
};

#[test]
fn four_quadrants_on_a_hundred_square_canvas() {
    let g = Geometry::new(100, 100, 50).unwrap();
    let qs = enumerate_quadrants(&g);
    assert_eq!(
        qs,
        vec![
            Quadrant { id: 0, x: 0, y: 0 },
            Quadrant { id: 1, x: 50, y: 0 },
            Quadrant { id: 2, x: 0, y: 50 },
            Quadrant { id: 3, x: 50, y: 50 },
        ]
    );
    assert_eq!(calculate_quadrant_id(&g, 70, 70), 3);
    assert_eq!(calculate_quadrant_id(&g, 49, 49), 0);
    assert_eq!(calculate_quadrant_id(&g, 50, 0), 1);
    assert_eq!(calculate_quadrant_id(&g, 0, 99), 2);
}

#[test]
fn every_cell_lies_in_the_quadrant_its_id_names() {
    let g = Geometry::new(60, 40, 20).unwrap();
    let qs = enumerate_quadrants(&g);
    assert_eq!(qs.len(), 6);
    for y in 0..40 {
        for x in 0..60 {
            let id = calculate_quadrant_id(&g, x, y);
            let holding: Vec<&Quadrant> =
                qs.iter().filter(|q| q.x <= x && x < q.x + 20 && q.y <= y && y < q.y + 20).collect();
            assert_eq!(holding.len(), 1);
            assert_eq!(holding[0].id, id);
        }
    }
}

#[test]
fn row_major_index() {
    let g = Geometry::new(500, 500, 50).unwrap();
    assert_eq!(calculate_index(&g, 0, 0), 0);
    assert_eq!(calculate_index(&g, 1, 0), 1);
    assert_eq!(calculate_index(&g, 0, 1), 500);
    assert_eq!(calculate_index(&g, 499, 499), 249_999);
}

#[test]
fn geometry_refuses_bad_dimensions() {
    assert_eq!(Geometry::new(0, 10, 5), Err(GeometryError::ZeroDimension));
    assert_eq!(Geometry::new(10, 10, 0), Err(GeometryError::ZeroDimension));
    assert_eq!(Geometry::new(120, 100, 50), Err(GeometryError::UnevenQuadrants));
    assert_eq!(Geometry::new(100, 120, 50), Err(GeometryError::UnevenQuadrants));
    assert_eq!(Geometry::new(usize::MAX, 2, 1), Err(GeometryError::TooLarge));
    assert_eq!(Geometry::new(1 << 40, 1 << 30, 1), Err(GeometryError::TooLarge));
    assert!(Geometry::new(100, 100, 50).is_ok());
}
