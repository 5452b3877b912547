use colony::types::{GridCell, entrance_cell, footprint_cells, rotated_size};

#[test]
fn footprint_matches_building_area() {
    let cells = footprint_cells(GridCell::new(0, 0), GridCell::new(3, 2));
    assert_eq!(cells.len(), 6);
    assert!(cells.contains(&GridCell::new(-1, 0)));
    assert!(cells.contains(&GridCell::new(1, 1)));
}

#[test]
fn rotation_swaps_rectangular_size() {
    assert_eq!(rotated_size(GridCell::new(3, 2), 1), GridCell::new(2, 3));
    assert_eq!(rotated_size(GridCell::new(3, 2), 2), GridCell::new(3, 2));
}

#[test]
fn entrance_cell_tracks_rotation() {
    let center = GridCell::new(0, 0);
    let size = GridCell::new(3, 2);
    let direction = GridCell::new(0, -1);

    assert_eq!(entrance_cell(center, size, 0, direction), GridCell::new(0, -1));
    assert_eq!(entrance_cell(center, size, 1, direction), GridCell::new(2, 0));
    assert_eq!(entrance_cell(center, size, 2, direction), GridCell::new(0, 2));
    assert_eq!(entrance_cell(center, size, 3, direction), GridCell::new(-1, 0));
}
