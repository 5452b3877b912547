use colony::blueprint::{Blueprint, BlueprintStatus, Housing};
use colony::grid::{MapGrid, PlacementIssue};
use colony::types::{BuildingKind, GridCell};

const SECOND: u64 = 1_000_000;

#[test]
fn grid_rejects_occupied_area() {
    let entity = 1u64;
    let mut grid = MapGrid::default();
    let cells = vec![GridCell::new(0, 0), GridCell::new(1, 0)];

    assert!(grid.is_area_free(&cells));
    grid.occupy(&cells, entity, false);
    assert!(!grid.is_area_free(&cells));
    assert_eq!(grid.summary().0, 2);
}

#[test]
fn building_blueprint_waits_for_materials_before_completion() {
    let mut blueprint = Blueprint {
        kind: BuildingKind::House,
        required_wood: 4,
        delivered_wood: 3,
        progress_micros: 99 * SECOND,
        build_micros: 5 * SECOND,
    };

    assert!(!blueprint.is_complete());
    blueprint.delivered_wood = 4;
    assert!(blueprint.is_complete());
}

#[test]
fn building_blueprint_status_tracks_materials_and_work() {
    let mut blueprint = Blueprint {
        kind: BuildingKind::House,
        required_wood: 4,
        delivered_wood: 0,
        progress_micros: 0,
        build_micros: 5 * SECOND,
    };

    assert_eq!(blueprint.status(), BlueprintStatus::WaitingForMaterials);
    blueprint.delivered_wood = 4;
    assert_eq!(blueprint.status(), BlueprintStatus::WaitingForBuilder);
    blueprint.progress_micros = 2 * SECOND;
    assert_eq!(blueprint.status(), BlueprintStatus::Building);
    blueprint.progress_micros = 5 * SECOND;
    assert_eq!(blueprint.status(), BlueprintStatus::Complete);
}

#[test]
fn components_blueprint_waits_for_materials_before_completion() {
    let mut blueprint = Blueprint {
        kind: BuildingKind::House,
        required_wood: 4,
        delivered_wood: 3,
        progress_micros: 99 * SECOND,
        build_micros: 5 * SECOND,
    };

    assert!(!blueprint.is_complete());
    blueprint.delivered_wood = 4;
    assert!(blueprint.is_complete());
}

#[test]
fn components_blueprint_status_tracks_materials_and_work() {
    let mut blueprint = Blueprint {
        kind: BuildingKind::House,
        required_wood: 4,
        delivered_wood: 0,
        progress_micros: 0,
        build_micros: 5 * SECOND,
    };

    assert_eq!(blueprint.status(), BlueprintStatus::WaitingForMaterials);
    blueprint.delivered_wood = 4;
    assert_eq!(blueprint.status(), BlueprintStatus::WaitingForBuilder);
    blueprint.progress_micros = 2 * SECOND;
    assert_eq!(blueprint.status(), BlueprintStatus::Building);
    blueprint.progress_micros = 5 * SECOND;
    assert_eq!(blueprint.status(), BlueprintStatus::Complete);
}

#[test]
fn housing_capacity_is_five_residents() {
    let mut housing = Housing::default();

    for index in 0..Housing::CAPACITY {
        assert!(housing.add_resident(index as u64));
    }

    assert!(!housing.has_space());
    assert!(!housing.add_resident(99));
    assert_eq!(housing.resident_count(), 5);
}

#[test]
fn placement_issue_prefers_map_bounds_before_occupancy() {
    let entity = 1u64;
    let mut grid = MapGrid::default();
    grid.occupy(&[GridCell::new(0, 0)], entity, false);

    assert_eq!(
        grid.placement_issue(&[GridCell::new(0, 0)]),
        Some(PlacementIssue::Occupied)
    );
    assert_eq!(
        grid.placement_issue(&[GridCell::new(0, 0), GridCell::new(999, 999)]),
        Some(PlacementIssue::OutOfBounds)
    );
}

#[test]
fn grid_releases_entity_occupancy() {
    let entity = 1u64;
    let mut grid = MapGrid::default();
    let cell = GridCell::new(2, 2);

    grid.occupy(&[cell], entity, false);
    assert!(!grid.is_walkable(cell));

    grid.release_entity(entity);
    assert!(grid.is_walkable(cell));
}

#[test]
fn road_cells_are_walkable() {
    let entity = 1u64;
    let mut grid = MapGrid::default();
    let cell = GridCell::new(2, 2);

    grid.occupy(&[cell], entity, true);

    assert!(grid.is_walkable(cell));
}

#[test]
fn reserved_entrance_blocks_non_road_footprint() {
    let entity = 1u64;
    let mut grid = MapGrid::default();
    let cell = GridCell::new(2, 2);

    grid.reserve_entrance(cell, entity);

    assert_eq!(
        grid.placement_issue_for(&[cell], None, true),
        Some(PlacementIssue::Occupied)
    );
    assert_eq!(grid.placement_issue_for(&[cell], None, false), None);
}

#[test]
fn placement_rejects_blocked_entrance() {
    let building = 1u64;
    let blocker = 2u64;
    let mut grid = MapGrid::default();

    grid.occupy(&[GridCell::new(0, -1)], blocker, false);

    assert_eq!(
        grid.placement_issue_for(&[GridCell::new(0, 0)], Some(GridCell::new(0, -1)), true),
        Some(PlacementIssue::EntranceBlocked)
    );

    grid.release_entity(blocker);
    grid.reserve_entrance(GridCell::new(0, -1), building);
    assert_eq!(
        grid.placement_issue_for(&[GridCell::new(0, 0)], Some(GridCell::new(0, -1)), true),
        Some(PlacementIssue::EntranceBlocked)
    );
}

#[test]
fn grid_keeps_distant_and_negative_cells_apart() {
    let mut grid = MapGrid::default();
    let road = vec![GridCell::new(-1, 0), GridCell::new(0, -1)];
    let far = vec![GridCell::new(i32::MIN, i32::MAX), GridCell::new(i32::MAX, i32::MIN)];
    grid.occupy(&road, 3, true);
    grid.occupy(&far, 4, false);
    assert_eq!(grid.summary(), (4, 2, 2));
    assert!(grid.is_walkable(GridCell::new(-1, 0)));
    assert!(grid.is_walkable(GridCell::new(0, 0)));
    assert!(!grid.is_area_free(&[GridCell::new(0, -1)]));
    assert!(grid.is_area_free(&[GridCell::new(-1, -1)]));
    grid.release_entity(3);
    assert_eq!(grid.summary(), (2, 0, 1));
    assert!(grid.is_area_free(&road));
    grid.release_entity(4);
    assert_eq!(grid.summary(), (0, 0, 0));
}
