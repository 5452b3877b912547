use bevy::ecs::entity::Entity;
use colony::blueprint::Blueprint;
use colony::build_state::BuildState;
use colony::colonist::{Colonist, ColonistState, ResourceNode};
use colony::grid::MapGrid;
use colony::panel::{
    SettlerTally, blueprint_panel_text, building_panel_text, colonist_panel_text, nodes_text,
    nothing_selected_text, overview_text, resource_panel_text, selection_lost_text, status_text,
};
use colony::resources::{Inventory, ResourceStock};
use colony::simulation::SimulationClock;
use colony::types::{BuildingKind, GridCell, ResourceKind};

type Position = [f32; 3];

fn colonist(satiety_micros: u32, speed_millis: u32, home: Option<u64>) -> Colonist<Position> {
    Colonist {
        name: "Settler 3".to_string(),
        state: ColonistState::Idle,
        speed_millis,
        home,
        satiety_micros,
        carry_capacity: 10,
    }
}

#[test]
fn colonist_panel_shows_status_satiety_home_and_speed() {
    let (title, body) = colonist_panel_text(&colonist(754_000_000, 2_200, None));
    assert_eq!(title, "Settler 3");
    assert_eq!(body, "Status: Idle\nSatiety: 75/100\nHome: None\nSpeed: 2.2");

    let home = Entity::from_raw_u32(7).unwrap().to_bits();
    let mut walker = colonist(1_000_000_000, 1_050, Some(home));
    walker.state = ColonistState::Eating { timer_micros: 5 };
    let (_, body) = colonist_panel_text(&walker);
    assert_eq!(body, "Status: Eating\nSatiety: 100/100\nHome: 7v0\nSpeed: 1.0");
}

#[test]
fn panel_numbers_round_half_to_even() {
    let (_, body) = colonist_panel_text(&colonist(25_000_000, 2_250, None));
    assert_eq!(body, "Status: Idle\nSatiety: 2/100\nHome: None\nSpeed: 2.2");
    let (_, body) = colonist_panel_text(&colonist(35_000_000, 2_350, None));
    assert_eq!(body, "Status: Idle\nSatiety: 4/100\nHome: None\nSpeed: 2.4");
    let (_, body) = colonist_panel_text(&colonist(35_000_001, 2_251, None));
    assert_eq!(body, "Status: Idle\nSatiety: 4/100\nHome: None\nSpeed: 2.3");
}

#[test]
fn resource_panel_says_who_gathers_it() {
    let node = ResourceNode { kind: ResourceKind::Wood, amount: 37 };
    let (title, body) = resource_panel_text(node, &vec![BuildingKind::House]);
    assert_eq!(title, "Wood node");
    assert_eq!(body, "Remaining: 37\nUsed by: Woodcutter\nReady to gather: Needs building");
    let food = ResourceNode { kind: ResourceKind::Food, amount: -2 };
    let (title, body) = resource_panel_text(food, &vec![BuildingKind::Gatherer]);
    assert_eq!(title, "Food node");
    assert_eq!(body, "Remaining: -2\nUsed by: Gatherer\nReady to gather: Yes");
}

#[test]
fn blueprint_panel_shows_wood_work_and_area() {
    let mut blueprint = Blueprint::new(BuildingKind::House);
    let (title, body) = blueprint_panel_text(blueprint, Some(4));
    assert_eq!(title, "House blueprint");
    assert_eq!(
        body,
        "Status: Waiting for materials\nWood: 0/10\nConstruction: 0%\nSettlers will deliver wood when stock is available.\nArea: 4.0 cells"
    );
    blueprint.delivered_wood = 10;
    blueprint.progress_micros = blueprint.build_micros / 3;
    let (_, body) = blueprint_panel_text(blueprint, None);
    assert_eq!(
        body,
        "Status: Building\nWood: 10/10\nConstruction: 33%\nWaiting for a builder to finish construction."
    );
}

#[test]
fn building_panel_shows_residents_or_capacity_and_stock() {
    let (title, body) = building_panel_text(BuildingKind::House, false, Some(Inventory::home_food(20)), Some(2));
    assert_eq!(title, "House");
    assert_eq!(
        body,
        "Provides housing capacity for settlers.\nStatus: Operating\nResidents: 2/5\nInventory: Wood 0  Food 0\nCapacity: 0/20"
    );
    let (_, body) = building_panel_text(BuildingKind::House, false, None, None);
    assert_eq!(body, "Provides housing capacity for settlers.\nStatus: Operating\nCapacity: 4");
    let mut storage = Inventory::public(100);
    assert!(storage.add(ResourceKind::Wood, 3));
    assert!(storage.add(ResourceKind::Food, 5));
    let (title, body) = building_panel_text(BuildingKind::Storage, true, Some(storage), None);
    assert_eq!(title, "Central Storage");
    assert_eq!(
        body,
        "Receives gathered supplies and construction materials.\nStatus: Operating\nInventory: Wood 3  Food 5\nCapacity: 35/100"
    );
}

#[test]
fn empty_and_lost_selections_have_their_own_panels() {
    assert_eq!(
        nothing_selected_text(),
        ("Nothing selected".to_string(), "Click a settler, building, blueprint, or resource node.".to_string())
    );
    assert_eq!(
        selection_lost_text(),
        ("Selection lost".to_string(), "The selected object is no longer available.".to_string())
    );
}

#[test]
fn overview_counts_population_housing_and_idlers() {
    let mut busy = colonist(1, 1_000, Some(4));
    busy.state = ColonistState::Building { blueprint: 2 };
    let settlers = vec![
        SettlerTally::of(&colonist(1, 1_000, None)),
        SettlerTally::of(&busy),
        SettlerTally::of(&colonist(1, 1_000, Some(5))),
    ];
    let completed = vec![BuildingKind::House, BuildingKind::Storage, BuildingKind::House];
    let mut clock = SimulationClock::default();
    clock.set_speed(2);
    let stock = ResourceStock { wood: 12, food: -1 };
    assert_eq!(
        overview_text(stock, &settlers, &completed, &clock),
        "Wood: 12  Food: -1  Pop: 3/8  Homeless: 1  Idle: 2  Time: 2x"
    );
    clock.toggle_pause();
    assert_eq!(
        overview_text(ResourceStock { wood: 0, food: 0 }, &Vec::new(), &Vec::new(), &clock),
        "Wood: 0  Food: 0  Pop: 0/0  Homeless: 0  Idle: 0  Time: Paused"
    );
}

#[test]
fn status_line_counts_obstacles_and_roads() {
    let mut grid = MapGrid::default();
    grid.occupy(&[GridCell::new(0, 0), GridCell::new(1, 0)], 1, false);
    grid.occupy(&[GridCell::new(3, 3)], 2, true);
    let mut build: BuildState<Position> = BuildState::new([0.0, 0.0, 0.0]);
    build.status = "Build mode".to_string();
    assert_eq!(status_text(&build, &grid), "Build mode  Obstacles: 3  Roads: 1  Snap: On");
    build.toggle_snap();
    let expected = format!("{}  Obstacles: 3  Roads: 1  Snap: Off", build.status);
    assert_eq!(status_text(&build, &grid), expected);
}

#[test]
fn nodes_line_counts_each_kind() {
    let nodes = vec![
        ResourceNode { kind: ResourceKind::Wood, amount: 1 },
        ResourceNode { kind: ResourceKind::Food, amount: 1 },
        ResourceNode { kind: ResourceKind::Wood, amount: 0 },
    ];
    assert_eq!(nodes_text(&nodes), "Nodes: Wood 2 / Food 1");
}
