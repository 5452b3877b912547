use colony::arrival::{Arrival, complete_movement_task, unreachable_moving_state};
use colony::assignment::BlueprintSite;
use colony::stores::Store;
use colony::blueprint::Blueprint;
use colony::build_state::{BuildKeys, BuildState, planned_entrance_cell};
use colony::colonist::{
    Colonist, ColonistState, EAT_REST_MICROS, GATHER_MICROS, NeedsOutcome, PATH_FAILURE_RETRY_MICROS,
    ResourceNode, Task, TimedStep, arrival_state, building_step, count_down, gather_tick,
    moving_task_is_valid, resource_node_counts,
};
use colony::grid::{MapGrid, PlacementIssue};
use colony::resources::{COLONIST_CARRY_CAPACITY, Inventory};
use colony::simulation::SimulationClock;
use colony::types::{BuildingKind, GridCell, ResourceKind};

type Position = [f32; 3];

fn settler(satiety_micros: u32) -> Colonist<Position> {
    Colonist {
        name: "Settler 1".to_string(),
        state: ColonistState::Idle,
        speed_millis: 2_200,
        home: Some(40),
        satiety_micros,
        carry_capacity: COLONIST_CARRY_CAPACITY,
    }
}

fn store(entity: u64, inventory: Inventory, public: bool, distance_key: u32) -> Store {
    Store { entity, inventory, public, distance_key }
}

#[test]
fn task_and_state_labels_read_as_in_the_panel() {
    let task: Task<Position> = Task::PickupMaterial {
        source: 1,
        blueprint: 2,
        kind: ResourceKind::Wood,
        amount: 3,
        delivery_target: [0.0, 0.0, 0.0],
    };
    assert_eq!(task.label(), "Picking up 3 Wood");
    let home: Task<Position> = Task::DeliverHomeFood { home: 4, amount: 12 };
    assert_eq!(home.label(), "Delivering 12 Food home");
    let moving = ColonistState::Moving { target: [1.0, 0.0, 0.0], path: vec![], task, nav_revision: 0 };
    assert_eq!(moving.label(), "Moving: Picking up 3 Wood");
    let gathering: ColonistState<Position> =
        ColonistState::Gathering { resource: 1, kind: ResourceKind::Food, amount: 5, timer_micros: 0 };
    assert_eq!(gathering.label(), "Gathering Food");
    let deposit: Task<Position> = Task::Deposit { inventory: 1, kind: ResourceKind::Food, amount: -4 };
    assert_eq!(deposit.label(), "Depositing -4 Food");
    assert_eq!(settler(1).status_label(), "Idle");
}

#[test]
fn starving_colonist_leaves_home() {
    let mut colonist = settler(15_000_000);
    assert_eq!(colonist.tick_needs(10_000_000), NeedsOutcome::Alive);
    assert_eq!(colonist.satiety_micros, 5_000_000);
    assert_eq!(colonist.tick_needs(10_000_000), NeedsOutcome::Starved { home: Some(40) });
    assert_eq!(colonist.home, None);
    colonist.eat();
    assert_eq!(colonist.satiety_micros, 500_000_000);
}

#[test]
fn timers_count_down_and_up() {
    assert_eq!(count_down(EAT_REST_MICROS, 500_000), TimedStep::Continue { timer_micros: 1_500_000 });
    assert_eq!(count_down(PATH_FAILURE_RETRY_MICROS, PATH_FAILURE_RETRY_MICROS), TimedStep::Finished);
    assert_eq!(gather_tick(0, 1_000_000), TimedStep::Continue { timer_micros: 1_000_000 });
    assert_eq!(gather_tick(1_000_000, 400_000), TimedStep::Harvest);
    assert_eq!(gather_tick(GATHER_MICROS - 1, u64::MAX), TimedStep::Harvest);
}

#[test]
fn harvest_takes_no_more_than_planned_held_or_storable() {
    let mut node = ResourceNode { kind: ResourceKind::Food, amount: 10 };
    let taken = node.harvest(4, 20);
    assert_eq!((taken.amount, taken.depleted, node.amount), (4, false, 6));
    let taken = node.harvest(10, 3);
    assert_eq!((taken.amount, taken.depleted, node.amount), (3, false, 3));
    let taken = node.harvest(10, 20);
    assert_eq!((taken.amount, taken.depleted, node.amount), (3, true, 0));
}

#[test]
fn gather_trip_needs_its_node() {
    let task: Task<Position> = Task::Gather { resource: 1, kind: ResourceKind::Wood, amount: 2 };
    assert!(moving_task_is_valid(&task, Some(ResourceNode { kind: ResourceKind::Wood, amount: 2 })));
    assert!(!moving_task_is_valid(&task, Some(ResourceNode { kind: ResourceKind::Wood, amount: 1 })));
    assert!(!moving_task_is_valid(&task, Some(ResourceNode { kind: ResourceKind::Food, amount: 9 })));
    assert!(!moving_task_is_valid(&task, None));
    let build: Task<Position> = Task::Build { blueprint: 3 };
    assert!(moving_task_is_valid(&build, None));
    assert!(matches!(arrival_state(&build), Some(ColonistState::Building { blueprint: 3 })));
}

#[test]
fn builder_stops_when_blueprint_completes() {
    let mut blueprint = Blueprint::new(BuildingKind::Road);
    let next: ColonistState<Position> = building_step(8, &mut blueprint, 1_000_000);
    assert!(matches!(next, ColonistState::Building { blueprint: 8 }));
    assert_eq!(blueprint.progress_micros, 0);
    blueprint.delivered_wood = 1;
    let next: ColonistState<Position> = building_step(8, &mut blueprint, 1_000_000);
    assert!(matches!(next, ColonistState::Idle));
    assert_eq!(blueprint.progress_micros, 600_000);
}

#[test]
fn node_counts_split_by_kind() {
    let nodes = vec![
        ResourceNode { kind: ResourceKind::Wood, amount: 3 },
        ResourceNode { kind: ResourceKind::Food, amount: 1 },
        ResourceNode { kind: ResourceKind::Wood, amount: 0 },
    ];
    assert_eq!(resource_node_counts(&nodes), (2, 1));
}

#[test]
fn clock_scales_and_pauses() {
    let mut clock = SimulationClock::default();
    assert_eq!(clock.label(), "1x");
    clock.set_speed(4);
    assert_eq!(clock.scaled_delta(1_000), 4_000);
    clock.advance(1_000, false);
    assert_eq!(clock.elapsed_micros, 4_000);
    clock.advance(1_000, true);
    assert!(clock.paused);
    assert_eq!(clock.elapsed_micros, 4_000);
    assert_eq!(clock.label(), "Paused");
    clock.toggle_pause();
    assert_eq!(clock.label(), "4x");
}

#[test]
fn arriving_with_wood_walks_on_to_the_blueprint() {
    let mut storage = Inventory::public(100);
    assert!(storage.add(ResourceKind::Wood, 3));
    let mut stores = vec![store(5, storage, true, 1)];
    let mut sites = vec![BlueprintSite { entity: 9, blueprint: Blueprint::new(BuildingKind::House), distance_key: 0 }];
    let mut colonist = settler(80_000);
    let task = Task::PickupMaterial {
        source: 5,
        blueprint: 9,
        kind: ResourceKind::Wood,
        amount: 1,
        delivery_target: [2.0, 0.0, 0.0],
    };
    let arrival = complete_movement_task(task, &mut colonist, &mut stores, &mut sites, None);
    assert_eq!(stores[0].inventory.wood, 2);
    match arrival {
        Arrival::WalkOn { target, task: Task::DeliverMaterial { blueprint, amount, .. }, spill } => {
            assert_eq!(target, [2.0, 0.0, 0.0]);
            assert_eq!((blueprint, amount), (9, 1));
            assert_eq!(spill, (ResourceKind::Wood, 1));
        },
        _ => panic!("expected a walk to the blueprint"),
    }

    let delivery = Task::DeliverMaterial { blueprint: 9, kind: ResourceKind::Wood, amount: 30 };
    let arrival = complete_movement_task(delivery, &mut colonist, &mut stores, &mut sites, None);
    assert!(matches!(arrival, Arrival::Settle(ColonistState::Idle)));
    assert_eq!(sites[0].blueprint.delivered_wood, 10);
}

#[test]
fn wood_for_a_vanished_blueprint_returns_to_storage() {
    let mut storage = Inventory::public(100);
    assert!(storage.add(ResourceKind::Wood, 3));
    let mut stores = vec![store(5, storage, true, 1)];
    let mut sites: Vec<BlueprintSite> = vec![];
    let mut colonist = settler(80_000);
    let delivery: Task<Position> = Task::DeliverMaterial { blueprint: 9, kind: ResourceKind::Wood, amount: 2 };
    let arrival = complete_movement_task(delivery, &mut colonist, &mut stores, &mut sites, None);
    assert!(matches!(arrival, Arrival::Settle(ColonistState::Idle)));
    assert_eq!(stores[0].inventory.wood, 5);
}

#[test]
fn eating_takes_one_food_and_rests() {
    let mut pantry = Inventory::home_food(20);
    assert!(pantry.add(ResourceKind::Food, 1));
    let mut stores = vec![store(40, pantry, false, 0)];
    let mut sites: Vec<BlueprintSite> = vec![];
    let mut colonist = settler(300_000_000);
    let arrival = complete_movement_task(Task::Eat { inventory: 40 }, &mut colonist, &mut stores, &mut sites, None);
    assert!(matches!(arrival, Arrival::Settle(ColonistState::Eating { timer_micros: EAT_REST_MICROS })));
    assert_eq!(colonist.satiety_micros, 800_000_000);
    assert_eq!(stores[0].inventory.food, 0);
    let arrival = complete_movement_task(Task::Eat { inventory: 40 }, &mut colonist, &mut stores, &mut sites, None);
    assert!(matches!(arrival, Arrival::Settle(ColonistState::Idle)));
    assert_eq!(colonist.satiety_micros, 800_000_000);
}

#[test]
fn a_full_store_sends_the_rest_elsewhere() {
    let mut stores = vec![
        store(1, Inventory::public(5), true, 1),
        store(2, Inventory::public(100), true, 9),
        store(3, Inventory::public(10), true, 4),
    ];
    let mut sites: Vec<BlueprintSite> = vec![];
    let mut colonist = settler(80_000);
    let task: Task<Position> = Task::Deposit { inventory: 1, kind: ResourceKind::Food, amount: 8 };
    let arrival = complete_movement_task(task, &mut colonist, &mut stores, &mut sites, None);
    assert_eq!(stores[0].inventory.food, 5);
    match arrival {
        Arrival::Redeposit { order, kind, amount } => {
            assert_eq!(order, vec![2, 1]);
            assert_eq!((kind, amount), (ResourceKind::Food, 3));
        },
        _ => panic!("expected a redeposit"),
    }
}

#[test]
fn food_for_home_spills_when_the_home_is_gone() {
    let mut storage = Inventory::public(100);
    assert!(storage.add(ResourceKind::Food, 10));
    let mut stores = vec![store(1, storage, true, 3), store(2, Inventory::public(100), true, 1)];
    let mut sites: Vec<BlueprintSite> = vec![];
    let mut colonist = settler(80_000);
    let task: Task<Position> = Task::PickupHomeFood { source: 1, home: 40, amount: 4 };
    let arrival = complete_movement_task(task, &mut colonist, &mut stores, &mut sites, None);
    assert!(matches!(arrival, Arrival::Settle(ColonistState::Idle)));
    assert_eq!((stores[0].inventory.food, stores[1].inventory.food), (6, 4));
    let task: Task<Position> = Task::PickupHomeFood { source: 1, home: 40, amount: 4 };
    let arrival = complete_movement_task(task, &mut colonist, &mut stores, &mut sites, Some([5.0, 0.0, 0.0]));
    assert!(matches!(arrival, Arrival::WalkOn { task: Task::DeliverHomeFood { home: 40, amount: 4 }, .. }));
}

#[test]
fn unreachable_delivery_returns_the_load() {
    let mut stores = vec![store(1, Inventory::public(100), true, 3)];
    let task: Task<Position> = Task::DeliverHomeFood { home: 40, amount: 7 };
    let state = unreachable_moving_state(task, &mut stores);
    assert!(matches!(state, ColonistState::WaitingForPathRetry { timer_micros: PATH_FAILURE_RETRY_MICROS }));
    assert_eq!(stores[0].inventory.food, 7);
    let task: Task<Position> = Task::Build { blueprint: 1 };
    unreachable_moving_state(task, &mut stores);
    assert_eq!(stores[0].inventory.food, 7);
}

fn keys(kind: Option<usize>) -> BuildKeys {
    let mut kind_pressed = [false; 5];
    if let Some(index) = kind {
        kind_pressed[index] = true;
    }
    BuildKeys { kind_pressed, toggle_snap: false, rotate: false, escape: false, right_click: false }
}

#[test]
fn build_keys_select_toggle_rotate_and_cancel() {
    let mut state: BuildState<Position> = BuildState::default();
    assert_eq!(state.status, "Select a building to start planning.");
    assert!(state.snap_to_grid && state.selected.is_none());
    state.apply_keys(&keys(Some(1)));
    assert_eq!(state.selected, Some(BuildingKind::Storage));
    assert_eq!(state.status, "Planning Storage.");
    let mut both = keys(Some(0));
    both.kind_pressed[4] = true;
    state.apply_keys(&both);
    assert_eq!(state.selected, Some(BuildingKind::Road));
    let mut snap = keys(None);
    snap.toggle_snap = true;
    snap.rotate = true;
    state.apply_keys(&snap);
    assert!(!state.snap_to_grid);
    assert_eq!(state.rotation_steps, 1);
    assert_eq!(state.status, "Grid snap off.");
    let mut right = keys(None);
    right.right_click = true;
    state.apply_keys(&right);
    assert_eq!(state.selected, None);
    assert_eq!(state.status, "Build mode cancelled.");
    state.apply_keys(&right);
    assert_eq!(state.status, "Build mode cancelled.");
}

#[test]
fn plans_are_checked_then_placed() {
    let mut grid = MapGrid::default();
    let mut state: BuildState<Position> = BuildState::new([0.0, 0.0, 0.0]);
    state.select_construction(BuildingKind::House);
    state.update_plan(BuildingKind::House, GridCell::new(0, 0), [1.0, 0.0, 1.0], &grid);
    assert!(state.last_valid);
    assert_eq!(state.last_cells.len(), 4);
    assert_eq!(state.status, "House blueprint ready. Cost: 10 wood.");
    assert_eq!(planned_entrance_cell(BuildingKind::House, GridCell::new(0, 0), 0), Some(GridCell::new(0, -1)));

    let placed = state.place(&mut grid, 77).unwrap();
    assert_eq!(placed.blueprint.required_wood, 10);
    assert_eq!(placed.entrance, Some(GridCell::new(0, -1)));
    assert!(!placed.footprint.passable);
    assert_eq!(state.status, "Placed House blueprint.");
    assert!(!state.last_valid);
    assert!(!grid.is_walkable(GridCell::new(0, 0)));
    assert!(state.place(&mut grid, 78).is_none());

    state.update_plan(BuildingKind::House, GridCell::new(1, 0), [2.0, 0.0, 1.0], &grid);
    assert!(!state.last_valid);
    assert_eq!(state.invalid_reason, Some(PlacementIssue::Occupied));
    assert_eq!(
        state.status,
        "Cannot place House: blocked by another plan, building, resource, or entrance."
    );
    state.hide_plan();
    assert_eq!(state.invalid_reason, None);
}

#[test]
fn far_plans_are_refused_as_out_of_bounds() {
    let mut grid = MapGrid::default();
    let mut state: BuildState<Position> = BuildState::new([0.0, 0.0, 0.0]);
    state.select_construction(BuildingKind::House);

    state.update_plan(BuildingKind::House, GridCell::new(2_000_000, -2_000_000), [0.0, 0.0, 0.0], &grid);
    assert!(!state.last_valid);
    assert_eq!(state.last_cells.len(), 4);
    assert!(state.last_cells.contains(&GridCell::new(2_000_001, -1_999_999)));
    assert_eq!(state.invalid_reason, Some(PlacementIssue::OutOfBounds));
    assert_eq!(state.status, "Cannot place House: outside the buildable area.");

    state.update_plan(BuildingKind::House, GridCell::new(i32::MAX - 1, 0), [0.0, 0.0, 0.0], &grid);
    assert_eq!(state.last_cells.len(), 4);
    assert_eq!(state.invalid_reason, Some(PlacementIssue::OutOfBounds));

    state.update_plan(BuildingKind::House, GridCell::new(i32::MAX, 0), [0.0, 0.0, 0.0], &grid);
    assert!(state.last_cells.is_empty());
    assert_eq!(state.invalid_reason, Some(PlacementIssue::OutOfBounds));
    assert_eq!(state.status, "Cannot place House: outside the buildable area.");

    state.update_plan(BuildingKind::House, GridCell::new(0, i32::MIN), [0.0, 0.0, 0.0], &grid);
    assert!(state.last_cells.is_empty());
    assert_eq!(state.invalid_reason, Some(PlacementIssue::OutOfBounds));
    assert!(state.place(&mut grid, 5).is_none());

    state.last_valid = true;
    assert!(state.place(&mut grid, 5).is_none());
    assert!(!state.last_valid);
    assert_eq!(state.invalid_reason, Some(PlacementIssue::OutOfBounds));
    assert_eq!(state.status, "Cannot place House: outside the buildable area.");
    assert_eq!(grid.summary().0, 0);
    assert_eq!(planned_entrance_cell(BuildingKind::Road, GridCell::new(i32::MAX, i32::MIN), 0), None);
}

#[test]
fn clock_holds_at_its_limit() {
    let mut clock = SimulationClock::default();
    clock.set_speed(4);
    assert_eq!(clock.scaled_delta(u64::MAX / 2), u64::MAX);
    clock.elapsed_micros = u64::MAX - 10;
    clock.advance(2, false);
    assert_eq!(clock.elapsed_micros, u64::MAX - 2);
    clock.advance(1_000, true);
    assert!(clock.paused);
    assert_eq!(clock.elapsed_micros, u64::MAX - 2);
    clock.advance(1_000, true);
    assert!(!clock.paused);
    assert_eq!(clock.elapsed_micros, u64::MAX);
}
