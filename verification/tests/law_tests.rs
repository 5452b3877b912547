use colony::assignment::{DeliveryCandidate, GatherCandidateSnapshot, Job, JobOptions, ResourceSighting, RestockCandidate, choose_job, gather_candidate_snapshots};
use colony::stores::{Store, add_to_nearest_public};
use colony::blueprint::{Blueprint, Housing};
use colony::colonist::{SATIETY_FULL, SATIETY_POINT, decayed_satiety, restored_satiety};
use colony::grid::MapGrid;
use colony::ordering::{order_by_keys, pair_key, sort_by_keys};
use colony::reservations::AssignmentReservations;
use colony::resources::{COLONIST_CARRY_CAPACITY, Inventory};
use colony::types::{BuildingKind, GridCell, ResourceKind, footprint_cells};

fn options() -> JobOptions {
    JobOptions {
        hungry: false,
        pantry: None,
        meals: vec![],
        deliveries: vec![],
        builds: vec![],
        restocks: vec![],
        wood_trips: vec![],
        food_trips: vec![],
    }
}

#[test]
fn jobs_follow_their_priorities() {
    let mut reservations = AssignmentReservations::new();
    let trip = GatherCandidateSnapshot { distance_key: 1, resource: 8, sighting: 0, amount: 5 };
    let run = DeliveryCandidate {
        blueprint: 3,
        site: 0,
        source: 4,
        store: 1,
        amount: 1,
        remaining: 6,
        trip_key: 2,
    };

    let mut choice = options();
    assert_eq!(choose_job(&choice, &mut reservations), Job::Stay);
    choice.food_trips = vec![trip];
    choice.wood_trips = vec![GatherCandidateSnapshot { resource: 9, ..trip }];
    assert_eq!(
        choose_job(&choice, &mut reservations),
        Job::Gather { kind: ResourceKind::Wood, trip: GatherCandidateSnapshot { resource: 9, ..trip } }
    );
    assert_eq!(reservations.reserved_gather(9), 5);
    assert_eq!(reservations.reserved_public_capacity(), 50);
    choice.restocks = vec![RestockCandidate { source: 4, store: 1, amount: 3 }];
    assert!(matches!(choose_job(&choice, &mut reservations), Job::Restock { .. }));
    choice.builds = vec![2];
    assert_eq!(choose_job(&choice, &mut reservations), Job::Build { site: 2 });
    choice.deliveries = vec![run];
    assert_eq!(choose_job(&choice, &mut reservations), Job::Deliver { run });
    assert_eq!(reservations.reserved_material_delivery(3), 1);
    choice.meals = vec![5];
    assert_eq!(choose_job(&choice, &mut reservations), Job::Deliver { run });
    choice.hungry = true;
    assert_eq!(choose_job(&choice, &mut reservations), Job::Eat { store: 5 });
    choice.pantry = Some(7);
    assert_eq!(choose_job(&choice, &mut reservations), Job::Eat { store: 7 });
    assert_eq!(reservations.reserved_gather(9), 5);
}

#[test]
fn claiming_a_node_lowers_what_the_next_worker_sees() {
    let mut reservations = AssignmentReservations::new();
    let nodes = vec![ResourceSighting { resource: 1, kind: ResourceKind::Food, amount: 14, distance_key: 3 }];
    let first = gather_candidate_snapshots(ResourceKind::Food, COLONIST_CARRY_CAPACITY, 100, &nodes, &reservations);
    assert_eq!(first[0].amount, 10);
    reservations.reserve_gather(1, ResourceKind::Food, first[0].amount);
    let second = gather_candidate_snapshots(ResourceKind::Food, COLONIST_CARRY_CAPACITY, 100, &nodes, &reservations);
    assert_eq!(second[0].amount, 4);
    reservations.reserve_gather(1, ResourceKind::Food, -3);
    assert_eq!(reservations.reserved_gather(1), 10);
    let capped = gather_candidate_snapshots(ResourceKind::Food, COLONIST_CARRY_CAPACITY, 2, &nodes, &reservations);
    assert_eq!(capped[0].amount, 2);
}

#[test]
fn handing_out_items_conserves_them() {
    let mut stores = vec![
        Store { entity: 1, inventory: Inventory::public(7), public: true, distance_key: 2 },
        Store { entity: 2, inventory: Inventory::home_food(20), public: false, distance_key: 1 },
        Store { entity: 3, inventory: Inventory::public(3), public: true, distance_key: 1 },
    ];
    let before: i32 = stores.iter().map(|store| store.inventory.food).sum();
    let left = add_to_nearest_public(&mut stores, ResourceKind::Food, 15);
    let after: i32 = stores.iter().map(|store| store.inventory.food).sum();
    assert_eq!(after + left, before + 15);
    assert_eq!((stores[2].inventory.food, stores[0].inventory.food, left), (3, 7, 5));
}

#[test]
fn adding_then_removing_restores_an_inventory() {
    let mut inventory = Inventory::public(40);
    assert!(inventory.add(ResourceKind::Food, 3));
    let before = (inventory.wood, inventory.food, inventory.used_capacity());
    assert!(inventory.add(ResourceKind::Wood, 2));
    assert!(inventory.remove(ResourceKind::Wood, 2));
    assert_eq!((inventory.wood, inventory.food, inventory.used_capacity()), before);
}

#[test]
fn releasing_undoes_occupying() {
    let mut grid = MapGrid::default();
    let cells = footprint_cells(GridCell::new(3, 3), GridCell::new(2, 2));
    assert!(grid.is_area_free(&cells));
    grid.occupy(&cells, 5, false);
    assert!(!grid.is_area_free(&cells));
    grid.release_entity(5);
    assert!(grid.is_area_free(&cells));
    assert_eq!(grid.summary().0, 0);
}

#[test]
fn blueprints_need_materials_and_enough_work() {
    let mut blueprint = Blueprint::new(BuildingKind::Woodcutter);
    assert!(!blueprint.work(u64::MAX));
    blueprint.deliver_wood(100);
    assert_eq!(blueprint.delivered_wood, 8);
    assert!(!blueprint.work(3_999_999));
    assert!(blueprint.work(1));
    assert_eq!(blueprint.progress_permille(), 1000);
}

#[test]
fn households_never_list_a_resident_twice() {
    let mut housing = Housing::default();
    assert!(housing.add_resident(1));
    assert!(!housing.add_resident(1));
    assert!(housing.add_resident(2));
    housing.remove_resident(1);
    assert_eq!(housing.residents, vec![2]);
}

#[test]
fn satiety_stays_between_empty_and_full() {
    assert_eq!(decayed_satiety(SATIETY_FULL, u64::MAX), 0);
    assert_eq!(restored_satiety(SATIETY_FULL), SATIETY_FULL);
    assert_eq!(restored_satiety(0), 500_000_000);
}

#[test]
fn hunger_runs_at_one_rate_at_any_frame_rate() {
    let mut satiety = SATIETY_FULL;
    let mut frames = 0u64;
    while frames < 1_440 {
        satiety = decayed_satiety(satiety, 6_944);
        frames += 1;
    }
    assert_eq!(satiety, decayed_satiety(SATIETY_FULL, 1_440 * 6_944));
    assert_eq!(satiety, SATIETY_FULL - 9_999_360);
    assert!(SATIETY_FULL - satiety > SATIETY_POINT / 100 * 99);
}

#[test]
fn stable_sort_keeps_ties_and_orders_pairs() {
    let keys = vec![5u64, 1, 5, 0, 1];
    assert_eq!(order_by_keys(&keys), vec![3, 1, 4, 0, 2]);
    let items = vec!['a', 'b', 'c', 'd', 'e'];
    assert_eq!(sort_by_keys(&items, &keys), vec!['d', 'b', 'e', 'a', 'c']);
    assert!(pair_key(0, u32::MAX) < pair_key(1, 0));
    assert!(pair_key(2, 3) < pair_key(2, 4));
    assert_eq!(pair_key(1, 2), (1u64 << 32) + 2);
}

#[test]
fn gather_candidates_list_each_node_once_nearest_first() {
    let sightings = vec![
        ResourceSighting { resource: 1, kind: ResourceKind::Food, amount: 4, distance_key: 7 },
        ResourceSighting { resource: 2, kind: ResourceKind::Food, amount: 0, distance_key: 1 },
        ResourceSighting { resource: 3, kind: ResourceKind::Wood, amount: 9, distance_key: 2 },
        ResourceSighting { resource: 4, kind: ResourceKind::Food, amount: 30, distance_key: 3 },
        ResourceSighting { resource: 5, kind: ResourceKind::Food, amount: 6, distance_key: 7 },
    ];
    let mut reservations = AssignmentReservations::new();
    reservations.reserve_gather(4, ResourceKind::Food, 25);
    let trips = gather_candidate_snapshots(ResourceKind::Food, COLONIST_CARRY_CAPACITY, 100, &sightings, &reservations);
    let listed: Vec<(u64, usize, i32, u32)> =
        trips.iter().map(|trip| (trip.resource, trip.sighting, trip.amount, trip.distance_key)).collect();
    assert_eq!(listed, vec![(4, 3, 5, 3), (1, 0, 4, 7), (5, 4, 6, 7)]);
}

#[test]
fn adding_takes_what_fits_and_nothing_else() {
    let mut store = Inventory::public(25);
    assert!(store.add(ResourceKind::Wood, 1));
    assert_eq!(store.add_partial(ResourceKind::Food, -3), 0);
    assert_eq!(store.add_partial(ResourceKind::Food, 40), 15);
    assert_eq!((store.wood, store.food, store.capacity), (1, 15, 25));
    assert!(!store.add(ResourceKind::Food, 1));
    assert_eq!((store.wood, store.food, store.capacity), (1, 15, 25));

    let mut pantry = Inventory::home_food(20);
    assert_eq!(pantry.add_partial(ResourceKind::Wood, 1), 0);
    assert_eq!(pantry.wood, 0);
    assert!(pantry.add(ResourceKind::Food, 20));
    assert_eq!(pantry.food, 20);
}
