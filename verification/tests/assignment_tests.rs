use colony::assignment::{BlueprintSite, HomeSnapshot, RestockCandidate, best_home_candidate, build_candidates, deposit_candidates, home_food_need, home_pantry, home_restock_candidates, material_delivery_candidates, public_meal_candidates};
use colony::stores::{Store, stores_are_sound, stores_fit_in_range, add_to_nearest_public, add_to_store, fill_in_order, remove_from_store, total_public_addable, total_public_addable_after_reserved};
use colony::assignment::{ResourceSighting, delivery_inputs_fit_at, gather_inputs_fit, gather_trips, has_completed, home_need_fits, settle_colonist};
use colony::blueprint::{Blueprint, Housing};
use colony::reservations::AssignmentReservations;
use colony::resources::{COLONIST_CARRY_CAPACITY, Inventory};
use colony::types::{BuildingKind, ResourceKind};

fn public_store(entity: u64, capacity: i32, wood: i32, food: i32, distance_key: u32) -> Store {
    let mut inventory = Inventory::public(capacity);
    assert!(inventory.add(ResourceKind::Wood, wood));
    assert!(inventory.add(ResourceKind::Food, food));
    Store { entity, inventory, public: true, distance_key }
}

fn pantry(entity: u64, food: i32, distance_key: u32) -> Store {
    let mut inventory = Inventory::home_food(20);
    assert!(inventory.add(ResourceKind::Food, food));
    Store { entity, inventory, public: false, distance_key }
}

#[test]
fn public_room_counts_only_public_stores() {
    let stores = vec![public_store(1, 100, 2, 0, 5), pantry(2, 0, 1), public_store(3, 30, 0, 25, 9)];
    assert_eq!(total_public_addable(&stores, ResourceKind::Food), 80 + 5);
    assert_eq!(total_public_addable(&stores, ResourceKind::Wood), 8);
}

#[test]
fn reserved_deposits_take_public_room() {
    let stores = vec![public_store(1, 100, 0, 0, 5)];
    let mut reservations = AssignmentReservations::new();
    reservations.reserve_public_deposit(ResourceKind::Wood, 3);
    reservations.reserve_gather(7, ResourceKind::Food, 15);
    assert_eq!(reservations.reserved_public_capacity(), 45);
    assert_eq!(total_public_addable_after_reserved(&stores, &reservations, ResourceKind::Wood), 5);
    assert_eq!(total_public_addable_after_reserved(&stores, &reservations, ResourceKind::Food), 55);
    reservations.reserve_public_deposit(ResourceKind::Food, 500);
    assert_eq!(total_public_addable_after_reserved(&stores, &reservations, ResourceKind::Food), 0);
}

#[test]
fn negative_claims_count_as_nothing() {
    let mut reservations = AssignmentReservations::new();
    reservations.reserve_material_delivery(4, -3);
    reservations.reserve_material_delivery(4, 2);
    reservations.reserve_material_delivery(5, 7);
    assert_eq!(reservations.reserved_material_delivery(4), 2);
    assert_eq!(reservations.reserved_material_delivery(5), 7);
    assert_eq!(reservations.reserved_material_delivery(6), 0);
}

#[test]
fn no_home_with_room_means_no_choice() {
    let homes = vec![
        HomeSnapshot { home: 1, residents: 5, distance_key: 1 },
        HomeSnapshot { home: 2, residents: 5, distance_key: 2 },
    ];
    assert_eq!(best_home_candidate(&homes), None);
    let homes = vec![
        HomeSnapshot { home: 1, residents: 2, distance_key: 7 },
        HomeSnapshot { home: 2, residents: 2, distance_key: 3 },
        HomeSnapshot { home: 3, residents: 2, distance_key: 3 },
    ];
    assert_eq!(best_home_candidate(&homes), Some(1));
}

#[test]
fn home_food_need_targets_four_per_resident() {
    let mut home = Inventory::home_food(20);
    assert_eq!(home_food_need(3, &home), 12);
    assert!(home.add(ResourceKind::Food, 10));
    assert_eq!(home_food_need(3, &home), 2);
    assert_eq!(home_food_need(5, &home), 10);
    assert_eq!(home_food_need(2, &home), -2);
}

#[test]
fn pantry_is_found_only_with_food() {
    let stores = vec![public_store(1, 100, 0, 5, 2), pantry(2, 0, 1), pantry(3, 3, 4)];
    assert_eq!(home_pantry(&stores, 2), None);
    assert_eq!(home_pantry(&stores, 3), Some(2));
    assert_eq!(home_pantry(&stores, 9), None);
}

#[test]
fn meals_come_from_nearest_public_food() {
    let stores = vec![
        public_store(1, 100, 0, 5, 8),
        pantry(2, 4, 1),
        public_store(3, 100, 0, 0, 2),
        public_store(4, 100, 0, 1, 3),
        public_store(5, 100, 0, 2, 3),
    ];
    assert_eq!(public_meal_candidates(&stores), vec![3, 4, 0]);
}

#[test]
fn builders_go_to_nearest_ready_blueprint() {
    let mut ready = Blueprint::new(BuildingKind::House);
    ready.delivered_wood = ready.required_wood;
    let waiting = Blueprint::new(BuildingKind::Storage);
    let mut done = Blueprint::new(BuildingKind::Road);
    done.finish_instantly();
    let sites = vec![
        BlueprintSite { entity: 1, blueprint: ready, distance_key: 9 },
        BlueprintSite { entity: 2, blueprint: waiting, distance_key: 1 },
        BlueprintSite { entity: 3, blueprint: done, distance_key: 1 },
        BlueprintSite { entity: 4, blueprint: ready, distance_key: 4 },
    ];
    assert_eq!(build_candidates(&sites), vec![3, 0]);
}

#[test]
fn restock_trips_fetch_what_the_home_lacks() {
    let stores = vec![
        public_store(1, 100, 0, 3, 5),
        pantry(2, 9, 1),
        public_store(3, 100, 0, 40, 2),
        public_store(4, 100, 0, 0, 1),
    ];
    let trips = home_restock_candidates(&stores, COLONIST_CARRY_CAPACITY, 6);
    assert_eq!(
        trips,
        vec![
            RestockCandidate { source: 3, store: 2, amount: 6 },
            RestockCandidate { source: 1, store: 0, amount: 3 },
        ]
    );
}

#[test]
fn deposits_prefer_stores_that_take_the_whole_load() {
    let stores = vec![
        public_store(1, 12, 0, 0, 1),
        public_store(2, 100, 0, 0, 7),
        public_store(3, 100, 0, 0, 3),
        public_store(4, 100, 10, 0, 2),
        pantry(5, 0, 1),
    ];
    assert_eq!(deposit_candidates(&stores, ResourceKind::Food, 40, None), vec![2, 1, 0]);
    assert_eq!(deposit_candidates(&stores, ResourceKind::Food, 40, Some(3)), vec![1, 0]);
    assert_eq!(deposit_candidates(&stores, ResourceKind::Wood, 2, None), vec![2, 1, 0]);
}

#[test]
fn wood_runs_serve_the_neediest_blueprint_first() {
    let house = Blueprint::new(BuildingKind::House);
    let storage = Blueprint::new(BuildingKind::Storage);
    let sites = vec![
        BlueprintSite { entity: 10, blueprint: house, distance_key: 0 },
        BlueprintSite { entity: 11, blueprint: storage, distance_key: 0 },
    ];
    let stores = vec![public_store(1, 100, 5, 0, 0), pantry(2, 0, 0), public_store(3, 100, 0, 0, 0)];
    let trips = vec![vec![4, 1, 1], vec![9, 1, 1]];
    let mut reservations = AssignmentReservations::new();
    reservations.reserve_material_delivery(10, 4);

    let runs = material_delivery_candidates(&sites, &stores, &trips, COLONIST_CARRY_CAPACITY, &reservations);

    assert_eq!(runs.len(), 2);
    assert_eq!((runs[0].blueprint, runs[0].source, runs[0].remaining, runs[0].amount), (11, 1, 12, 1));
    assert_eq!((runs[1].blueprint, runs[1].source, runs[1].remaining, runs[1].amount), (10, 1, 6, 1));
    assert_eq!(runs[1].trip_key, 4);
}

#[test]
fn store_operations_find_stores_by_id() {
    let mut stores = vec![public_store(1, 100, 2, 0, 0), pantry(2, 0, 0)];
    assert!(!remove_from_store(&mut stores, 1, ResourceKind::Wood, 3));
    assert!(remove_from_store(&mut stores, 1, ResourceKind::Wood, 2));
    assert_eq!(stores[0].inventory.wood, 0);
    assert!(!remove_from_store(&mut stores, 9, ResourceKind::Wood, 1));
    assert_eq!(add_to_store(&mut stores, 2, ResourceKind::Food, 25), 5);
    assert_eq!(stores[1].inventory.food, 20);
    assert_eq!(add_to_store(&mut stores, 2, ResourceKind::Wood, 1), 1);
    assert_eq!(add_to_store(&mut stores, 9, ResourceKind::Food, 4), 4);
}

#[test]
fn nearest_public_stores_fill_first_and_nothing_is_lost() {
    let mut stores = vec![
        public_store(1, 10, 0, 0, 9),
        pantry(2, 0, 0),
        public_store(3, 5, 0, 0, 1),
        public_store(4, 4, 0, 0, 5),
    ];
    let left = add_to_nearest_public(&mut stores, ResourceKind::Food, 12);
    assert_eq!(left, 0);
    assert_eq!(stores[2].inventory.food, 5);
    assert_eq!(stores[3].inventory.food, 4);
    assert_eq!(stores[0].inventory.food, 3);
    assert_eq!(stores[1].inventory.food, 0);
    let left = add_to_nearest_public(&mut stores, ResourceKind::Food, 12);
    assert_eq!(left, 5);
    let held: i32 = stores.iter().map(|store| store.inventory.food).sum();
    assert_eq!(held + left, 24);
}

#[test]
fn filling_in_order_skips_nothing_and_keeps_the_rest() {
    let mut inventories = vec![Inventory::public(3), Inventory::home_food(4), Inventory::public(50)];
    let left = fill_in_order(&mut inventories, ResourceKind::Food, 10);
    assert_eq!(left, 0);
    assert_eq!((inventories[0].food, inventories[1].food, inventories[2].food), (3, 4, 3));
    let left = fill_in_order(&mut inventories, ResourceKind::Wood, 9);
    assert_eq!(left, 5);
    assert_eq!(inventories[2].wood, 4);
}

#[test]
fn colonists_settle_in_the_emptiest_house_and_keep_it() {
    let mut homes = vec![
        HomeSnapshot { home: 1, residents: 1, distance_key: 1 },
        HomeSnapshot { home: 2, residents: 0, distance_key: 9 },
    ];
    let mut full = Housing::default();
    assert!(full.add_resident(50));
    let mut housings = vec![full, Housing::default()];

    assert_eq!(settle_colonist(60, None, &mut homes, &mut housings), Some(2));
    assert_eq!(homes[1].residents, 1);
    assert_eq!(housings[1].residents, vec![60]);
    assert_eq!(settle_colonist(60, Some(2), &mut homes, &mut housings), Some(2));
    assert_eq!(homes[1].residents, 1);
    assert_eq!(settle_colonist(61, Some(7), &mut homes, &mut housings), Some(1));
    assert_eq!(housings[0].residents, vec![50, 61]);
}

#[test]
fn completed_buildings_are_found_by_kind() {
    let completed = vec![BuildingKind::House, BuildingKind::Woodcutter];
    assert!(has_completed(&completed, BuildingKind::Woodcutter));
    assert!(!has_completed(&completed, BuildingKind::Gatherer));
    assert!(!has_completed(&Vec::new(), BuildingKind::House));
}

#[test]
fn gather_trips_need_a_workplace_and_public_room() {
    let stores = vec![public_store(1, 100, 0, 0, 5)];
    let sightings = vec![
        ResourceSighting { resource: 10, kind: ResourceKind::Food, amount: 30, distance_key: 9 },
        ResourceSighting { resource: 11, kind: ResourceKind::Wood, amount: 30, distance_key: 1 },
        ResourceSighting { resource: 12, kind: ResourceKind::Food, amount: 2, distance_key: 4 },
    ];
    let mut reservations = AssignmentReservations::new();
    assert!(gather_trips(false, ResourceKind::Food, COLONIST_CARRY_CAPACITY, &stores, &sightings, &reservations).is_empty());

    let trips = gather_trips(true, ResourceKind::Food, COLONIST_CARRY_CAPACITY, &stores, &sightings, &reservations);
    assert_eq!(trips.len(), 2);
    assert_eq!((trips[0].resource, trips[0].sighting, trips[0].amount), (12, 2, 2));
    assert_eq!((trips[1].resource, trips[1].sighting, trips[1].amount), (10, 0, 10));

    reservations.reserve_public_deposit(ResourceKind::Food, 95);
    let trips = gather_trips(true, ResourceKind::Food, COLONIST_CARRY_CAPACITY, &stores, &sightings, &reservations);
    assert_eq!(trips.len(), 2);
    assert_eq!(trips[1].amount, 5);

    reservations.reserve_public_deposit(ResourceKind::Food, 5);
    assert!(gather_trips(true, ResourceKind::Food, COLONIST_CARRY_CAPACITY, &stores, &sightings, &reservations).is_empty());
}

#[test]
fn input_checks_match_what_the_candidates_need() {
    let stores = vec![public_store(1, 100, 0, 0, 5)];
    let sightings = vec![ResourceSighting { resource: 10, kind: ResourceKind::Food, amount: 30, distance_key: 9 }];
    let mut reservations = AssignmentReservations::new();
    assert!(stores_are_sound(&stores));
    assert!(stores_fit_in_range(&stores));
    assert!(gather_inputs_fit(ResourceKind::Food, &stores, &sightings, &reservations));
    reservations.reserve_gather(10, ResourceKind::Food, i32::MAX);
    reservations.reserve_gather(10, ResourceKind::Food, 1);
    assert!(!gather_inputs_fit(ResourceKind::Food, &stores, &sightings, &reservations));
    assert!(gather_inputs_fit(ResourceKind::Wood, &stores, &sightings, &AssignmentReservations::new()));
    let huge = vec![public_store(1, i32::MAX, 0, 0, 5), public_store(2, i32::MAX, 0, 0, 6)];
    assert!(!gather_inputs_fit(ResourceKind::Food, &huge, &sightings, &AssignmentReservations::new()));

    let sites = vec![BlueprintSite { entity: 7, blueprint: Blueprint::new(BuildingKind::House), distance_key: 1 }];
    let fresh = AssignmentReservations::new();
    assert!(delivery_inputs_fit_at(&sites, &stores, &vec![vec![3]], &fresh));
    assert!(!delivery_inputs_fit_at(&sites, &stores, &vec![vec![3, 4]], &fresh));
    assert!(!delivery_inputs_fit_at(&sites, &stores, &vec![], &fresh));

    assert!(home_need_fits(3, &Inventory::home_food(20)));
    assert!(!home_need_fits(usize::MAX, &Inventory::home_food(20)));
}
