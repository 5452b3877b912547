use colony::assignment::{HomeSnapshot, Job, JobOptions, ResourceSighting, assign_job, best_home_candidate, gather_candidate_snapshots};
use colony::colonist::{Colonist, ColonistState, NeedsOutcome, Task, decayed_satiety, restored_satiety};
use colony::reservations::AssignmentReservations;
use colony::resources::{COLONIST_CARRY_CAPACITY, carried_amount};
use colony::types::ResourceKind;

type Position = [f32; 3];

/// Orders positions by their distance from the origin on the ground plane.
fn distance_key(position: Position) -> u32 {
    (position[0] * position[0] + position[2] * position[2]).sqrt().to_bits()
}

fn sighting(resource: u64, kind: ResourceKind, amount: i32, position: Position) -> ResourceSighting {
    ResourceSighting { resource, kind, amount, distance_key: distance_key(position) }
}

#[test]
fn carried_amount_uses_resource_unit_size() {
    assert_eq!(carried_amount(ResourceKind::Wood, COLONIST_CARRY_CAPACITY), 1);
    assert_eq!(carried_amount(ResourceKind::Food, COLONIST_CARRY_CAPACITY), 10);
}

#[test]
fn hungry_threshold_starts_below_fifty() {
    let colonist: Colonist<Position> = Colonist {
        name: "Test".to_string(),
        state: ColonistState::Idle,
        speed_millis: 1_000,
        home: None,
        satiety_micros: 499_000_000,
        carry_capacity: COLONIST_CARRY_CAPACITY,
    };

    assert!(colonist.is_hungry());
}

#[test]
fn satiety_decays_with_simulation_time_and_caps_at_zero() {
    assert_eq!(decayed_satiety(1_000_000_000, 10_000_000), 990_000_000);
    assert_eq!(decayed_satiety(5_000_000, 10_000_000), 0);
}

#[test]
fn eating_restores_satiety_without_exceeding_one_hundred() {
    assert_eq!(restored_satiety(400_000_000), 900_000_000);
    assert_eq!(restored_satiety(800_000_000), 1_000_000_000);
}

#[test]
fn housing_assignment_balances_before_distance() {
    let near_full = 1u64;
    let far_empty = 2u64;
    let homes = vec![
        HomeSnapshot { home: near_full, residents: 4, distance_key: distance_key([0.1, 0.0, 0.0]) },
        HomeSnapshot { home: far_empty, residents: 0, distance_key: distance_key([100.0, 0.0, 0.0]) },
    ];

    let selected = best_home_candidate(&homes).unwrap();

    assert_eq!(homes[selected].home, far_empty);
}

#[test]
fn gather_reservation_exhausts_single_node_for_next_worker() {
    let resource = 1u64;
    let mut reservations = AssignmentReservations::default();
    let resources = vec![sighting(resource, ResourceKind::Food, 10, [1.0, 0.0, 0.0])];

    let candidates = gather_candidate_snapshots(
        ResourceKind::Food,
        COLONIST_CARRY_CAPACITY,
        20,
        &resources,
        &reservations,
    );
    assert_eq!(candidates.len(), 1);
    assert_eq!(candidates[0].amount, 10);

    reservations.reserve_gather(resource, ResourceKind::Food, candidates[0].amount);
    let candidates = gather_candidate_snapshots(
        ResourceKind::Food,
        COLONIST_CARRY_CAPACITY,
        20,
        &resources,
        &reservations,
    );

    assert!(candidates.is_empty());
}

#[test]
fn gather_reservation_moves_next_worker_to_next_node() {
    let near = 1u64;
    let far = 2u64;
    let mut reservations = AssignmentReservations::default();
    reservations.reserve_gather(near, ResourceKind::Food, 10);

    let candidates = gather_candidate_snapshots(
        ResourceKind::Food,
        COLONIST_CARRY_CAPACITY,
        20,
        &vec![
            sighting(near, ResourceKind::Food, 10, [1.0, 0.0, 0.0]),
            sighting(far, ResourceKind::Food, 10, [3.0, 0.0, 0.0]),
        ],
        &reservations,
    );

    assert_eq!(candidates.len(), 1);
    assert_eq!(candidates[0].resource, far);
}

#[test]
fn public_capacity_reservation_blocks_extra_gathering() {
    let resource = 1u64;
    let mut reservations = AssignmentReservations::default();
    reservations.reserve_public_deposit(ResourceKind::Food, 10);
    let public_capacity = ((10 * ResourceKind::Food.unit_size())
        - reservations.reserved_public_capacity())
    .max(0)
        / ResourceKind::Food.unit_size();

    let candidates = gather_candidate_snapshots(
        ResourceKind::Food,
        COLONIST_CARRY_CAPACITY,
        public_capacity,
        &vec![sighting(resource, ResourceKind::Food, 20, [1.0, 0.0, 0.0])],
        &reservations,
    );

    assert!(candidates.is_empty());
}

#[test]
fn planning_path_reserves_its_task() {
    let resource = 1u64;
    let state: ColonistState<Position> = ColonistState::PlanningPath {
        request_id: 7,
        target: [1.0, 0.0, 0.0],
        task: Task::Gather { resource, kind: ResourceKind::Food, amount: 10 },
    };
    let mut reservations = AssignmentReservations::default();

    reservations.reserve_state(&state);

    assert_eq!(reservations.reserved_gather(resource), 10);
}

#[test]
fn needs_stand_still_when_no_time_passes() {
    let mut colonist: Colonist<Position> = Colonist {
        name: "Test".to_string(),
        state: ColonistState::Idle,
        speed_millis: 1_000,
        home: Some(3),
        satiety_micros: 0,
        carry_capacity: COLONIST_CARRY_CAPACITY,
    };
    assert_eq!(colonist.tick_needs(0), NeedsOutcome::Alive);
    assert_eq!(colonist.home, Some(3));
    assert_eq!(colonist.tick_needs(1), NeedsOutcome::Starved { home: Some(3) });
    assert_eq!(colonist.home, None);
}

#[test]
fn only_idle_fed_colonists_take_jobs() {
    let options = JobOptions {
        hungry: false,
        pantry: None,
        meals: vec![],
        deliveries: vec![],
        builds: vec![4],
        restocks: vec![],
        wood_trips: vec![],
        food_trips: vec![],
    };
    let mut reservations = AssignmentReservations::default();
    let mut colonist: Colonist<Position> = Colonist {
        name: "Test".to_string(),
        state: ColonistState::Idle,
        speed_millis: 1_000,
        home: None,
        satiety_micros: 1,
        carry_capacity: COLONIST_CARRY_CAPACITY,
    };
    assert!(colonist.seeks_job());
    assert_eq!(assign_job(&colonist, &options, &mut reservations), Some(Job::Build { site: 4 }));
    colonist.satiety_micros = 0;
    assert!(!colonist.seeks_job());
    assert_eq!(assign_job(&colonist, &options, &mut reservations), None);
    colonist.satiety_micros = 5;
    colonist.state = ColonistState::Eating { timer_micros: 1 };
    assert_eq!(assign_job(&colonist, &options, &mut reservations), None);
}
