use colony::colonist::{ColonistState, GATHER_MICROS, ResourceNode, Task};
use colony::resources::Inventory;
use colony::step::{PathReply, StepAction, colonist_step, finish_gathering, finish_gathering_inputs_fit, path_reply};
use colony::stores::Store;
use colony::types::ResourceKind;

type Position = [f32; 3];

const FED: u32 = 700_000_000;

fn public_store(entity: u64, capacity: i32, distance_key: u32) -> Store {
    Store { entity, inventory: Inventory::public(capacity), public: true, distance_key }
}

fn gather_task() -> Task<Position> {
    Task::Gather { resource: 9, kind: ResourceKind::Food, amount: 5 }
}

fn food_node(amount: i32) -> Option<ResourceNode> {
    Some(ResourceNode { kind: ResourceKind::Food, amount })
}

#[test]
fn starved_colonists_stand_idle() {
    let state: ColonistState<Position> = ColonistState::Building { blueprint: 3 };
    assert!(matches!(colonist_step(state, 0, 1_000, None), StepAction::Settle(ColonistState::Idle)));
}

#[test]
fn timed_states_count_down_then_end() {
    let eating: ColonistState<Position> = ColonistState::Eating { timer_micros: 1_500 };
    assert!(matches!(
        colonist_step(eating, FED, 1_000, None),
        StepAction::Settle(ColonistState::Eating { timer_micros: 500 })
    ));
    let eating: ColonistState<Position> = ColonistState::Eating { timer_micros: 1_000 };
    assert!(matches!(colonist_step(eating, FED, 1_000, None), StepAction::Settle(ColonistState::Idle)));
    let waiting: ColonistState<Position> = ColonistState::WaitingForPathRetry { timer_micros: 300 };
    assert!(matches!(
        colonist_step(waiting, FED, 100, None),
        StepAction::Settle(ColonistState::WaitingForPathRetry { timer_micros: 200 })
    ));
    let waiting: ColonistState<Position> = ColonistState::WaitingForPathRetry { timer_micros: 300 };
    assert!(matches!(colonist_step(waiting, FED, 400, None), StepAction::Settle(ColonistState::Idle)));
}

#[test]
fn gathering_runs_until_the_harvest_is_due() {
    let gathering: ColonistState<Position> =
        ColonistState::Gathering { resource: 9, kind: ResourceKind::Food, amount: 5, timer_micros: 0 };
    assert!(matches!(
        colonist_step(gathering, FED, 400_000, None),
        StepAction::Settle(ColonistState::Gathering { resource: 9, amount: 5, timer_micros: 400_000, .. })
    ));
    let gathering: ColonistState<Position> =
        ColonistState::Gathering { resource: 9, kind: ResourceKind::Food, amount: 5, timer_micros: 1_000_000 };
    assert!(matches!(
        colonist_step(gathering, FED, GATHER_MICROS - 1_000_000, None),
        StepAction::FinishGathering { resource: 9, kind: ResourceKind::Food, amount: 5 }
    ));
}

#[test]
fn walks_and_plans_keep_only_tasks_with_a_point() {
    let moving: ColonistState<Position> =
        ColonistState::Moving { target: [1.0, 0.0, 2.0], path: vec![[1.0, 0.0, 2.0]], task: gather_task(), nav_revision: 4 };
    match colonist_step(moving, FED, 1_000, food_node(5)) {
        StepAction::Walk { target, path, nav_revision, .. } => {
            assert_eq!(target, [1.0, 0.0, 2.0]);
            assert_eq!(path.len(), 1);
            assert_eq!(nav_revision, 4);
        }
        other => panic!("expected a walk, got {other:?}"),
    }
    let moving: ColonistState<Position> =
        ColonistState::Moving { target: [1.0, 0.0, 2.0], path: vec![], task: gather_task(), nav_revision: 4 };
    assert!(matches!(colonist_step(moving, FED, 1_000, food_node(4)), StepAction::Settle(ColonistState::Idle)));
    let planning: ColonistState<Position> =
        ColonistState::PlanningPath { request_id: 7, target: [0.0, 0.0, 0.0], task: gather_task() };
    assert!(matches!(colonist_step(planning, FED, 1_000, None), StepAction::Settle(ColonistState::Idle)));
    let planning: ColonistState<Position> =
        ColonistState::PlanningPath { request_id: 7, target: [0.0, 0.0, 0.0], task: Task::Build { blueprint: 2 } };
    assert!(matches!(colonist_step(planning, FED, 1_000, None), StepAction::AwaitPath { request_id: 7, .. }));
    let building: ColonistState<Position> = ColonistState::Building { blueprint: 2 };
    assert!(matches!(colonist_step(building, FED, 1_000, None), StepAction::Build { blueprint: 2 }));
    assert!(matches!(colonist_step(ColonistState::<Position>::Idle, FED, 1_000, None), StepAction::Settle(ColonistState::Idle)));
}

#[test]
fn planner_answers_become_walks_waits_or_spills() {
    let target: Position = [3.0, 0.0, 3.0];
    assert!(matches!(
        path_reply(7, target, gather_task(), None, 2),
        PathReply::Next(ColonistState::PlanningPath { request_id: 7, .. })
    ));
    match path_reply(7, target, gather_task(), Some(Some(vec![target])), 2) {
        PathReply::Next(ColonistState::Moving { path, nav_revision, .. }) => {
            assert_eq!(path, vec![target]);
            assert_eq!(nav_revision, 2);
        }
        other => panic!("expected a walk, got {other:?}"),
    }
    assert!(matches!(
        path_reply(7, target, gather_task(), Some(None), 2),
        PathReply::Unreachable(Task::Gather { resource: 9, .. })
    ));
}

#[test]
fn full_public_stores_leave_the_node_alone() {
    let mut full = public_store(1, 10, 0);
    assert!(full.inventory.add(ResourceKind::Food, 10));
    let stores = vec![full, Store { entity: 2, inventory: Inventory::home_food(50), public: false, distance_key: 0 }];
    let mut node = food_node(8);
    let end = finish_gathering(ResourceKind::Food, 5, &stores, &mut node);
    assert_eq!(end.taken, 0);
    assert!(!end.depleted);
    assert!(end.deposit_order.is_empty());
    assert_eq!(node, food_node(8));
}

#[test]
fn a_vanished_node_yields_nothing() {
    let stores = vec![public_store(1, 10, 0)];
    let mut node = None;
    let end = finish_gathering(ResourceKind::Food, 5, &stores, &mut node);
    assert_eq!(end.taken, 0);
    assert!(end.deposit_order.is_empty());
    assert_eq!(node, None);
}

#[test]
fn harvests_are_capped_by_room_and_carried_to_the_stores() {
    let stores = vec![public_store(1, 2, 5), public_store(2, 1, 1)];
    let mut node = food_node(8);
    let end = finish_gathering(ResourceKind::Food, 5, &stores, &mut node);
    assert_eq!(end.taken, 3);
    assert!(!end.depleted);
    assert_eq!(node, food_node(5));
    assert_eq!(end.deposit_order, vec![1, 0]);

    let stores = vec![public_store(1, 20, 5), public_store(2, 20, 1)];
    let mut node = food_node(4);
    let end = finish_gathering(ResourceKind::Food, 5, &stores, &mut node);
    assert_eq!(end.taken, 4);
    assert!(end.depleted);
    assert_eq!(node, food_node(0));
    assert_eq!(end.deposit_order, vec![1, 0]);
}

#[test]
fn a_tick_without_time_changes_no_state() {
    let building: ColonistState<Position> = ColonistState::Building { blueprint: 3 };
    assert!(matches!(colonist_step(building, 0, 0, None), StepAction::Settle(ColonistState::Building { blueprint: 3 })));
    let eating: ColonistState<Position> = ColonistState::Eating { timer_micros: 10 };
    assert!(matches!(colonist_step(eating, FED, 0, None), StepAction::Settle(ColonistState::Eating { timer_micros: 10 })));
    let moving: ColonistState<Position> =
        ColonistState::Moving { target: [1.0, 0.0, 2.0], path: vec![], task: gather_task(), nav_revision: 4 };
    assert!(matches!(colonist_step(moving, FED, 0, None), StepAction::Settle(ColonistState::Moving { .. })));
}

#[test]
fn finish_gathering_checks_its_inputs() {
    let stores = vec![public_store(1, 10, 0)];
    assert!(finish_gathering_inputs_fit(ResourceKind::Food, 5, &stores, food_node(8)));
    assert!(!finish_gathering_inputs_fit(ResourceKind::Food, i32::MIN, &stores, food_node(i32::MAX)));
    let huge = vec![public_store(1, i32::MAX, 0), public_store(2, i32::MAX, 0)];
    assert!(!finish_gathering_inputs_fit(ResourceKind::Food, 5, &huge, food_node(8)));
}
