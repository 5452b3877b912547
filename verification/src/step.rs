use vstd::prelude::*;

use crate::assignment::{deposit_candidates, deposit_keys, deposit_pool};
use crate::colonist::{
    ColonistState,
    ResourceNode,
    Task,
    TimedStep,
    count_down,
    gather_tick,
    moving_task_is_valid,
    spec_count_down,
    spec_gather_tick,
    spec_harvest_amount,
    spec_moving_task_is_valid,
};
use crate::ordering::is_sorted_by_keys;
use crate::stores::{
    Store,
    public_room,
    public_room_count_fits,
    stores_fit,
    stores_fit_in_range,
    total_public_addable,
};
use crate::types::ResourceKind;

verus! {

/// What one tick asks of a colonist, decided from its state alone; the world then
/// answers the requests that need it.
#[derive(Debug)]
pub enum StepAction<P> {
    /// The colonist's next state.
    Settle(ColonistState<P>),
    /// Walk along `path` toward `target`; on arrival the task is carried out,
    /// otherwise the colonist keeps moving with what is left of the path.
    Walk { target: P, path: Vec<P>, task: Task<P>, nav_revision: u64 },
    /// Look for the planner's answer to `request_id`.
    AwaitPath { request_id: u64, target: P, task: Task<P> },
    /// The gathering time is up: harvest `resource` and carry the yield away.
    FinishGathering { resource: u64, kind: ResourceKind, amount: i32 },
    /// Work on `blueprint` for this tick.
    Build { blueprint: u64 },
}

/// One tick of a colonist with `satiety` left, `dt_micros` of simulated time, and
/// `node`, the node its walking or planned task gathers from as it stands now.
/// A tick in which no time passes leaves the state as it is; otherwise a starved
/// colonist stands idle, and a walk whose task lost its point is dropped.
pub open spec fn spec_colonist_step<P>(
    state: ColonistState<P>,
    satiety: u32,
    dt_micros: u64,
    node: Option<ResourceNode>,
) -> StepAction<P> {
    if dt_micros == 0 {
        StepAction::Settle(state)
    } else if satiety == 0 {
        StepAction::Settle(ColonistState::Idle)
    } else {
        match state {
            ColonistState::Idle => StepAction::Settle(ColonistState::Idle),
            ColonistState::Eating { timer_micros } => match spec_count_down(timer_micros, dt_micros) {
                TimedStep::Continue { timer_micros } => StepAction::Settle(
                    ColonistState::Eating { timer_micros },
                ),
                _ => StepAction::Settle(ColonistState::Idle),
            },
            ColonistState::WaitingForPathRetry { timer_micros } => match spec_count_down(
                timer_micros,
                dt_micros,
            ) {
                TimedStep::Continue { timer_micros } => StepAction::Settle(
                    ColonistState::WaitingForPathRetry { timer_micros },
                ),
                _ => StepAction::Settle(ColonistState::Idle),
            },
            ColonistState::Moving { target, path, task, nav_revision } => {
                if spec_moving_task_is_valid(task, node) {
                    StepAction::Walk { target, path, task, nav_revision }
                } else {
                    StepAction::Settle(ColonistState::Idle)
                }
            },
            ColonistState::PlanningPath { request_id, target, task } => {
                if spec_moving_task_is_valid(task, node) {
                    StepAction::AwaitPath { request_id, target, task }
                } else {
                    StepAction::Settle(ColonistState::Idle)
                }
            },
            ColonistState::Gathering { resource, kind, amount, timer_micros } => match spec_gather_tick(
                timer_micros,
                dt_micros,
            ) {
                TimedStep::Continue { timer_micros } => StepAction::Settle(
                    ColonistState::Gathering { resource, kind, amount, timer_micros },
                ),
                _ => StepAction::FinishGathering { resource, kind, amount },
            },
            ColonistState::Building { blueprint } => StepAction::Build { blueprint },
        }
    }
}

/// Decides what one tick asks of a colonist (see `spec_colonist_step`).
pub fn colonist_step<P>(state: ColonistState<P>, satiety: u32, dt_micros: u64, node: Option<ResourceNode>) -> (action:
    StepAction<P>)
    ensures
        action == spec_colonist_step(state, satiety, dt_micros, node),
{
    if dt_micros == 0 {
        return StepAction::Settle(state);
    }
    if satiety == 0 {
        return StepAction::Settle(ColonistState::Idle);
    }
    match state {
        ColonistState::Idle => StepAction::Settle(ColonistState::Idle),
        ColonistState::Eating { timer_micros } => match count_down(timer_micros, dt_micros) {
            TimedStep::Continue { timer_micros } => StepAction::Settle(ColonistState::Eating { timer_micros }),
            _ => StepAction::Settle(ColonistState::Idle),
        },
        ColonistState::WaitingForPathRetry { timer_micros } => match count_down(timer_micros, dt_micros) {
            TimedStep::Continue { timer_micros } => StepAction::Settle(
                ColonistState::WaitingForPathRetry { timer_micros },
            ),
            _ => StepAction::Settle(ColonistState::Idle),
        },
        ColonistState::Moving { target, path, task, nav_revision } => {
            if moving_task_is_valid(&task, node) {
                StepAction::Walk { target, path, task, nav_revision }
            } else {
                StepAction::Settle(ColonistState::Idle)
            }
        },
        ColonistState::PlanningPath { request_id, target, task } => {
            if moving_task_is_valid(&task, node) {
                StepAction::AwaitPath { request_id, target, task }
            } else {
                StepAction::Settle(ColonistState::Idle)
            }
        },
        ColonistState::Gathering { resource, kind, amount, timer_micros } => match gather_tick(
            timer_micros,
            dt_micros,
        ) {
            TimedStep::Continue { timer_micros } => StepAction::Settle(
                ColonistState::Gathering { resource, kind, amount, timer_micros },
            ),
            _ => StepAction::FinishGathering { resource, kind, amount },
        },
        ColonistState::Building { blueprint } => StepAction::Build { blueprint },
    }
}

/// A tick in which no simulated time passes changes no colonist's state.
pub proof fn lemma_no_time_no_change<P>(state: ColonistState<P>, satiety: u32, node: Option<ResourceNode>)
    ensures
        spec_colonist_step(state, satiety, 0, node) == StepAction::Settle(state),
{
}

/// Once time passes, a starved colonist stands idle, whatever it was doing.
pub proof fn lemma_starved_colonists_stand_idle<P>(
    state: ColonistState<P>,
    dt_micros: u64,
    node: Option<ResourceNode>,
)
    requires
        dt_micros > 0,
    ensures
        spec_colonist_step(state, 0, dt_micros, node) == StepAction::Settle(ColonistState::<P>::Idle),
{
}

/// A fed colonist walking, or waiting for a path, to any job but gathering keeps
/// at it: only a gather trip can lose its point on the way, whatever node is
/// passed.
pub proof fn lemma_walks_to_other_jobs_go_on<P>(
    target: P,
    path: Vec<P>,
    task: Task<P>,
    nav_revision: u64,
    request_id: u64,
    satiety: u32,
    dt_micros: u64,
    node: Option<ResourceNode>,
)
    requires
        dt_micros > 0,
        satiety > 0,
        !(task is Gather),
    ensures
        ({
            let moving = (ColonistState::Moving { target, path, task, nav_revision });
            let planning = (ColonistState::PlanningPath { request_id, target, task });
            &&& spec_colonist_step(moving, satiety, dt_micros, node) == (StepAction::Walk {
                target,
                path,
                task,
                nav_revision,
            })
            &&& spec_colonist_step(planning, satiety, dt_micros, node) == (StepAction::AwaitPath {
                request_id,
                target,
                task,
            })
        }),
{
}

/// A fed colonist walking to a gather trip goes on exactly while its node is
/// still there with the planned kind and at least the planned amount (and the
/// amount is positive); otherwise it stands idle.
pub proof fn lemma_gather_walks_need_their_node<P>(
    target: P,
    path: Vec<P>,
    resource: u64,
    kind: ResourceKind,
    amount: i32,
    nav_revision: u64,
    satiety: u32,
    dt_micros: u64,
    node: Option<ResourceNode>,
)
    requires
        dt_micros > 0,
        satiety > 0,
    ensures
        ({
            let task = (Task::Gather { resource, kind, amount });
            let step = spec_colonist_step(
                (ColonistState::Moving { target, path, task, nav_revision }),
                satiety,
                dt_micros,
                node,
            );
            let still_there = node is Some && node->Some_0.kind == kind && node->Some_0.amount >= amount
                && amount > 0;
            &&& still_there ==> step == (StepAction::Walk { target, path, task, nav_revision })
            &&& !still_there ==> step == StepAction::Settle(ColonistState::<P>::Idle)
        }),
{
}

/// Timers of a fed colonist run down with time: a rest or a wait ends once the
/// time passed reaches what was left, and gathering ends once its total reaches
/// the gathering time; until then the timer moves by exactly the time passed.
/// Building goes on to the work of the tick, and an idle colonist stays idle.
pub proof fn lemma_timers_follow_time<P>(
    timer_micros: u64,
    resource: u64,
    kind: ResourceKind,
    amount: i32,
    blueprint: u64,
    satiety: u32,
    dt_micros: u64,
    node: Option<ResourceNode>,
)
    requires
        dt_micros > 0,
        satiety > 0,
    ensures
        ({
            let left = (timer_micros - dt_micros) as u64;
            let eating = (ColonistState::<P>::Eating { timer_micros });
            let waiting = (ColonistState::<P>::WaitingForPathRetry { timer_micros });
            let gathering = (ColonistState::<P>::Gathering { resource, kind, amount, timer_micros });
            let gathered = (timer_micros + dt_micros) as u64;
            let building = (ColonistState::<P>::Building { blueprint });
            &&& spec_colonist_step(eating, satiety, dt_micros, node) == if dt_micros < timer_micros {
                StepAction::Settle((ColonistState::<P>::Eating { timer_micros: left }))
            } else {
                StepAction::Settle(ColonistState::<P>::Idle)
            }
            &&& spec_colonist_step(waiting, satiety, dt_micros, node) == if dt_micros < timer_micros {
                StepAction::Settle((ColonistState::<P>::WaitingForPathRetry { timer_micros: left }))
            } else {
                StepAction::Settle(ColonistState::<P>::Idle)
            }
            &&& spec_colonist_step(gathering, satiety, dt_micros, node) == if timer_micros + dt_micros
                < crate::colonist::GATHER_MICROS {
                StepAction::Settle(
                    (ColonistState::<P>::Gathering { resource, kind, amount, timer_micros: gathered }),
                )
            } else {
                (StepAction::<P>::FinishGathering { resource, kind, amount })
            }
            &&& spec_colonist_step(building, satiety, dt_micros, node) == (StepAction::<P>::Build { blueprint })
            &&& spec_colonist_step(ColonistState::<P>::Idle, satiety, dt_micros, node) == StepAction::Settle(
                ColonistState::<P>::Idle,
            )
        }),
{
}

/// What the planner's answer to a pending request means for the colonist.
#[derive(Debug)]
pub enum PathReply<P> {
    /// The colonist's next state.
    Next(ColonistState<P>),
    /// No path leads to the target: what `task` carries is handed to the nearest
    /// public stores and the colonist waits to retry.
    Unreachable(Task<P>),
}

/// The planner's `answer` to `request_id`: `None` while it is still searching,
/// `Some(None)` when no path exists. A found path is walked, tagged with
/// `nav_revision`, the navigation revision it was planned on.
pub fn path_reply<P>(
    request_id: u64,
    target: P,
    task: Task<P>,
    answer: Option<Option<Vec<P>>>,
    nav_revision: u64,
) -> (reply: PathReply<P>)
    ensures
        reply == (match answer {
            None => PathReply::Next(ColonistState::PlanningPath { request_id, target, task }),
            Some(Some(path)) => PathReply::Next(ColonistState::Moving { target, path, task, nav_revision }),
            Some(None) => PathReply::Unreachable(task),
        }),
{
    match answer {
        None => PathReply::Next(ColonistState::PlanningPath { request_id, target, task }),
        Some(Some(path)) => PathReply::Next(ColonistState::Moving { target, path, task, nav_revision }),
        Some(None) => PathReply::Unreachable(task),
    }
}

/// The end of a gathering: what was taken from the node and where it goes.
#[derive(Debug)]
pub struct GatherEnd {
    /// How much the harvest took.
    pub taken: i32,
    /// The harvest emptied the node: it leaves the world.
    pub depleted: bool,
    /// The stores to carry the yield to, to try in turn; empty when nothing was taken.
    pub deposit_order: Vec<usize>,
}

/// Whether harvesting `planned` items from `node`, with `room` left in the public
/// stores, keeps the node's amount within `i32`.
pub open spec fn harvest_fits(node: Option<ResourceNode>, planned: i32, room: int) -> bool {
    match node {
        Some(n) => i32::MIN <= n.amount - spec_harvest_amount(planned, n.amount, room as i32) <= i32::MAX,
        None => true,
    }
}

/// Decides the `requires` of `finish_gathering`: the stores' arithmetic, the room
/// left in the public stores, and the node's amount after the harvest all stay
/// within `i32`.
pub fn finish_gathering_inputs_fit(
    kind: ResourceKind,
    planned: i32,
    stores: &Vec<Store>,
    node: Option<ResourceNode>,
) -> (fits: bool)
    ensures
        fits == (stores_fit(stores@) && public_room(stores@, kind) <= i32::MAX && harvest_fits(
            node,
            planned,
            public_room(stores@, kind),
        )),
{
    if !stores_fit_in_range(stores) || !public_room_count_fits(stores, kind) {
        return false;
    }
    let room = total_public_addable(stores, kind);
    match node {
        None => true,
        Some(n) => {
            let smaller = if planned < n.amount {
                planned
            } else {
                n.amount
            };
            let taken = if smaller < room {
                smaller
            } else {
                room
            };
            let left: i64 = n.amount as i64 - taken as i64;
            i32::MIN as i64 <= left && left <= i32::MAX as i64
        },
    }
}

/// Ends a gathering of `planned` items of `kind` from `node` (`None` when the node
/// is gone). With no room left in the public stores nothing is taken. Otherwise
/// the node gives what it can, and what it gave is carried to the stores that
/// `deposit_candidates` lists.
pub fn finish_gathering(
    kind: ResourceKind,
    planned: i32,
    stores: &Vec<Store>,
    node: &mut Option<ResourceNode>,
) -> (end: GatherEnd)
    requires
        stores_fit(stores@),
        public_room(stores@, kind) <= i32::MAX,
        harvest_fits(*old(node), planned, public_room(stores@, kind)),
    ensures
        public_room(stores@, kind) <= 0 || (*old(node)) is None ==> {
            &&& *final(node) == *old(node)
            &&& end.taken == 0
            &&& !end.depleted
            &&& end.deposit_order@.len() == 0
        },
        public_room(stores@, kind) > 0 && (*old(node)) is Some ==> ({
            let n = (*old(node))->Some_0;
            let taken = spec_harvest_amount(planned, n.amount, public_room(stores@, kind) as i32);
            &&& end.taken == taken
            &&& *final(node) == Some(ResourceNode { kind: n.kind, amount: (n.amount - taken) as i32 })
            &&& end.depleted == (taken > 0 && n.amount - taken <= 0)
            &&& taken > 0 ==> is_sorted_by_keys(
                deposit_pool(stores@, kind, None),
                deposit_keys(stores@, deposit_pool(stores@, kind, None), kind, taken as i32),
                end.deposit_order@,
            )
            &&& taken <= 0 ==> end.deposit_order@.len() == 0
        }),
{
    let room = total_public_addable(stores, kind);
    if room <= 0 {
        return GatherEnd { taken: 0, depleted: false, deposit_order: Vec::new() };
    }
    let harvest = match node {
        Some(n) => n.harvest(planned, room),
        None => {
            return GatherEnd { taken: 0, depleted: false, deposit_order: Vec::new() };
        },
    };
    let deposit_order = if harvest.amount > 0 {
        deposit_candidates(stores, kind, harvest.amount, None)
    } else {
        Vec::new()
    };
    GatherEnd { taken: harvest.amount, depleted: harvest.depleted, deposit_order }
}

} // verus!
