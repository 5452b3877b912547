use vstd::prelude::*;

use crate::blueprint::Blueprint;
use crate::text::{decimal, join, spell};
use crate::types::ResourceKind;

verus! {

/// Time a colonist spends at a resource before the harvest, in microseconds.
pub const GATHER_MICROS: u64 = 1_400_000;

/// Time a colonist rests after a meal, in microseconds.
pub const EAT_REST_MICROS: u64 = 2_000_000;

/// Time a colonist waits before asking again for a path that failed, in microseconds.
pub const PATH_FAILURE_RETRY_MICROS: u64 = 200_000;

/// Satiety is measured in the simulated time it lasts, in microseconds: a
/// colonist loses one point every ten seconds, so one point is ten million.
pub const SATIETY_POINT: u32 = 10_000_000;

/// Full satiety: a hundred points.
pub const SATIETY_FULL: u32 = 1_000_000_000;

/// Below this satiety (fifty points) a colonist is hungry.
pub const HUNGER_THRESHOLD: u32 = 500_000_000;

/// Satiety that one meal restores: fifty points.
pub const EAT_RESTORE: u32 = 500_000_000;

/// A job a colonist walks to. Entities are their stable ids; `P` is the world
/// position type, which the logic here only carries along.
#[derive(Clone, Debug)]
pub enum Task<P> {
    PickupMaterial { source: u64, blueprint: u64, kind: ResourceKind, amount: i32, delivery_target: P },
    DeliverMaterial { blueprint: u64, kind: ResourceKind, amount: i32 },
    Build { blueprint: u64 },
    Gather { resource: u64, kind: ResourceKind, amount: i32 },
    Deposit { inventory: u64, kind: ResourceKind, amount: i32 },
    Eat { inventory: u64 },
    PickupHomeFood { source: u64, home: u64, amount: i32 },
    DeliverHomeFood { home: u64, amount: i32 },
}

/// What a colonist is doing. Timers are in microseconds of simulated time.
#[derive(Clone, Debug)]
pub enum ColonistState<P> {
    Idle,
    Moving { target: P, path: Vec<P>, task: Task<P>, nav_revision: u64 },
    PlanningPath { request_id: u64, target: P, task: Task<P> },
    Gathering { resource: u64, kind: ResourceKind, amount: i32, timer_micros: u64 },
    Building { blueprint: u64 },
    Eating { timer_micros: u64 },
    WaitingForPathRetry { timer_micros: u64 },
}

/// A settler. Satiety is in microseconds of simulated time (see `SATIETY_POINT`),
/// speed in thousandths of a world unit per second.
#[derive(Debug)]
pub struct Colonist<P> {
    pub name: String,
    pub state: ColonistState<P>,
    pub speed_millis: u32,
    pub home: Option<u64>,
    pub satiety_micros: u32,
    pub carry_capacity: i32,
}

/// Satiety after `dt_micros` of simulated time: it lasts exactly that much less,
/// never below zero.
pub open spec fn spec_decayed_satiety(satiety: u32, dt_micros: u64) -> int {
    if satiety as int > dt_micros as int {
        satiety as int - dt_micros as int
    } else {
        0
    }
}

/// Satiety after a meal: fifty points more, never above full.
pub open spec fn spec_restored_satiety(satiety: u32) -> int {
    let raised = satiety as int + EAT_RESTORE as int;
    if raised < SATIETY_FULL as int {
        raised
    } else {
        SATIETY_FULL as int
    }
}

pub fn decayed_satiety(satiety: u32, dt_micros: u64) -> (decayed: u32)
    ensures
        decayed == spec_decayed_satiety(satiety, dt_micros),
{
    if (satiety as u64) > dt_micros {
        satiety - (dt_micros as u32)
    } else {
        0
    }
}

pub fn restored_satiety(satiety: u32) -> (restored: u32)
    ensures
        restored == spec_restored_satiety(satiety),
{
    if satiety < SATIETY_FULL - EAT_RESTORE {
        satiety + EAT_RESTORE
    } else {
        SATIETY_FULL
    }
}

/// Satiety stays between zero and full: time only lowers it, a meal only raises it,
/// and neither leaves the range.
pub proof fn lemma_satiety_stays_in_range(satiety: u32, dt_micros: u64)
    requires
        satiety <= SATIETY_FULL,
    ensures
        0 <= spec_decayed_satiety(satiety, dt_micros) <= satiety,
        satiety <= spec_restored_satiety(satiety) <= SATIETY_FULL,
{
}

/// A meal adds fifty points of satiety, except that it fills a colonist up to
/// full and no further.
pub proof fn lemma_meals_add_fifty_points(satiety: u32)
    requires
        satiety <= SATIETY_FULL,
    ensures
        satiety as int + 50 * SATIETY_POINT <= SATIETY_FULL ==> spec_restored_satiety(satiety) == satiety
            + 50 * SATIETY_POINT,
        satiety as int + 50 * SATIETY_POINT > SATIETY_FULL ==> spec_restored_satiety(satiety)
            == SATIETY_FULL,
{
}

/// Hunger runs at one rate however time is cut into ticks: letting `first` and
/// then `second` microseconds pass leaves the same satiety as letting both pass at
/// once, so a colonist loses exactly one point per ten seconds at any frame rate.
pub proof fn lemma_satiety_decays_at_one_rate(satiety: u32, first: u64, second: u64)
    requires
        first as int + second as int <= u64::MAX,
    ensures
        spec_decayed_satiety(spec_decayed_satiety(satiety, first) as u32, second)
            == spec_decayed_satiety(satiety, (first + second) as u64),
{
}

/// Satiety after one tick of each length in `ticks`, in turn.
pub open spec fn satiety_after_ticks(satiety: u32, ticks: Seq<u64>) -> int
    decreases ticks.len(),
{
    if ticks.len() == 0 {
        satiety as int
    } else {
        satiety_after_ticks(
            spec_decayed_satiety(satiety, ticks[0]) as u32,
            ticks.subrange(1, ticks.len() as int),
        )
    }
}

/// The simulated time that `ticks` add up to.
pub open spec fn total_micros(ticks: Seq<u64>) -> int
    decreases ticks.len(),
{
    if ticks.len() == 0 {
        0
    } else {
        ticks[0] + total_micros(ticks.subrange(1, ticks.len() as int))
    }
}

/// Over any run of ticks, satiety falls by exactly the simulated time that passed,
/// down to zero: the loss does not depend on how many ticks the time came in.
pub proof fn lemma_satiety_follows_total_time(satiety: u32, ticks: Seq<u64>)
    ensures
        satiety_after_ticks(satiety, ticks) == (if satiety as int > total_micros(ticks) {
            satiety as int - total_micros(ticks)
        } else {
            0
        }),
    decreases ticks.len(),
{
    if ticks.len() > 0 {
        let rest = ticks.subrange(1, ticks.len() as int);
        lemma_satiety_follows_total_time(spec_decayed_satiety(satiety, ticks[0]) as u32, rest);
        lemma_total_micros_nonnegative(rest);
    }
}

proof fn lemma_total_micros_nonnegative(ticks: Seq<u64>)
    ensures
        total_micros(ticks) >= 0,
    decreases ticks.len(),
{
    if ticks.len() > 0 {
        lemma_total_micros_nonnegative(ticks.subrange(1, ticks.len() as int));
    }
}

/// What happened to a colonist's needs over one tick.
#[derive(Clone, Copy, Debug, PartialEq, Eq, Structural)]
pub enum NeedsOutcome {
    Alive,
    /// Satiety reached zero; the colonist leaves `home` and is removed.
    Starved { home: Option<u64> },
}

impl<P> Colonist<P> {
    pub open spec fn spec_is_hungry(&self) -> bool {
        self.satiety_micros < HUNGER_THRESHOLD
    }

    pub fn is_hungry(&self) -> (hungry: bool)
        ensures
            hungry == self.spec_is_hungry(),
    {
        self.satiety_micros < HUNGER_THRESHOLD
    }

    /// Lets `dt_micros` of simulated time pass for this colonist's hunger. A colonist
    /// whose satiety reaches zero gives up its home. A tick in which no time passes
    /// changes nothing.
    pub fn tick_needs(&mut self, dt_micros: u64) -> (outcome: NeedsOutcome)
        ensures
            dt_micros == 0 ==> *final(self) == *old(self) && outcome == NeedsOutcome::Alive,
            dt_micros > 0 ==> final(self).satiety_micros == spec_decayed_satiety(
                old(self).satiety_micros,
                dt_micros,
            ),
            final(self).name == old(self).name,
            final(self).state == old(self).state,
            final(self).speed_millis == old(self).speed_millis,
            final(self).carry_capacity == old(self).carry_capacity,
            dt_micros > 0 && final(self).satiety_micros > 0 ==> outcome == NeedsOutcome::Alive
                && final(self).home == old(self).home,
            dt_micros > 0 && final(self).satiety_micros == 0 ==> outcome == (NeedsOutcome::Starved {
                home: old(self).home,
            }) && final(self).home == None::<u64>,
    {
        if dt_micros == 0 {
            return NeedsOutcome::Alive;
        }
        self.satiety_micros = decayed_satiety(self.satiety_micros, dt_micros);
        if self.satiety_micros > 0 {
            return NeedsOutcome::Alive;
        }
        let home = self.home;
        self.home = None;
        NeedsOutcome::Starved { home }
    }

    /// Whether this colonist looks for a job: it is idle and not starved.
    pub open spec fn spec_seeks_job(&self) -> bool {
        self.satiety_micros > 0 && self.state is Idle
    }

    pub fn seeks_job(&self) -> (seeks: bool)
        ensures
            seeks == self.spec_seeks_job(),
    {
        self.satiety_micros > 0 && matches!(self.state, ColonistState::Idle)
    }

    /// Eats one meal.
    pub fn eat(&mut self)
        ensures
            final(self).satiety_micros == spec_restored_satiety(old(self).satiety_micros),
            final(self).name == old(self).name,
            final(self).state == old(self).state,
            final(self).home == old(self).home,
            final(self).speed_millis == old(self).speed_millis,
            final(self).carry_capacity == old(self).carry_capacity,
    {
        self.satiety_micros = restored_satiety(self.satiety_micros);
    }
}

/// How a timed state (eating, waiting, gathering) moves on by one tick.
#[derive(Clone, Copy, Debug, PartialEq, Eq, Structural)]
pub enum TimedStep {
    /// Still busy, with the new timer.
    Continue { timer_micros: u64 },
    /// The rest or the wait is over; the colonist turns idle.
    Finished,
    /// The gathering time is up; the harvest happens now.
    Harvest,
}

/// One tick of a count-down timer (eating, waiting for a path retry).
pub open spec fn spec_count_down(timer_micros: u64, dt_micros: u64) -> TimedStep {
    if timer_micros > dt_micros {
        TimedStep::Continue { timer_micros: (timer_micros - dt_micros) as u64 }
    } else {
        TimedStep::Finished
    }
}

/// One tick of the gathering timer, which counts up to `GATHER_MICROS`.
pub open spec fn spec_gather_tick(timer_micros: u64, dt_micros: u64) -> TimedStep {
    let elapsed = timer_micros as int + dt_micros as int;
    if elapsed < GATHER_MICROS as int {
        TimedStep::Continue { timer_micros: elapsed as u64 }
    } else {
        TimedStep::Harvest
    }
}

pub fn count_down(timer_micros: u64, dt_micros: u64) -> (step: TimedStep)
    ensures
        step == spec_count_down(timer_micros, dt_micros),
{
    if timer_micros > dt_micros {
        TimedStep::Continue { timer_micros: timer_micros - dt_micros }
    } else {
        TimedStep::Finished
    }
}

pub fn gather_tick(timer_micros: u64, dt_micros: u64) -> (step: TimedStep)
    ensures
        step == spec_gather_tick(timer_micros, dt_micros),
{
    if timer_micros < GATHER_MICROS && dt_micros < GATHER_MICROS - timer_micros {
        TimedStep::Continue { timer_micros: timer_micros + dt_micros }
    } else {
        TimedStep::Harvest
    }
}

/// A harvestable resource in the world.
#[derive(Clone, Copy, Debug, PartialEq, Eq, Structural)]
pub struct ResourceNode {
    pub kind: ResourceKind,
    pub amount: i32,
}

/// What a harvest took from a node.
#[derive(Clone, Copy, Debug, PartialEq, Eq, Structural)]
pub struct Harvest {
    pub amount: i32,
    /// The harvest took something and left the node empty: it leaves the world.
    pub depleted: bool,
}

pub open spec fn spec_harvest_amount(planned: i32, node_amount: i32, public_capacity: i32) -> int {
    let smaller = if planned < node_amount {
        planned
    } else {
        node_amount
    };
    if smaller < public_capacity {
        smaller as int
    } else {
        public_capacity as int
    }
}

impl ResourceNode {
    /// Takes what a colonist planned to carry, but no more than the node holds
    /// and the public stores can still take.
    pub fn harvest(&mut self, planned: i32, public_capacity: i32) -> (taken: Harvest)
        requires
            i32::MIN <= old(self).amount - spec_harvest_amount(planned, old(self).amount, public_capacity)
                <= i32::MAX,
        ensures
            taken.amount == spec_harvest_amount(planned, old(self).amount, public_capacity),
            final(self).kind == old(self).kind,
            final(self).amount == old(self).amount - taken.amount,
            taken.depleted == (taken.amount > 0 && final(self).amount <= 0),
    {
        let smaller = if planned < self.amount {
            planned
        } else {
            self.amount
        };
        let amount = if smaller < public_capacity {
            smaller
        } else {
            public_capacity
        };
        self.amount = self.amount - amount;
        Harvest { amount, depleted: amount > 0 && self.amount <= 0 }
    }
}

/// A harvest takes what was planned, but never more than the node holds or the
/// public stores can take: it is the least of the three.
pub proof fn lemma_harvest_takes_least(planned: i32, node_amount: i32, public_capacity: i32)
    ensures
        ({
            let taken = spec_harvest_amount(planned, node_amount, public_capacity);
            &&& taken <= planned
            &&& taken <= node_amount
            &&& taken <= public_capacity
            &&& (taken == planned || taken == node_amount || taken == public_capacity)
        }),
{
}

/// How many nodes of each kind there are, as (wood, food).
pub open spec fn node_counts(nodes: Seq<ResourceNode>) -> (int, int)
    decreases nodes.len(),
{
    if nodes.len() == 0 {
        (0, 0)
    } else {
        let (wood, food) = node_counts(nodes.drop_last());
        match nodes.last().kind {
            ResourceKind::Wood => (wood + 1, food),
            ResourceKind::Food => (wood, food + 1),
        }
    }
}

proof fn lemma_node_counts_bounded(nodes: Seq<ResourceNode>)
    ensures
        0 <= node_counts(nodes).0 <= nodes.len(),
        0 <= node_counts(nodes).1 <= nodes.len(),
    decreases nodes.len(),
{
    if nodes.len() > 0 {
        lemma_node_counts_bounded(nodes.drop_last());
    }
}

/// Counts the wood and the food nodes.
pub fn resource_node_counts(nodes: &Vec<ResourceNode>) -> (counts: (usize, usize))
    ensures
        counts.0 == node_counts(nodes@).0,
        counts.1 == node_counts(nodes@).1,
{
    let mut wood: usize = 0;
    let mut food: usize = 0;
    let mut index: usize = 0;
    assert(nodes@.take(0) =~= Seq::<ResourceNode>::empty());
    while index < nodes.len()
        invariant
            0 <= index <= nodes@.len(),
            wood == node_counts(nodes@.take(index as int)).0,
            food == node_counts(nodes@.take(index as int)).1,
        decreases nodes@.len() - index,
    {
        assert(nodes@.take(index + 1).drop_last() =~= nodes@.take(index as int));
        proof {
            lemma_node_counts_bounded(nodes@.take(index as int));
        }
        match nodes[index].kind {
            ResourceKind::Wood => wood = wood + 1,
            ResourceKind::Food => food = food + 1,
        }
        index = index + 1;
    }
    assert(nodes@.take(index as int) =~= nodes@);
    (wood, food)
}

/// A walk toward `task` stays worth finishing: a gather trip needs its node to
/// still hold the planned amount of the planned kind. Other trips always stay valid.
pub open spec fn spec_moving_task_is_valid<P>(task: Task<P>, node: Option<ResourceNode>) -> bool {
    match task {
        Task::Gather { kind, amount, .. } => match node {
            Some(node) => node.kind == kind && node.amount >= amount && amount > 0,
            None => false,
        },
        _ => true,
    }
}

/// `node` is the gather target's node as found in the world, if the task is a
/// gather trip and the node still exists.
pub fn moving_task_is_valid<P>(task: &Task<P>, node: Option<ResourceNode>) -> (valid: bool)
    ensures
        valid == spec_moving_task_is_valid(*task, node),
{
    match task {
        Task::Gather { kind, amount, .. } => match node {
            Some(node) => node.kind == *kind && node.amount >= *amount && *amount > 0,
            None => false,
        },
        _ => true,
    }
}

/// The state a colonist enters on reaching the place of a build or gather task;
/// other tasks need the world to act on first.
pub open spec fn spec_arrival_state<P>(task: Task<P>) -> Option<ColonistState<P>> {
    match task {
        Task::Build { blueprint } => Some(ColonistState::Building { blueprint }),
        Task::Gather { resource, kind, amount } => Some(
            ColonistState::Gathering { resource, kind, amount, timer_micros: 0 },
        ),
        _ => None,
    }
}

pub fn arrival_state<P>(task: &Task<P>) -> (state: Option<ColonistState<P>>)
    ensures
        state == spec_arrival_state(*task),
{
    match task {
        Task::Build { blueprint } => Some(ColonistState::Building { blueprint: *blueprint }),
        Task::Gather { resource, kind, amount } => Some(
            ColonistState::Gathering {
                resource: *resource,
                kind: *kind,
                amount: *amount,
                timer_micros: 0,
            },
        ),
        _ => None,
    }
}

/// The state after waiting for a failed path.
pub fn path_retry_state<P>() -> (state: ColonistState<P>)
    ensures
        state == (ColonistState::<P>::WaitingForPathRetry { timer_micros: PATH_FAILURE_RETRY_MICROS }),
{
    ColonistState::WaitingForPathRetry { timer_micros: PATH_FAILURE_RETRY_MICROS }
}

/// The state after a meal.
pub fn eating_state<P>() -> (state: ColonistState<P>)
    ensures
        state == (ColonistState::<P>::Eating { timer_micros: EAT_REST_MICROS }),
{
    ColonistState::Eating { timer_micros: EAT_REST_MICROS }
}

/// One tick of work on a blueprint by a builder. Returns the builder's next state:
/// idle once the blueprint is complete, still building otherwise.
pub fn building_step<P>(blueprint_id: u64, blueprint: &mut Blueprint, dt_micros: u64) -> (next:
    ColonistState<P>)
    requires
        old(blueprint).fits(),
    ensures
        final(blueprint).progress_micros == (if old(blueprint).spec_has_materials() {
            let grown = old(blueprint).progress_micros + dt_micros;
            if grown < old(blueprint).build_micros {
                grown
            } else {
                old(blueprint).build_micros as int
            }
        } else {
            old(blueprint).progress_micros as int
        }),
        final(blueprint).kind == old(blueprint).kind,
        final(blueprint).required_wood == old(blueprint).required_wood,
        final(blueprint).delivered_wood == old(blueprint).delivered_wood,
        final(blueprint).build_micros == old(blueprint).build_micros,
        next == (if final(blueprint).spec_is_complete() {
            ColonistState::<P>::Idle
        } else {
            ColonistState::<P>::Building { blueprint: blueprint_id }
        }),
{
    if blueprint.work(dt_micros) {
        ColonistState::Idle
    } else {
        ColonistState::Building { blueprint: blueprint_id }
    }
}

impl<P> Task<P> {
    /// What the task reads as in the colonist panel.
    pub open spec fn spec_label(self) -> Seq<char> {
        match self {
            Task::PickupMaterial { kind, amount, .. } => "Picking up "@ + decimal(amount as int)
                + " "@ + kind.spec_label(),
            Task::DeliverMaterial { kind, amount, .. } => "Delivering "@ + decimal(amount as int)
                + " "@ + kind.spec_label(),
            Task::Build { .. } => "Going to build"@,
            Task::Gather { kind, .. } => "Going to gather "@ + kind.spec_label(),
            Task::Deposit { kind, amount, .. } => "Depositing "@ + decimal(amount as int) + " "@
                + kind.spec_label(),
            Task::Eat { .. } => "Going to eat"@,
            Task::PickupHomeFood { amount, .. } => "Picking up "@ + decimal(amount as int)
                + " Food for home"@,
            Task::DeliverHomeFood { amount, .. } => "Delivering "@ + decimal(amount as int)
                + " Food home"@,
        }
    }

    pub fn label(&self) -> (text: String)
        ensures
            text@ == self.spec_label(),
    {
        proof {
            reveal_strlit("");
        }
        match self {
            Task::PickupMaterial { kind, amount, .. } => spell("Picking up ", *amount as i64, " ", kind.label()),
            Task::DeliverMaterial { kind, amount, .. } => spell("Delivering ", *amount as i64, " ", kind.label()),
            Task::Build { .. } => "Going to build".to_owned(),
            Task::Gather { kind, .. } => join("Going to gather ", kind.label(), ""),
            Task::Deposit { kind, amount, .. } => spell("Depositing ", *amount as i64, " ", kind.label()),
            Task::Eat { .. } => "Going to eat".to_owned(),
            Task::PickupHomeFood { amount, .. } => spell("Picking up ", *amount as i64, " Food for home", ""),
            Task::DeliverHomeFood { amount, .. } => spell("Delivering ", *amount as i64, " Food home", ""),
        }
    }
}

impl<P> ColonistState<P> {
    /// What the state reads as in the colonist panel.
    pub open spec fn spec_label(self) -> Seq<char> {
        match self {
            ColonistState::Idle => "Idle"@,
            ColonistState::Moving { task, .. } => "Moving: "@ + task.spec_label(),
            ColonistState::PlanningPath { task, .. } => "Planning: "@ + task.spec_label(),
            ColonistState::Gathering { kind, .. } => "Gathering "@ + kind.spec_label(),
            ColonistState::Building { .. } => "Building a blueprint"@,
            ColonistState::Eating { .. } => "Eating"@,
            ColonistState::WaitingForPathRetry { .. } => "Waiting for a path"@,
        }
    }

    pub fn label(&self) -> (text: String)
        ensures
            text@ == self.spec_label(),
    {
        proof {
            reveal_strlit("");
        }
        match self {
            ColonistState::Idle => "Idle".to_owned(),
            ColonistState::Moving { task, .. } => {
                let task_label = task.label();
                join("Moving: ", task_label.as_str(), "")
            },
            ColonistState::PlanningPath { task, .. } => {
                let task_label = task.label();
                join("Planning: ", task_label.as_str(), "")
            },
            ColonistState::Gathering { kind, .. } => join("Gathering ", kind.label(), ""),
            ColonistState::Building { .. } => "Building a blueprint".to_owned(),
            ColonistState::Eating { .. } => "Eating".to_owned(),
            ColonistState::WaitingForPathRetry { .. } => "Waiting for a path".to_owned(),
        }
    }
}

impl<P> Colonist<P> {
    pub fn status_label(&self) -> (text: String)
        ensures
            text@ == self.state.spec_label(),
    {
        self.state.label()
    }
}

} // verus!
