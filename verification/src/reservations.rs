use vstd::prelude::*;

use crate::colonist::{ColonistState, Task};
use crate::types::ResourceKind;

verus! {

/// A claim counts only for its non-negative part.
pub open spec fn claim(amount: i32) -> int {
    if amount > 0 {
        amount as int
    } else {
        0
    }
}

/// Sum of the amounts claimed for `entity`.
pub open spec fn claimed(entries: Seq<(u64, i32)>, entity: u64) -> int
    decreases entries.len(),
{
    if entries.len() == 0 {
        0
    } else {
        claimed(entries.drop_last(), entity) + if entries.last().0 == entity {
            entries.last().1 as int
        } else {
            0
        }
    }
}

/// Capacity units claimed by planned deposits: ten per wood, one per food.
pub open spec fn deposit_units(entries: Seq<(ResourceKind, i32)>) -> int
    decreases entries.len(),
{
    if entries.len() == 0 {
        0
    } else {
        deposit_units(entries.drop_last()) + entries.last().1 * entries.last().0.spec_unit_size()
    }
}

/// What colonists have already claimed during one round of job assignment: wood
/// promised to blueprints, amounts planned from resource nodes, and room taken in
/// the public stores by planned deposits.
pub struct AssignmentReservations {
    material_deliveries: Vec<(u64, i32)>,
    gathered_resources: Vec<(u64, i32)>,
    public_deposits: Vec<(ResourceKind, i32)>,
}

/// The abstract contents of [`AssignmentReservations`]: its claims in the order made.
pub struct ReservationsModel {
    pub material_deliveries: Seq<(u64, i32)>,
    pub gathered_resources: Seq<(u64, i32)>,
    pub public_deposits: Seq<(ResourceKind, i32)>,
}

impl ReservationsModel {
    pub open spec fn empty() -> ReservationsModel {
        ReservationsModel {
            material_deliveries: Seq::empty(),
            gathered_resources: Seq::empty(),
            public_deposits: Seq::empty(),
        }
    }

    /// Every stored claim is non-negative.
    pub open spec fn wf(self) -> bool {
        &&& forall|i: int|
            0 <= i < self.material_deliveries.len() ==> #[trigger] self.material_deliveries[i].1
                >= 0
        &&& forall|i: int|
            0 <= i < self.gathered_resources.len() ==> #[trigger] self.gathered_resources[i].1 >= 0
        &&& forall|i: int|
            0 <= i < self.public_deposits.len() ==> #[trigger] self.public_deposits[i].1 >= 0
    }

    /// Wood promised to `blueprint`.
    pub open spec fn delivery_total(self, blueprint: u64) -> int {
        claimed(self.material_deliveries, blueprint)
    }

    /// Amount planned from the node `resource`.
    pub open spec fn gather_total(self, resource: u64) -> int {
        claimed(self.gathered_resources, resource)
    }

    /// Public capacity units claimed by planned deposits.
    pub open spec fn public_units(self) -> int {
        deposit_units(self.public_deposits)
    }

    pub open spec fn reserve_material_delivery(self, blueprint: u64, amount: i32) -> ReservationsModel {
        ReservationsModel {
            material_deliveries: self.material_deliveries.push((blueprint, claim(amount) as i32)),
            ..self
        }
    }

    pub open spec fn reserve_public_deposit(self, kind: ResourceKind, amount: i32) -> ReservationsModel {
        ReservationsModel {
            public_deposits: self.public_deposits.push((kind, claim(amount) as i32)),
            ..self
        }
    }

    /// A gather trip claims from its node and, for the later deposit, public room.
    pub open spec fn reserve_gather(self, resource: u64, kind: ResourceKind, amount: i32) -> ReservationsModel {
        ReservationsModel {
            gathered_resources: self.gathered_resources.push((resource, claim(amount) as i32)),
            ..self
        }.reserve_public_deposit(kind, amount)
    }

    /// The claims a task in progress holds: wood carried to a blueprint, a gather
    /// trip, or a planned deposit. Other tasks claim nothing.
    pub open spec fn reserve_task<P>(self, task: Task<P>) -> ReservationsModel {
        match task {
            Task::PickupMaterial { blueprint, kind: ResourceKind::Wood, amount, .. } => self.reserve_material_delivery(blueprint, amount),
            Task::DeliverMaterial { blueprint, kind: ResourceKind::Wood, amount } => self.reserve_material_delivery(blueprint, amount),
            Task::Gather { resource, kind, amount } => self.reserve_gather(resource, kind, amount),
            Task::Deposit { kind, amount, .. } => self.reserve_public_deposit(kind, amount),
            _ => self,
        }
    }

    /// The claims of a colonist in `state`: those of the task it walks to or plans
    /// a path for, or of the gathering it is doing.
    pub open spec fn reserve_state<P>(self, state: ColonistState<P>) -> ReservationsModel {
        match state {
            ColonistState::Moving { task, .. } => self.reserve_task(task),
            ColonistState::PlanningPath { task, .. } => self.reserve_task(task),
            ColonistState::Gathering { resource, kind, amount, .. } => self.reserve_gather(
                resource,
                kind,
                amount,
            ),
            _ => self,
        }
    }

    /// The claims of all colonists in `states`, in order.
    pub open spec fn reserve_states<P>(self, states: Seq<ColonistState<P>>) -> ReservationsModel
        decreases states.len(),
    {
        if states.len() == 0 {
            self
        } else {
            self.reserve_states(states.drop_last()).reserve_state(states.last())
        }
    }
}

impl View for AssignmentReservations {
    type V = ReservationsModel;

    closed spec fn view(&self) -> ReservationsModel {
        ReservationsModel {
            material_deliveries: self.material_deliveries@,
            gathered_resources: self.gathered_resources@,
            public_deposits: self.public_deposits@,
        }
    }
}

/// With non-negative amounts, what is claimed over a prefix lies between zero and
/// the whole.
proof fn lemma_claimed_prefix(entries: Seq<(u64, i32)>, entity: u64, n: int)
    requires
        0 <= n <= entries.len(),
        forall|i: int| 0 <= i < entries.len() ==> #[trigger] entries[i].1 >= 0,
    ensures
        0 <= claimed(entries.take(n), entity) <= claimed(entries, entity),
    decreases entries.len(),
{
    if entries.len() > 0 {
        let shorter = entries.drop_last();
        assert forall|i: int| 0 <= i < shorter.len() implies #[trigger] shorter[i].1 >= 0 by {
            assert(shorter[i] == entries[i]);
        }
        assert(entries.last().1 >= 0);
        if n == entries.len() {
            assert(entries.take(n) =~= entries);
            lemma_claimed_prefix(shorter, entity, n - 1);
            assert(shorter.take(n - 1) =~= shorter);
        } else {
            assert(entries.take(n) =~= shorter.take(n));
            lemma_claimed_prefix(shorter, entity, n);
        }
    }
}

/// With non-negative amounts, the deposit units over a prefix lie between zero and
/// the whole.
proof fn lemma_deposit_units_prefix(entries: Seq<(ResourceKind, i32)>, n: int)
    requires
        0 <= n <= entries.len(),
        forall|i: int| 0 <= i < entries.len() ==> #[trigger] entries[i].1 >= 0,
    ensures
        0 <= deposit_units(entries.take(n)) <= deposit_units(entries),
    decreases entries.len(),
{
    if entries.len() > 0 {
        let shorter = entries.drop_last();
        assert forall|i: int| 0 <= i < shorter.len() implies #[trigger] shorter[i].1 >= 0 by {
            assert(shorter[i] == entries[i]);
        }
        assert(entries.last().1 >= 0);
        assert(entries.last().1 * entries.last().0.spec_unit_size() >= 0) by (nonlinear_arith)
            requires
                entries.last().1 >= 0,
                entries.last().0.spec_unit_size() >= 1,
        ;
        if n == entries.len() {
            assert(entries.take(n) =~= entries);
            lemma_deposit_units_prefix(shorter, n - 1);
            assert(shorter.take(n - 1) =~= shorter);
        } else {
            assert(entries.take(n) =~= shorter.take(n));
            lemma_deposit_units_prefix(shorter, n);
        }
    }
}

/// Appending a non-negative claim keeps every claim non-negative.
proof fn lemma_push_nonnegative<A>(entries: Seq<(A, i32)>, entry: (A, i32))
    requires
        forall|i: int| 0 <= i < entries.len() ==> #[trigger] entries[i].1 >= 0,
        entry.1 >= 0,
    ensures
        forall|i: int| 0 <= i < entries.push(entry).len() ==> #[trigger] entries.push(entry)[i].1 >= 0,
{
    assert forall|i: int| 0 <= i < entries.push(entry).len() implies #[trigger] entries.push(
        entry,
    )[i].1 >= 0 by {
        if i < entries.len() {
            assert(entries.push(entry)[i] == entries[i]);
        }
    }
}

/// Sums the amounts claimed for `entity`.
fn claimed_total(entries: &Vec<(u64, i32)>, entity: u64) -> (total: i32)
    requires
        forall|i: int| 0 <= i < entries@.len() ==> #[trigger] entries@[i].1 >= 0,
        claimed(entries@, entity) <= i32::MAX,
    ensures
        total == claimed(entries@, entity),
{
    let mut total: i32 = 0;
    let mut index: usize = 0;
    assert(entries@.take(0) =~= Seq::<(u64, i32)>::empty());
    while index < entries.len()
        invariant
            0 <= index <= entries@.len(),
            forall|i: int| 0 <= i < entries@.len() ==> #[trigger] entries@[i].1 >= 0,
            claimed(entries@, entity) <= i32::MAX,
            total == claimed(entries@.take(index as int), entity),
        decreases entries@.len() - index,
    {
        let ghost next = entries@.take(index + 1);
        assert(next.drop_last() =~= entries@.take(index as int));
        proof {
            lemma_claimed_prefix(entries@, entity, index + 1);
            lemma_claimed_prefix(entries@, entity, index as int);
        }
        let (owner, amount) = entries[index];
        if owner == entity {
            total = total + amount;
        }
        index = index + 1;
    }
    assert(entries@.take(index as int) =~= entries@);
    total
}

/// Whether the amounts claimed for `entity` add up to no more than `i32::MAX`.
fn claimed_within_limit(entries: &Vec<(u64, i32)>, entity: u64) -> (within: bool)
    requires
        forall|i: int| 0 <= i < entries@.len() ==> #[trigger] entries@[i].1 >= 0,
    ensures
        within == (claimed(entries@, entity) <= i32::MAX),
{
    let mut total: u64 = 0;
    let mut index: usize = 0;
    assert(entries@.take(0) =~= Seq::<(u64, i32)>::empty());
    while index < entries.len()
        invariant
            0 <= index <= entries@.len(),
            forall|i: int| 0 <= i < entries@.len() ==> #[trigger] entries@[i].1 >= 0,
            total == claimed(entries@.take(index as int), entity),
            total <= i32::MAX,
        decreases entries@.len() - index,
    {
        let ghost next = entries@.take(index + 1);
        assert(next.drop_last() =~= entries@.take(index as int));
        let (owner, amount) = entries[index];
        if owner == entity {
            total = total + amount as u64;
            if total > i32::MAX as u64 {
                proof {
                    lemma_claimed_prefix(entries@, entity, index + 1);
                }
                return false;
            }
        }
        index = index + 1;
    }
    assert(entries@.take(index as int) =~= entries@);
    true
}

impl Default for AssignmentReservations {
    fn default() -> (reservations: AssignmentReservations)
        ensures
            reservations@ == ReservationsModel::empty(),
            reservations@.wf(),
    {
        AssignmentReservations::new()
    }
}

impl AssignmentReservations {
    pub fn new() -> (reservations: AssignmentReservations)
        ensures
            reservations@ == ReservationsModel::empty(),
            reservations@.wf(),
    {
        AssignmentReservations {
            material_deliveries: Vec::new(),
            gathered_resources: Vec::new(),
            public_deposits: Vec::new(),
        }
    }

    /// Promises `amount` wood (none if negative) to `blueprint`.
    pub fn reserve_material_delivery(&mut self, blueprint: u64, amount: i32)
        requires
            old(self)@.wf(),
        ensures
            final(self)@ == old(self)@.reserve_material_delivery(blueprint, amount),
            final(self)@.wf(),
    {
        let claimed = if amount > 0 {
            amount
        } else {
            0
        };
        proof {
            lemma_push_nonnegative(self.material_deliveries@, (blueprint, claimed));
        }
        self.material_deliveries.push((blueprint, claimed));
    }

    /// Wood already promised to `blueprint`.
    pub fn reserved_material_delivery(&self, blueprint: u64) -> (total: i32)
        requires
            self@.wf(),
            self@.delivery_total(blueprint) <= i32::MAX,
        ensures
            total == self@.delivery_total(blueprint),
    {
        claimed_total(&self.material_deliveries, blueprint)
    }

    /// Plans to take `amount` (none if negative) of `kind` from `resource`, and
    /// claims room for it in the public stores.
    pub fn reserve_gather(&mut self, resource: u64, kind: ResourceKind, amount: i32)
        requires
            old(self)@.wf(),
        ensures
            final(self)@ == old(self)@.reserve_gather(resource, kind, amount),
            final(self)@.wf(),
    {
        let claimed = if amount > 0 {
            amount
        } else {
            0
        };
        proof {
            assert(self@.gathered_resources == self.gathered_resources@);
            assert forall|i: int| 0 <= i < self.gathered_resources@.len() implies #[trigger] self.gathered_resources@[i].1 >= 0 by {
                assert(self@.gathered_resources[i].1 >= 0);
            }
            lemma_push_nonnegative(self.gathered_resources@, (resource, claimed));
        }
        self.gathered_resources.push((resource, claimed));
        proof {
            assert(self@.material_deliveries == old(self)@.material_deliveries);
            assert(self@.public_deposits == old(self)@.public_deposits);
            assert(self@.gathered_resources == self.gathered_resources@);
            assert(self@.wf());
        }
        self.reserve_public_deposit(kind, claimed);
    }

    /// Amount already planned from `resource`.
    pub fn reserved_gather(&self, resource: u64) -> (total: i32)
        requires
            self@.wf(),
            self@.gather_total(resource) <= i32::MAX,
        ensures
            total == self@.gather_total(resource),
    {
        claimed_total(&self.gathered_resources, resource)
    }

    /// Claims public room for `amount` (none if negative) of `kind`.
    pub fn reserve_public_deposit(&mut self, kind: ResourceKind, amount: i32)
        requires
            old(self)@.wf(),
        ensures
            final(self)@ == old(self)@.reserve_public_deposit(kind, amount),
            final(self)@.wf(),
    {
        let claimed = if amount > 0 {
            amount
        } else {
            0
        };
        proof {
            lemma_push_nonnegative(self.public_deposits@, (kind, claimed));
        }
        self.public_deposits.push((kind, claimed));
    }

    /// Public capacity units claimed by planned deposits.
    pub fn reserved_public_capacity(&self) -> (units: i32)
        requires
            self@.wf(),
            self@.public_units() <= i32::MAX,
        ensures
            units == self@.public_units(),
    {
        let mut total: i32 = 0;
        let mut index: usize = 0;
        let ghost entries = self.public_deposits@;
        assert(entries.take(0) =~= Seq::<(ResourceKind, i32)>::empty());
        while index < self.public_deposits.len()
            invariant
                entries == self.public_deposits@,
                0 <= index <= entries.len(),
                forall|i: int| 0 <= i < entries.len() ==> #[trigger] entries[i].1 >= 0,
                deposit_units(entries) <= i32::MAX,
                total == deposit_units(entries.take(index as int)),
            decreases entries.len() - index,
        {
            let ghost next = entries.take(index + 1);
            assert(next.drop_last() =~= entries.take(index as int));
            proof {
                lemma_deposit_units_prefix(entries, index + 1);
                lemma_deposit_units_prefix(entries, index as int);
            }
            let (kind, amount) = self.public_deposits[index];
            let unit = kind.unit_size();
            assert(0 <= amount * unit <= i32::MAX) by (nonlinear_arith)
                requires
                    amount >= 0,
                    unit >= 1,
                    total + amount * unit <= i32::MAX,
                    total >= 0,
            ;
            total = total + amount * unit;
            index = index + 1;
        }
        assert(entries.take(index as int) =~= entries);
        total
    }

    /// Whether the wood promised to `blueprint` adds up to no more than `i32::MAX`.
    pub fn delivery_claims_fit(&self, blueprint: u64) -> (fits: bool)
        requires
            self@.wf(),
        ensures
            fits == (self@.delivery_total(blueprint) <= i32::MAX),
    {
        proof {
            assert forall|i: int| 0 <= i < self.material_deliveries@.len() implies #[trigger] self.material_deliveries@[i].1
                >= 0 by {
                assert(self@.material_deliveries[i].1 >= 0);
            }
        }
        claimed_within_limit(&self.material_deliveries, blueprint)
    }

    /// Whether the amounts planned from `resource` add up to no more than `i32::MAX`.
    pub fn gather_claims_fit(&self, resource: u64) -> (fits: bool)
        requires
            self@.wf(),
        ensures
            fits == (self@.gather_total(resource) <= i32::MAX),
    {
        proof {
            assert forall|i: int| 0 <= i < self.gathered_resources@.len() implies #[trigger] self.gathered_resources@[i].1
                >= 0 by {
                assert(self@.gathered_resources[i].1 >= 0);
            }
        }
        claimed_within_limit(&self.gathered_resources, resource)
    }

    /// Whether the public capacity claimed by planned deposits adds up to no more
    /// than `i32::MAX` units.
    pub fn deposit_claims_fit(&self) -> (fits: bool)
        requires
            self@.wf(),
        ensures
            fits == (self@.public_units() <= i32::MAX),
    {
        let ghost entries = self.public_deposits@;
        proof {
            assert forall|i: int| 0 <= i < entries.len() implies #[trigger] entries[i].1 >= 0 by {
                assert(self@.public_deposits[i].1 >= 0);
            }
        }
        let mut total: u64 = 0;
        let mut index: usize = 0;
        assert(entries.take(0) =~= Seq::<(ResourceKind, i32)>::empty());
        while index < self.public_deposits.len()
            invariant
                entries == self.public_deposits@,
                0 <= index <= entries.len(),
                forall|i: int| 0 <= i < entries.len() ==> #[trigger] entries[i].1 >= 0,
                total == deposit_units(entries.take(index as int)),
                total <= i32::MAX,
            decreases entries.len() - index,
        {
            let ghost next = entries.take(index + 1);
            assert(next.drop_last() =~= entries.take(index as int));
            let (kind, amount) = self.public_deposits[index];
            let unit = kind.unit_size();
            assert(0 <= amount * unit <= 10 * i32::MAX) by (nonlinear_arith)
                requires
                    0 <= amount <= i32::MAX,
                    1 <= unit <= 10,
            ;
            total = total + (amount as u64) * (unit as u64);
            if total > i32::MAX as u64 {
                proof {
                    lemma_deposit_units_prefix(entries, index + 1);
                }
                return false;
            }
            index = index + 1;
        }
        assert(entries.take(index as int) =~= entries);
        true
    }

    /// Records the claims of `task`.
    pub fn reserve_task<P>(&mut self, task: &Task<P>)
        requires
            old(self)@.wf(),
        ensures
            final(self)@ == old(self)@.reserve_task(*task),
            final(self)@.wf(),
    {
        match task {
            Task::PickupMaterial { blueprint, kind: ResourceKind::Wood, amount, .. } => {
                self.reserve_material_delivery(*blueprint, *amount)
            },
            Task::DeliverMaterial { blueprint, kind: ResourceKind::Wood, amount } => {
                self.reserve_material_delivery(*blueprint, *amount)
            },
            Task::Gather { resource, kind, amount } => self.reserve_gather(
                *resource,
                *kind,
                *amount,
            ),
            Task::Deposit { kind, amount, .. } => self.reserve_public_deposit(*kind, *amount),
            _ => {},
        }
    }

    /// Records the claims of a colonist in `state`.
    pub fn reserve_state<P>(&mut self, state: &ColonistState<P>)
        requires
            old(self)@.wf(),
        ensures
            final(self)@ == old(self)@.reserve_state(*state),
            final(self)@.wf(),
    {
        match state {
            ColonistState::Moving { task, .. } => self.reserve_task(task),
            ColonistState::PlanningPath { task, .. } => self.reserve_task(task),
            ColonistState::Gathering { resource, kind, amount, .. } => self.reserve_gather(
                *resource,
                *kind,
                *amount,
            ),
            _ => {},
        }
    }

    /// The claims of all colonists whose states are given.
    pub fn from_states<P>(states: &Vec<ColonistState<P>>) -> (reservations: AssignmentReservations)
        ensures
            reservations@ == ReservationsModel::empty().reserve_states(states@),
            reservations@.wf(),
    {
        let mut reservations = AssignmentReservations::new();
        let mut index: usize = 0;
        assert(states@.take(0) =~= Seq::<ColonistState<P>>::empty());
        while index < states.len()
            invariant
                0 <= index <= states@.len(),
                reservations@ == ReservationsModel::empty().reserve_states(
                    states@.take(index as int),
                ),
                reservations@.wf(),
            decreases states@.len() - index,
        {
            assert(states@.take(index + 1).drop_last() =~= states@.take(index as int));
            reservations.reserve_state(&states[index]);
            index = index + 1;
        }
        assert(states@.take(index as int) =~= states@);
        reservations
    }
}

/// With only non-negative claims, every total is non-negative.
pub proof fn lemma_totals_nonnegative(model: ReservationsModel, entity: u64)
    requires
        model.wf(),
    ensures
        model.delivery_total(entity) >= 0,
        model.gather_total(entity) >= 0,
        model.public_units() >= 0,
{
    lemma_claimed_prefix(model.material_deliveries, entity, 0);
    lemma_claimed_prefix(model.gathered_resources, entity, 0);
    lemma_deposit_units_prefix(model.public_deposits, 0);
}

/// Claims are never withdrawn: after recording a task, every total is at least
/// what it was.
pub proof fn lemma_reservations_only_grow<P>(model: ReservationsModel, task: Task<P>, entity: u64)
    requires
        model.wf(),
    ensures
        model.reserve_task(task).wf(),
        model.reserve_task(task).delivery_total(entity) >= model.delivery_total(entity),
        model.reserve_task(task).gather_total(entity) >= model.gather_total(entity),
        model.reserve_task(task).public_units() >= model.public_units(),
{
    let after = model.reserve_task(task);
    assert(after.material_deliveries.drop_last() =~= model.material_deliveries
        || after.material_deliveries =~= model.material_deliveries);
    assert(after.gathered_resources.drop_last() =~= model.gathered_resources
        || after.gathered_resources =~= model.gathered_resources);
    if after.public_deposits.len() > model.public_deposits.len() {
        assert(after.public_deposits.drop_last() =~= model.public_deposits);
        let last = after.public_deposits.last();
        assert(last.1 * last.0.spec_unit_size() >= 0) by (nonlinear_arith)
            requires
                last.1 >= 0,
                last.0.spec_unit_size() >= 1,
        ;
    }
}

/// A gather claim adds exactly its non-negative amount to its node, nothing to any
/// other node, and the room of that amount to the claimed public capacity.
pub proof fn lemma_reserve_gather_totals(
    model: ReservationsModel,
    resource: u64,
    kind: ResourceKind,
    amount: i32,
    other: u64,
)
    ensures
        model.reserve_gather(resource, kind, amount).gather_total(resource) == model.gather_total(
            resource,
        ) + claim(amount),
        other != resource ==> model.reserve_gather(resource, kind, amount).gather_total(other)
            == model.gather_total(other),
        model.reserve_gather(resource, kind, amount).public_units() == model.public_units()
            + claim(amount) * kind.spec_unit_size(),
        model.reserve_gather(resource, kind, amount).delivery_total(other) == model.delivery_total(
            other,
        ),
{
    let after = model.reserve_gather(resource, kind, amount);
    assert(after.gathered_resources.drop_last() =~= model.gathered_resources);
    assert(after.public_deposits.drop_last() =~= model.public_deposits);
}

/// How the claims of a task in hand change the totals, seen from `entity`: a
/// gather trip adds its amount to its node and the room it needs to the claimed
/// public capacity; a deposit adds the room it needs; fetching or delivering wood
/// adds to what its blueprint is promised; other tasks claim nothing.
pub open spec fn adds_task_claims<P>(
    before: ReservationsModel,
    after: ReservationsModel,
    task: Task<P>,
    entity: u64,
) -> bool {
    let (gathered, units, promised) = match task {
        Task::Gather { resource, kind, amount } => (
            if entity == resource {
                claim(amount)
            } else {
                0
            },
            claim(amount) * kind.spec_unit_size(),
            0,
        ),
        Task::Deposit { kind, amount, .. } => (0, claim(amount) * kind.spec_unit_size(), 0),
        Task::PickupMaterial { blueprint, kind, amount, .. } => (
            0,
            0,
            if kind == ResourceKind::Wood && entity == blueprint {
                claim(amount)
            } else {
                0
            },
        ),
        Task::DeliverMaterial { blueprint, kind, amount } => (
            0,
            0,
            if kind == ResourceKind::Wood && entity == blueprint {
                claim(amount)
            } else {
                0
            },
        ),
        _ => (0, 0, 0),
    };
    &&& after.gather_total(entity) == before.gather_total(entity) + gathered
    &&& after.public_units() == before.public_units() + units
    &&& after.delivery_total(entity) == before.delivery_total(entity) + promised
}

/// The claims of a colonist under way are those of what it is about: one walking
/// to a task, or waiting for the path to it, holds the claims of that task; one
/// gathering holds the claims of its gather trip; an idle, eating, building or
/// waiting colonist holds none.
pub proof fn lemma_colonists_under_way_hold_their_claims<P>(
    model: ReservationsModel,
    state: ColonistState<P>,
    entity: u64,
)
    ensures
        match state {
            ColonistState::Moving { task, .. } => adds_task_claims(model, model.reserve_state(state), task, entity),
            ColonistState::PlanningPath { task, .. } => adds_task_claims(
                model,
                model.reserve_state(state),
                task,
                entity,
            ),
            ColonistState::Gathering { resource, kind, amount, .. } => adds_task_claims(
                model,
                model.reserve_state(state),
                Task::<P>::Gather { resource, kind, amount },
                entity,
            ),
            _ => model.reserve_state(state) == model,
        },
{
    let after = model.reserve_state(state);
    assert(after.material_deliveries.drop_last() =~= model.material_deliveries
        || after.material_deliveries =~= model.material_deliveries);
    assert(after.gathered_resources.drop_last() =~= model.gathered_resources
        || after.gathered_resources =~= model.gathered_resources);
    assert(after.public_deposits.drop_last() =~= model.public_deposits
        || after.public_deposits =~= model.public_deposits);
}

/// What a node still offers once the claims on it are counted, never below zero.
pub open spec fn available(node_amount: i32, model: ReservationsModel, resource: u64) -> int {
    let left = node_amount - model.gather_total(resource);
    if left > 0 {
        left
    } else {
        0
    }
}

/// Claiming `amount` from a node lowers what it still offers by that amount, down
/// to zero: a worker who claims all of it leaves nothing for the next.
pub proof fn lemma_claim_lowers_availability(
    model: ReservationsModel,
    node_amount: i32,
    resource: u64,
    kind: ResourceKind,
    amount: i32,
)
    ensures
        available(node_amount, model.reserve_gather(resource, kind, amount), resource) == ({
            let rest = available(node_amount, model, resource) - claim(amount);
            if rest > 0 {
                rest
            } else {
                0
            }
        }),
{
    lemma_reserve_gather_totals(model, resource, kind, amount, resource);
}

} // verus!
