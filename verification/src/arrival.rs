use vstd::prelude::*;

use crate::assignment::{BlueprintSite, deposit_candidates, deposit_keys, deposit_pool};
use crate::stores::{
    Store,
    add_to_nearest_public,
    add_to_store,
    added_to_store,
    first_store_index,
    handed_to_nearest_public,
    remove_from_store,
    removed_from_store,
    stores_fit,
    stores_sound,
};
use crate::colonist::{
    Colonist,
    ColonistState,
    EAT_REST_MICROS,
    PATH_FAILURE_RETRY_MICROS,
    Task,
    eating_state,
    path_retry_state,
    spec_restored_satiety,
};
use crate::ordering::is_sorted_by_keys;
use crate::resources::lemma_sound_inventory_fits;
use crate::types::ResourceKind;

verus! {

/// What a colonist does on reaching the place of its task.
#[derive(Debug)]
pub enum Arrival<P> {
    /// The colonist's next state.
    Settle(ColonistState<P>),
    /// Walk on to `target` with `task`. When no path can be planned, what is
    /// carried (`spill`) goes to the nearest public stores and the colonist waits
    /// to retry.
    WalkOn { target: P, task: Task<P>, spill: (ResourceKind, i32) },
    /// A store was too full: carry the `amount` of `kind` left over to the stores
    /// at the listed positions, trying them in order; when none can be reached,
    /// wait to retry.
    Redeposit { order: Vec<usize>, kind: ResourceKind, amount: i32 },
}

/// The amount a task carries or plans, if it has one.
pub open spec fn task_amount<P>(task: Task<P>) -> int {
    match task {
        Task::PickupMaterial { amount, .. } => amount as int,
        Task::DeliverMaterial { amount, .. } => amount as int,
        Task::Gather { amount, .. } => amount as int,
        Task::Deposit { amount, .. } => amount as int,
        Task::PickupHomeFood { amount, .. } => amount as int,
        Task::DeliverHomeFood { amount, .. } => amount as int,
        _ => 0,
    }
}

/// The first blueprint site with id `entity`.
pub open spec fn first_site_of(sites: Seq<BlueprintSite>, entity: u64, index: int) -> bool {
    &&& 0 <= index < sites.len()
    &&& sites[index].entity == entity
    &&& forall|j: int| 0 <= j < index ==> (#[trigger] sites[j]).entity != entity
}

pub open spec fn first_site_index(sites: Seq<BlueprintSite>, entity: u64) -> Option<int> {
    if exists|index: int| first_site_of(sites, entity, index) {
        Some(choose|index: int| first_site_of(sites, entity, index))
    } else {
        None
    }
}

proof fn lemma_first_site_unique(sites: Seq<BlueprintSite>, entity: u64, a: int, b: int)
    requires
        first_site_of(sites, entity, a),
        first_site_of(sites, entity, b),
    ensures
        a == b,
{
    if a < b {
        assert(sites[a].entity == entity);
    } else if b < a {
        assert(sites[b].entity == entity);
    }
}

fn find_site(sites: &Vec<BlueprintSite>, entity: u64) -> (found: Option<usize>)
    ensures
        match found {
            Some(index) => first_site_index(sites@, entity) == Some(index as int),
            None => first_site_index(sites@, entity) == None::<int>,
        },
{
    let mut index: usize = 0;
    while index < sites.len()
        invariant
            0 <= index <= sites@.len(),
            forall|j: int| 0 <= j < index ==> (#[trigger] sites@[j]).entity != entity,
        decreases sites@.len() - index,
    {
        if sites[index].entity == entity {
            proof {
                assert(first_site_of(sites@, entity, index as int));
                let chosen = choose|i: int| first_site_of(sites@, entity, i);
                lemma_first_site_unique(sites@, entity, chosen, index as int);
            }
            return Some(index);
        }
        index = index + 1;
    }
    proof {
        assert forall|i: int| !first_site_of(sites@, entity, i) by {
            if first_site_of(sites@, entity, i) {
                assert(sites@[i].entity == entity);
            }
        }
    }
    None
}

/// Wood delivered to a blueprint after `amount` more arrives, never above what it needs.
pub open spec fn delivered_after(delivered: i32, required: i32, amount: i32) -> int {
    if delivered + amount < required {
        delivered + amount
    } else {
        required as int
    }
}

/// Wood delivered to a blueprint is all counted while the blueprint still needs
/// it, and never raises what it holds past what it needs: a delivery of a
/// non-negative amount adds exactly that amount when it fits, and fills the
/// blueprint up otherwise.
pub proof fn lemma_deliveries_fill_up_to_need(delivered: i32, required: i32, amount: i32)
    requires
        amount >= 0,
        delivered <= required,
    ensures
        delivered <= delivered_after(delivered, required, amount) <= required,
        delivered + amount <= required ==> delivered_after(delivered, required, amount) == delivered + amount,
        delivered + amount > required ==> delivered_after(delivered, required, amount) == required,
{
}

/// Every amount held is sound and the task carries no negative amount.
pub open spec fn arrival_inputs_sound<P>(stores: Seq<Store>, task: Task<P>) -> bool {
    stores_sound(stores) && task_amount(task) >= 0
}

proof fn lemma_removal_fits(stores: Seq<Store>, kind: ResourceKind, amount: i32)
    requires
        stores_sound(stores),
        amount >= 0,
    ensures
        forall|i: int|
            0 <= i < stores.len() ==> i32::MIN <= (#[trigger] stores[i]).inventory@.amount(kind)
                - amount <= i32::MAX,
{
    assert forall|i: int| 0 <= i < stores.len() implies i32::MIN <= (#[trigger] stores[i]).inventory@.amount(
        kind,
    ) - amount <= i32::MAX by {
        assert(stores[i].inventory@.wf());
    }
}

proof fn lemma_sound_stores_fit(stores: Seq<Store>)
    requires
        stores_sound(stores),
    ensures
        stores_fit(stores),
{
    assert forall|i: int| 0 <= i < stores.len() implies (#[trigger] stores[i]).inventory@.fits() by {
        lemma_sound_inventory_fits(stores[i].inventory@, ResourceKind::Food, 0);
    }
}

proof fn lemma_removal_keeps_sound(
    before: Seq<Store>,
    after: Seq<Store>,
    entity: u64,
    kind: ResourceKind,
    amount: i32,
    removed: bool,
)
    requires
        stores_sound(before),
        amount >= 0,
        removed_from_store(before, after, entity, kind, amount, removed),
    ensures
        stores_sound(after),
{
    assert forall|i: int| 0 <= i < after.len() implies (#[trigger] after[i]).inventory@.wf() by {
        match first_store_index(before, entity) {
            Some(index) => {
                if i == index {
                    crate::resources::lemma_remove_keeps_capacity(
                        before[index].inventory@,
                        kind,
                        amount,
                    );
                } else {
                    assert(after[i] == before[i]);
                }
            },
            None => {},
        }
    }
}

/// Finishes the walk of a colonist who reached the place of `task`. `stores` are all
/// inventories, with distance keys from the colonist; `sites` the blueprints still
/// standing; `home_target` where the colonist's home is entered, if it still stands.
pub fn complete_movement_task<P: Copy>(
    task: Task<P>,
    colonist: &mut Colonist<P>,
    stores: &mut Vec<Store>,
    sites: &mut Vec<BlueprintSite>,
    home_target: Option<P>,
) -> (arrival: Arrival<P>)
    requires
        arrival_inputs_sound(old(stores)@, task),
    ensures
        stores_sound(final(stores)@),
        final(colonist).name == old(colonist).name,
        final(colonist).home == old(colonist).home,
        final(colonist).carry_capacity == old(colonist).carry_capacity,
        final(colonist).speed_millis == old(colonist).speed_millis,
        final(colonist).state == old(colonist).state,
        !(task is Eat) ==> final(colonist).satiety_micros == old(colonist).satiety_micros,
        !(task is DeliverMaterial) ==> final(sites)@ == old(sites)@,
        match task {
            Task::PickupMaterial { source, blueprint, kind, amount, delivery_target } => exists|
                middle: Seq<Store>,
                removed: bool,
            |
                #![trigger removed_from_store(old(stores)@, middle, source, kind, amount, removed)]
                removed_from_store(old(stores)@, middle, source, kind, amount, removed) && if !removed {
                    final(stores)@ == middle && arrival == Arrival::Settle(ColonistState::<P>::Idle)
                } else if first_site_index(old(sites)@, blueprint) is Some {
                    final(stores)@ == middle && arrival == (Arrival::WalkOn {
                        target: delivery_target,
                        task: Task::DeliverMaterial { blueprint, kind, amount },
                        spill: (kind, amount),
                    })
                } else {
                    (exists|left: int|
                        handed_to_nearest_public(middle, final(stores)@, kind, amount, left))
                        && arrival == Arrival::Settle(ColonistState::<P>::Idle)
                },
            Task::DeliverMaterial { blueprint, kind, amount } => {
                &&& arrival == Arrival::Settle(ColonistState::<P>::Idle)
                &&& match first_site_index(old(sites)@, blueprint) {
                    Some(index) => {
                        &&& final(stores)@ == old(stores)@
                        &&& final(sites)@.len() == old(sites)@.len()
                        &&& forall|j: int|
                            0 <= j < old(sites)@.len() && j != index ==> (#[trigger] final(sites)@[j])
                                == old(sites)@[j]
                        &&& final(sites)@[index].blueprint.delivered_wood == (if kind
                            == ResourceKind::Wood {
                            delivered_after(
                                old(sites)@[index].blueprint.delivered_wood,
                                old(sites)@[index].blueprint.required_wood,
                                amount,
                            )
                        } else {
                            old(sites)@[index].blueprint.delivered_wood as int
                        })
                        &&& final(sites)@[index] == (BlueprintSite {
                            blueprint: crate::blueprint::Blueprint {
                                delivered_wood: final(sites)@[index].blueprint.delivered_wood,
                                ..old(sites)@[index].blueprint
                            },
                            ..old(sites)@[index]
                        })
                    },
                    None => {
                        &&& final(sites)@ == old(sites)@
                        &&& exists|left: int|
                            handed_to_nearest_public(old(stores)@, final(stores)@, kind, amount, left)
                    },
                }
            },
            Task::Build { blueprint } => final(stores)@ == old(stores)@ && arrival == Arrival::Settle(
                ColonistState::<P>::Building { blueprint },
            ),
            Task::Gather { resource, kind, amount } => final(stores)@ == old(stores)@ && arrival
                == Arrival::Settle(
                ColonistState::<P>::Gathering { resource, kind, amount, timer_micros: 0 },
            ),
            Task::Deposit { inventory, kind, amount } => exists|leftover: int|
                #![trigger added_to_store(old(stores)@, final(stores)@, inventory, kind, amount, leftover)]
                added_to_store(old(stores)@, final(stores)@, inventory, kind, amount, leftover) && if leftover
                    > 0 {
                    arrival matches Arrival::Redeposit { order, kind: k, amount: a } && k == kind && a
                        == leftover && is_sorted_by_keys(
                        deposit_pool(final(stores)@, kind, Some(inventory)),
                        deposit_keys(
                            final(stores)@,
                            deposit_pool(final(stores)@, kind, Some(inventory)),
                            kind,
                            a,
                        ),
                        order@,
                    )
                } else {
                    arrival == Arrival::Settle(ColonistState::<P>::Idle)
                },
            Task::Eat { inventory } => exists|removed: bool|
                #![trigger removed_from_store(old(stores)@, final(stores)@, inventory, ResourceKind::Food, 1, removed)]
                removed_from_store(
                    old(stores)@,
                    final(stores)@,
                    inventory,
                    ResourceKind::Food,
                    1,
                    removed,
                ) && if removed {
                    final(colonist).satiety_micros == spec_restored_satiety(
                        old(colonist).satiety_micros,
                    ) && arrival == Arrival::Settle(
                        ColonistState::<P>::Eating { timer_micros: EAT_REST_MICROS },
                    )
                } else {
                    final(colonist).satiety_micros == old(colonist).satiety_micros && arrival
                        == Arrival::Settle(ColonistState::<P>::Idle)
                },
            Task::PickupHomeFood { source, home, amount } => exists|
                middle: Seq<Store>,
                removed: bool,
            |
                #![trigger removed_from_store(old(stores)@, middle, source, ResourceKind::Food, amount, removed)]
                removed_from_store(old(stores)@, middle, source, ResourceKind::Food, amount, removed)
                    && if !removed {
                    final(stores)@ == middle && arrival == Arrival::Settle(ColonistState::<P>::Idle)
                } else {
                    match home_target {
                        Some(target) => final(stores)@ == middle && arrival == (Arrival::WalkOn {
                            target,
                            task: Task::DeliverHomeFood { home, amount },
                            spill: (ResourceKind::Food, amount),
                        }),
                        None => (exists|left: int|
                            handed_to_nearest_public(
                                middle,
                                final(stores)@,
                                ResourceKind::Food,
                                amount,
                                left,
                            )) && arrival == Arrival::Settle(ColonistState::<P>::Idle),
                    }
                },
            Task::DeliverHomeFood { home, amount } => {
                &&& arrival == Arrival::Settle(ColonistState::<P>::Idle)
                &&& exists|middle: Seq<Store>, leftover: i32|
                    #![trigger added_to_store(old(stores)@, middle, home, ResourceKind::Food, amount, leftover as int)]
                    added_to_store(old(stores)@, middle, home, ResourceKind::Food, amount, leftover as int)
                        && if leftover > 0 {
                        exists|left: int|
                            handed_to_nearest_public(
                                middle,
                                final(stores)@,
                                ResourceKind::Food,
                                leftover,
                                left,
                            )
                    } else {
                        final(stores)@ == middle
                    }
            },
        },
{
    match task {
        Task::PickupMaterial { source, blueprint, kind, amount, delivery_target } => {
            proof {
                lemma_removal_fits(stores@, kind, amount);
            }
            let ghost start = stores@;
            let removed = remove_from_store(stores, source, kind, amount);
            let ghost middle = stores@;
            proof {
                lemma_removal_keeps_sound(start, middle, source, kind, amount, removed);
            }
            if !removed {
                return Arrival::Settle(ColonistState::Idle);
            }
            match find_site(sites, blueprint) {
                Some(_) => Arrival::WalkOn {
                    target: delivery_target,
                    task: Task::DeliverMaterial { blueprint, kind, amount },
                    spill: (kind, amount),
                },
                None => {
                    add_to_nearest_public(stores, kind, amount);
                    Arrival::Settle(ColonistState::Idle)
                },
            }
        },
        Task::DeliverMaterial { blueprint, kind, amount } => {
            match find_site(sites, blueprint) {
                Some(index) => {
                    if kind == ResourceKind::Wood {
                        let mut site = sites[index];
                        site.blueprint.deliver_wood(amount);
                        sites.set(index, site);
                    }
                },
                None => {
                    add_to_nearest_public(stores, kind, amount);
                },
            }
            Arrival::Settle(ColonistState::Idle)
        },
        Task::Build { blueprint } => Arrival::Settle(ColonistState::Building { blueprint }),
        Task::Gather { resource, kind, amount } => Arrival::Settle(
            ColonistState::Gathering { resource, kind, amount, timer_micros: 0 },
        ),
        Task::Deposit { inventory, kind, amount } => {
            let leftover = add_to_store(stores, inventory, kind, amount);
            if leftover > 0 {
                proof {
                    lemma_sound_stores_fit(stores@);
                }
                let order = deposit_candidates(stores, kind, leftover, Some(inventory));
                Arrival::Redeposit { order, kind, amount: leftover }
            } else {
                Arrival::Settle(ColonistState::Idle)
            }
        },
        Task::Eat { inventory } => {
            proof {
                lemma_removal_fits(stores@, ResourceKind::Food, 1);
            }
            let ghost start = stores@;
            let removed = remove_from_store(stores, inventory, ResourceKind::Food, 1);
            proof {
                lemma_removal_keeps_sound(start, stores@, inventory, ResourceKind::Food, 1, removed);
            }
            if removed {
                colonist.eat();
                Arrival::Settle(eating_state())
            } else {
                Arrival::Settle(ColonistState::Idle)
            }
        },
        Task::PickupHomeFood { source, home, amount } => {
            proof {
                lemma_removal_fits(stores@, ResourceKind::Food, amount);
            }
            let ghost start = stores@;
            let removed = remove_from_store(stores, source, ResourceKind::Food, amount);
            proof {
                lemma_removal_keeps_sound(start, stores@, source, ResourceKind::Food, amount, removed);
            }
            if !removed {
                return Arrival::Settle(ColonistState::Idle);
            }
            match home_target {
                Some(target) => Arrival::WalkOn {
                    target,
                    task: Task::DeliverHomeFood { home, amount },
                    spill: (ResourceKind::Food, amount),
                },
                None => {
                    add_to_nearest_public(stores, ResourceKind::Food, amount);
                    Arrival::Settle(ColonistState::Idle)
                },
            }
        },
        Task::DeliverHomeFood { home, amount } => {
            let leftover = add_to_store(stores, home, ResourceKind::Food, amount);
            if leftover > 0 {
                add_to_nearest_public(stores, ResourceKind::Food, leftover);
            }
            Arrival::Settle(ColonistState::Idle)
        },
    }
}

/// No path leads to the place of `task`: a load on its way is handed to the public
/// stores nearest that place (`stores` has distance keys from it), and the colonist
/// waits to retry.
pub fn unreachable_moving_state<P>(task: Task<P>, stores: &mut Vec<Store>) -> (state: ColonistState<P>)
    requires
        stores_sound(old(stores)@),
    ensures
        state == (ColonistState::<P>::WaitingForPathRetry { timer_micros: PATH_FAILURE_RETRY_MICROS }),
        stores_sound(final(stores)@),
        match task {
            Task::DeliverMaterial { kind, amount, .. } => exists|left: int|
                handed_to_nearest_public(old(stores)@, final(stores)@, kind, amount, left),
            Task::DeliverHomeFood { amount, .. } => exists|left: int|
                handed_to_nearest_public(
                    old(stores)@,
                    final(stores)@,
                    ResourceKind::Food,
                    amount,
                    left,
                ),
            _ => final(stores)@ == old(stores)@,
        },
{
    match task {
        Task::DeliverMaterial { kind, amount, .. } => {
            add_to_nearest_public(stores, kind, amount);
        },
        Task::DeliverHomeFood { amount, .. } => {
            add_to_nearest_public(stores, ResourceKind::Food, amount);
        },
        _ => {},
    }
    path_retry_state()
}

} // verus!
