use vstd::prelude::*;

use crate::blueprint::{Blueprint, HOUSING_CAPACITY, Housing};
use crate::colonist::Colonist;
use crate::ordering::{
    comes_before,
    increasing,
    is_key_order,
    is_sorted_by_keys,
    lemma_key_order_is_permutation,
    lemma_pair_key_order,
    lemma_sorted_positions,
    pair_key,
    sort_by_keys,
    spec_pair_key,
};
use crate::reservations::{
    AssignmentReservations,
    ReservationsModel,
    available,
    claim,
    lemma_totals_nonnegative,
};
use crate::resources::{HOME_FOOD_PER_RESIDENT, Inventory, carried_amount, spec_carried_amount};
use crate::stores::{
    Store,
    first_store_of,
    public_room,
    public_room_fits,
    spec_public_room_after_reserved,
    store_keys,
    stores_fit,
    total_public_addable_after_reserved,
};
use crate::types::{BuildingKind, ResourceKind};

verus! {

/// A resource node as seen from a colonist: `distance_key` orders nodes by their
/// distance from the colonist.
#[derive(Clone, Copy, Debug)]
pub struct ResourceSighting {
    pub resource: u64,
    pub kind: ResourceKind,
    pub amount: i32,
    pub distance_key: u32,
}

/// A node worth a gather trip: `sighting` is its position in the list looked at,
/// `amount` what the trip would take.
#[derive(Clone, Copy, Debug, PartialEq, Eq, Structural)]
pub struct GatherCandidateSnapshot {
    pub distance_key: u32,
    pub resource: u64,
    pub sighting: usize,
    pub amount: i32,
}

pub open spec fn min_int(a: int, b: int) -> int {
    if a < b {
        a
    } else {
        b
    }
}

/// What one trip would take from a node: a full load, but no more than the node
/// offers once claims are counted, and no more than the public stores can take.
pub open spec fn spec_gather_amount(
    kind: ResourceKind,
    carry_capacity: i32,
    public_capacity: i32,
    sighting: ResourceSighting,
    model: ReservationsModel,
) -> int {
    min_int(
        min_int(
            spec_carried_amount(kind, carry_capacity),
            available(sighting.amount, model, sighting.resource),
        ),
        public_capacity as int,
    )
}

/// The nodes of `kind` worth a trip, in the order they were seen.
pub open spec fn gather_pool(
    sightings: Seq<ResourceSighting>,
    kind: ResourceKind,
    carry_capacity: i32,
    public_capacity: i32,
    model: ReservationsModel,
) -> Seq<GatherCandidateSnapshot>
    decreases sightings.len(),
{
    if sightings.len() == 0 {
        Seq::empty()
    } else {
        let rest = gather_pool(sightings.drop_last(), kind, carry_capacity, public_capacity, model);
        let sighting = sightings.last();
        let amount = spec_gather_amount(kind, carry_capacity, public_capacity, sighting, model);
        if sighting.kind == kind && amount > 0 {
            rest.push(
                GatherCandidateSnapshot {
                    distance_key: sighting.distance_key,
                    resource: sighting.resource,
                    sighting: (sightings.len() - 1) as usize,
                    amount: amount as i32,
                },
            )
        } else {
            rest
        }
    }
}

pub open spec fn gather_keys(pool: Seq<GatherCandidateSnapshot>) -> Seq<u64> {
    pool.map_values(|candidate: GatherCandidateSnapshot| candidate.distance_key as u64)
}

/// The nodes of `kind` worth a gather trip, nearest first (ties in the order seen).
pub fn gather_candidate_snapshots(
    kind: ResourceKind,
    carry_capacity: i32,
    public_capacity: i32,
    sightings: &Vec<ResourceSighting>,
    reservations: &AssignmentReservations,
) -> (candidates: Vec<GatherCandidateSnapshot>)
    requires
        reservations@.wf(),
        forall|i: int|
            0 <= i < sightings@.len() && (#[trigger] sightings@[i]).kind == kind
                ==> reservations@.gather_total(sightings@[i].resource) <= i32::MAX,
    ensures
        is_sorted_by_keys(
            gather_pool(sightings@, kind, carry_capacity, public_capacity, reservations@),
            gather_keys(gather_pool(sightings@, kind, carry_capacity, public_capacity, reservations@)),
            candidates@,
        ),
{
    let ghost model = reservations@;
    let mut pool: Vec<GatherCandidateSnapshot> = Vec::new();
    let mut keys: Vec<u64> = Vec::new();
    let carried = carried_amount(kind, carry_capacity);
    let mut index: usize = 0;
    assert(sightings@.take(0) =~= Seq::<ResourceSighting>::empty());
    while index < sightings.len()
        invariant
            model == reservations@,
            model.wf(),
            forall|i: int|
                0 <= i < sightings@.len() && (#[trigger] sightings@[i]).kind == kind
                    ==> model.gather_total(sightings@[i].resource) <= i32::MAX,
            carried == spec_carried_amount(kind, carry_capacity),
            0 <= index <= sightings@.len(),
            pool@ == gather_pool(
                sightings@.take(index as int),
                kind,
                carry_capacity,
                public_capacity,
                model,
            ),
            keys@ == gather_keys(pool@),
        decreases sightings@.len() - index,
    {
        let ghost seen = sightings@.take(index + 1);
        assert(seen.drop_last() =~= sightings@.take(index as int));
        assert(seen.last() == sightings@[index as int]);
        let sighting = sightings[index];
        if sighting.kind == kind {
            let reserved = reservations.reserved_gather(sighting.resource);
            proof {
                lemma_totals_nonnegative(model, sighting.resource);
            }
            let left: i64 = sighting.amount as i64 - reserved as i64;
            let offered: i32 = if left > 0 {
                left as i32
            } else {
                0
            };
            let smaller = if carried < offered {
                carried
            } else {
                offered
            };
            let amount = if smaller < public_capacity {
                smaller
            } else {
                public_capacity
            };
            if amount > 0 {
                let candidate = GatherCandidateSnapshot {
                    distance_key: sighting.distance_key,
                    resource: sighting.resource,
                    sighting: index,
                    amount,
                };
                let ghost before = pool@;
                pool.push(candidate);
                keys.push(sighting.distance_key as u64);
                assert(keys@ =~= gather_keys(pool@)) by {
                    assert(pool@ == before.push(candidate));
                }
            }
        }
        index = index + 1;
    }
    assert(sightings@.take(index as int) =~= sightings@);
    sort_by_keys(&pool, &keys)
}

/// Whether the inputs of `gather_trips` for `kind` keep its sums within `i32`:
/// the room of the public stores in capacity units, the public capacity claimed,
/// and what is claimed from each sighted node of that kind.
pub fn gather_inputs_fit(
    kind: ResourceKind,
    stores: &Vec<Store>,
    sightings: &Vec<ResourceSighting>,
    reservations: &AssignmentReservations,
) -> (fits: bool)
    requires
        stores_fit(stores@),
        reservations@.wf(),
    ensures
        fits == (public_room(stores@, kind) * kind.spec_unit_size() <= i32::MAX
            && reservations@.public_units() <= i32::MAX && forall|i: int|
            0 <= i < sightings@.len() && (#[trigger] sightings@[i]).kind == kind
                ==> reservations@.gather_total(sightings@[i].resource) <= i32::MAX),
{
    if !public_room_fits(stores, kind) || !reservations.deposit_claims_fit() {
        return false;
    }
    let mut index: usize = 0;
    while index < sightings.len()
        invariant
            0 <= index <= sightings@.len(),
            reservations@.wf(),
            forall|i: int|
                0 <= i < index && (#[trigger] sightings@[i]).kind == kind
                    ==> reservations@.gather_total(sightings@[i].resource) <= i32::MAX,
        decreases sightings@.len() - index,
    {
        let sighting = sightings[index];
        if sighting.kind == kind && !reservations.gather_claims_fit(sighting.resource) {
            return false;
        }
        index = index + 1;
    }
    true
}

/// Whether the inputs of `material_delivery_candidates` fit together: one row of
/// trip keys per site and one key per store in each, and every blueprint's wood
/// and the wood promised to it within `i32`.
pub fn delivery_inputs_fit_at(
    sites: &Vec<BlueprintSite>,
    stores: &Vec<Store>,
    trip_keys: &Vec<Vec<u32>>,
    reservations: &AssignmentReservations,
) -> (fits: bool)
    requires
        reservations@.wf(),
    ensures
        fits == delivery_inputs_fit(sites@, stores@, trip_keys@, reservations@),
{
    if trip_keys.len() != sites.len() {
        return false;
    }
    let mut index: usize = 0;
    while index < sites.len()
        invariant
            0 <= index <= sites@.len(),
            trip_keys@.len() == sites@.len(),
            reservations@.wf(),
            forall|i: int| 0 <= i < index ==> (#[trigger] trip_keys@[i])@.len() == stores@.len(),
            forall|i: int|
                0 <= i < index ==> (#[trigger] sites@[i]).blueprint.fits() && reservations@.delivery_total(
                    sites@[i].entity,
                ) <= i32::MAX,
        decreases sites@.len() - index,
    {
        if trip_keys[index].len() != stores.len() {
            return false;
        }
        let site = sites[index];
        if !site.blueprint.fits_in_range() || !reservations.delivery_claims_fit(site.entity) {
            return false;
        }
        index = index + 1;
    }
    true
}

/// Whether `home_food_need` can work out the need of a home with `residents`
/// residents within `i32`.
pub fn home_need_fits(residents: usize, home: &Inventory) -> (fits: bool)
    ensures
        fits == (home@.fits() && residents * HOME_FOOD_PER_RESIDENT <= i32::MAX
            && home@.max_addable(ResourceKind::Food) + home@.amount(ResourceKind::Food) <= i32::MAX
            && home@.amount(ResourceKind::Food) >= 0),
{
    if !home.fits_in_range() {
        return false;
    }
    if residents > (i32::MAX / HOME_FOOD_PER_RESIDENT) as usize {
        return false;
    }
    let room = home.max_addable(ResourceKind::Food);
    let held = home.amount(ResourceKind::Food);
    held >= 0 && (room as i64) + (held as i64) <= i32::MAX as i64
}

/// Whether a completed building of `kind` stands among `completed`.
pub fn has_completed(completed: &Vec<BuildingKind>, kind: BuildingKind) -> (found: bool)
    ensures
        found == completed@.contains(kind),
{
    let mut index: usize = 0;
    while index < completed.len()
        invariant
            0 <= index <= completed@.len(),
            forall|k: int| 0 <= k < index ==> completed@[k] != kind,
        decreases completed@.len() - index,
    {
        if completed[index] == kind {
            assert(completed@[index as int] == kind);
            return true;
        }
        index = index + 1;
    }
    false
}

/// The gather trips for `kind` on offer: none unless a building that employs such
/// gatherers stands (`enabled`) and the public stores still have room for `kind`
/// once planned deposits are counted; otherwise the trips that room allows.
pub fn gather_trips(
    enabled: bool,
    kind: ResourceKind,
    carry_capacity: i32,
    stores: &Vec<Store>,
    sightings: &Vec<ResourceSighting>,
    reservations: &AssignmentReservations,
) -> (trips: Vec<GatherCandidateSnapshot>)
    requires
        stores_fit(stores@),
        public_room(stores@, kind) * kind.spec_unit_size() <= i32::MAX,
        reservations@.wf(),
        reservations@.public_units() <= i32::MAX,
        forall|i: int|
            0 <= i < sightings@.len() && (#[trigger] sightings@[i]).kind == kind
                ==> reservations@.gather_total(sightings@[i].resource) <= i32::MAX,
    ensures
        !enabled || spec_public_room_after_reserved(stores@, reservations@, kind) <= 0 ==> trips@.len() == 0,
        enabled && spec_public_room_after_reserved(stores@, reservations@, kind) > 0 ==> is_sorted_by_keys(
            gather_pool(
                sightings@,
                kind,
                carry_capacity,
                spec_public_room_after_reserved(stores@, reservations@, kind) as i32,
                reservations@,
            ),
            gather_keys(
                gather_pool(
                    sightings@,
                    kind,
                    carry_capacity,
                    spec_public_room_after_reserved(stores@, reservations@, kind) as i32,
                    reservations@,
                ),
            ),
            trips@,
        ),
{
    if !enabled {
        return Vec::new();
    }
    let room = total_public_addable_after_reserved(stores, reservations, kind);
    if room <= 0 {
        return Vec::new();
    }
    gather_candidate_snapshots(kind, carry_capacity, room, sightings, reservations)
}

/// No gather trip plans more than one load, more than its node still offers once
/// the claims on it are counted, or more than the public stores can still take;
/// every trip heads for a node of the kind asked for, and takes something.
pub proof fn lemma_gather_trips_within_bounds(
    sightings: Seq<ResourceSighting>,
    kind: ResourceKind,
    carry_capacity: i32,
    public_capacity: i32,
    model: ReservationsModel,
)
    requires
        sightings.len() <= usize::MAX,
    ensures
        forall|k: int|
            0 <= k < gather_pool(sightings, kind, carry_capacity, public_capacity, model).len() ==> {
                let trip = #[trigger] gather_pool(
                    sightings,
                    kind,
                    carry_capacity,
                    public_capacity,
                    model,
                )[k];
                &&& 0 <= trip.sighting < sightings.len()
                &&& sightings[trip.sighting as int].kind == kind
                &&& sightings[trip.sighting as int].resource == trip.resource
                &&& 0 < trip.amount <= spec_carried_amount(kind, carry_capacity)
                &&& trip.amount <= available(sightings[trip.sighting as int].amount, model, trip.resource)
                &&& trip.amount <= public_capacity
            },
    decreases sightings.len(),
{
    if sightings.len() > 0 {
        let shorter = sightings.drop_last();
        lemma_gather_trips_within_bounds(shorter, kind, carry_capacity, public_capacity, model);
        let rest = gather_pool(shorter, kind, carry_capacity, public_capacity, model);
        let pool = gather_pool(sightings, kind, carry_capacity, public_capacity, model);
        assert forall|k: int| 0 <= k < pool.len() implies {
            let trip = #[trigger] pool[k];
            &&& 0 <= trip.sighting < sightings.len()
            &&& sightings[trip.sighting as int].kind == kind
            &&& sightings[trip.sighting as int].resource == trip.resource
            &&& 0 < trip.amount <= spec_carried_amount(kind, carry_capacity)
            &&& trip.amount <= available(sightings[trip.sighting as int].amount, model, trip.resource)
            &&& trip.amount <= public_capacity
        } by {
            if k < rest.len() {
                assert(pool[k] == rest[k]);
                assert(shorter[rest[k].sighting as int] == sightings[rest[k].sighting as int]);
            } else {
                let sighting = sightings.last();
                let amount = spec_gather_amount(
                    kind,
                    carry_capacity,
                    public_capacity,
                    sighting,
                    model,
                );
                assert(0 < amount <= public_capacity);
                assert(pool[k].amount == amount);
                assert(pool[k].sighting == sightings.len() - 1);
            }
        }
    }
}

/// Whether a sighting is worth a gather trip for `kind`: it is of that kind and a
/// trip would take something from it.
pub open spec fn worth_gathering(
    sighting: ResourceSighting,
    kind: ResourceKind,
    carry_capacity: i32,
    public_capacity: i32,
    model: ReservationsModel,
) -> bool {
    sighting.kind == kind && spec_gather_amount(kind, carry_capacity, public_capacity, sighting, model) > 0
}

/// The gather trip to the `index`th sighting.
pub open spec fn gather_snapshot(
    sightings: Seq<ResourceSighting>,
    index: int,
    kind: ResourceKind,
    carry_capacity: i32,
    public_capacity: i32,
    model: ReservationsModel,
) -> GatherCandidateSnapshot {
    let sighting = sightings[index];
    GatherCandidateSnapshot {
        distance_key: sighting.distance_key,
        resource: sighting.resource,
        sighting: index as usize,
        amount: spec_gather_amount(kind, carry_capacity, public_capacity, sighting, model) as i32,
    }
}

proof fn lemma_gather_pool_lists_worthwhile_sightings(
    sightings: Seq<ResourceSighting>,
    kind: ResourceKind,
    carry_capacity: i32,
    public_capacity: i32,
    model: ReservationsModel,
)
    requires
        sightings.len() <= usize::MAX,
    ensures
        ({
            let pool = gather_pool(sightings, kind, carry_capacity, public_capacity, model);
            &&& pool.len() <= sightings.len()
            &&& forall|k: int|
                0 <= k < pool.len() ==> {
                    &&& 0 <= (#[trigger] pool[k]).sighting < sightings.len()
                    &&& worth_gathering(
                        sightings[pool[k].sighting as int],
                        kind,
                        carry_capacity,
                        public_capacity,
                        model,
                    )
                    &&& pool[k] == gather_snapshot(
                        sightings,
                        pool[k].sighting as int,
                        kind,
                        carry_capacity,
                        public_capacity,
                        model,
                    )
                }
            &&& forall|a: int, b: int|
                0 <= a < b < pool.len() ==> (#[trigger] pool[a]).sighting < (#[trigger] pool[b]).sighting
            &&& forall|i: int|
                0 <= i < sightings.len() && worth_gathering(
                    #[trigger] sightings[i],
                    kind,
                    carry_capacity,
                    public_capacity,
                    model,
                ) ==> exists|k: int| 0 <= k < pool.len() && pool[k].sighting == i
        }),
    decreases sightings.len(),
{
    if sightings.len() > 0 {
        let shorter = sightings.drop_last();
        lemma_gather_pool_lists_worthwhile_sightings(shorter, kind, carry_capacity, public_capacity, model);
        let rest = gather_pool(shorter, kind, carry_capacity, public_capacity, model);
        let pool = gather_pool(sightings, kind, carry_capacity, public_capacity, model);
        let last = sightings.len() - 1;
        assert forall|k: int| 0 <= k < rest.len() implies pool[k] == rest[k] && shorter[rest[k].sighting as int]
            == sightings[rest[k].sighting as int] by {}
        assert forall|i: int|
            0 <= i < sightings.len() && worth_gathering(
                #[trigger] sightings[i],
                kind,
                carry_capacity,
                public_capacity,
                model,
            ) implies exists|k: int| 0 <= k < pool.len() && pool[k].sighting == i by {
            if i < last {
                assert(shorter[i] == sightings[i]);
                let k = choose|k: int| 0 <= k < rest.len() && rest[k].sighting == i;
                assert(pool[k] == rest[k]);
            } else {
                assert(pool[rest.len() as int].sighting == i);
            }
        }
        assert forall|a: int, b: int| 0 <= a < b < pool.len() implies (#[trigger] pool[a]).sighting < (
        #[trigger] pool[b]).sighting by {
            assert(pool[a] == rest[a]);
            if b < rest.len() {
                assert(pool[b] == rest[b]);
            }
        }
    }
}

/// Gather trips list each sighting worth a trip exactly once, nearest first: every
/// trip is the one to a sighting of `kind` from which it would take something, with
/// that sighting's position and the amount a trip would take; every such sighting
/// has a trip, no sighting has two, and trips come by increasing distance, ties in
/// the order the sightings were seen.
pub proof fn lemma_gather_candidates_list_each_node_nearest_first(
    sightings: Seq<ResourceSighting>,
    kind: ResourceKind,
    carry_capacity: i32,
    public_capacity: i32,
    model: ReservationsModel,
    candidates: Seq<GatherCandidateSnapshot>,
)
    requires
        sightings.len() <= usize::MAX,
        is_sorted_by_keys(
            gather_pool(sightings, kind, carry_capacity, public_capacity, model),
            gather_keys(gather_pool(sightings, kind, carry_capacity, public_capacity, model)),
            candidates,
        ),
    ensures
        forall|k: int|
            0 <= k < candidates.len() ==> {
                &&& 0 <= (#[trigger] candidates[k]).sighting < sightings.len()
                &&& worth_gathering(
                    sightings[candidates[k].sighting as int],
                    kind,
                    carry_capacity,
                    public_capacity,
                    model,
                )
                &&& candidates[k] == gather_snapshot(
                    sightings,
                    candidates[k].sighting as int,
                    kind,
                    carry_capacity,
                    public_capacity,
                    model,
                )
            },
        forall|i: int|
            0 <= i < sightings.len() && worth_gathering(
                #[trigger] sightings[i],
                kind,
                carry_capacity,
                public_capacity,
                model,
            ) ==> exists|k: int| 0 <= k < candidates.len() && candidates[k].sighting == i,
        forall|a: int, b: int|
            0 <= a < b < candidates.len() ==> (#[trigger] candidates[a]).sighting != (
            #[trigger] candidates[b]).sighting,
        forall|a: int, b: int|
            0 <= a < b < candidates.len() ==> {
                ||| (#[trigger] candidates[a]).distance_key < (#[trigger] candidates[b]).distance_key
                ||| candidates[a].distance_key == candidates[b].distance_key && candidates[a].sighting
                    < candidates[b].sighting
            },
{
    let pool = gather_pool(sightings, kind, carry_capacity, public_capacity, model);
    let keys = gather_keys(pool);
    lemma_gather_pool_lists_worthwhile_sightings(sightings, kind, carry_capacity, public_capacity, model);
    let order = choose|order: Seq<usize>|
        #![trigger is_key_order(keys, order)]
        is_key_order(keys, order) && candidates.len() == order.len() && forall|k: int|
            0 <= k < candidates.len() ==> candidates[k] == pool[#[trigger] order[k] as int];
    lemma_key_order_is_permutation(keys, order);
    assert forall|k: int| 0 <= k < candidates.len() implies candidates[k] == pool[order[k] as int] && order[k]
        < pool.len() by {
        assert(order[k] < keys.len());
    }
    assert forall|i: int|
        0 <= i < sightings.len() && worth_gathering(
            #[trigger] sightings[i],
            kind,
            carry_capacity,
            public_capacity,
            model,
        ) implies exists|k: int| 0 <= k < candidates.len() && candidates[k].sighting == i by {
        let p = choose|p: int| 0 <= p < pool.len() && pool[p].sighting == i;
        assert(p < keys.len());
        assert(order.contains(p as usize));
        let k = choose|k: int| 0 <= k < order.len() && order[k] == p as usize;
        assert(candidates[k] == pool[order[k] as int]);
        assert(candidates[k].sighting == i);
    }
    assert forall|a: int, b: int| 0 <= a < b < candidates.len() implies {
        &&& (#[trigger] candidates[a]).sighting != (#[trigger] candidates[b]).sighting
        &&& {
            ||| candidates[a].distance_key < candidates[b].distance_key
            ||| candidates[a].distance_key == candidates[b].distance_key && candidates[a].sighting
                < candidates[b].sighting
        }
    } by {
        let pa = order[a] as int;
        let pb = order[b] as int;
        assert(candidates[a] == pool[pa]);
        assert(candidates[b] == pool[pb]);
        assert(pa != pb);
        assert(comes_before(keys[pa], pa, keys[pb], pb));
        assert(keys[pa] == pool[pa].distance_key as u64);
        assert(keys[pb] == pool[pb].distance_key as u64);
        if pa < pb {
            assert(pool[pa].sighting < pool[pb].sighting);
        } else {
            assert(pool[pb].sighting < pool[pa].sighting);
        }
    }
}


/// The positions of the items that satisfy `pred`, in increasing order.
pub open spec fn positions_where<T>(items: Seq<T>, pred: spec_fn(T) -> bool) -> Seq<usize>
    decreases items.len(),
{
    if items.len() == 0 {
        Seq::empty()
    } else {
        let rest = positions_where(items.drop_last(), pred);
        if pred(items.last()) {
            rest.push((items.len() - 1) as usize)
        } else {
            rest
        }
    }
}

proof fn lemma_positions_where<T>(items: Seq<T>, pred: spec_fn(T) -> bool)
    requires
        items.len() <= usize::MAX,
    ensures
        ({
            let pool = positions_where(items, pred);
            &&& pool.len() <= items.len()
            &&& increasing(pool)
            &&& forall|p: int| 0 <= p < pool.len() ==> (#[trigger] pool[p]) < items.len() && pred(items[pool[p] as int])
            &&& forall|i: int| 0 <= i < items.len() && pred(#[trigger] items[i]) ==> pool.contains(i as usize)
        }),
    decreases items.len(),
{
    if items.len() > 0 {
        let shorter = items.drop_last();
        lemma_positions_where(shorter, pred);
        let rest = positions_where(shorter, pred);
        let pool = positions_where(items, pred);
        assert forall|p: int| 0 <= p < rest.len() implies pool[p] == rest[p] && shorter[rest[p] as int]
            == items[rest[p] as int] by {}
        assert forall|i: int| 0 <= i < items.len() && pred(#[trigger] items[i]) implies pool.contains(i as usize) by {
            if i < items.len() - 1 {
                assert(shorter[i] == items[i]);
                let p = choose|p: int| 0 <= p < rest.len() && rest[p] == i as usize;
                assert(pool[p] == rest[p]);
            } else {
                assert(pool[rest.len() as int] == i as usize);
            }
        }
    }
}

proof fn lemma_meal_pool_positions(stores: Seq<Store>)
    ensures
        meal_pool(stores) == positions_where(stores, |store: Store| serves_meals(store)),
    decreases stores.len(),
{
    if stores.len() > 0 {
        lemma_meal_pool_positions(stores.drop_last());
    }
}

proof fn lemma_build_pool_positions(sites: Seq<BlueprintSite>)
    ensures
        build_pool(sites) == positions_where(sites, |site: BlueprintSite| ready_to_build(site)),
    decreases sites.len(),
{
    if sites.len() > 0 {
        lemma_build_pool_positions(sites.drop_last());
    }
}

proof fn lemma_deposit_pool_positions(stores: Seq<Store>, kind: ResourceKind, exclude: Option<u64>)
    ensures
        deposit_pool(stores, kind, exclude) == positions_where(
            stores,
            |store: Store| takes_deposit(store, kind, exclude),
        ),
    decreases stores.len(),
{
    if stores.len() > 0 {
        lemma_deposit_pool_positions(stores.drop_last(), kind, exclude);
    }
}

/// Meals are offered at every public store that holds food and at no other, each
/// once, nearest first, ties in list order.
pub proof fn lemma_meals_at_public_stores_with_food(stores: Seq<Store>, order: Seq<usize>)
    requires
        stores.len() <= usize::MAX,
        is_sorted_by_keys(meal_pool(stores), store_keys(stores, meal_pool(stores)), order),
    ensures
        forall|k: int|
            0 <= k < order.len() ==> {
                let store = stores[#[trigger] order[k] as int];
                &&& order[k] < stores.len()
                &&& store.public
                &&& store.inventory@.amount(ResourceKind::Food) > 0
            },
        forall|i: int|
            0 <= i < stores.len() && (#[trigger] stores[i]).public && stores[i].inventory@.amount(ResourceKind::Food)
                > 0 ==> order.contains(i as usize),
        forall|a: int, b: int|
            0 <= a < b < order.len() ==> stores[#[trigger] order[a] as int].distance_key < stores[
                #[trigger] order[b] as int].distance_key || (stores[order[a] as int].distance_key
                == stores[order[b] as int].distance_key && order[a] < order[b]),
{
    let pred = |store: Store| serves_meals(store);
    let key_of = |index: usize| stores[index as int].distance_key as u64;
    lemma_meal_pool_positions(stores);
    lemma_positions_where(stores, pred);
    let pool = meal_pool(stores);
    assert(store_keys(stores, pool) =~= pool.map_values(key_of));
    lemma_sorted_positions(pool, key_of, order);
    assert forall|k: int| 0 <= k < order.len() implies {
        let store = stores[#[trigger] order[k] as int];
        &&& order[k] < stores.len()
        &&& store.public
        &&& store.inventory@.amount(ResourceKind::Food) > 0
    } by {
        assert(pool.contains(order[k]));
        let p = choose|p: int| 0 <= p < pool.len() && pool[p] == order[k];
        assert(pool[p] < stores.len() && pred(stores[pool[p] as int]));
    }
    assert forall|i: int|
        0 <= i < stores.len() && (#[trigger] stores[i]).public && stores[i].inventory@.amount(ResourceKind::Food)
            > 0 implies order.contains(i as usize) by {
        assert(pred(stores[i]));
        assert(pool.contains(i as usize));
        let p = choose|p: int| 0 <= p < pool.len() && pool[p] == i as usize;
        assert(order.contains(pool[p]));
    }
}

/// Building is offered at every blueprint with all its wood and work left to do,
/// and at no other, each once, nearest first, ties in list order.
pub proof fn lemma_builds_at_supplied_unfinished_blueprints(sites: Seq<BlueprintSite>, order: Seq<usize>)
    requires
        sites.len() <= usize::MAX,
        is_sorted_by_keys(build_pool(sites), site_keys(sites, build_pool(sites)), order),
    ensures
        forall|k: int|
            0 <= k < order.len() ==> {
                let site = sites[#[trigger] order[k] as int];
                &&& order[k] < sites.len()
                &&& site.blueprint.delivered_wood >= site.blueprint.required_wood
                &&& site.blueprint.progress_micros < site.blueprint.build_micros
            },
        forall|i: int|
            0 <= i < sites.len() && (#[trigger] sites[i]).blueprint.delivered_wood >= sites[i].blueprint.required_wood
                && sites[i].blueprint.progress_micros < sites[i].blueprint.build_micros ==> order.contains(
                i as usize,
            ),
        forall|a: int, b: int|
            0 <= a < b < order.len() ==> sites[#[trigger] order[a] as int].distance_key < sites[
                #[trigger] order[b] as int].distance_key || (sites[order[a] as int].distance_key
                == sites[order[b] as int].distance_key && order[a] < order[b]),
{
    let pred = |site: BlueprintSite| ready_to_build(site);
    let key_of = |index: usize| sites[index as int].distance_key as u64;
    lemma_build_pool_positions(sites);
    lemma_positions_where(sites, pred);
    let pool = build_pool(sites);
    assert(site_keys(sites, pool) =~= pool.map_values(key_of));
    lemma_sorted_positions(pool, key_of, order);
    assert forall|k: int| 0 <= k < order.len() implies {
        let site = sites[#[trigger] order[k] as int];
        &&& order[k] < sites.len()
        &&& site.blueprint.delivered_wood >= site.blueprint.required_wood
        &&& site.blueprint.progress_micros < site.blueprint.build_micros
    } by {
        assert(pool.contains(order[k]));
        let p = choose|p: int| 0 <= p < pool.len() && pool[p] == order[k];
        assert(pool[p] < sites.len() && pred(sites[pool[p] as int]));
    }
    assert forall|i: int|
        0 <= i < sites.len() && (#[trigger] sites[i]).blueprint.delivered_wood >= sites[i].blueprint.required_wood
            && sites[i].blueprint.progress_micros < sites[i].blueprint.build_micros implies order.contains(
            i as usize,
        ) by {
        assert(pred(sites[i]));
        assert(pool.contains(i as usize));
        let p = choose|p: int| 0 <= p < pool.len() && pool[p] == i as usize;
        assert(order.contains(pool[p]));
    }
}

/// Deposits go to every public store, other than the one excluded, with room for
/// the kind, and to no other, each once: first the stores with room for the whole
/// load, then the rest, nearest first within each group, ties in list order.
pub proof fn lemma_deposits_go_to_public_stores_with_room(
    stores: Seq<Store>,
    kind: ResourceKind,
    amount: i32,
    exclude: Option<u64>,
    order: Seq<usize>,
)
    requires
        stores.len() <= usize::MAX,
        is_sorted_by_keys(
            deposit_pool(stores, kind, exclude),
            deposit_keys(stores, deposit_pool(stores, kind, exclude), kind, amount),
            order,
        ),
    ensures
        forall|k: int|
            0 <= k < order.len() ==> {
                let store = stores[#[trigger] order[k] as int];
                &&& order[k] < stores.len()
                &&& store.public
                &&& exclude != Some(store.entity)
                &&& store.inventory@.max_addable(kind) > 0
            },
        forall|i: int|
            0 <= i < stores.len() && (#[trigger] stores[i]).public && exclude != Some(stores[i].entity)
                && stores[i].inventory@.max_addable(kind) > 0 ==> order.contains(i as usize),
        forall|a: int, b: int|
            0 <= a < b < order.len() ==> {
                let first = stores[#[trigger] order[a] as int];
                let second = stores[#[trigger] order[b] as int];
                let first_whole = first.inventory@.max_addable(kind) >= amount;
                let second_whole = second.inventory@.max_addable(kind) >= amount;
                ||| first_whole && !second_whole
                ||| first_whole == second_whole && first.distance_key < second.distance_key
                ||| first_whole == second_whole && first.distance_key == second.distance_key && order[a]
                    < order[b]
            },
{
    let pred = |store: Store| takes_deposit(store, kind, exclude);
    let key_of = |index: usize| deposit_key(stores[index as int], kind, amount);
    lemma_deposit_pool_positions(stores, kind, exclude);
    lemma_positions_where(stores, pred);
    let pool = deposit_pool(stores, kind, exclude);
    assert(deposit_keys(stores, pool, kind, amount) =~= pool.map_values(key_of));
    lemma_sorted_positions(pool, key_of, order);
    assert forall|k: int| 0 <= k < order.len() implies {
        let store = stores[#[trigger] order[k] as int];
        &&& order[k] < stores.len()
        &&& store.public
        &&& exclude != Some(store.entity)
        &&& store.inventory@.max_addable(kind) > 0
    } by {
        assert(pool.contains(order[k]));
        let p = choose|p: int| 0 <= p < pool.len() && pool[p] == order[k];
        assert(pool[p] < stores.len() && pred(stores[pool[p] as int]));
    }
    assert forall|i: int|
        0 <= i < stores.len() && (#[trigger] stores[i]).public && exclude != Some(stores[i].entity)
            && stores[i].inventory@.max_addable(kind) > 0 implies order.contains(i as usize) by {
        assert(pred(stores[i]));
        assert(pool.contains(i as usize));
        let p = choose|p: int| 0 <= p < pool.len() && pool[p] == i as usize;
        assert(order.contains(pool[p]));
    }
    assert forall|a: int, b: int| 0 <= a < b < order.len() implies {
        let first = stores[#[trigger] order[a] as int];
        let second = stores[#[trigger] order[b] as int];
        let first_whole = first.inventory@.max_addable(kind) >= amount;
        let second_whole = second.inventory@.max_addable(kind) >= amount;
        ||| first_whole && !second_whole
        ||| first_whole == second_whole && first.distance_key < second.distance_key
        ||| first_whole == second_whole && first.distance_key == second.distance_key && order[a] < order[b]
    } by {
        let first = stores[order[a] as int];
        let second = stores[order[b] as int];
        let high_a: u32 = if first.inventory@.max_addable(kind) >= amount { 0 } else { 1 };
        let high_b: u32 = if second.inventory@.max_addable(kind) >= amount { 0 } else { 1 };
        lemma_pair_key_order(high_a, first.distance_key, high_b, second.distance_key);
    }
}

/// A house as seen from a colonist looking for a home.
#[derive(Clone, Copy, Debug)]
pub struct HomeSnapshot {
    pub home: u64,
    pub residents: usize,
    pub distance_key: u32,
}

pub open spec fn home_has_room(home: HomeSnapshot) -> bool {
    home.residents < HOUSING_CAPACITY
}

/// `a` is a better home than `b`: fewer residents, then nearer.
pub open spec fn home_before(a: HomeSnapshot, b: HomeSnapshot) -> bool {
    a.residents < b.residents || (a.residents == b.residents && a.distance_key < b.distance_key)
}

/// The house with room that has the fewest residents, the nearest among those,
/// and the first listed among equals.
pub open spec fn is_best_home(homes: Seq<HomeSnapshot>, index: int) -> bool {
    &&& 0 <= index < homes.len()
    &&& home_has_room(homes[index])
    &&& forall|j: int|
        0 <= j < homes.len() && home_has_room(#[trigger] homes[j]) ==> !home_before(
            homes[j],
            homes[index],
        ) && (j < index ==> home_before(homes[index], homes[j]))
}

/// The best home has room for one more, no house with room has fewer residents,
/// and none with as many is nearer.
pub proof fn lemma_best_home_is_least_crowded(homes: Seq<HomeSnapshot>, index: int)
    requires
        is_best_home(homes, index),
    ensures
        homes[index].residents < HOUSING_CAPACITY,
        forall|j: int|
            0 <= j < homes.len() && (#[trigger] homes[j]).residents < HOUSING_CAPACITY ==> homes[index].residents
                <= homes[j].residents && (homes[index].residents == homes[j].residents ==> homes[index].distance_key
                <= homes[j].distance_key),
{
    assert forall|j: int|
        0 <= j < homes.len() && (#[trigger] homes[j]).residents < HOUSING_CAPACITY implies homes[index].residents
            <= homes[j].residents && (homes[index].residents == homes[j].residents ==> homes[index].distance_key
            <= homes[j].distance_key) by {
        assert(home_has_room(homes[j]));
    }
}

/// Picks the home for a colonist: houses are balanced before distance counts.
pub fn best_home_candidate(homes: &Vec<HomeSnapshot>) -> (best: Option<usize>)
    ensures
        match best {
            Some(index) => is_best_home(homes@, index as int),
            None => forall|j: int| 0 <= j < homes@.len() ==> !home_has_room(#[trigger] homes@[j]),
        },
{
    let mut best: Option<usize> = None;
    let mut index: usize = 0;
    while index < homes.len()
        invariant
            0 <= index <= homes@.len(),
            match best {
                Some(b) => b < index && is_best_home(homes@.take(index as int), b as int),
                None => forall|j: int| 0 <= j < index ==> !home_has_room(#[trigger] homes@[j]),
            },
        decreases homes@.len() - index,
    {
        let home = homes[index];
        let ghost seen = homes@.take(index + 1);
        assert(seen[index as int] == home);
        assert forall|j: int| 0 <= j < index implies seen[j] == homes@.take(index as int)[j] by {}
        if home.residents < HOUSING_CAPACITY {
            match best {
                Some(b) => {
                    let current = homes[b];
                    assert(current == homes@.take(index as int)[b as int]);
                    if home.residents < current.residents || (home.residents == current.residents
                        && home.distance_key < current.distance_key) {
                        best = Some(index);
                    }
                },
                None => {
                    best = Some(index);
                },
            }
        }
        index = index + 1;
    }
    assert(homes@.take(index as int) =~= homes@);
    best
}

/// Whether some listed house is `home`.
pub open spec fn lists_home(homes: Seq<HomeSnapshot>, home: u64) -> bool {
    exists|i: int| 0 <= i < homes.len() && (#[trigger] homes[i]).home == home
}

/// The colonist lives in a house that is still listed.
pub open spec fn keeps_home(homes: Seq<HomeSnapshot>, home: Option<u64>) -> bool {
    match home {
        Some(current) => lists_home(homes, current),
        None => false,
    }
}

/// Finds a home for `colonist`, who lives in `home` if anywhere. A colonist whose
/// home is still listed keeps it. Otherwise the best house with room (see
/// [`best_home_candidate`]) takes the colonist in, and its resident count goes up.
/// `housings[i]` holds the residents of `homes[i]`. Returns the colonist's home.
pub fn settle_colonist(
    colonist: u64,
    home: Option<u64>,
    homes: &mut Vec<HomeSnapshot>,
    housings: &mut Vec<Housing>,
) -> (settled: Option<u64>)
    requires
        old(homes)@.len() == old(housings)@.len(),
        forall|i: int| 0 <= i < old(homes)@.len() ==> (#[trigger] old(homes)@[i]).residents < usize::MAX,
    ensures
        final(homes)@.len() == old(homes)@.len(),
        final(housings)@.len() == old(housings)@.len(),
        keeps_home(old(homes)@, home) ==> {
            &&& settled == home
            &&& final(homes)@ == old(homes)@
            &&& final(housings)@ == old(housings)@
        },
        !keeps_home(old(homes)@, home) ==> {
                &&& (forall|j: int| 0 <= j < old(homes)@.len() ==> !home_has_room(#[trigger] old(homes)@[j]))
                    ==> settled is None && final(homes)@ == old(homes)@ && final(housings)@ == old(
                    housings,
                )@
                &&& forall|index: int|
                    is_best_home(old(homes)@, index) ==> {
                        let added = !old(housings)@[index].residents@.contains(colonist)
                            && old(housings)@[index].residents@.len() < HOUSING_CAPACITY;
                        &&& final(housings)@[index].residents@ == (if added {
                            old(housings)@[index].residents@.push(colonist)
                        } else {
                            old(housings)@[index].residents@
                        })
                        &&& settled == (if added {
                            Some(old(homes)@[index].home)
                        } else {
                            None
                        })
                        &&& final(homes)@[index].residents == (if added {
                            old(homes)@[index].residents + 1
                        } else {
                            old(homes)@[index].residents as int
                        })
                        &&& forall|j: int|
                            0 <= j < old(homes)@.len() && j != index ==> (#[trigger] final(homes)@[j])
                                == old(homes)@[j] && final(housings)@[j] == old(housings)@[j]
                        &&& final(homes)@[index].home == old(homes)@[index].home
                        &&& final(homes)@[index].distance_key == old(homes)@[index].distance_key
                    }
        },
{
    if let Some(current) = home {
        let mut index: usize = 0;
        while index < homes.len()
            invariant
                0 <= index <= homes@.len(),
                homes@ == old(homes)@,
                housings@ == old(housings)@,
                home == Some(current),
                forall|j: int| 0 <= j < index ==> (#[trigger] homes@[j]).home != current,
            decreases homes@.len() - index,
        {
            if homes[index].home == current {
                assert(lists_home(homes@, current));
                assert(keeps_home(old(homes)@, home));
                return home;
            }
            index = index + 1;
        }
    }
    let best = best_home_candidate(homes);
    match best {
        None => None,
        Some(index) => {
            proof {
                assert forall|other: int| is_best_home(homes@, other) implies other == index by {
                    if other < index {
                        assert(home_before(homes@[other], homes@[index as int]));
                    } else if other > index {
                        assert(home_before(homes@[index as int], homes@[other]));
                    }
                }
            }
            let ghost before = housings@;
            let mut housing = housings.remove(index);
            let added = housing.add_resident(colonist);
            housings.insert(index, housing);
            proof {
                assert forall|j: int| 0 <= j < before.len() && j != index implies housings@[j] == before[j] by {
                    if j < index {
                        assert(housings@[j] == before[j]);
                    } else {
                        assert(housings@[j] == before[j]);
                    }
                }
            }
            if added {
                let mut snapshot = homes[index];
                snapshot.residents = snapshot.residents + 1;
                homes.set(index, snapshot);
                Some(snapshot.home)
            } else {
                None
            }
        },
    }
}

/// Food a household still wants in its pantry: four per resident, as far as the
/// pantry holds it.
pub open spec fn spec_home_food_need(residents: usize, home: Inventory) -> int {
    let room = home@.max_addable(ResourceKind::Food);
    let held = home@.amount(ResourceKind::Food);
    let target = min_int(residents * HOME_FOOD_PER_RESIDENT as int, room + held);
    min_int(target - held, room)
}

pub fn home_food_need(residents: usize, home: &Inventory) -> (need: i32)
    requires
        home@.fits(),
        residents * HOME_FOOD_PER_RESIDENT <= i32::MAX,
        home@.max_addable(ResourceKind::Food) + home@.amount(ResourceKind::Food) <= i32::MAX,
        home@.amount(ResourceKind::Food) >= 0,
    ensures
        need == spec_home_food_need(residents, *home),
{
    let room = home.max_addable(ResourceKind::Food);
    let held = home.amount(ResourceKind::Food);
    let wanted = (residents as i32) * HOME_FOOD_PER_RESIDENT;
    let target = if wanted < room + held {
        wanted
    } else {
        room + held
    };
    let short = target - held;
    if short < room {
        short
    } else {
        room
    }
}

/// The colonist's own pantry, when it still holds food: the first place to eat.
pub fn home_pantry(stores: &Vec<Store>, home: u64) -> (pantry: Option<usize>)
    ensures
        match pantry {
            Some(index) => first_store_of(stores@, home, index as int)
                && stores@[index as int].inventory@.amount(ResourceKind::Food) > 0,
            None => forall|index: int|
                first_store_of(stores@, home, index) ==> stores@[index].inventory@.amount(
                    ResourceKind::Food,
                ) <= 0,
        },
{
    let mut index: usize = 0;
    while index < stores.len()
        invariant
            0 <= index <= stores@.len(),
            forall|j: int| 0 <= j < index ==> (#[trigger] stores@[j]).entity != home,
        decreases stores@.len() - index,
    {
        if stores[index].entity == home {
            if stores[index].inventory.amount(ResourceKind::Food) > 0 {
                return Some(index);
            }
            return None;
        }
        index = index + 1;
    }
    None
}

/// A public store with food to eat.
pub open spec fn serves_meals(store: Store) -> bool {
    store.public && store.inventory@.amount(ResourceKind::Food) > 0
}

/// Positions of the public stores that hold food, in list order.
pub open spec fn meal_pool(stores: Seq<Store>) -> Seq<usize>
    decreases stores.len(),
{
    if stores.len() == 0 {
        Seq::empty()
    } else {
        let rest = meal_pool(stores.drop_last());
        if serves_meals(stores.last()) {
            rest.push((stores.len() - 1) as usize)
        } else {
            rest
        }
    }
}

/// Positions of the public stores that hold food, nearest first.
pub fn public_meal_candidates(stores: &Vec<Store>) -> (order: Vec<usize>)
    ensures
        is_sorted_by_keys(meal_pool(stores@), store_keys(stores@, meal_pool(stores@)), order@),
{
    let mut pool: Vec<usize> = Vec::new();
    let mut keys: Vec<u64> = Vec::new();
    let mut index: usize = 0;
    assert(stores@.take(0) =~= Seq::<Store>::empty());
    while index < stores.len()
        invariant
            0 <= index <= stores@.len(),
            pool@ == meal_pool(stores@.take(index as int)),
            keys@ =~= store_keys(stores@, pool@),
            forall|k: int| 0 <= k < pool@.len() ==> #[trigger] pool@[k] < index,
        decreases stores@.len() - index,
    {
        let ghost seen = stores@.take(index + 1);
        assert(seen.drop_last() =~= stores@.take(index as int));
        assert(seen.last() == stores@[index as int]);
        let store = stores[index];
        if store.public && store.inventory.amount(ResourceKind::Food) > 0 {
            pool.push(index);
            keys.push(store.distance_key as u64);
        }
        index = index + 1;
    }
    assert(stores@.take(index as int) =~= stores@);
    sort_by_keys(&pool, &keys)
}

/// A blueprint as seen from a colonist; `distance_key` orders sites by distance.
#[derive(Clone, Copy, Debug)]
pub struct BlueprintSite {
    pub entity: u64,
    pub blueprint: Blueprint,
    pub distance_key: u32,
}

/// A blueprint with all its wood and work still to do.
pub open spec fn ready_to_build(site: BlueprintSite) -> bool {
    site.blueprint.spec_has_materials() && site.blueprint.progress_micros
        < site.blueprint.build_micros
}

pub open spec fn build_pool(sites: Seq<BlueprintSite>) -> Seq<usize>
    decreases sites.len(),
{
    if sites.len() == 0 {
        Seq::empty()
    } else {
        let rest = build_pool(sites.drop_last());
        if ready_to_build(sites.last()) {
            rest.push((sites.len() - 1) as usize)
        } else {
            rest
        }
    }
}

pub open spec fn site_keys(sites: Seq<BlueprintSite>, pool: Seq<usize>) -> Seq<u64> {
    pool.map_values(|index: usize| sites[index as int].distance_key as u64)
}

/// Positions of the blueprints ready for a builder, nearest first.
pub fn build_candidates(sites: &Vec<BlueprintSite>) -> (order: Vec<usize>)
    requires
        forall|i: int| 0 <= i < sites@.len() ==> (#[trigger] sites@[i]).blueprint.fits(),
    ensures
        is_sorted_by_keys(build_pool(sites@), site_keys(sites@, build_pool(sites@)), order@),
{
    let mut pool: Vec<usize> = Vec::new();
    let mut keys: Vec<u64> = Vec::new();
    let mut index: usize = 0;
    assert(sites@.take(0) =~= Seq::<BlueprintSite>::empty());
    while index < sites.len()
        invariant
            0 <= index <= sites@.len(),
            forall|i: int| 0 <= i < sites@.len() ==> (#[trigger] sites@[i]).blueprint.fits(),
            pool@ == build_pool(sites@.take(index as int)),
            keys@ =~= site_keys(sites@, pool@),
        decreases sites@.len() - index,
    {
        let ghost seen = sites@.take(index + 1);
        assert(seen.drop_last() =~= sites@.take(index as int));
        assert(seen.last() == sites@[index as int]);
        let site = sites[index];
        assert(sites@[index as int].blueprint.fits());
        if site.blueprint.has_materials() && site.blueprint.progress_micros
            < site.blueprint.build_micros {
            pool.push(index);
            keys.push(site.distance_key as u64);
        }
        index = index + 1;
    }
    assert(sites@.take(index as int) =~= sites@);
    sort_by_keys(&pool, &keys)
}

/// A trip to fetch food for the colonist's home: `store` is the source's position in
/// the list looked at.
#[derive(Clone, Copy, Debug, PartialEq, Eq, Structural)]
pub struct RestockCandidate {
    pub source: u64,
    pub store: usize,
    pub amount: i32,
}

/// Food one trip fetches from `store`: a load, no more than the home needs and
/// no more than the store holds.
pub open spec fn spec_restock_amount(carry_capacity: i32, need: i32, store: Store) -> int {
    min_int(
        min_int(spec_carried_amount(ResourceKind::Food, carry_capacity), need as int),
        store.inventory@.amount(ResourceKind::Food),
    )
}

pub open spec fn restock_pool(stores: Seq<Store>, carry_capacity: i32, need: i32) -> Seq<
    RestockCandidate,
>
    decreases stores.len(),
{
    if stores.len() == 0 {
        Seq::empty()
    } else {
        let rest = restock_pool(stores.drop_last(), carry_capacity, need);
        let store = stores.last();
        let amount = spec_restock_amount(carry_capacity, need, store);
        if store.public && amount > 0 {
            rest.push(
                RestockCandidate {
                    source: store.entity,
                    store: (stores.len() - 1) as usize,
                    amount: amount as i32,
                },
            )
        } else {
            rest
        }
    }
}

pub open spec fn restock_keys(stores: Seq<Store>, pool: Seq<RestockCandidate>) -> Seq<u64> {
    pool.map_values(|candidate: RestockCandidate| stores[candidate.store as int].distance_key as u64)
}

proof fn lemma_restock_pool_lists_stocked_stores(stores: Seq<Store>, carry_capacity: i32, need: i32)
    requires
        stores.len() <= usize::MAX,
    ensures
        ({
            let pool = restock_pool(stores, carry_capacity, need);
            &&& pool.len() <= stores.len()
            &&& forall|k: int|
                0 <= k < pool.len() ==> {
                    let store = stores[(#[trigger] pool[k]).store as int];
                    &&& pool[k].store < stores.len()
                    &&& store.public
                    &&& pool[k].source == store.entity
                    &&& pool[k].amount == spec_restock_amount(carry_capacity, need, store)
                    &&& pool[k].amount > 0
                }
            &&& forall|a: int, b: int|
                0 <= a < b < pool.len() ==> (#[trigger] pool[a]).store < (#[trigger] pool[b]).store
            &&& forall|i: int|
                0 <= i < stores.len() && (#[trigger] stores[i]).public && spec_restock_amount(
                    carry_capacity,
                    need,
                    stores[i],
                ) > 0 ==> exists|k: int| 0 <= k < pool.len() && pool[k].store == i
        }),
    decreases stores.len(),
{
    if stores.len() > 0 {
        let shorter = stores.drop_last();
        lemma_restock_pool_lists_stocked_stores(shorter, carry_capacity, need);
        let rest = restock_pool(shorter, carry_capacity, need);
        let pool = restock_pool(stores, carry_capacity, need);
        assert forall|k: int| 0 <= k < rest.len() implies pool[k] == rest[k] && shorter[rest[k].store as int]
            == stores[rest[k].store as int] by {}
        assert forall|i: int|
            0 <= i < stores.len() && (#[trigger] stores[i]).public && spec_restock_amount(
                carry_capacity,
                need,
                stores[i],
            ) > 0 implies exists|k: int| 0 <= k < pool.len() && pool[k].store == i by {
            if i < stores.len() - 1 {
                assert(shorter[i] == stores[i]);
                let k = choose|k: int| 0 <= k < rest.len() && rest[k].store == i;
                assert(pool[k] == rest[k]);
            } else {
                assert(pool[rest.len() as int].store == i);
            }
        }
        assert forall|a: int, b: int| 0 <= a < b < pool.len() implies (#[trigger] pool[a]).store < (
        #[trigger] pool[b]).store by {
            assert(pool[a] == rest[a]);
            if b < rest.len() {
                assert(pool[b] == rest[b]);
            }
        }
    }
}

/// Food for the home is fetched from every public store that has some to give and
/// from no other, each once, nearest first (ties in list order); each trip takes a
/// load, but no more than the home needs or the store holds.
pub proof fn lemma_restocks_come_from_public_stores_with_food(
    stores: Seq<Store>,
    carry_capacity: i32,
    need: i32,
    order: Seq<RestockCandidate>,
)
    requires
        stores.len() <= usize::MAX,
        is_sorted_by_keys(
            restock_pool(stores, carry_capacity, need),
            restock_keys(stores, restock_pool(stores, carry_capacity, need)),
            order,
        ),
    ensures
        forall|k: int|
            0 <= k < order.len() ==> {
                let store = stores[(#[trigger] order[k]).store as int];
                let held = store.inventory@.amount(ResourceKind::Food);
                &&& order[k].store < stores.len()
                &&& store.public
                &&& order[k].source == store.entity
                &&& 0 < order[k].amount <= spec_carried_amount(ResourceKind::Food, carry_capacity)
                &&& order[k].amount <= need
                &&& order[k].amount <= held
                &&& (order[k].amount == spec_carried_amount(ResourceKind::Food, carry_capacity) || order[k].amount
                    == need || order[k].amount == held)
            },
        forall|i: int|
            0 <= i < stores.len() && (#[trigger] stores[i]).public && stores[i].inventory@.amount(
                ResourceKind::Food,
            ) > 0 && need > 0 ==> exists|k: int| 0 <= k < order.len() && order[k].store == i,
        forall|a: int, b: int|
            0 <= a < b < order.len() ==> stores[(#[trigger] order[a]).store as int].distance_key < stores[(
            #[trigger] order[b]).store as int].distance_key || (stores[order[a].store as int].distance_key
                == stores[order[b].store as int].distance_key && order[a].store < order[b].store),
{
    let pool = restock_pool(stores, carry_capacity, need);
    let keys = restock_keys(stores, pool);
    lemma_restock_pool_lists_stocked_stores(stores, carry_capacity, need);
    let order_of = choose|positions: Seq<usize>|
        #![trigger is_key_order(keys, positions)]
        is_key_order(keys, positions) && order.len() == positions.len() && forall|k: int|
            0 <= k < order.len() ==> order[k] == pool[#[trigger] positions[k] as int];
    lemma_key_order_is_permutation(keys, order_of);
    assert(spec_carried_amount(ResourceKind::Food, carry_capacity) >= 1);
    assert forall|k: int| 0 <= k < order.len() implies {
        let store = stores[(#[trigger] order[k]).store as int];
        let held = store.inventory@.amount(ResourceKind::Food);
        &&& order[k].store < stores.len()
        &&& store.public
        &&& order[k].source == store.entity
        &&& 0 < order[k].amount <= spec_carried_amount(ResourceKind::Food, carry_capacity)
        &&& order[k].amount <= need
        &&& order[k].amount <= held
        &&& (order[k].amount == spec_carried_amount(ResourceKind::Food, carry_capacity) || order[k].amount
            == need || order[k].amount == held)
    } by {
        assert(order_of[k] < keys.len());
        assert(order[k] == pool[order_of[k] as int]);
    }
    assert forall|i: int|
        0 <= i < stores.len() && (#[trigger] stores[i]).public && stores[i].inventory@.amount(
            ResourceKind::Food,
        ) > 0 && need > 0 implies exists|k: int| 0 <= k < order.len() && order[k].store == i by {
        assert(spec_restock_amount(carry_capacity, need, stores[i]) > 0);
        let p = choose|p: int| 0 <= p < pool.len() && pool[p].store == i;
        assert(p < keys.len());
        assert(order_of.contains(p as usize));
        let k = choose|k: int| 0 <= k < order_of.len() && order_of[k] == p as usize;
        assert(order[k] == pool[order_of[k] as int]);
        assert(order[k].store == i);
    }
    assert forall|a: int, b: int| 0 <= a < b < order.len() implies stores[(#[trigger] order[a]).store as int].distance_key
        < stores[(#[trigger] order[b]).store as int].distance_key || (stores[order[a].store as int].distance_key
        == stores[order[b].store as int].distance_key && order[a].store < order[b].store) by {
        let pa = order_of[a] as int;
        let pb = order_of[b] as int;
        assert(pa < keys.len() && pb < keys.len());
        assert(order[a] == pool[pa]);
        assert(order[b] == pool[pb]);
        assert(comes_before(keys[pa], pa, keys[pb], pb));
        if pa < pb {
            assert(pool[pa].store < pool[pb].store);
        } else if pb < pa {
            assert(pool[pb].store < pool[pa].store);
        }
    }
}

/// Public stores to fetch food from for a home that needs `need`, nearest first.
pub fn home_restock_candidates(stores: &Vec<Store>, carry_capacity: i32, need: i32) -> (order:
    Vec<RestockCandidate>)
    ensures
        is_sorted_by_keys(
            restock_pool(stores@, carry_capacity, need),
            restock_keys(stores@, restock_pool(stores@, carry_capacity, need)),
            order@,
        ),
{
    let mut pool: Vec<RestockCandidate> = Vec::new();
    let mut keys: Vec<u64> = Vec::new();
    let carried = carried_amount(ResourceKind::Food, carry_capacity);
    let mut index: usize = 0;
    assert(stores@.take(0) =~= Seq::<Store>::empty());
    while index < stores.len()
        invariant
            0 <= index <= stores@.len(),
            carried == spec_carried_amount(ResourceKind::Food, carry_capacity),
            pool@ == restock_pool(stores@.take(index as int), carry_capacity, need),
            keys@ =~= restock_keys(stores@, pool@),
            forall|k: int| 0 <= k < pool@.len() ==> (#[trigger] pool@[k]).store < index,
        decreases stores@.len() - index,
    {
        let ghost seen = stores@.take(index + 1);
        assert(seen.drop_last() =~= stores@.take(index as int));
        assert(seen.last() == stores@[index as int]);
        let store = stores[index];
        let smaller = if carried < need {
            carried
        } else {
            need
        };
        let held = store.inventory.amount(ResourceKind::Food);
        let amount = if smaller < held {
            smaller
        } else {
            held
        };
        if store.public && amount > 0 {
            pool.push(RestockCandidate { source: store.entity, store: index, amount });
            keys.push(store.distance_key as u64);
        }
        index = index + 1;
    }
    assert(stores@.take(index as int) =~= stores@);
    sort_by_keys(&pool, &keys)
}

/// A public store, other than `exclude`, with room for `kind`.
pub open spec fn takes_deposit(store: Store, kind: ResourceKind, exclude: Option<u64>) -> bool {
    store.public && exclude != Some(store.entity) && store.inventory@.max_addable(kind) > 0
}

pub open spec fn deposit_pool(stores: Seq<Store>, kind: ResourceKind, exclude: Option<u64>) -> Seq<
    usize,
>
    decreases stores.len(),
{
    if stores.len() == 0 {
        Seq::empty()
    } else {
        let rest = deposit_pool(stores.drop_last(), kind, exclude);
        if takes_deposit(stores.last(), kind, exclude) {
            rest.push((stores.len() - 1) as usize)
        } else {
            rest
        }
    }
}

/// Stores that take the whole load come first, then by distance.
pub open spec fn deposit_key(store: Store, kind: ResourceKind, amount: i32) -> u64 {
    spec_pair_key(
        if store.inventory@.max_addable(kind) >= amount {
            0
        } else {
            1
        },
        store.distance_key,
    )
}

pub open spec fn deposit_keys(stores: Seq<Store>, pool: Seq<usize>, kind: ResourceKind, amount: i32) -> Seq<u64> {
    pool.map_values(|index: usize| deposit_key(stores[index as int], kind, amount))
}

/// Where to deposit `amount` of `kind`: stores that take it all first, nearest
/// first among equals; `exclude` is a store just found full.
pub fn deposit_candidates(
    stores: &Vec<Store>,
    kind: ResourceKind,
    amount: i32,
    exclude: Option<u64>,
) -> (order: Vec<usize>)
    requires
        stores_fit(stores@),
    ensures
        is_sorted_by_keys(
            deposit_pool(stores@, kind, exclude),
            deposit_keys(stores@, deposit_pool(stores@, kind, exclude), kind, amount),
            order@,
        ),
{
    let mut pool: Vec<usize> = Vec::new();
    let mut keys: Vec<u64> = Vec::new();
    let mut index: usize = 0;
    assert(stores@.take(0) =~= Seq::<Store>::empty());
    while index < stores.len()
        invariant
            0 <= index <= stores@.len(),
            stores_fit(stores@),
            pool@ == deposit_pool(stores@.take(index as int), kind, exclude),
            keys@ =~= deposit_keys(stores@, pool@, kind, amount),
        decreases stores@.len() - index,
    {
        let ghost seen = stores@.take(index + 1);
        assert(seen.drop_last() =~= stores@.take(index as int));
        assert(seen.last() == stores@[index as int]);
        let store = stores[index];
        assert(stores@[index as int].inventory@.fits());
        let room = store.inventory.max_addable(kind);
        let excluded = match exclude {
            Some(entity) => entity == store.entity,
            None => false,
        };
        if store.public && !excluded && room > 0 {
            pool.push(index);
            let rank: u32 = if room >= amount {
                0
            } else {
                1
            };
            keys.push(pair_key(rank, store.distance_key));
        }
        index = index + 1;
    }
    assert(stores@.take(index as int) =~= stores@);
    sort_by_keys(&pool, &keys)
}

/// A wood run for a blueprint: fetch `amount` from the store at `store` and carry it
/// to the blueprint at `site`. `remaining` is the wood the blueprint still lacks
/// beyond what others already bring; `trip_key` orders trips by their length.
#[derive(Clone, Copy, Debug, PartialEq, Eq, Structural)]
pub struct DeliveryCandidate {
    pub blueprint: u64,
    pub site: usize,
    pub source: u64,
    pub store: usize,
    pub amount: i32,
    pub remaining: i32,
    pub trip_key: u32,
}

/// Wood a blueprint still lacks beyond what other colonists already bring.
pub open spec fn delivery_remaining(site: BlueprintSite, model: ReservationsModel) -> int {
    site.blueprint.spec_needs_wood() - model.delivery_total(site.entity)
}

/// Wood one run brings: a load, no more than still lacking.
pub open spec fn delivery_amount(site: BlueprintSite, carry_capacity: i32, model: ReservationsModel) -> int {
    min_int(spec_carried_amount(ResourceKind::Wood, carry_capacity), delivery_remaining(site, model))
}

/// The runs to the blueprint at `site_index` from each public store with enough wood.
pub open spec fn site_deliveries(
    site_index: int,
    site: BlueprintSite,
    stores: Seq<Store>,
    trips: Seq<u32>,
    carry_capacity: i32,
    model: ReservationsModel,
) -> Seq<DeliveryCandidate>
    decreases stores.len(),
{
    if stores.len() == 0 {
        Seq::empty()
    } else {
        let rest = site_deliveries(site_index, site, stores.drop_last(), trips, carry_capacity, model);
        let store = stores.last();
        let amount = delivery_amount(site, carry_capacity, model);
        if store.public && store.inventory@.amount(ResourceKind::Wood) >= amount {
            rest.push(
                DeliveryCandidate {
                    blueprint: site.entity,
                    site: site_index as usize,
                    source: store.entity,
                    store: (stores.len() - 1) as usize,
                    amount: amount as i32,
                    remaining: delivery_remaining(site, model) as i32,
                    trip_key: trips[stores.len() - 1],
                },
            )
        } else {
            rest
        }
    }
}

/// Every wood run worth making, blueprint by blueprint, store by store.
pub open spec fn delivery_pool(
    sites: Seq<BlueprintSite>,
    stores: Seq<Store>,
    trips: Seq<Vec<u32>>,
    carry_capacity: i32,
    model: ReservationsModel,
) -> Seq<DeliveryCandidate>
    decreases sites.len(),
{
    if sites.len() == 0 {
        Seq::empty()
    } else {
        let rest = delivery_pool(sites.drop_last(), stores, trips, carry_capacity, model);
        let site = sites.last();
        if delivery_remaining(site, model) > 0 {
            rest + site_deliveries(
                sites.len() - 1,
                site,
                stores,
                trips[sites.len() - 1]@,
                carry_capacity,
                model,
            )
        } else {
            rest
        }
    }
}

/// A wood run is sound: it fetches from a public store holding enough wood for
/// a blueprint that still lacks wood beyond what others bring, and brings a load
/// but no more than still lacking.
pub open spec fn sound_delivery(
    candidate: DeliveryCandidate,
    sites: Seq<BlueprintSite>,
    stores: Seq<Store>,
    trips: Seq<Vec<u32>>,
    carry_capacity: i32,
    model: ReservationsModel,
) -> bool {
    let site = sites[candidate.site as int];
    let store = stores[candidate.store as int];
    let lacking = site.blueprint.spec_needs_wood() - model.delivery_total(site.entity);
    &&& candidate.site < sites.len()
    &&& candidate.store < stores.len()
    &&& candidate.blueprint == site.entity
    &&& candidate.source == store.entity
    &&& store.public
    &&& lacking > 0
    &&& candidate.remaining == lacking
    &&& candidate.amount == min_int(spec_carried_amount(ResourceKind::Wood, carry_capacity), lacking)
    &&& store.inventory@.amount(ResourceKind::Wood) >= candidate.amount
    &&& candidate.trip_key == trips[candidate.site as int]@[candidate.store as int]
}

proof fn lemma_site_deliveries_sound(
    site_index: int,
    sites: Seq<BlueprintSite>,
    stores: Seq<Store>,
    all_stores: Seq<Store>,
    trips: Seq<Vec<u32>>,
    carry_capacity: i32,
    model: ReservationsModel,
)
    requires
        0 <= site_index < sites.len(),
        stores.len() <= all_stores.len(),
        all_stores.len() <= usize::MAX,
        forall|i: int| 0 <= i < stores.len() ==> stores[i] == all_stores[i],
        delivery_remaining(sites[site_index], model) > 0,
        site_index <= usize::MAX,
        sites[site_index].blueprint.fits(),
        model.wf(),
    ensures
        forall|k: int|
            0 <= k < site_deliveries(
                site_index,
                sites[site_index],
                stores,
                trips[site_index]@,
                carry_capacity,
                model,
            ).len() ==> sound_delivery(
                #[trigger] site_deliveries(
                    site_index,
                    sites[site_index],
                    stores,
                    trips[site_index]@,
                    carry_capacity,
                    model,
                )[k],
                sites,
                all_stores,
                trips,
                carry_capacity,
                model,
            ),
    decreases stores.len(),
{
    if stores.len() > 0 {
        let shorter = stores.drop_last();
        lemma_site_deliveries_sound(site_index, sites, shorter, all_stores, trips, carry_capacity, model);
        let row = trips[site_index]@;
        let site = sites[site_index];
        let rest = site_deliveries(site_index, site, shorter, row, carry_capacity, model);
        let list = site_deliveries(site_index, site, stores, row, carry_capacity, model);
        let last = stores.len() - 1;
        assert(stores.last() == all_stores[last]);
        lemma_totals_nonnegative(model, site.entity);
        assert forall|k: int| 0 <= k < list.len() implies sound_delivery(
            #[trigger] list[k],
            sites,
            all_stores,
            trips,
            carry_capacity,
            model,
        ) by {
            if k < rest.len() {
                assert(list[k] == rest[k]);
            } else {
                assert(list[k].store == last);
                assert(list[k].site == site_index);
                assert(list[k].trip_key == row[last]);
            }
        }
    }
}

proof fn lemma_delivery_pool_sound(
    sites: Seq<BlueprintSite>,
    stores: Seq<Store>,
    trips: Seq<Vec<u32>>,
    carry_capacity: i32,
    model: ReservationsModel,
)
    requires
        sites.len() <= usize::MAX,
        stores.len() <= usize::MAX,
        forall|i: int| 0 <= i < sites.len() ==> (#[trigger] sites[i]).blueprint.fits(),
        model.wf(),
    ensures
        forall|k: int|
            0 <= k < delivery_pool(sites, stores, trips, carry_capacity, model).len() ==> sound_delivery(
                #[trigger] delivery_pool(sites, stores, trips, carry_capacity, model)[k],
                sites,
                stores,
                trips,
                carry_capacity,
                model,
            ),
    decreases sites.len(),
{
    if sites.len() > 0 {
        let shorter = sites.drop_last();
        assert forall|i: int| 0 <= i < shorter.len() implies (#[trigger] shorter[i]).blueprint.fits() by {
            assert(shorter[i] == sites[i]);
        }
        lemma_delivery_pool_sound(shorter, stores, trips, carry_capacity, model);
        let rest = delivery_pool(shorter, stores, trips, carry_capacity, model);
        let last = sites.len() - 1;
        if delivery_remaining(sites[last], model) > 0 {
            lemma_site_deliveries_sound(last, sites, stores, stores, trips, carry_capacity, model);
            let added = site_deliveries(last, sites[last], stores, trips[last]@, carry_capacity, model);
            let pool = delivery_pool(sites, stores, trips, carry_capacity, model);
            assert(pool == rest + added);
            assert forall|k: int| 0 <= k < pool.len() implies sound_delivery(
                #[trigger] pool[k],
                sites,
                stores,
                trips,
                carry_capacity,
                model,
            ) by {
                if k < rest.len() {
                    assert(pool[k] == rest[k]);
                    assert(sound_delivery(rest[k], shorter, stores, trips, carry_capacity, model));
                    assert(shorter[rest[k].site as int] == sites[rest[k].site as int]);
                } else {
                    assert(pool[k] == added[k - rest.len()]);
                }
            }
        } else {
            assert forall|k: int| 0 <= k < rest.len() implies sound_delivery(
                #[trigger] rest[k],
                sites,
                stores,
                trips,
                carry_capacity,
                model,
            ) by {
                assert(sound_delivery(rest[k], shorter, stores, trips, carry_capacity, model));
                assert(shorter[rest[k].site as int] == sites[rest[k].site as int]);
            }
        }
    }
}

/// Every wood run offered is sound (see `sound_delivery`), and runs come for the
/// blueprints lacking the most wood first, the shortest trip first among those.
pub proof fn lemma_wood_runs_go_where_wood_is_lacking(
    sites: Seq<BlueprintSite>,
    stores: Seq<Store>,
    trips: Seq<Vec<u32>>,
    carry_capacity: i32,
    model: ReservationsModel,
    order: Seq<DeliveryCandidate>,
)
    requires
        sites.len() <= usize::MAX,
        stores.len() <= usize::MAX,
        model.wf(),
        delivery_inputs_fit(sites, stores, trips, model),
        is_sorted_by_keys(
            delivery_pool(sites, stores, trips, carry_capacity, model),
            delivery_keys(delivery_pool(sites, stores, trips, carry_capacity, model)),
            order,
        ),
    ensures
        forall|k: int|
            0 <= k < order.len() ==> sound_delivery(#[trigger] order[k], sites, stores, trips, carry_capacity, model),
        forall|a: int, b: int|
            0 <= a < b < order.len() ==> (#[trigger] order[a]).remaining > (#[trigger] order[b]).remaining || (
            order[a].remaining == order[b].remaining && order[a].trip_key <= order[b].trip_key),
{
    let pool = delivery_pool(sites, stores, trips, carry_capacity, model);
    let keys = delivery_keys(pool);
    lemma_delivery_pool_sound(sites, stores, trips, carry_capacity, model);
    let positions = choose|positions: Seq<usize>|
        #![trigger is_key_order(keys, positions)]
        is_key_order(keys, positions) && order.len() == positions.len() && forall|k: int|
            0 <= k < order.len() ==> order[k] == pool[#[trigger] positions[k] as int];
    assert forall|k: int| 0 <= k < order.len() implies sound_delivery(
        #[trigger] order[k],
        sites,
        stores,
        trips,
        carry_capacity,
        model,
    ) by {
        assert(positions[k] < keys.len());
        assert(order[k] == pool[positions[k] as int]);
    }
    assert forall|a: int, b: int| 0 <= a < b < order.len() implies (#[trigger] order[a]).remaining > (
    #[trigger] order[b]).remaining || (order[a].remaining == order[b].remaining && order[a].trip_key
        <= order[b].trip_key) by {
        let pa = positions[a] as int;
        let pb = positions[b] as int;
        assert(pa < keys.len() && pb < keys.len());
        assert(order[a] == pool[pa]);
        assert(order[b] == pool[pb]);
        let first = pool[pa];
        let second = pool[pb];
        assert(sound_delivery(first, sites, stores, trips, carry_capacity, model));
        assert(sound_delivery(second, sites, stores, trips, carry_capacity, model));
        assert(sites[first.site as int].blueprint.fits());
        assert(sites[second.site as int].blueprint.fits());
        lemma_totals_nonnegative(model, sites[first.site as int].entity);
        lemma_totals_nonnegative(model, sites[second.site as int].entity);
        assert(comes_before(keys[pa], pa, keys[pb], pb));
        lemma_pair_key_order(
            (i32::MAX - first.remaining) as u32,
            first.trip_key,
            (i32::MAX - second.remaining) as u32,
            second.trip_key,
        );
    }
}

/// Blueprints lacking the most wood come first, then the shortest trips.
pub open spec fn delivery_key(candidate: DeliveryCandidate) -> u64 {
    spec_pair_key((i32::MAX - candidate.remaining) as u32, candidate.trip_key)
}

pub open spec fn delivery_keys(pool: Seq<DeliveryCandidate>) -> Seq<u64> {
    pool.map_values(|candidate: DeliveryCandidate| delivery_key(candidate))
}

/// The inputs of a delivery search line up: one row of trip keys per blueprint,
/// one key per store, and every blueprint's claims within `i32`.
pub open spec fn delivery_inputs_fit(
    sites: Seq<BlueprintSite>,
    stores: Seq<Store>,
    trips: Seq<Vec<u32>>,
    model: ReservationsModel,
) -> bool {
    &&& trips.len() == sites.len()
    &&& forall|i: int| 0 <= i < trips.len() ==> (#[trigger] trips[i])@.len() == stores.len()
    &&& forall|i: int|
        0 <= i < sites.len() ==> (#[trigger] sites[i]).blueprint.fits() && model.delivery_total(
            sites[i].entity,
        ) <= i32::MAX
}

/// Wood runs for blueprints that lack wood, from public stores holding a load.
/// `trip_keys[s][t]` orders the walk to store `t` and on to blueprint `s` by length.
pub fn material_delivery_candidates(
    sites: &Vec<BlueprintSite>,
    stores: &Vec<Store>,
    trip_keys: &Vec<Vec<u32>>,
    carry_capacity: i32,
    reservations: &AssignmentReservations,
) -> (order: Vec<DeliveryCandidate>)
    requires
        reservations@.wf(),
        delivery_inputs_fit(sites@, stores@, trip_keys@, reservations@),
    ensures
        is_sorted_by_keys(
            delivery_pool(sites@, stores@, trip_keys@, carry_capacity, reservations@),
            delivery_keys(delivery_pool(sites@, stores@, trip_keys@, carry_capacity, reservations@)),
            order@,
        ),
{
    let ghost model = reservations@;
    let mut pool: Vec<DeliveryCandidate> = Vec::new();
    let mut keys: Vec<u64> = Vec::new();
    let carried = carried_amount(ResourceKind::Wood, carry_capacity);
    let mut site_index: usize = 0;
    assert(sites@.take(0) =~= Seq::<BlueprintSite>::empty());
    while site_index < sites.len()
        invariant
            model == reservations@,
            model.wf(),
            delivery_inputs_fit(sites@, stores@, trip_keys@, model),
            carried == spec_carried_amount(ResourceKind::Wood, carry_capacity),
            0 <= site_index <= sites@.len(),
            pool@ == delivery_pool(
                sites@.take(site_index as int),
                stores@,
                trip_keys@,
                carry_capacity,
                model,
            ),
            keys@ =~= delivery_keys(pool@),
        decreases sites@.len() - site_index,
    {
        let ghost seen = sites@.take(site_index + 1);
        assert(seen.drop_last() =~= sites@.take(site_index as int));
        assert(seen.last() == sites@[site_index as int]);
        let site = sites[site_index];
        assert(sites@[site_index as int].blueprint.fits());
        let reserved = reservations.reserved_material_delivery(site.entity);
        proof {
            lemma_totals_nonnegative(model, site.entity);
        }
        let remaining = site.blueprint.needs_wood() - reserved;
        if remaining > 0 {
            let amount = if carried < remaining {
                carried
            } else {
                remaining
            };
            let row = &trip_keys[site_index];
            assert(row@.len() == stores@.len());
            let ghost before = pool@;
            let mut store_index: usize = 0;
            assert(stores@.take(0) =~= Seq::<Store>::empty());
            while store_index < stores.len()
                invariant
                    model == reservations@,
                    row@.len() == stores@.len(),
                    row == &trip_keys@[site_index as int],
                    0 <= site_index < sites@.len(),
                    site == sites@[site_index as int],
                    remaining == delivery_remaining(site, model),
                    remaining > 0,
                    amount == delivery_amount(site, carry_capacity, model),
                    0 <= store_index <= stores@.len(),
                    pool@ == before + site_deliveries(
                        site_index as int,
                        site,
                        stores@.take(store_index as int),
                        row@,
                        carry_capacity,
                        model,
                    ),
                    keys@ =~= delivery_keys(pool@),
                decreases stores@.len() - store_index,
            {
                let ghost looked = stores@.take(store_index + 1);
                assert(looked.drop_last() =~= stores@.take(store_index as int));
                assert(looked.last() == stores@[store_index as int]);
                let store = stores[store_index];
                if store.public && store.inventory.amount(ResourceKind::Wood) >= amount {
                    let candidate = DeliveryCandidate {
                        blueprint: site.entity,
                        site: site_index,
                        source: store.entity,
                        store: store_index,
                        amount,
                        remaining,
                        trip_key: row[store_index],
                    };
                    let ghost previous = pool@;
                    pool.push(candidate);
                    let rank: u32 = (i32::MAX - remaining) as u32;
                    keys.push(pair_key(rank, row[store_index]));
                    assert(pool@ =~= before + site_deliveries(
                        site_index as int,
                        site,
                        looked,
                        row@,
                        carry_capacity,
                        model,
                    )) by {
                        assert(previous.push(candidate) == pool@);
                    }
                } else {
                    assert(site_deliveries(site_index as int, site, looked, row@, carry_capacity, model)
                        == site_deliveries(site_index as int, site, stores@.take(store_index as int), row@, carry_capacity, model));
                }
                store_index = store_index + 1;
            }
            assert(stores@.take(store_index as int) =~= stores@);
        }
        site_index = site_index + 1;
    }
    assert(sites@.take(site_index as int) =~= sites@);
    sort_by_keys(&pool, &keys)
}

/// The jobs open to an idle colonist, each list best first: where to eat (the home
/// pantry, then public stores), wood runs, blueprints to build, food runs for the
/// home, and gather trips for wood and for food (empty when no workplace allows them).
#[derive(Clone, Debug)]
pub struct JobOptions {
    pub hungry: bool,
    pub pantry: Option<usize>,
    pub meals: Vec<usize>,
    pub deliveries: Vec<DeliveryCandidate>,
    pub builds: Vec<usize>,
    pub restocks: Vec<RestockCandidate>,
    pub wood_trips: Vec<GatherCandidateSnapshot>,
    pub food_trips: Vec<GatherCandidateSnapshot>,
}

/// The job an idle colonist takes.
#[derive(Clone, Copy, Debug, PartialEq, Eq, Structural)]
pub enum Job {
    /// Eat at the store at this position.
    Eat { store: usize },
    Deliver { run: DeliveryCandidate },
    /// Build the blueprint at this position.
    Build { site: usize },
    Restock { trip: RestockCandidate },
    Gather { kind: ResourceKind, trip: GatherCandidateSnapshot },
    Stay,
}

/// A hungry colonist eats first; then come wood runs, building, food for the home,
/// gathering wood and gathering food, in that order.
pub open spec fn spec_choose_job(options: JobOptions) -> Job {
    if options.hungry && options.pantry is Some {
        Job::Eat { store: options.pantry->Some_0 }
    } else if options.hungry && options.meals@.len() > 0 {
        Job::Eat { store: options.meals@[0] }
    } else if options.deliveries@.len() > 0 {
        Job::Deliver { run: options.deliveries@[0] }
    } else if options.builds@.len() > 0 {
        Job::Build { site: options.builds@[0] }
    } else if options.restocks@.len() > 0 {
        Job::Restock { trip: options.restocks@[0] }
    } else if options.wood_trips@.len() > 0 {
        Job::Gather { kind: ResourceKind::Wood, trip: options.wood_trips@[0] }
    } else if options.food_trips@.len() > 0 {
        Job::Gather { kind: ResourceKind::Food, trip: options.food_trips@[0] }
    } else {
        Job::Stay
    }
}

/// With nothing to eat on offer (no pantry with food, no public meal), hunger
/// changes nothing: a hungry colonist takes the job it would take when fed.
pub proof fn lemma_hunger_without_food_changes_nothing(options: JobOptions)
    requires
        options.pantry is None,
        options.meals@.len() == 0,
    ensures
        spec_choose_job(options) == spec_choose_job(JobOptions { hungry: false, ..options }),
{
}

/// A hungry colonist eats when it can, at home first: from its pantry when that
/// holds food, else at the nearest public store that serves meals.
pub proof fn lemma_hungry_colonists_eat_first(options: JobOptions)
    requires
        options.hungry,
    ensures
        options.pantry is Some ==> spec_choose_job(options) == (Job::Eat { store: options.pantry->Some_0 }),
        options.pantry is None && options.meals@.len() > 0 ==> spec_choose_job(options) == (Job::Eat {
            store: options.meals@[0],
        }),
{
}

/// A colonist eats only when hungry and offered food, and stays idle only when
/// it can neither eat nor take any work: no wood run, build, restock or gather
/// trip is on offer.
pub proof fn lemma_colonists_stay_only_without_offers(options: JobOptions)
    ensures
        spec_choose_job(options) is Eat ==> options.hungry && (options.pantry is Some || options.meals@.len()
            > 0),
        spec_choose_job(options) is Stay <==> !(options.hungry && (options.pantry is Some
            || options.meals@.len() > 0)) && options.deliveries@.len() == 0 && options.builds@.len() == 0
            && options.restocks@.len() == 0 && options.wood_trips@.len() == 0
            && options.food_trips@.len() == 0,
{
}

/// Work goes by priority: wood runs, then building, then food for the home, then
/// gathering wood, then gathering food. The job taken is the first offer of its
/// kind, and no offer of an earlier kind was open.
pub proof fn lemma_work_follows_priority(options: JobOptions)
    ensures
        match spec_choose_job(options) {
            Job::Deliver { run } => run == options.deliveries@[0] && options.deliveries@.len() > 0,
            Job::Build { site } => site == options.builds@[0] && options.builds@.len() > 0
                && options.deliveries@.len() == 0,
            Job::Restock { trip } => trip == options.restocks@[0] && options.restocks@.len() > 0
                && options.deliveries@.len() == 0 && options.builds@.len() == 0,
            Job::Gather { kind: ResourceKind::Wood, trip } => trip == options.wood_trips@[0]
                && options.wood_trips@.len() > 0 && options.deliveries@.len() == 0 && options.builds@.len()
                == 0 && options.restocks@.len() == 0,
            Job::Gather { kind: ResourceKind::Food, trip } => trip == options.food_trips@[0]
                && options.food_trips@.len() > 0 && options.deliveries@.len() == 0 && options.builds@.len()
                == 0 && options.restocks@.len() == 0 && options.wood_trips@.len() == 0,
            _ => true,
        },
        !(options.hungry && (options.pantry is Some || options.meals@.len() > 0)) ==> {
            &&& options.deliveries@.len() > 0 ==> spec_choose_job(options) is Deliver
            &&& options.builds@.len() > 0 ==> !(spec_choose_job(options) is Stay)
        },
{
}

/// The claims a job makes: a wood run claims its wood, a gather trip its amount.
pub open spec fn job_claims(model: ReservationsModel, job: Job) -> ReservationsModel {
    match job {
        Job::Deliver { run } => model.reserve_material_delivery(run.blueprint, run.amount),
        Job::Gather { kind, trip } => model.reserve_gather(trip.resource, kind, trip.amount),
        _ => model,
    }
}

/// A job claims what it takes: a wood run promises its wood to its blueprint, a
/// gather trip claims its amount from its node and the room for it in the public
/// stores; other jobs claim nothing.
pub proof fn lemma_jobs_claim_what_they_take(model: ReservationsModel, job: Job, entity: u64)
    ensures
        ({
            let after = job_claims(model, job);
            match job {
                Job::Deliver { run } => {
                    &&& after.delivery_total(entity) == model.delivery_total(entity) + if entity
                        == run.blueprint {
                        claim(run.amount)
                    } else {
                        0
                    }
                    &&& after.gather_total(entity) == model.gather_total(entity)
                    &&& after.public_units() == model.public_units()
                },
                Job::Gather { kind, trip } => {
                    &&& after.gather_total(entity) == model.gather_total(entity) + if entity
                        == trip.resource {
                        claim(trip.amount)
                    } else {
                        0
                    }
                    &&& after.public_units() == model.public_units() + claim(trip.amount) * kind.spec_unit_size()
                    &&& after.delivery_total(entity) == model.delivery_total(entity)
                },
                _ => after == model,
            }
        }),
{
    let after = job_claims(model, job);
    assert(after.material_deliveries.drop_last() =~= model.material_deliveries
        || after.material_deliveries =~= model.material_deliveries);
    assert(after.gathered_resources.drop_last() =~= model.gathered_resources
        || after.gathered_resources =~= model.gathered_resources);
    assert(after.public_deposits.drop_last() =~= model.public_deposits
        || after.public_deposits =~= model.public_deposits);
}

/// A home is stocked up to four meals per resident, but never past its room: the
/// need tops the pantry up to that mark when there is room for it, and fills the
/// room otherwise; a pantry at or above the mark needs nothing more.
pub proof fn lemma_homes_stock_four_meals_per_resident(residents: usize, home: Inventory)
    requires
        home@.wf(),
    ensures
        ({
            let room = home@.max_addable(ResourceKind::Food);
            let held = home@.amount(ResourceKind::Food);
            let mark = residents * HOME_FOOD_PER_RESIDENT;
            let need = spec_home_food_need(residents, home);
            &&& need <= room
            &&& held + need <= mark || need <= 0
            &&& held < mark && mark - held <= room ==> need == mark - held
            &&& held < mark && mark - held > room ==> need == room
            &&& held >= mark ==> need <= 0
        }),
{
}

/// The job of `colonist`, if it looks for one (it is idle and not starved): then
/// as `choose_job` picks it, with its claims recorded. A busy or starved colonist
/// gets no job, and no claim is made.
pub fn assign_job<P>(
    colonist: &Colonist<P>,
    options: &JobOptions,
    reservations: &mut AssignmentReservations,
) -> (job: Option<Job>)
    requires
        old(reservations)@.wf(),
    ensures
        !colonist.spec_seeks_job() ==> job is None && final(reservations)@ == old(reservations)@,
        colonist.spec_seeks_job() ==> job == Some(spec_choose_job(*options)) && final(reservations)@
            == job_claims(old(reservations)@, spec_choose_job(*options)),
        final(reservations)@.wf(),
{
    if !colonist.seeks_job() {
        return None;
    }
    Some(choose_job(options, reservations))
}

/// Picks the job of an idle colonist and records its claims.
pub fn choose_job(options: &JobOptions, reservations: &mut AssignmentReservations) -> (job: Job)
    requires
        old(reservations)@.wf(),
    ensures
        job == spec_choose_job(*options),
        final(reservations)@ == job_claims(old(reservations)@, job),
        final(reservations)@.wf(),
{
    let job = if options.hungry && options.pantry.is_some() {
        match options.pantry {
            Some(store) => Job::Eat { store },
            None => Job::Stay,
        }
    } else if options.hungry && options.meals.len() > 0 {
        Job::Eat { store: options.meals[0] }
    } else if options.deliveries.len() > 0 {
        Job::Deliver { run: options.deliveries[0] }
    } else if options.builds.len() > 0 {
        Job::Build { site: options.builds[0] }
    } else if options.restocks.len() > 0 {
        Job::Restock { trip: options.restocks[0] }
    } else if options.wood_trips.len() > 0 {
        Job::Gather { kind: ResourceKind::Wood, trip: options.wood_trips[0] }
    } else if options.food_trips.len() > 0 {
        Job::Gather { kind: ResourceKind::Food, trip: options.food_trips[0] }
    } else {
        Job::Stay
    };
    match job {
        Job::Deliver { run } => reservations.reserve_material_delivery(run.blueprint, run.amount),
        Job::Gather { kind, trip } => reservations.reserve_gather(trip.resource, kind, trip.amount),
        _ => {},
    }
    job
}

} // verus!
