use vstd::prelude::*;

use crate::ordering::{is_sorted_by_keys, sort_by_keys};
use crate::reservations::{AssignmentReservations, ReservationsModel, lemma_totals_nonnegative};
use crate::resources::{
    Inventory,
    InventoryModel,
    lemma_add_partial_keeps_capacity,
    lemma_sound_inventory_fits,
};
use crate::types::ResourceKind;

verus! {

/// A building's inventory as seen from one place. `distance_key` orders stores by
/// their distance from that place: a smaller key is nearer.
#[derive(Clone, Copy, Debug)]
pub struct Store {
    pub entity: u64,
    pub inventory: Inventory,
    pub public: bool,
    pub distance_key: u32,
}

/// Every store's capacity arithmetic stays within `i32`.
pub open spec fn stores_fit(stores: Seq<Store>) -> bool {
    forall|i: int| 0 <= i < stores.len() ==> (#[trigger] stores[i]).inventory@.fits()
}

/// How many items of `kind` the public stores can still take, all together.
pub open spec fn public_room(stores: Seq<Store>, kind: ResourceKind) -> int
    decreases stores.len(),
{
    if stores.len() == 0 {
        0
    } else {
        public_room(stores.drop_last(), kind) + if stores.last().public {
            stores.last().inventory@.max_addable(kind)
        } else {
            0
        }
    }
}

proof fn lemma_max_addable_nonnegative(inventory: Inventory, kind: ResourceKind)
    ensures
        inventory@.max_addable(kind) >= 0,
{
    let unit = kind.spec_unit_size() as int;
    let rem = inventory@.remaining_capacity();
    assert(rem / unit >= 0) by (nonlinear_arith)
        requires
            rem >= 0,
            unit >= 1,
    ;
}

proof fn lemma_public_room_prefix(stores: Seq<Store>, kind: ResourceKind, n: int)
    requires
        0 <= n <= stores.len(),
    ensures
        0 <= public_room(stores.take(n), kind) <= public_room(stores, kind),
    decreases stores.len(),
{
    if stores.len() > 0 {
        let shorter = stores.drop_last();
        lemma_max_addable_nonnegative(stores.last().inventory, kind);
        if n == stores.len() {
            assert(stores.take(n) =~= stores);
            lemma_public_room_prefix(shorter, kind, n - 1);
            assert(shorter.take(n - 1) =~= shorter);
        } else {
            assert(stores.take(n) =~= shorter.take(n));
            lemma_public_room_prefix(shorter, kind, n);
        }
    }
}

/// How many items of `kind` the public stores can still take, all together.
pub fn total_public_addable(stores: &Vec<Store>, kind: ResourceKind) -> (room: i32)
    requires
        stores_fit(stores@),
        public_room(stores@, kind) <= i32::MAX,
    ensures
        room == public_room(stores@, kind),
        room >= 0,
{
    let mut room: i32 = 0;
    let mut index: usize = 0;
    assert(stores@.take(0) =~= Seq::<Store>::empty());
    while index < stores.len()
        invariant
            0 <= index <= stores@.len(),
            stores_fit(stores@),
            public_room(stores@, kind) <= i32::MAX,
            room == public_room(stores@.take(index as int), kind),
        decreases stores@.len() - index,
    {
        assert(stores@.take(index + 1).drop_last() =~= stores@.take(index as int));
        proof {
            lemma_public_room_prefix(stores@, kind, index + 1);
            lemma_public_room_prefix(stores@, kind, index as int);
        }
        let store = stores[index];
        assert(stores@[index as int].inventory@.fits());
        if store.public {
            room = room + store.inventory.max_addable(kind);
        }
        index = index + 1;
    }
    assert(stores@.take(index as int) =~= stores@);
    proof {
        lemma_public_room_prefix(stores@, kind, 0);
    }
    room
}

/// Whether every store's inventory is sound.
pub fn stores_are_sound(stores: &Vec<Store>) -> (sound: bool)
    ensures
        sound == stores_sound(stores@),
{
    let mut index: usize = 0;
    while index < stores.len()
        invariant
            0 <= index <= stores@.len(),
            forall|i: int| 0 <= i < index ==> (#[trigger] stores@[i]).inventory@.wf(),
        decreases stores@.len() - index,
    {
        if !stores[index].inventory.is_sound() {
            return false;
        }
        index = index + 1;
    }
    true
}

/// Whether every store's capacity arithmetic stays within `i32`.
pub fn stores_fit_in_range(stores: &Vec<Store>) -> (fits: bool)
    ensures
        fits == stores_fit(stores@),
{
    let mut index: usize = 0;
    while index < stores.len()
        invariant
            0 <= index <= stores@.len(),
            forall|i: int| 0 <= i < index ==> (#[trigger] stores@[i]).inventory@.fits(),
        decreases stores@.len() - index,
    {
        if !stores[index].inventory.fits_in_range() {
            return false;
        }
        index = index + 1;
    }
    true
}

/// Whether the room of the public stores for `kind`, counted in capacity units,
/// stays within `i32`.
pub fn public_room_fits(stores: &Vec<Store>, kind: ResourceKind) -> (fits: bool)
    requires
        stores_fit(stores@),
    ensures
        fits == (public_room(stores@, kind) * kind.spec_unit_size() <= i32::MAX),
{
    scaled_public_room_fits(stores, kind, kind.unit_size())
}

/// Whether the room of the public stores for `kind`, counted in items, stays
/// within `i32`.
pub fn public_room_count_fits(stores: &Vec<Store>, kind: ResourceKind) -> (fits: bool)
    requires
        stores_fit(stores@),
    ensures
        fits == (public_room(stores@, kind) <= i32::MAX),
{
    scaled_public_room_fits(stores, kind, 1)
}

fn scaled_public_room_fits(stores: &Vec<Store>, kind: ResourceKind, unit: i32) -> (fits: bool)
    requires
        stores_fit(stores@),
        1 <= unit <= 10,
    ensures
        fits == (public_room(stores@, kind) * unit <= i32::MAX),
{
    let mut total: u64 = 0;
    let mut index: usize = 0;
    assert(stores@.take(0) =~= Seq::<Store>::empty());
    while index < stores.len()
        invariant
            0 <= index <= stores@.len(),
            stores_fit(stores@),
            1 <= unit <= 10,
            total == public_room(stores@.take(index as int), kind) * unit,
            total <= i32::MAX,
        decreases stores@.len() - index,
    {
        assert(stores@.take(index + 1).drop_last() =~= stores@.take(index as int));
        let store = stores[index];
        assert(stores@[index as int].inventory@.fits());
        if store.public {
            let room = store.inventory.max_addable(kind);
            assert(0 <= room * unit <= 10 * i32::MAX) by (nonlinear_arith)
                requires
                    0 <= room <= i32::MAX,
                    1 <= unit <= 10,
            ;
            assert((public_room(stores@.take(index as int), kind) + room) * unit == public_room(
                stores@.take(index as int),
                kind,
            ) * unit + room * unit) by (nonlinear_arith);
            total = total + (room as u64) * (unit as u64);
            if total > i32::MAX as u64 {
                proof {
                    lemma_public_room_prefix(stores@, kind, index + 1);
                    let prefix = public_room(stores@.take(index + 1), kind);
                    let whole = public_room(stores@, kind);
                    assert(prefix * unit <= whole * unit) by (nonlinear_arith)
                        requires
                            prefix <= whole,
                            unit >= 1,
                    ;
                }
                return false;
            }
        }
        index = index + 1;
    }
    assert(stores@.take(index as int) =~= stores@);
    true
}

/// Items of `kind` that still fit in the public stores once the room claimed by
/// planned deposits is taken off.
pub open spec fn spec_public_room_after_reserved(
    stores: Seq<Store>,
    model: ReservationsModel,
    kind: ResourceKind,
) -> int {
    let units = public_room(stores, kind) * kind.spec_unit_size() - model.public_units();
    let free = if units > 0 {
        units
    } else {
        0
    };
    free / kind.spec_unit_size() as int
}

pub fn total_public_addable_after_reserved(
    stores: &Vec<Store>,
    reservations: &AssignmentReservations,
    kind: ResourceKind,
) -> (room: i32)
    requires
        stores_fit(stores@),
        public_room(stores@, kind) * kind.spec_unit_size() <= i32::MAX,
        reservations@.wf(),
        reservations@.public_units() <= i32::MAX,
    ensures
        room == spec_public_room_after_reserved(stores@, reservations@, kind),
{
    let unit = kind.unit_size();
    proof {
        lemma_public_room_prefix(stores@, kind, 0);
        assert(public_room(stores@, kind) <= public_room(stores@, kind) * unit) by (nonlinear_arith)
            requires
                public_room(stores@, kind) >= 0,
                unit >= 1,
        ;
        lemma_totals_nonnegative(reservations@, 0);
    }
    let items = total_public_addable(stores, kind);
    let units = items * unit - reservations.reserved_public_capacity();
    let free = if units > 0 {
        units
    } else {
        0
    };
    free / unit
}

/// Distance keys of the stores at the given positions.
pub open spec fn store_keys(stores: Seq<Store>, pool: Seq<usize>) -> Seq<u64> {
    pool.map_values(|index: usize| stores[index as int].distance_key as u64)
}

/// The first store with id `entity`, if any.
pub open spec fn first_store_of(stores: Seq<Store>, entity: u64, index: int) -> bool {
    &&& 0 <= index < stores.len()
    &&& stores[index].entity == entity
    &&& forall|j: int| 0 <= j < index ==> (#[trigger] stores[j]).entity != entity
}

/// The inventories of the stores, in list order.
pub open spec fn store_models(stores: Seq<Store>) -> Seq<InventoryModel> {
    stores.map_values(|store: Store| store.inventory@)
}

/// Every store's inventory is sound.
pub open spec fn stores_sound(stores: Seq<Store>) -> bool {
    forall|i: int| 0 <= i < stores.len() ==> (#[trigger] stores[i]).inventory@.wf()
}

/// Only inventories changed: every store keeps its id, publicity and distance.
pub open spec fn same_places(before: Seq<Store>, after: Seq<Store>) -> bool {
    &&& before.len() == after.len()
    &&& forall|i: int|
        0 <= i < before.len() ==> (#[trigger] after[i]).entity == before[i].entity
            && after[i].public == before[i].public && after[i].distance_key
            == before[i].distance_key
}

/// `after` is `before` once `amount` of `kind` was taken, all or nothing, from the
/// first store with id `entity`; `removed` tells whether it was.
pub open spec fn removed_from_store(
    before: Seq<Store>,
    after: Seq<Store>,
    entity: u64,
    kind: ResourceKind,
    amount: i32,
    removed: bool,
) -> bool {
    &&& same_places(before, after)
    &&& match first_store_index(before, entity) {
        Some(index) => {
            &&& (after[index].inventory@, removed) == before[index].inventory@.remove(kind, amount)
            &&& forall|j: int| 0 <= j < before.len() && j != index ==> (#[trigger] after[j]) == before[j]
        },
        None => !removed && after == before,
    }
}

/// `after` is `before` once as much of `amount` of `kind` as fits went into the
/// first store with id `entity`; `leftover` is what did not.
pub open spec fn added_to_store(
    before: Seq<Store>,
    after: Seq<Store>,
    entity: u64,
    kind: ResourceKind,
    amount: i32,
    leftover: int,
) -> bool {
    &&& same_places(before, after)
    &&& match first_store_index(before, entity) {
        Some(index) => {
            &&& after[index].inventory@ == before[index].inventory@.add_partial(kind, amount).0
            &&& leftover == amount - before[index].inventory@.add_partial(kind, amount).1
            &&& forall|j: int| 0 <= j < before.len() && j != index ==> (#[trigger] after[j]) == before[j]
        },
        None => leftover == amount && after == before,
    }
}

/// `after` is `before` once `amount` of `kind` was handed to the public stores,
/// nearest first, each taking what it has room for; `left` found no room.
pub open spec fn handed_to_nearest_public(
    before: Seq<Store>,
    after: Seq<Store>,
    kind: ResourceKind,
    amount: i32,
    left: int,
) -> bool {
    &&& same_places(before, after)
    &&& exists|visit: Seq<usize>|
        #![trigger distribute(store_models(before), visit, kind, amount as int)]
        is_sorted_by_keys(room_pool(before, kind), store_keys(before, room_pool(before, kind)), visit)
            && store_models(after) == distribute(store_models(before), visit, kind, amount as int).0
            && left == distribute(store_models(before), visit, kind, amount as int).1
}

/// Takes `amount` of `kind` from the store with id `entity` (the first listed with
/// it), all or nothing. Nothing happens, and the answer is false, when no store
/// has that id.
pub fn remove_from_store(stores: &mut Vec<Store>, entity: u64, kind: ResourceKind, amount: i32) -> (removed: bool)
    requires
        forall|i: int|
            0 <= i < old(stores)@.len() ==> i32::MIN <= (#[trigger] old(stores)@[i]).inventory@.amount(kind)
                - amount <= i32::MAX,
    ensures
        removed_from_store(old(stores)@, final(stores)@, entity, kind, amount, removed),
{
    match find_store(stores, entity) {
        Some(index) => {
            let mut store = stores[index];
            let removed = store.inventory.remove(kind, amount);
            stores.set(index, store);
            removed
        },
        None => false,
    }
}

/// Puts as much of `amount` of `kind` as fits into the store with id `entity`
/// and returns what is left over: everything, when no store has that id.
pub fn add_to_store(stores: &mut Vec<Store>, entity: u64, kind: ResourceKind, amount: i32) -> (leftover: i32)
    requires
        stores_sound(old(stores)@),
        amount >= 0,
    ensures
        added_to_store(old(stores)@, final(stores)@, entity, kind, amount, leftover as int),
        stores_sound(final(stores)@),
{
    match find_store(stores, entity) {
        Some(index) => {
            let mut store = stores[index];
            proof {
                assert(old(stores)@[index as int].inventory@.wf());
                lemma_sound_inventory_fits(store.inventory@, kind, amount);
                lemma_add_partial_keeps_capacity(store.inventory@, kind, amount);
            }
            let accepted = store.inventory.add_partial(kind, amount);
            stores.set(index, store);
            proof {
                assert forall|i: int| 0 <= i < stores@.len() implies (#[trigger] stores@[i]).inventory@.wf() by {
                    if i != index {
                        assert(stores@[i] == old(stores)@[i]);
                    }
                }
            }
            amount - accepted
        },
        None => amount,
    }
}

/// The position of the first store with id `entity`.
pub open spec fn first_store_index(stores: Seq<Store>, entity: u64) -> Option<int> {
    if exists|index: int| first_store_of(stores, entity, index) {
        Some(choose|index: int| first_store_of(stores, entity, index))
    } else {
        None
    }
}

proof fn lemma_first_store_unique(stores: Seq<Store>, entity: u64, a: int, b: int)
    requires
        first_store_of(stores, entity, a),
        first_store_of(stores, entity, b),
    ensures
        a == b,
{
    if a < b {
        assert(stores[a].entity == entity);
    } else if b < a {
        assert(stores[b].entity == entity);
    }
}

fn find_store(stores: &Vec<Store>, entity: u64) -> (found: Option<usize>)
    ensures
        match found {
            Some(index) => first_store_index(stores@, entity) == Some(index as int),
            None => first_store_index(stores@, entity) == None::<int>,
        },
{
    let mut index: usize = 0;
    while index < stores.len()
        invariant
            0 <= index <= stores@.len(),
            forall|j: int| 0 <= j < index ==> (#[trigger] stores@[j]).entity != entity,
        decreases stores@.len() - index,
    {
        if stores[index].entity == entity {
            proof {
                assert(first_store_of(stores@, entity, index as int));
                let chosen = choose|i: int| first_store_of(stores@, entity, i);
                lemma_first_store_unique(stores@, entity, chosen, index as int);
            }
            return Some(index);
        }
        index = index + 1;
    }
    proof {
        assert forall|i: int| !first_store_of(stores@, entity, i) by {
            if first_store_of(stores@, entity, i) {
                assert(stores@[i].entity == entity);
            }
        }
    }
    None
}

/// A public store with room for `kind`.
pub open spec fn has_public_room(store: Store, kind: ResourceKind) -> bool {
    store.public && store.inventory@.max_addable(kind) > 0
}

pub open spec fn room_pool(stores: Seq<Store>, kind: ResourceKind) -> Seq<usize>
    decreases stores.len(),
{
    if stores.len() == 0 {
        Seq::empty()
    } else {
        let rest = room_pool(stores.drop_last(), kind);
        if has_public_room(stores.last(), kind) {
            rest.push((stores.len() - 1) as usize)
        } else {
            rest
        }
    }
}

/// Hands `remaining` items of `kind` to the inventories at the positions in `visit`,
/// in that order, each taking what fits, until nothing is left. Gives the
/// inventories afterwards and what could not be placed.
pub open spec fn distribute(
    models: Seq<InventoryModel>,
    visit: Seq<usize>,
    kind: ResourceKind,
    remaining: int,
) -> (Seq<InventoryModel>, int)
    decreases visit.len(),
{
    if visit.len() == 0 || remaining <= 0 {
        (models, remaining)
    } else {
        let index = visit[0] as int;
        let (filled, accepted) = models[index].add_partial(kind, remaining as i32);
        distribute(models.update(index, filled), visit.drop_first(), kind, remaining - accepted)
    }
}

fn public_room_order(stores: &Vec<Store>, kind: ResourceKind) -> (order: Vec<usize>)
    requires
        stores_fit(stores@),
    ensures
        is_sorted_by_keys(room_pool(stores@, kind), store_keys(stores@, room_pool(stores@, kind)), order@),
        forall|k: int| 0 <= k < order@.len() ==> #[trigger] order@[k] < stores@.len(),
{
    let mut pool: Vec<usize> = Vec::new();
    let mut keys: Vec<u64> = Vec::new();
    let mut index: usize = 0;
    assert(stores@.take(0) =~= Seq::<Store>::empty());
    while index < stores.len()
        invariant
            0 <= index <= stores@.len(),
            stores_fit(stores@),
            pool@ == room_pool(stores@.take(index as int), kind),
            keys@ =~= store_keys(stores@, pool@),
            forall|k: int| 0 <= k < pool@.len() ==> #[trigger] pool@[k] < index,
        decreases stores@.len() - index,
    {
        let ghost seen = stores@.take(index + 1);
        assert(seen.drop_last() =~= stores@.take(index as int));
        assert(seen.last() == stores@[index as int]);
        let store = stores[index];
        assert(stores@[index as int].inventory@.fits());
        if store.public && store.inventory.max_addable(kind) > 0 {
            pool.push(index);
            keys.push(store.distance_key as u64);
        }
        index = index + 1;
    }
    assert(stores@.take(index as int) =~= stores@);
    let order = sort_by_keys(&pool, &keys);
    proof {
        let witness = choose|w: Seq<usize>|
            crate::ordering::is_key_order(keys@, w) && order@.len() == w.len() && forall|k: int|
                0 <= k < order@.len() ==> order@[k] == pool@[#[trigger] w[k] as int];
        assert forall|k: int| 0 <= k < order@.len() implies #[trigger] order@[k] < stores@.len() by {
            assert(witness[k] < keys@.len());
            assert(order@[k] == pool@[witness[k] as int]);
        }
    }
    order
}

/// Puts `amount` of `kind` into the public stores, nearest first, each taking what
/// it has room for, and returns what found no room.
pub fn add_to_nearest_public(stores: &mut Vec<Store>, kind: ResourceKind, amount: i32) -> (left: i32)
    requires
        stores_sound(old(stores)@),
    ensures
        handed_to_nearest_public(old(stores)@, final(stores)@, kind, amount, left as int),
        stores_sound(final(stores)@),
{
    proof {
        assert forall|i: int| 0 <= i < stores@.len() implies (#[trigger] stores@[i]).inventory@.fits() by {
            lemma_sound_inventory_fits(stores@[i].inventory@, kind, 0);
        }
    }
    let order = public_room_order(stores, kind);
    let ghost start = stores@;
    let ghost goal = distribute(store_models(start), order@, kind, amount as int);
    let mut remaining = amount;
    let mut step: usize = 0;
    assert(order@.skip(0) =~= order@);
    while step < order.len()
        invariant
            0 <= step <= order@.len(),
            forall|k: int| 0 <= k < order@.len() ==> #[trigger] order@[k] < start.len(),
            same_places(start, stores@),
            stores_sound(stores@),
            distribute(store_models(stores@), order@.skip(step as int), kind, remaining as int) == goal,
        ensures
            step == order@.len() || remaining <= 0,
            distribute(store_models(stores@), order@.skip(step as int), kind, remaining as int) == goal,
            same_places(start, stores@),
            stores_sound(stores@),
        decreases order@.len() - step,
    {
        if remaining <= 0 {
            break;
        }
        let index = order[step];
        let ghost models = store_models(stores@);
        let ghost rest = order@.skip(step as int);
        assert(rest[0] == index);
        assert(rest.drop_first() =~= order@.skip(step + 1));
        let mut store = stores[index];
        proof {
            assert(stores@[index as int].inventory@.wf());
            lemma_sound_inventory_fits(store.inventory@, kind, remaining);
            lemma_add_partial_keeps_capacity(store.inventory@, kind, remaining);
        }
        let accepted = store.inventory.add_partial(kind, remaining);
        let ghost before_set = stores@;
        stores.set(index, store);
        proof {
            assert(store_models(stores@) =~= models.update(index as int, store.inventory@));
            assert forall|i: int| 0 <= i < stores@.len() implies (#[trigger] stores@[i]).inventory@.wf() by {
                if i != index {
                    assert(stores@[i] == before_set[i]);
                }
            }
        }
        remaining = remaining - accepted;
        step = step + 1;
    }
    proof {
        let rest = order@.skip(step as int);
        if step == order@.len() {
            assert(rest.len() == 0);
        }
        assert(store_models(stores@) == goal.0 && remaining == goal.1);
    }
    remaining
}

/// The positions `0..count` in list order.
pub open spec fn list_order(count: nat) -> Seq<usize> {
    Seq::new(count, |index: int| index as usize)
}

/// Puts `amount` of `kind` into the inventories in list order, each taking what it
/// has room for, until nothing is left; returns what found no room.
pub fn fill_in_order(inventories: &mut Vec<Inventory>, kind: ResourceKind, amount: i32) -> (left: i32)
    requires
        forall|i: int| 0 <= i < old(inventories)@.len() ==> (#[trigger] old(inventories)@[i])@.wf(),
    ensures
        final(inventories)@.len() == old(inventories)@.len(),
        forall|i: int| 0 <= i < final(inventories)@.len() ==> (#[trigger] final(inventories)@[i])@.wf(),
        final(inventories)@.map_values(|inventory: Inventory| inventory@) == distribute(
            old(inventories)@.map_values(|inventory: Inventory| inventory@),
            list_order(old(inventories)@.len()),
            kind,
            amount as int,
        ).0,
        left == distribute(
            old(inventories)@.map_values(|inventory: Inventory| inventory@),
            list_order(old(inventories)@.len()),
            kind,
            amount as int,
        ).1,
{
    let ghost order = list_order(inventories@.len());
    let ghost goal = distribute(
        inventories@.map_values(|inventory: Inventory| inventory@),
        order,
        kind,
        amount as int,
    );
    let ghost count = inventories@.len();
    let mut remaining = amount;
    let mut index: usize = 0;
    assert(order.skip(0) =~= order);
    while index < inventories.len()
        invariant
            0 <= index <= inventories@.len(),
            inventories@.len() == count,
            order == list_order(count),
            forall|i: int| 0 <= i < inventories@.len() ==> (#[trigger] inventories@[i])@.wf(),
            distribute(
                inventories@.map_values(|inventory: Inventory| inventory@),
                order.skip(index as int),
                kind,
                remaining as int,
            ) == goal,
        ensures
            index == inventories@.len() || remaining <= 0,
            inventories@.len() == count,
            forall|i: int| 0 <= i < inventories@.len() ==> (#[trigger] inventories@[i])@.wf(),
            distribute(
                inventories@.map_values(|inventory: Inventory| inventory@),
                order.skip(index as int),
                kind,
                remaining as int,
            ) == goal,
        decreases inventories@.len() - index,
    {
        if remaining <= 0 {
            break;
        }
        let ghost models = inventories@.map_values(|inventory: Inventory| inventory@);
        let ghost rest = order.skip(index as int);
        assert(rest[0] == index);
        assert(rest.drop_first() =~= order.skip(index + 1));
        let mut inventory = inventories[index];
        proof {
            assert(inventories@[index as int]@.wf());
            lemma_sound_inventory_fits(inventory@, kind, remaining);
            lemma_add_partial_keeps_capacity(inventory@, kind, remaining);
        }
        let accepted = inventory.add_partial(kind, remaining);
        let ghost before_set = inventories@;
        inventories.set(index, inventory);
        proof {
            assert(inventories@.map_values(|inventory: Inventory| inventory@) =~= models.update(
                index as int,
                inventory@,
            ));
            assert forall|i: int| 0 <= i < inventories@.len() implies (#[trigger] inventories@[i])@.wf() by {
                if i != index {
                    assert(inventories@[i] == before_set[i]);
                }
            }
        }
        remaining = remaining - accepted;
        index = index + 1;
    }
    proof {
        if index == inventories@.len() {
            assert(order.skip(index as int).len() == 0);
        }
    }
    remaining
}

/// Total amount of `kind` held by the given inventories.
pub open spec fn total_held(models: Seq<InventoryModel>, kind: ResourceKind) -> int
    decreases models.len(),
{
    if models.len() == 0 {
        0
    } else {
        total_held(models.drop_last(), kind) + models.last().amount(kind)
    }
}

proof fn lemma_total_held_update(
    models: Seq<InventoryModel>,
    index: int,
    model: InventoryModel,
    kind: ResourceKind,
)
    requires
        0 <= index < models.len(),
    ensures
        total_held(models.update(index, model), kind) == total_held(models, kind) - models[index].amount(
            kind,
        ) + model.amount(kind),
    decreases models.len(),
{
    let updated = models.update(index, model);
    if index == models.len() - 1 {
        assert(updated.drop_last() =~= models.drop_last());
    } else {
        assert(updated.drop_last() =~= models.drop_last().update(index, model));
        lemma_total_held_update(models.drop_last(), index, model, kind);
    }
}

/// Handing items out to stores neither creates nor loses any: what the stores hold
/// afterwards plus what found no room equals what they held plus what was handed
/// in. The stores stay sound, and what is left is never more than what was handed in.
pub proof fn lemma_distribute_conserves(
    models: Seq<InventoryModel>,
    visit: Seq<usize>,
    kind: ResourceKind,
    remaining: i32,
)
    requires
        forall|i: int| 0 <= i < models.len() ==> (#[trigger] models[i]).wf(),
        forall|k: int| 0 <= k < visit.len() ==> #[trigger] visit[k] < models.len(),
    ensures
        total_held(distribute(models, visit, kind, remaining as int).0, kind) + distribute(
            models,
            visit,
            kind,
            remaining as int,
        ).1 == total_held(models, kind) + remaining,
        distribute(models, visit, kind, remaining as int).0.len() == models.len(),
        forall|i: int|
            0 <= i < models.len() ==> (#[trigger] distribute(models, visit, kind, remaining as int).0[i]).wf(),
        distribute(models, visit, kind, remaining as int).1 <= remaining,
        remaining >= 0 ==> distribute(models, visit, kind, remaining as int).1 >= 0,
    decreases visit.len(),
{
    if visit.len() > 0 && remaining > 0 {
        let index = visit[0] as int;
        let model = models[index];
        lemma_sound_inventory_fits(model, kind, remaining);
        lemma_add_partial_keeps_capacity(model, kind, remaining);
        let (filled, accepted) = model.add_partial(kind, remaining);
        assert(filled.amount(kind) == model.amount(kind) + accepted);
        let next = models.update(index, filled);
        lemma_total_held_update(models, index, filled, kind);
        assert forall|i: int| 0 <= i < next.len() implies (#[trigger] next[i]).wf() by {
            if i != index {
                assert(next[i] == models[i]);
            }
        }
        let rest = visit.drop_first();
        assert forall|k: int| 0 <= k < rest.len() implies #[trigger] rest[k] < next.len() by {
            assert(rest[k] == visit[k + 1]);
        }
        assert(0 <= accepted <= remaining);
        lemma_distribute_conserves(next, rest, kind, (remaining - accepted) as i32);
    }
}

/// Adding to one store neither creates nor loses items: what the stores hold
/// afterwards plus what is left over equals what they held plus the amount.
pub proof fn lemma_add_to_store_conserves(
    before: Seq<Store>,
    after: Seq<Store>,
    entity: u64,
    kind: ResourceKind,
    amount: i32,
    leftover: int,
)
    requires
        stores_sound(before),
        added_to_store(before, after, entity, kind, amount, leftover),
    ensures
        total_held(store_models(after), kind) + leftover == total_held(store_models(before), kind)
            + amount,
{
    match first_store_index(before, entity) {
        Some(index) => {
            let model = before[index].inventory@;
            assert(model.wf());
            lemma_sound_inventory_fits(model, kind, amount);
            let (filled, accepted) = model.add_partial(kind, amount);
            assert(filled.amount(kind) == model.amount(kind) + accepted);
            assert(store_models(after) =~= store_models(before).update(index, filled));
            lemma_total_held_update(store_models(before), index, filled, kind);
        },
        None => {},
    }
}

/// Taking from one store removes exactly the amount taken, or nothing.
pub proof fn lemma_remove_from_store_conserves(
    before: Seq<Store>,
    after: Seq<Store>,
    entity: u64,
    kind: ResourceKind,
    amount: i32,
    removed: bool,
)
    requires
        forall|i: int|
            0 <= i < before.len() ==> i32::MIN <= (#[trigger] before[i]).inventory@.amount(kind) - amount
                <= i32::MAX,
        removed_from_store(before, after, entity, kind, amount, removed),
    ensures
        total_held(store_models(after), kind) == total_held(store_models(before), kind) - if removed {
            amount as int
        } else {
            0
        },
{
    match first_store_index(before, entity) {
        Some(index) => {
            let model = before[index].inventory@;
            assert(i32::MIN <= before[index].inventory@.amount(kind) - amount <= i32::MAX);
            let taken = model.remove(kind, amount).0;
            if removed {
                assert(taken.amount(kind) == model.amount(kind) - amount);
            }
            assert(store_models(after) =~= store_models(before).update(index, taken));
            lemma_total_held_update(store_models(before), index, taken, kind);
        },
        None => {},
    }
}

} // verus!
