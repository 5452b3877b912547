use vstd::prelude::*;

use crate::types::ResourceKind;

verus! {

pub const CENTRAL_STORAGE_CAPACITY: i32 = 1_000;

pub const STORAGE_CAPACITY: i32 = 4_000;

pub const HOUSE_FOOD_CAPACITY: i32 = 20;

pub const HOME_FOOD_PER_RESIDENT: i32 = 4;

pub const COLONIST_CARRY_CAPACITY: i32 = 10;

/// A store of wood and food with a capacity measured in units: one wood takes
/// ten units, one food takes one. Some stores refuse wood.
#[derive(Clone, Copy, Debug)]
pub struct Inventory {
    pub capacity: i32,
    pub wood: i32,
    pub food: i32,
    accepts_wood: bool,
    accepts_food: bool,
}

/// The abstract contents of an [`Inventory`].
pub struct InventoryModel {
    pub capacity: i32,
    pub wood: i32,
    pub food: i32,
    pub accepts_wood: bool,
    pub accepts_food: bool,
}

impl InventoryModel {
    pub open spec fn amount(self, kind: ResourceKind) -> int {
        match kind {
            ResourceKind::Wood => self.wood as int,
            ResourceKind::Food => self.food as int,
        }
    }

    pub open spec fn accepts(self, kind: ResourceKind) -> bool {
        match kind {
            ResourceKind::Wood => self.accepts_wood,
            ResourceKind::Food => self.accepts_food,
        }
    }

    /// Capacity units taken by what the inventory holds.
    pub open spec fn used_capacity(self) -> int {
        self.wood * 10 + self.food
    }

    /// Capacity units still free, never below zero.
    pub open spec fn remaining_capacity(self) -> int {
        let free = self.capacity - self.used_capacity();
        if free > 0 {
            free
        } else {
            0
        }
    }

    /// How many items of `kind` still fit.
    pub open spec fn max_addable(self, kind: ResourceKind) -> int {
        if !self.accepts(kind) {
            0
        } else {
            self.remaining_capacity() / (kind.spec_unit_size() as int)
        }
    }

    /// The same inventory holding `amount` items of `kind`.
    pub open spec fn with_amount(self, kind: ResourceKind, amount: int) -> InventoryModel {
        match kind {
            ResourceKind::Wood => InventoryModel { wood: amount as i32, ..self },
            ResourceKind::Food => InventoryModel { food: amount as i32, ..self },
        }
    }

    /// How many of `amount` items of `kind` a partial add takes in.
    pub open spec fn accepted(self, kind: ResourceKind, amount: i32) -> int {
        let wanted = if amount > 0 {
            amount as int
        } else {
            0
        };
        let room = self.max_addable(kind);
        if wanted < room {
            wanted
        } else {
            room
        }
    }

    /// The inventory after a partial add, and how much it took.
    pub open spec fn add_partial(self, kind: ResourceKind, amount: i32) -> (InventoryModel, int) {
        let accepted = self.accepted(kind, amount);
        (self.with_amount(kind, self.amount(kind) + accepted), accepted)
    }

    /// The inventory after an all-or-nothing add, and whether it took the items.
    pub open spec fn add(self, kind: ResourceKind, amount: i32) -> (InventoryModel, bool) {
        if self.max_addable(kind) < amount {
            (self, false)
        } else {
            (self.add_partial(kind, amount).0, true)
        }
    }

    /// The inventory after an all-or-nothing removal, and whether it gave the items.
    pub open spec fn remove(self, kind: ResourceKind, amount: i32) -> (InventoryModel, bool) {
        if self.amount(kind) < amount {
            (self, false)
        } else {
            (self.with_amount(kind, self.amount(kind) - amount), true)
        }
    }

    /// The capacity arithmetic of this inventory stays within `i32`.
    pub open spec fn fits(self) -> bool {
        &&& i32::MIN <= self.wood * 10 <= i32::MAX
        &&& i32::MIN <= self.used_capacity() <= i32::MAX
        &&& i32::MIN <= self.capacity - self.used_capacity() <= i32::MAX
    }

    /// The amount of `kind` after a partial add of `amount` stays within `i32`.
    pub open spec fn add_fits(self, kind: ResourceKind, amount: i32) -> bool {
        self.amount(kind) + self.accepted(kind, amount) <= i32::MAX
    }

    /// A sound inventory: no negative amounts, and no more held than fits.
    pub open spec fn wf(self) -> bool {
        &&& self.wood >= 0
        &&& self.food >= 0
        &&& self.used_capacity() <= self.capacity
    }

}

impl View for Inventory {
    type V = InventoryModel;

    closed spec fn view(&self) -> InventoryModel {
        InventoryModel {
            capacity: self.capacity,
            wood: self.wood,
            food: self.food,
            accepts_wood: self.accepts_wood,
            accepts_food: self.accepts_food,
        }
    }
}

impl Inventory {
    /// A shared store that takes every kind of resource.
    pub fn public(capacity: i32) -> (inventory: Inventory)
        ensures
            inventory@.capacity == capacity,
            inventory@.wood == 0,
            inventory@.food == 0,
            inventory@.accepts(ResourceKind::Wood),
            inventory@.accepts(ResourceKind::Food),
    {
        Inventory { capacity, wood: 0, food: 0, accepts_wood: true, accepts_food: true }
    }

    /// A household pantry: food only.
    pub fn home_food(capacity: i32) -> (inventory: Inventory)
        ensures
            inventory@.capacity == capacity,
            inventory@.wood == 0,
            inventory@.food == 0,
            !inventory@.accepts(ResourceKind::Wood),
            inventory@.accepts(ResourceKind::Food),
    {
        Inventory { capacity, wood: 0, food: 0, accepts_wood: false, accepts_food: true }
    }

    pub fn amount(&self, kind: ResourceKind) -> (amount: i32)
        ensures
            amount == self@.amount(kind),
    {
        match kind {
            ResourceKind::Wood => self.wood,
            ResourceKind::Food => self.food,
        }
    }

    pub fn accepts(&self, kind: ResourceKind) -> (accepted: bool)
        ensures
            accepted == self@.accepts(kind),
    {
        match kind {
            ResourceKind::Wood => self.accepts_wood,
            ResourceKind::Food => self.accepts_food,
        }
    }

    /// Whether the inventory is sound: no negative amounts, no more held than fits.
    pub fn is_sound(&self) -> (sound: bool)
        ensures
            sound == self@.wf(),
    {
        let used: i64 = self.wood as i64 * 10 + self.food as i64;
        self.wood >= 0 && self.food >= 0 && used <= self.capacity as i64
    }

    /// Whether the capacity arithmetic of the inventory stays within `i32`.
    pub fn fits_in_range(&self) -> (fits: bool)
        ensures
            fits == self@.fits(),
    {
        let lowest: i64 = i32::MIN as i64;
        let highest: i64 = i32::MAX as i64;
        let wood_units: i64 = self.wood as i64 * 10;
        let used: i64 = wood_units + self.food as i64;
        let free: i64 = self.capacity as i64 - used;
        lowest <= wood_units && wood_units <= highest && lowest <= used && used <= highest && lowest <= free
            && free <= highest
    }

    pub fn capacity(&self) -> (capacity: i32)
        ensures
            capacity == self@.capacity,
    {
        self.capacity
    }

    pub fn used_capacity(&self) -> (used: i32)
        requires
            self@.fits(),
        ensures
            used == self@.used_capacity(),
    {
        self.wood * ResourceKind::Wood.unit_size() + self.food * ResourceKind::Food.unit_size()
    }

    pub fn remaining_capacity(&self) -> (remaining: i32)
        requires
            self@.fits(),
        ensures
            remaining == self@.remaining_capacity(),
    {
        let free = self.capacity - self.used_capacity();
        if free > 0 {
            free
        } else {
            0
        }
    }

    pub fn max_addable(&self, kind: ResourceKind) -> (count: i32)
        requires
            self@.fits(),
        ensures
            count == self@.max_addable(kind),
            count >= 0,
    {
        if !self.accepts(kind) {
            return 0;
        }
        self.remaining_capacity() / kind.unit_size()
    }

    /// Adds as many of `amount` items as fit (none for a negative amount) and
    /// returns how many were taken.
    pub fn add_partial(&mut self, kind: ResourceKind, amount: i32) -> (accepted: i32)
        requires
            old(self)@.fits(),
            old(self)@.add_fits(kind, amount),
        ensures
            (final(self)@, accepted as int) == old(self)@.add_partial(kind, amount),
            0 <= accepted,
    {
        let wanted = if amount > 0 {
            amount
        } else {
            0
        };
        let room = self.max_addable(kind);
        let accepted = if wanted < room {
            wanted
        } else {
            room
        };
        proof {
            let unit = kind.spec_unit_size() as int;
            let rem = self@.remaining_capacity();
            vstd::arithmetic::div_mod::lemma_fundamental_div_mod(rem, unit);
            assert(accepted * unit <= rem) by (nonlinear_arith)
                requires
                    accepted <= rem / unit,
                    unit > 0,
                    0 <= accepted,
                    rem == unit * (rem / unit) + rem % unit,
                    rem % unit >= 0,
            ;
        }
        match kind {
            ResourceKind::Wood => self.wood = self.wood + accepted,
            ResourceKind::Food => self.food = self.food + accepted,
        }
        accepted
    }

    /// Adds all `amount` items when they fit; otherwise changes nothing and returns false.
    pub fn add(&mut self, kind: ResourceKind, amount: i32) -> (added: bool)
        requires
            old(self)@.fits(),
            old(self)@.max_addable(kind) >= amount ==> old(self)@.add_fits(kind, amount),
        ensures
            (final(self)@, added) == old(self)@.add(kind, amount),
    {
        if self.max_addable(kind) < amount {
            return false;
        }
        self.add_partial(kind, amount);
        true
    }

    /// Removes all `amount` items when enough are held; otherwise changes nothing
    /// and returns false.
    pub fn remove(&mut self, kind: ResourceKind, amount: i32) -> (removed: bool)
        requires
            i32::MIN <= old(self)@.amount(kind) - amount <= i32::MAX,
        ensures
            (final(self)@, removed) == old(self)@.remove(kind, amount),
    {
        if self.amount(kind) < amount {
            return false;
        }
        match kind {
            ResourceKind::Wood => self.wood = self.wood - amount,
            ResourceKind::Food => self.food = self.food - amount,
        }
        true
    }
}

/// A sound inventory stays sound under any partial add: the capacity is never exceeded.
pub proof fn lemma_add_partial_keeps_capacity(inventory: InventoryModel, kind: ResourceKind, amount: i32)
    requires
        inventory.wf(),
    ensures
        inventory.add_partial(kind, amount).0.wf(),
        inventory.add(kind, amount).0.wf(),
{
    lemma_sound_inventory_fits(inventory, kind, amount);
    let accepted = inventory.accepted(kind, amount);
    let unit = kind.spec_unit_size() as int;
    let rem = inventory.remaining_capacity();
    vstd::arithmetic::div_mod::lemma_fundamental_div_mod(rem, unit);
    assert(accepted * unit <= rem) by (nonlinear_arith)
        requires
            accepted <= rem / unit,
            unit > 0,
            0 <= accepted,
            rem == unit * (rem / unit) + rem % unit,
            rem % unit >= 0,
    ;
}

/// A sound inventory has its capacity arithmetic within `i32`, and any partial add
/// keeps its amounts within `i32`.
pub proof fn lemma_sound_inventory_fits(inventory: InventoryModel, kind: ResourceKind, amount: i32)
    requires
        inventory.wf(),
    ensures
        inventory.fits(),
        inventory.add_fits(kind, amount),
{
    let unit = kind.spec_unit_size() as int;
    let rem = inventory.remaining_capacity();
    let accepted = inventory.accepted(kind, amount);
    assert(rem / unit <= rem) by (nonlinear_arith)
        requires
            rem >= 0,
            unit >= 1,
    ;
    assert(accepted <= rem);
}

/// Adding to a sound inventory takes what fits and touches nothing else: a partial
/// add takes the requested amount (none if negative) up to the room for that kind
/// (none if the kind is refused), and raises that kind's count by as much; an
/// all-or-nothing add of a non-negative amount takes everything exactly when it
/// all fits, and otherwise leaves the inventory as it was.
pub proof fn lemma_add_takes_what_fits(inventory: InventoryModel, kind: ResourceKind, amount: i32)
    requires
        inventory.wf(),
    ensures
        ({
            let (after, accepted) = inventory.add_partial(kind, amount);
            let wanted = if amount > 0 { amount as int } else { 0 };
            &&& accepted == (if wanted < inventory.max_addable(kind) {
                wanted
            } else {
                inventory.max_addable(kind)
            })
            &&& !inventory.accepts(kind) ==> accepted == 0
            &&& after.amount(kind) == inventory.amount(kind) + accepted
            &&& after.capacity == inventory.capacity
            &&& forall|other: ResourceKind| other != kind ==> #[trigger] after.amount(other) == inventory.amount(other)
            &&& forall|any: ResourceKind| #[trigger] after.accepts(any) == inventory.accepts(any)
        }),
        amount >= 0 ==> ({
            let (after, added) = inventory.add(kind, amount);
            &&& added == (inventory.max_addable(kind) >= amount)
            &&& added ==> after.amount(kind) == inventory.amount(kind) + amount && after.capacity
                == inventory.capacity && forall|other: ResourceKind|
                other != kind ==> #[trigger] after.amount(other) == inventory.amount(other)
            &&& !added ==> after == inventory
        }),
{
    lemma_sound_inventory_fits(inventory, kind, amount);
}

/// A sound inventory stays sound when items are taken out.
pub proof fn lemma_remove_keeps_capacity(inventory: InventoryModel, kind: ResourceKind, amount: i32)
    requires
        inventory.wf(),
        amount >= 0,
    ensures
        inventory.remove(kind, amount).0.wf(),
{
}

/// Taking out what an all-or-nothing add just put in restores the inventory.
pub proof fn lemma_add_then_remove_restores(inventory: InventoryModel, kind: ResourceKind, amount: i32)
    requires
        inventory.fits(),
        inventory.wf(),
        inventory.add_fits(kind, amount),
        amount >= 0,
        inventory.add(kind, amount).1,
    ensures
        inventory.add(kind, amount).0.remove(kind, amount) == (inventory, true),
{
    let added = inventory.add(kind, amount).0;
    assert(added.amount(kind) == inventory.amount(kind) + amount);
    let restored = added.remove(kind, amount).0;
    match kind {
        ResourceKind::Wood => {
            assert(restored.wood == inventory.wood);
        },
        ResourceKind::Food => {
            assert(restored.food == inventory.food);
        },
    }
    assert(restored == inventory);
}

/// Wood and food counted over a set of stores.
#[derive(Debug, Clone, Copy, PartialEq, Eq, Structural)]
pub struct ResourceStock {
    pub wood: i32,
    pub food: i32,
}

impl Default for ResourceStock {
    fn default() -> (stock: ResourceStock)
        ensures
            stock.wood == 0,
            stock.food == 0,
    {
        ResourceStock { wood: 0, food: 0 }
    }
}

impl ResourceStock {
    pub fn amount(&self, kind: ResourceKind) -> (amount: i32)
        ensures
            amount == (match kind {
                ResourceKind::Wood => self.wood,
                ResourceKind::Food => self.food,
            }),
    {
        match kind {
            ResourceKind::Wood => self.wood,
            ResourceKind::Food => self.food,
        }
    }
}

/// Total wood held by a sequence of inventories.
pub open spec fn total_wood(inventories: Seq<Inventory>) -> int
    decreases inventories.len(),
{
    if inventories.len() == 0 {
        0
    } else {
        total_wood(inventories.drop_last()) + inventories.last()@.wood
    }
}

/// Total food held by a sequence of inventories.
pub open spec fn total_food(inventories: Seq<Inventory>) -> int
    decreases inventories.len(),
{
    if inventories.len() == 0 {
        0
    } else {
        total_food(inventories.drop_last()) + inventories.last()@.food
    }
}

/// Every running total of wood and food over a prefix stays within `i32`.
pub open spec fn stock_sums_fit(inventories: Seq<Inventory>) -> bool {
    forall|n: int|
        0 <= n <= inventories.len() ==> i32::MIN <= #[trigger] total_wood(inventories.take(n))
            <= i32::MAX && i32::MIN <= total_food(inventories.take(n)) <= i32::MAX
}

/// Decides `stock_sums_fit`.
pub fn stock_sums_fit_at(inventories: &[Inventory]) -> (fits: bool)
    ensures
        fits == stock_sums_fit(inventories@),
{
    let mut wood: i64 = 0;
    let mut food: i64 = 0;
    let mut index: usize = 0;
    assert(inventories@.take(0) =~= Seq::<Inventory>::empty());
    while index < inventories.len()
        invariant
            0 <= index <= inventories@.len(),
            wood == total_wood(inventories@.take(index as int)),
            food == total_food(inventories@.take(index as int)),
            forall|n: int|
                0 <= n <= index ==> i32::MIN <= #[trigger] total_wood(inventories@.take(n)) <= i32::MAX
                    && i32::MIN <= total_food(inventories@.take(n)) <= i32::MAX,
        decreases inventories@.len() - index,
    {
        let ghost next = inventories@.take(index + 1);
        assert(next.drop_last() =~= inventories@.take(index as int));
        wood = wood + inventories[index].wood as i64;
        food = food + inventories[index].food as i64;
        if wood < i32::MIN as i64 || wood > i32::MAX as i64 || food < i32::MIN as i64 || food > i32::MAX as i64 {
            assert(!(i32::MIN <= total_wood(inventories@.take(index + 1)) <= i32::MAX && i32::MIN <= total_food(
                inventories@.take(index + 1),
            ) <= i32::MAX));
            return false;
        }
        index = index + 1;
    }
    assert(inventories@.take(index as int) =~= inventories@);
    true
}

/// Sums the wood and food of the given inventories (the caller passes the public ones).
pub fn public_stock(inventories: &[Inventory]) -> (stock: ResourceStock)
    requires
        stock_sums_fit(inventories@),
    ensures
        stock.wood == total_wood(inventories@),
        stock.food == total_food(inventories@),
{
    let mut stock = ResourceStock { wood: 0, food: 0 };
    let mut index: usize = 0;
    assert(inventories@.take(0) =~= Seq::<Inventory>::empty());
    while index < inventories.len()
        invariant
            0 <= index <= inventories@.len(),
            stock_sums_fit(inventories@),
            stock.wood == total_wood(inventories@.take(index as int)),
            stock.food == total_food(inventories@.take(index as int)),
        decreases inventories@.len() - index,
    {
        let ghost next = inventories@.take(index + 1);
        assert(next.drop_last() =~= inventories@.take(index as int));
        assert(i32::MIN <= total_wood(next) <= i32::MAX);
        assert(i32::MIN <= total_food(next) <= i32::MAX);
        stock.wood = stock.wood + inventories[index].wood;
        stock.food = stock.food + inventories[index].food;
        index = index + 1;
    }
    assert(inventories@.take(index as int) =~= inventories@);
    stock
}

/// How many items of `kind` a colonist with `carry_capacity` units carries in one trip:
/// as many as fit, but at least one.
pub open spec fn spec_carried_amount(kind: ResourceKind, carry_capacity: i32) -> int {
    let fitting = if carry_capacity > 0 {
        carry_capacity as int / (kind.spec_unit_size() as int)
    } else {
        0
    };
    if fitting > 1 {
        fitting
    } else {
        1
    }
}

pub fn carried_amount(kind: ResourceKind, carry_capacity: i32) -> (amount: i32)
    ensures
        amount == spec_carried_amount(kind, carry_capacity),
        amount >= 1,
{
    let fitting = if carry_capacity > 0 {
        carry_capacity / kind.unit_size()
    } else {
        0
    };
    if fitting > 1 {
        fitting
    } else {
        1
    }
}

} // verus!
