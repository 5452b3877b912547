use vstd::prelude::*;

use crate::resources::{HOUSE_FOOD_CAPACITY, Inventory, STORAGE_CAPACITY};
use crate::types::{BuildingKind, GridCell, ResourceKind};

verus! {

/// A planned building waiting for wood and work. Progress and build time are in
/// microseconds of simulated time.
#[derive(Clone, Copy, Debug)]
pub struct Blueprint {
    pub kind: BuildingKind,
    pub required_wood: i32,
    pub delivered_wood: i32,
    pub progress_micros: u64,
    pub build_micros: u64,
}

#[derive(Clone, Copy, Debug, PartialEq, Eq, Structural)]
pub enum BlueprintStatus {
    WaitingForMaterials,
    WaitingForBuilder,
    Building,
    Complete,
}

impl BlueprintStatus {
    pub open spec fn spec_label(self) -> Seq<char> {
        match self {
            BlueprintStatus::WaitingForMaterials => "Waiting for materials"@,
            BlueprintStatus::WaitingForBuilder => "Waiting for builder"@,
            BlueprintStatus::Building => "Building"@,
            BlueprintStatus::Complete => "Complete"@,
        }
    }

    pub fn label(self) -> (text: &'static str)
        ensures
            text@ == self.spec_label(),
    {
        match self {
            BlueprintStatus::WaitingForMaterials => "Waiting for materials",
            BlueprintStatus::WaitingForBuilder => "Waiting for builder",
            BlueprintStatus::Building => "Building",
            BlueprintStatus::Complete => "Complete",
        }
    }
}

impl Blueprint {
    /// Wood still missing, never below zero.
    pub open spec fn spec_needs_wood(self) -> int {
        let missing = self.required_wood - self.delivered_wood;
        if missing > 0 {
            missing
        } else {
            0
        }
    }

    pub open spec fn spec_has_materials(self) -> bool {
        self.spec_needs_wood() == 0
    }

    pub open spec fn spec_is_complete(self) -> bool {
        self.spec_has_materials() && self.progress_micros >= self.build_micros
    }

    pub open spec fn spec_status(self) -> BlueprintStatus {
        if !self.spec_has_materials() {
            BlueprintStatus::WaitingForMaterials
        } else if self.spec_is_complete() {
            BlueprintStatus::Complete
        } else if self.progress_micros > 0 {
            BlueprintStatus::Building
        } else {
            BlueprintStatus::WaitingForBuilder
        }
    }

    /// Share of the work done, in thousandths, rounded down; a blueprint with
    /// no work to do counts as done.
    pub open spec fn spec_progress_permille(self) -> int {
        if self.build_micros == 0 || self.progress_micros >= self.build_micros {
            1000
        } else {
            (self.progress_micros * 1000) / (self.build_micros as int)
        }
    }

    /// The subtraction behind `needs_wood` stays within `i32`.
    pub open spec fn fits(self) -> bool {
        i32::MIN <= self.required_wood - self.delivered_wood <= i32::MAX
    }

    /// A fresh blueprint for `kind`: nothing delivered and no work done yet.
    pub open spec fn spec_new(kind: BuildingKind) -> Blueprint {
        Blueprint {
            kind,
            required_wood: kind.spec_wood_cost(),
            delivered_wood: 0,
            progress_micros: 0,
            build_micros: kind.spec_build_micros(),
        }
    }

    /// A fresh blueprint for `kind`: nothing delivered and no work done yet.
    pub fn new(kind: BuildingKind) -> (blueprint: Blueprint)
        ensures
            blueprint == Blueprint::spec_new(kind),
    {
        let definition = kind.definition();
        Blueprint {
            kind,
            required_wood: definition.wood_cost,
            delivered_wood: 0,
            progress_micros: 0,
            build_micros: definition.build_micros,
        }
    }

    /// Decides `fits`.
    pub fn fits_in_range(&self) -> (fits: bool)
        ensures
            fits == self.fits(),
    {
        let missing: i64 = self.required_wood as i64 - self.delivered_wood as i64;
        i32::MIN as i64 <= missing && missing <= i32::MAX as i64
    }

    pub fn needs_wood(&self) -> (missing: i32)
        requires
            self.fits(),
        ensures
            missing == self.spec_needs_wood(),
    {
        let missing = self.required_wood - self.delivered_wood;
        if missing > 0 {
            missing
        } else {
            0
        }
    }

    pub fn has_materials(&self) -> (ready: bool)
        requires
            self.fits(),
        ensures
            ready == self.spec_has_materials(),
    {
        self.needs_wood() == 0
    }

    pub fn is_complete(&self) -> (complete: bool)
        requires
            self.fits(),
        ensures
            complete == self.spec_is_complete(),
    {
        self.has_materials() && self.progress_micros >= self.build_micros
    }

    pub fn progress_permille(&self) -> (permille: u32)
        ensures
            permille == self.spec_progress_permille(),
            permille <= 1000,
    {
        if self.build_micros == 0 || self.progress_micros >= self.build_micros {
            1000
        } else {
            let scaled = (self.progress_micros as u128) * 1000;
            let ratio = scaled / (self.build_micros as u128);
            proof {
                assert(ratio < 1000) by (nonlinear_arith)
                    requires
                        ratio == scaled / (self.build_micros as u128),
                        scaled == self.progress_micros * 1000,
                        self.progress_micros < self.build_micros,
                        self.build_micros > 0,
                ;
            }
            ratio as u32
        }
    }

    pub fn status(&self) -> (status: BlueprintStatus)
        requires
            self.fits(),
        ensures
            status == self.spec_status(),
    {
        if !self.has_materials() {
            BlueprintStatus::WaitingForMaterials
        } else if self.is_complete() {
            BlueprintStatus::Complete
        } else if self.progress_micros > 0 {
            BlueprintStatus::Building
        } else {
            BlueprintStatus::WaitingForBuilder
        }
    }

    /// Adds delivered wood, never beyond what the blueprint requires.
    pub fn deliver_wood(&mut self, amount: i32)
        requires
            old(self).delivered_wood + amount >= i32::MIN,
        ensures
            final(self).delivered_wood == (if old(self).delivered_wood + amount
                < old(self).required_wood {
                old(self).delivered_wood + amount
            } else {
                old(self).required_wood as int
            }),
            final(self).kind == old(self).kind,
            final(self).required_wood == old(self).required_wood,
            final(self).progress_micros == old(self).progress_micros,
            final(self).build_micros == old(self).build_micros,
    {
        let total: i64 = self.delivered_wood as i64 + amount as i64;
        self.delivered_wood = if total < self.required_wood as i64 {
            total as i32
        } else {
            self.required_wood
        };
    }

    /// A builder works for `elapsed_micros`: with all materials in place the
    /// progress grows, up to the build time. Returns whether the blueprint is complete.
    pub fn work(&mut self, elapsed_micros: u64) -> (complete: bool)
        requires
            old(self).fits(),
        ensures
            final(self).progress_micros == (if old(self).spec_has_materials() {
                let grown = old(self).progress_micros + elapsed_micros;
                if grown < old(self).build_micros {
                    grown
                } else {
                    old(self).build_micros as int
                }
            } else {
                old(self).progress_micros as int
            }),
            final(self).kind == old(self).kind,
            final(self).required_wood == old(self).required_wood,
            final(self).delivered_wood == old(self).delivered_wood,
            final(self).build_micros == old(self).build_micros,
            complete == final(self).spec_is_complete(),
    {
        if self.has_materials() {
            let room = self.build_micros - if self.progress_micros < self.build_micros {
                self.progress_micros
            } else {
                self.build_micros
            };
            self.progress_micros = if elapsed_micros < room {
                self.progress_micros + elapsed_micros
            } else {
                self.build_micros
            };
        }
        self.is_complete()
    }

    /// Fills the blueprint with materials and work at once.
    pub fn finish_instantly(&mut self)
        ensures
            final(self).delivered_wood == old(self).required_wood,
            final(self).progress_micros == old(self).build_micros,
            final(self).kind == old(self).kind,
            final(self).required_wood == old(self).required_wood,
            final(self).build_micros == old(self).build_micros,
    {
        self.delivered_wood = self.required_wood;
        self.progress_micros = self.build_micros;
    }
}

/// A blueprint only completes once its materials are in: however much work it
/// receives, it is not complete while wood is missing.
pub proof fn lemma_no_completion_without_materials(blueprint: Blueprint)
    requires
        blueprint.spec_needs_wood() > 0,
    ensures
        !blueprint.spec_is_complete(),
        blueprint.spec_status() == BlueprintStatus::WaitingForMaterials,
{
}

/// With its materials in, enough work completes a blueprint.
pub proof fn lemma_enough_work_completes(blueprint: Blueprint, elapsed_micros: u64)
    requires
        blueprint.spec_has_materials(),
        blueprint.progress_micros + elapsed_micros >= blueprint.build_micros,
    ensures
        ({
            let worked = Blueprint { progress_micros: blueprint.build_micros, ..blueprint };
            worked.spec_is_complete() && worked.spec_status() == BlueprintStatus::Complete
        }),
{
}

/// A finished building of the given kind.
#[derive(Clone, Copy, Debug)]
pub struct CompletedBuilding {
    pub kind: BuildingKind,
}

/// The cells a plan or building covers, and whether colonists may walk on them.
#[derive(Clone, Debug)]
pub struct Footprint {
    pub cells: Vec<GridCell>,
    pub passable: bool,
}

/// The cell in front of a building's entrance.
#[derive(Clone, Copy, Debug)]
pub struct BuildingEntrance {
    pub cell: GridCell,
}

/// The marker drawn at the entrance of the building with id `owner`.
#[derive(Clone, Copy, Debug)]
pub struct EntranceMarker {
    pub owner: u64,
}

/// The store a building gets when it is completed: houses get a food pantry,
/// storage buildings a public store that starts with four wood, others none.
pub fn completion_inventory(kind: BuildingKind) -> (inventory: Option<Inventory>)
    ensures
        match kind {
            BuildingKind::House => inventory matches Some(store) && store@.capacity
                == HOUSE_FOOD_CAPACITY && store@.wood == 0 && store@.food == 0 && !store@.accepts(
                ResourceKind::Wood,
            ) && store@.accepts(ResourceKind::Food),
            BuildingKind::Storage => inventory matches Some(store) && store@.capacity
                == STORAGE_CAPACITY && store@.wood == 4 && store@.food == 0 && store@.accepts(
                ResourceKind::Wood,
            ) && store@.accepts(ResourceKind::Food),
            _ => inventory is None,
        },
{
    match kind {
        BuildingKind::House => Some(Inventory::home_food(HOUSE_FOOD_CAPACITY)),
        BuildingKind::Storage => {
            let mut store = Inventory::public(STORAGE_CAPACITY);
            store.add(ResourceKind::Wood, 4);
            Some(store)
        },
        _ => None,
    }
}

/// The most residents a house takes.
pub const HOUSING_CAPACITY: usize = 5;

/// The residents of a house, by entity id.
#[derive(Clone, Debug)]
pub struct Housing {
    pub residents: Vec<u64>,
}

impl Default for Housing {
    fn default() -> (housing: Housing)
        ensures
            housing.residents@ == Seq::<u64>::empty(),
    {
        Housing { residents: Vec::new() }
    }
}

impl Housing {
    pub const CAPACITY: usize = 5;

    /// A sound household: no one listed twice, and no more than the capacity.
    pub open spec fn wf(self) -> bool {
        self.residents@.no_duplicates() && self.residents@.len() <= HOUSING_CAPACITY
    }

    pub fn new() -> (housing: Housing)
        ensures
            housing.residents@ == Seq::<u64>::empty(),
    {
        Housing { residents: Vec::new() }
    }

    pub fn resident_count(&self) -> (count: usize)
        ensures
            count == self.residents@.len(),
    {
        self.residents.len()
    }

    pub fn has_space(&self) -> (space: bool)
        ensures
            space == (self.residents@.len() < HOUSING_CAPACITY),
    {
        self.resident_count() < Self::CAPACITY
    }

    /// Moves `resident` in unless they already live here or the house is full.
    pub fn add_resident(&mut self, resident: u64) -> (added: bool)
        ensures
            added == (!old(self).residents@.contains(resident) && old(self).residents@.len()
                < HOUSING_CAPACITY),
            final(self).residents@ == (if added {
                old(self).residents@.push(resident)
            } else {
                old(self).residents@
            }),
    {
        let mut index: usize = 0;
        while index < self.residents.len()
            invariant
                0 <= index <= self.residents@.len(),
                forall|k: int| 0 <= k < index ==> self.residents@[k] != resident,
            decreases self.residents@.len() - index,
        {
            if self.residents[index] == resident {
                assert(self.residents@.contains(resident));
                return false;
            }
            index = index + 1;
        }
        if !self.has_space() {
            return false;
        }
        self.residents.push(resident);
        true
    }

    /// Moves `resident` out.
    pub fn remove_resident(&mut self, resident: u64)
        ensures
            final(self).residents@ == old(self).residents@.filter(|entity: u64| entity != resident),
    {
        let ghost before = self.residents@;
        let mut kept: Vec<u64> = Vec::new();
        let mut index: usize = 0;
        assert(before.take(0) =~= Seq::<u64>::empty());
        while index < self.residents.len()
            invariant
                0 <= index <= before.len(),
                self.residents@ == before,
                kept@ == before.take(index as int).filter(|entity: u64| entity != resident),
            decreases before.len() - index,
        {
            let entity = self.residents[index];
            proof {
                let next = before.take(index + 1);
                assert(next.drop_last() =~= before.take(index as int));
                reveal_with_fuel(Seq::<_>::filter, 1);
            }
            if entity != resident {
                kept.push(entity);
            }
            index = index + 1;
        }
        assert(before.take(index as int) =~= before);
        self.residents = kept;
    }
}

/// Households stay sound: adding or removing residents never lists anyone
/// twice and never exceeds the capacity.
pub proof fn lemma_housing_stays_sound(residents: Seq<u64>, resident: u64)
    requires
        residents.no_duplicates(),
        residents.len() <= HOUSING_CAPACITY,
    ensures
        (!residents.contains(resident) && residents.len() < HOUSING_CAPACITY) ==> (residents.push(
            resident,
        ).no_duplicates() && residents.push(resident).len() <= HOUSING_CAPACITY),
        residents.filter(|entity: u64| entity != resident).no_duplicates(),
        residents.filter(|entity: u64| entity != resident).len() <= HOUSING_CAPACITY,
        !residents.filter(|entity: u64| entity != resident).contains(resident),
{
    let pred = |entity: u64| entity != resident;
    let pushed = residents.push(resident);
    if !residents.contains(resident) {
        assert forall|i: int, j: int|
            0 <= i < pushed.len() && 0 <= j < pushed.len() && i != j implies pushed[i]
            != pushed[j] by {
            if i < residents.len() && j < residents.len() {
            } else if i < residents.len() {
                assert(residents.contains(pushed[i]));
            } else if j < residents.len() {
                assert(residents.contains(pushed[j]));
            }
        }
    }
    broadcast use vstd::seq_lib::group_filter_ensures;

    lemma_filter_keeps_unique(residents, pred);
}

proof fn lemma_filter_keeps_unique(s: Seq<u64>, pred: spec_fn(u64) -> bool)
    requires
        s.no_duplicates(),
    ensures
        s.filter(pred).no_duplicates(),
    decreases s.len(),
{
    reveal_with_fuel(Seq::<_>::filter, 1);
    if s.len() > 0 {
        let rest = s.drop_last();
        assert(rest.no_duplicates()) by {
            assert forall|i: int, j: int|
                0 <= i < rest.len() && 0 <= j < rest.len() && i != j implies rest[i] != rest[j] by {
                assert(rest[i] == s[i] && rest[j] == s[j]);
            }
        }
        lemma_filter_keeps_unique(rest, pred);
        if pred(s.last()) {
            let f = rest.filter(pred);
            assert(!f.contains(s.last())) by {
                if f.contains(s.last()) {
                    rest.lemma_filter_contains_rev(pred, s.last());
                    let m = choose|m: int| 0 <= m < rest.len() && rest[m] == s.last();
                    assert(s[m] == s[s.len() - 1]);
                }
            }
            let pushed = f.push(s.last());
            assert forall|i: int, j: int|
                0 <= i < pushed.len() && 0 <= j < pushed.len() && i != j implies pushed[i]
                != pushed[j] by {
                if i < f.len() && j < f.len() {
                } else if i < f.len() {
                    assert(f.contains(pushed[i]));
                } else if j < f.len() {
                    assert(f.contains(pushed[j]));
                }
            }
        }
    }
}

} // verus!
