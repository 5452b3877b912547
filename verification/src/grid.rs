use vstd::prelude::*;

use crate::cell_table::{CellTable, keys_unique, lemma_table_lookup, table_map};
use crate::types::{GridCell, within_map};

verus! {

/// Movement cost of a road cell, in thousandths of a ground step.
pub const ROAD_COST_MILLIS: u32 = 500;

/// Movement cost of open ground, in thousandths of a ground step.
pub const GROUND_COST_MILLIS: u32 = 1000;

/// Why a plan cannot be placed.
#[derive(Clone, Copy, Debug, PartialEq, Eq, Structural)]
pub enum PlacementIssue {
    OutOfBounds,
    Occupied,
    EntranceBlocked,
    TooSteep,
    TooFewPoints,
    InvalidShape,
}

impl PlacementIssue {
    pub open spec fn spec_label(self) -> Seq<char> {
        match self {
            PlacementIssue::OutOfBounds => "outside the buildable area"@,
            PlacementIssue::Occupied => "blocked by another plan, building, resource, or entrance"@,
            PlacementIssue::EntranceBlocked => "the entrance is blocked"@,
            PlacementIssue::TooSteep => "the terrain is too steep"@,
            PlacementIssue::TooFewPoints => "at least three corners are required"@,
            PlacementIssue::InvalidShape => "the outline must be a convex non-overlapping polygon"@,
        }
    }

    pub fn label(self) -> (text: &'static str)
        ensures
            text@ == self.spec_label(),
    {
        match self {
            PlacementIssue::OutOfBounds => "outside the buildable area",
            PlacementIssue::Occupied => "blocked by another plan, building, resource, or entrance",
            PlacementIssue::EntranceBlocked => "the entrance is blocked",
            PlacementIssue::TooSteep => "the terrain is too steep",
            PlacementIssue::TooFewPoints => "at least three corners are required",
            PlacementIssue::InvalidShape => "the outline must be a convex non-overlapping polygon",
        }
    }
}

/// What occupies a cell: the owning entity (by its id bits) and whether
/// colonists may walk over it (roads).
#[derive(Clone, Copy, Debug, PartialEq, Eq, Structural)]
pub struct OccupiedCell {
    pub entity: u64,
    pub passable: bool,
}

#[verifier::ext_equal]
/// The abstract state of a [`MapGrid`]: which cells are occupied and by what,
/// and which cells are kept free as the entrance of some building.
pub struct MapGridModel {
    pub occupied: Map<GridCell, OccupiedCell>,
    pub reserved_entrances: Map<GridCell, u64>,
}

impl MapGridModel {
    pub open spec fn is_walkable(self, cell: GridCell) -> bool {
        crate::types::spec_within_map(cell) && (!self.occupied.dom().contains(cell)
            || self.occupied[cell].passable)
    }

    /// The first problem with placing a plan covering `cells` with an optional
    /// entrance cell: bounds come first, then occupied cells, then reserved
    /// entrances (when they block), then the entrance itself.
    pub open spec fn placement_issue_for(
        self,
        cells: Seq<GridCell>,
        entrance: Option<GridCell>,
        block_reserved_entrances: bool,
    ) -> Option<PlacementIssue> {
        if exists|i: int| 0 <= i < cells.len() && !crate::types::spec_within_map(#[trigger] cells[i]) {
            Some(PlacementIssue::OutOfBounds)
        } else if exists|i: int|
            0 <= i < cells.len() && self.occupied.dom().contains(#[trigger] cells[i]) {
            Some(PlacementIssue::Occupied)
        } else if block_reserved_entrances && exists|i: int|
            0 <= i < cells.len() && self.reserved_entrances.dom().contains(#[trigger] cells[i]) {
            Some(PlacementIssue::Occupied)
        } else {
            match entrance {
                Some(door) => if !crate::types::spec_within_map(door) {
                    Some(PlacementIssue::OutOfBounds)
                } else if !self.is_walkable(door) || self.reserved_entrances.dom().contains(door) {
                    Some(PlacementIssue::EntranceBlocked)
                } else {
                    None
                },
                None => None,
            }
        }
    }

    /// The grid with `cell` kept free as the entrance of `entity`.
    pub open spec fn reserve_entrance(self, cell: GridCell, entity: u64) -> MapGridModel {
        MapGridModel { reserved_entrances: self.reserved_entrances.insert(cell, entity), ..self }
    }

    /// The grid after `entity` takes every cell of `cells`.
    pub open spec fn occupy(self, cells: Seq<GridCell>, entity: u64, passable: bool) -> MapGridModel {
        MapGridModel {
            occupied: self.occupied.union_prefer_right(
                Map::new(
                    |cell: GridCell| cells.contains(cell),
                    |cell: GridCell| OccupiedCell { entity, passable },
                ),
            ),
            ..self
        }
    }

    /// The grid after every occupation and entrance reservation of `entity` is dropped.
    pub open spec fn release_entity(self, entity: u64) -> MapGridModel {
        MapGridModel {
            occupied: Map::new(
                |cell: GridCell|
                    self.occupied.dom().contains(cell) && self.occupied[cell].entity != entity,
                |cell: GridCell| self.occupied[cell],
            ),
            reserved_entrances: Map::new(
                |cell: GridCell|
                    self.reserved_entrances.dom().contains(cell) && self.reserved_entrances[cell]
                        != entity,
                |cell: GridCell| self.reserved_entrances[cell],
            ),
        }
    }

    /// Cost of stepping onto `cell`, in thousandths: roads are cheap, open ground
    /// costs a full step, and blocked or off-map cells cannot be entered.
    pub open spec fn movement_cost(self, cell: GridCell) -> Option<u32> {
        if !crate::types::spec_within_map(cell) {
            None
        } else if self.occupied.dom().contains(cell) {
            if self.occupied[cell].passable {
                Some(ROAD_COST_MILLIS)
            } else {
                None
            }
        } else {
            Some(GROUND_COST_MILLIS)
        }
    }

    /// The occupied cells that can be walked on.
    pub open spec fn road_cells(self) -> Set<GridCell> {
        self.occupied.dom().filter(|cell: GridCell| self.occupied[cell].passable)
    }

    /// The entities that occupy at least one cell.
    pub open spec fn occupying_entities(self) -> Set<u64> {
        Set::new(
            |entity: u64|
                exists|cell: GridCell|
                    self.occupied.dom().contains(cell) && #[trigger] self.occupied[cell].entity
                        == entity,
        )
    }
}

/// Occupancy of the building grid: which entity holds each cell, and which
/// cells are reserved in front of building entrances.
pub struct MapGrid {
    occupied: CellTable<OccupiedCell>,
    reserved_entrances: CellTable<u64>,
}

impl View for MapGrid {
    type V = MapGridModel;

    closed spec fn view(&self) -> MapGridModel {
        MapGridModel {
            occupied: self.occupied.view(),
            reserved_entrances: self.reserved_entrances.view(),
        }
    }
}

impl Default for MapGrid {
    fn default() -> (grid: MapGrid)
        ensures
            grid@.occupied == Map::<GridCell, OccupiedCell>::empty(),
            grid@.reserved_entrances == Map::<GridCell, u64>::empty(),
    {
        MapGrid { occupied: CellTable::new(), reserved_entrances: CellTable::new() }
    }
}

impl MapGrid {
    pub fn is_area_free(&self, cells: &[GridCell]) -> (free: bool)
        ensures
            free == (self@.placement_issue_for(cells@, None, true) is None),
    {
        self.placement_issue(cells).is_none()
    }

    pub fn placement_issue(&self, cells: &[GridCell]) -> (issue: Option<PlacementIssue>)
        ensures
            issue == self@.placement_issue_for(cells@, None, true),
    {
        self.placement_issue_for(cells, None, true)
    }

    pub fn placement_issue_for(
        &self,
        cells: &[GridCell],
        entrance: Option<GridCell>,
        block_reserved_entrances: bool,
    ) -> (issue: Option<PlacementIssue>)
        ensures
            issue == self@.placement_issue_for(cells@, entrance, block_reserved_entrances),
    {
        let mut index: usize = 0;
        while index < cells.len()
            invariant
                0 <= index <= cells@.len(),
                forall|i: int| 0 <= i < index ==> crate::types::spec_within_map(#[trigger] cells@[i]),
            decreases cells@.len() - index,
        {
            if !within_map(cells[index]) {
                return Some(PlacementIssue::OutOfBounds);
            }
            index = index + 1;
        }
        let mut index: usize = 0;
        while index < cells.len()
            invariant
                0 <= index <= cells@.len(),
                forall|i: int| 0 <= i < index ==> !self@.occupied.dom().contains(#[trigger] cells@[i]),
                forall|i: int| 0 <= i < cells@.len() ==> crate::types::spec_within_map(#[trigger] cells@[i]),
            decreases cells@.len() - index,
        {
            if self.occupied.contains(cells[index]) {
                assert(self@.occupied.dom().contains(cells@[index as int]));
                return Some(PlacementIssue::Occupied);
            }
            index = index + 1;
        }
        if block_reserved_entrances {
            let mut index: usize = 0;
            while index < cells.len()
                invariant
                    0 <= index <= cells@.len(),
                    forall|i: int|
                        0 <= i < index ==> !self@.reserved_entrances.dom().contains(
                            #[trigger] cells@[i],
                        ),
                    forall|i: int| 0 <= i < cells@.len() ==> crate::types::spec_within_map(#[trigger] cells@[i]),
                    forall|i: int| 0 <= i < cells@.len() ==> !self@.occupied.dom().contains(#[trigger] cells@[i]),
                    block_reserved_entrances,
                decreases cells@.len() - index,
            {
                if self.reserved_entrances.contains(cells[index]) {
                    assert(self@.reserved_entrances.dom().contains(cells@[index as int]));
                    return Some(PlacementIssue::Occupied);
                }
                index = index + 1;
            }
        }
        if let Some(door) = entrance {
            if !within_map(door) {
                return Some(PlacementIssue::OutOfBounds);
            }
            if !self.is_walkable(door) || self.reserved_entrances.contains(door) {
                return Some(PlacementIssue::EntranceBlocked);
            }
        }
        None
    }

    /// Marks every cell of `cells` as held by `entity`.
    pub fn occupy(&mut self, cells: &[GridCell], entity: u64, passable: bool)
        ensures
            final(self)@ == old(self)@.occupy(cells@, entity, passable),
    {
        let ghost start = self@;
        assert(start.occupy(cells@.take(0), entity, passable) =~= start);
        let mut index: usize = 0;
        while index < cells.len()
            invariant
                0 <= index <= cells@.len(),
                start == old(self)@,
                self@ == start.occupy(cells@.take(index as int), entity, passable),
            decreases cells@.len() - index,
        {
            let ghost before = self@;
            let cell = cells[index];
            self.occupied.insert(cell, OccupiedCell { entity, passable });
            proof {
                let prefix = cells@.take(index as int);
                let next = cells@.take(index + 1);
                assert(next =~= prefix.push(cell));
                assert forall|k: GridCell| next.contains(k) <==> (prefix.contains(k) || k == cell) by {
                    if next.contains(k) {
                        let m = choose|m: int| 0 <= m < next.len() && next[m] == k;
                        if m < prefix.len() {
                            assert(prefix[m] == k);
                        }
                    }
                    if prefix.contains(k) {
                        let m = choose|m: int| 0 <= m < prefix.len() && prefix[m] == k;
                        assert(next[m] == k);
                    }
                    if k == cell {
                        assert(next[index as int] == k);
                    }
                }
                assert(self@.occupied =~= start.occupy(next, entity, passable).occupied);
                assert(self@ =~= start.occupy(next, entity, passable));
            }
            index = index + 1;
        }
        assert(cells@.take(index as int) =~= cells@);
    }

    /// Keeps `cell` free as the entrance of `entity`.
    pub fn reserve_entrance(&mut self, cell: GridCell, entity: u64)
        ensures
            final(self)@ == old(self)@.reserve_entrance(cell, entity),
    {
        self.reserved_entrances.insert(cell, entity);
    }

    /// Drops every cell and entrance that `entity` holds.
    pub fn release_entity(&mut self, entity: u64)
        ensures
            final(self)@ == old(self)@.release_entity(entity),
    {
        let keep_cell = |cell: OccupiedCell| -> (kept: bool)
            ensures
                kept == (cell.entity != entity),
            { cell.entity != entity };
        self.occupied.retain(keep_cell, Ghost(|cell: OccupiedCell| cell.entity != entity));
        let keep_owner = |owner: u64| -> (kept: bool)
            ensures
                kept == (owner != entity),
            { owner != entity };
        self.reserved_entrances.retain(keep_owner, Ghost(|owner: u64| owner != entity));
        assert(self@.occupied =~= old(self)@.release_entity(entity).occupied);
        assert(self@.reserved_entrances =~= old(self)@.release_entity(entity).reserved_entrances);
        assert(self@ =~= old(self)@.release_entity(entity));
    }

    /// Thousandths of a step to enter `cell`; `None` where it cannot be entered.
    pub fn movement_cost(&self, cell: GridCell) -> (cost: Option<u32>)
        ensures
            cost == self@.movement_cost(cell),
    {
        if !within_map(cell) {
            return None;
        }
        match self.occupied.get(cell) {
            Some(occupied) => if occupied.passable {
                Some(ROAD_COST_MILLIS)
            } else {
                None
            },
            None => Some(GROUND_COST_MILLIS),
        }
    }

    pub fn is_walkable(&self, cell: GridCell) -> (walkable: bool)
        ensures
            walkable == self@.is_walkable(cell),
    {
        if !within_map(cell) {
            return false;
        }
        match self.occupied.get(cell) {
            Some(occupied) => occupied.passable,
            None => true,
        }
    }

    /// Counts of occupied cells, road cells, and distinct occupying entities.
    pub fn summary(&self) -> (counts: (usize, usize, usize))
        ensures
            counts.0 == self@.occupied.dom().len(),
            counts.1 == self@.road_cells().len(),
            counts.2 == self@.occupying_entities().len(),
    {
        let occupied_count = self.occupied.len();
        let entries = self.occupied.entries();
        let ghost map = self@.occupied;
        let mut road_count: usize = 0;
        let mut entities: Vec<u64> = Vec::new();
        let ghost mut roads = Set::<GridCell>::empty();
        let ghost mut seen = Set::<u64>::empty();
        let mut index: usize = 0;
        while index < entries.len()
            invariant
                0 <= index <= entries@.len(),
                keys_unique(entries@),
                table_map(entries@) == map,
                map.dom().finite(),
                map.dom().len() <= usize::MAX,
                roads.finite(),
                road_count == roads.len(),
                forall|cell: GridCell|
                    #[trigger] roads.contains(cell) <==> exists|k: int|
                        0 <= k < index && entries@[k].0 == cell && entries@[k].1.passable,
                entities@.no_duplicates(),
                entities@.len() == seen.len(),
                entities@.len() <= index,
                seen.finite(),
                forall|e: u64| #[trigger] seen.contains(e) <==> entities@.contains(e),
                forall|e: u64|
                    #[trigger] seen.contains(e) <==> exists|k: int|
                        0 <= k < index && entries@[k].1.entity == e,
                roads.subset_of(map.dom()),
            decreases entries@.len() - index,
        {
            let (cell, occupied) = entries[index];
            proof {
                lemma_table_lookup(entries@, index as int);
            }
            if occupied.passable {
                proof {
                    assert(!roads.contains(cell)) by {
                        if roads.contains(cell) {
                            let k = choose|k: int|
                                0 <= k < index && entries@[k].0 == cell && entries@[k].1.passable;
                            assert(k != index);
                        }
                    }
                    vstd::set_lib::lemma_len_subset(roads.insert(cell), map.dom());
                    roads = roads.insert(cell);
                }
                road_count = road_count + 1;
            }
            let mut known = false;
            let mut scan: usize = 0;
            while scan < entities.len()
                invariant
                    0 <= scan <= entities@.len(),
                    known == exists|m: int| 0 <= m < scan && entities@[m] == occupied.entity,
                decreases entities@.len() - scan,
            {
                if entities[scan] == occupied.entity {
                    known = true;
                }
                scan = scan + 1;
            }
            if !known {
                proof {
                    assert(!entities@.contains(occupied.entity));
                    seen = seen.insert(occupied.entity);
                }
                let ghost old_entities = entities@;
                entities.push(occupied.entity);
                proof {
                    assert forall|e: u64|
                        entities@.contains(e) <==> (old_entities.contains(e) || e == occupied.entity) by {
                        if entities@.contains(e) {
                            let m = choose|m: int| 0 <= m < entities@.len() && entities@[m] == e;
                            if m < old_entities.len() {
                                assert(old_entities[m] == e);
                            }
                        }
                        if old_entities.contains(e) {
                            let m = choose|m: int| 0 <= m < old_entities.len() && old_entities[m] == e;
                            assert(entities@[m] == e);
                        }
                        if e == occupied.entity {
                            assert(entities@[old_entities.len() as int] == e);
                        }
                    }
                }
            } else {
                proof {
                    let m = choose|m: int| 0 <= m < scan && entities@[m] == occupied.entity;
                    assert(entities@.contains(occupied.entity));
                }
            }
            index = index + 1;
        }
        proof {
            assert(roads =~= self@.road_cells()) by {
                assert forall|cell: GridCell| roads.contains(cell) <==> self@.road_cells().contains(cell) by {
                    if self@.road_cells().contains(cell) {
                        let k = choose|k: int| 0 <= k < entries@.len() && entries@[k].0 == cell;
                        lemma_table_lookup(entries@, k);
                    }
                    if roads.contains(cell) {
                        let k = choose|k: int|
                            0 <= k < index && entries@[k].0 == cell && entries@[k].1.passable;
                        lemma_table_lookup(entries@, k);
                    }
                }
            }
            assert(seen =~= self@.occupying_entities()) by {
                assert forall|e: u64| seen.contains(e) <==> self@.occupying_entities().contains(e) by {
                    if seen.contains(e) {
                        let k = choose|k: int| 0 <= k < index && entries@[k].1.entity == e;
                        lemma_table_lookup(entries@, k);
                        assert(map.dom().contains(entries@[k].0) && map[entries@[k].0].entity == e);
                    }
                    if self@.occupying_entities().contains(e) {
                        let cell = choose|cell: GridCell|
                            map.dom().contains(cell) && #[trigger] map[cell].entity == e;
                        let k = choose|k: int| 0 <= k < entries@.len() && entries@[k].0 == cell;
                        lemma_table_lookup(entries@, k);
                    }
                }
            }
        }
        (occupied_count, road_count, entities.len())
    }
}


/// Once a plan's cells are occupied, the same cells can no longer be planned on:
/// placement reports them as occupied (when they lie on the map).
pub proof fn lemma_occupied_area_is_not_free(
    grid: MapGridModel,
    cells: Seq<GridCell>,
    entity: u64,
    passable: bool,
    entrance: Option<GridCell>,
    block_reserved_entrances: bool,
)
    requires
        cells.len() > 0,
        forall|i: int| 0 <= i < cells.len() ==> crate::types::spec_within_map(#[trigger] cells[i]),
    ensures
        grid.occupy(cells, entity, passable).placement_issue_for(
            cells,
            entrance,
            block_reserved_entrances,
        ) == Some(PlacementIssue::Occupied),
{
    let after = grid.occupy(cells, entity, passable);
    assert(cells.contains(cells[0]));
    assert(after.occupied.dom().contains(cells[0]));
}

/// Releasing an entity undoes its occupation: for an entity that held nothing
/// before, occupying cells and then releasing the entity restores the grid.
pub proof fn lemma_release_undoes_occupy(
    grid: MapGridModel,
    cells: Seq<GridCell>,
    entity: u64,
    passable: bool,
)
    requires
        forall|cell: GridCell|
            grid.occupied.dom().contains(cell) ==> #[trigger] grid.occupied[cell].entity != entity,
        forall|cell: GridCell|
            grid.reserved_entrances.dom().contains(cell) ==> #[trigger] grid.reserved_entrances[cell]
                != entity,
        forall|i: int| 0 <= i < cells.len() ==> !grid.occupied.dom().contains(#[trigger] cells[i]),
    ensures
        grid.occupy(cells, entity, passable).release_entity(entity) == grid,
{
    let after = grid.occupy(cells, entity, passable).release_entity(entity);
    assert forall|cell: GridCell| #![auto]
        after.occupied.dom().contains(cell) == grid.occupied.dom().contains(cell) by {
        if cells.contains(cell) {
            let i = choose|i: int| 0 <= i < cells.len() && cells[i] == cell;
            assert(!grid.occupied.dom().contains(cells[i]));
        }
    }
    assert(after.occupied =~= grid.occupied);
    assert(after.reserved_entrances =~= grid.reserved_entrances);
    assert(after =~= grid);
}

/// Released cells become walkable again unless another entity holds them as a
/// non-road cell.
pub proof fn lemma_release_frees_cells(grid: MapGridModel, entity: u64, cell: GridCell)
    requires
        crate::types::spec_within_map(cell),
        grid.occupied.dom().contains(cell),
        grid.occupied[cell].entity == entity,
    ensures
        grid.release_entity(entity).is_walkable(cell),
{
}

} // verus!
