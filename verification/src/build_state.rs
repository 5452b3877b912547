use vstd::prelude::*;

use crate::blueprint::{Blueprint, Footprint};
use crate::grid::{MapGrid, MapGridModel, PlacementIssue, lemma_occupied_area_is_not_free};
use crate::text::{decimal, join, spell};
use crate::types::{
    BuildingKind,
    GridCell,
    entrance_cell,
    entrance_fits,
    footprint_cells,
    footprint_contents,
    footprint_fits,
    footprint_start,
    rotated_direction,
    rotated_size,
    spec_entrance_cell,
    spec_rotated_size,
};

verus! {

/// The footprint size of `kind` turned by `rotation_steps` quarter turns.
pub open spec fn plan_size(kind: BuildingKind, rotation_steps: i32) -> GridCell {
    spec_rotated_size(kind.spec_size(), rotation_steps)
}

pub open spec fn spec_planned_entrance_cell(
    kind: BuildingKind,
    center: GridCell,
    rotation_steps: i32,
) -> Option<GridCell> {
    match kind.spec_entrance_direction() {
        Some(direction) => Some(spec_entrance_cell(center, kind.spec_size(), rotation_steps, direction)),
        None => None,
    }
}

/// Whether the entrance of a plan of `kind` centred on `center` lies within `i32`
/// (always, for kinds without an entrance).
pub open spec fn entrance_plan_fits(kind: BuildingKind, center: GridCell, rotation_steps: i32) -> bool {
    match kind.spec_entrance_direction() {
        Some(direction) => entrance_fits(center, kind.spec_size(), rotation_steps, direction),
        None => true,
    }
}

/// Whether the footprint and entrance of a plan of `kind` centred on `center` lie
/// within `i32`: true everywhere but a few cells from its limits.
pub open spec fn plan_fits(kind: BuildingKind, center: GridCell, rotation_steps: i32) -> bool {
    footprint_fits(center, plan_size(kind, rotation_steps)) && entrance_plan_fits(kind, center, rotation_steps)
}

/// The lowest and highest cell coordinates of a plan of `kind` turned by
/// `rotation_steps`, centred on `center`: `(min x, min y, max x, max y)`.
fn plan_span(kind: BuildingKind, center: GridCell, rotation_steps: i32) -> (span: (i64, i64, i64, i64))
    ensures
        ({
            let size = plan_size(kind, rotation_steps);
            let start = footprint_start(center, size);
            &&& 1 <= size.x <= 3
            &&& 1 <= size.y <= 3
            &&& span.0 == start.0
            &&& span.1 == start.1
            &&& span.2 == start.0 + size.x - 1
            &&& span.3 == start.1 + size.y - 1
        }),
{
    let definition = kind.definition();
    let size = rotated_size(definition.size, rotation_steps);
    assert(1 <= size.x <= 3 && 1 <= size.y <= 3);
    let start_x: i64 = center.x as i64 - ((size.x - 1) / 2) as i64;
    let start_y: i64 = center.y as i64 - ((size.y - 1) / 2) as i64;
    (start_x, start_y, start_x + size.x as i64 - 1, start_y + size.y as i64 - 1)
}

/// Whether a span of cell coordinates lies within `i32`.
fn span_fits(span: (i64, i64, i64, i64)) -> (fits: bool)
    ensures
        fits == (i32::MIN <= span.0 && span.2 <= i32::MAX && i32::MIN <= span.1 && span.3 <= i32::MAX),
{
    let lowest: i64 = i32::MIN as i64;
    let highest: i64 = i32::MAX as i64;
    lowest <= span.0 && span.2 <= highest && lowest <= span.1 && span.3 <= highest
}

/// Decides `entrance_plan_fits`.
pub fn entrance_plan_fits_at(kind: BuildingKind, center: GridCell, rotation_steps: i32) -> (fits: bool)
    ensures
        fits == entrance_plan_fits(kind, center, rotation_steps),
{
    match kind.entrance_direction() {
        None => true,
        Some(direction) => {
            let span = plan_span(kind, center, rotation_steps);
            let ghost size = plan_size(kind, rotation_steps);
            assert(0 <= size.x * size.y <= 9) by (nonlinear_arith)
                requires
                    1 <= size.x <= 3,
                    1 <= size.y <= 3,
            ;
            let lowest: i64 = i32::MIN as i64;
            let highest: i64 = i32::MAX as i64;
            let d = rotated_direction(direction, rotation_steps);
            let beyond = if d.x < 0 {
                lowest <= span.0 - 1
            } else if d.x > 0 {
                span.2 + 1 <= highest
            } else if d.y < 0 {
                lowest <= span.1 - 1
            } else if d.y > 0 {
                span.3 + 1 <= highest
            } else {
                true
            };
            span_fits(span) && beyond
        },
    }
}

/// Decides `plan_fits`.
pub fn plan_fits_at(kind: BuildingKind, center: GridCell, rotation_steps: i32) -> (fits: bool)
    ensures
        fits == plan_fits(kind, center, rotation_steps),
{
    let span = plan_span(kind, center, rotation_steps);
    let ghost size = plan_size(kind, rotation_steps);
    assert(0 <= size.x * size.y <= 9) by (nonlinear_arith)
        requires
            1 <= size.x <= 3,
            1 <= size.y <= 3,
    ;
    span_fits(span) && entrance_plan_fits_at(kind, center, rotation_steps)
}

/// The cell in front of the entrance a plan of `kind` centred on `center` would have.
pub fn planned_entrance_cell(kind: BuildingKind, center: GridCell, rotation_steps: i32) -> (entrance:
    Option<GridCell>)
    requires
        entrance_plan_fits(kind, center, rotation_steps),
    ensures
        entrance == spec_planned_entrance_cell(kind, center, rotation_steps),
{
    match kind.entrance_direction() {
        Some(direction) => {
            let definition = kind.definition();
            Some(entrance_cell(center, definition.size, rotation_steps, direction))
        },
        None => None,
    }
}

/// The build tool: the kind being planned, grid snapping, rotation, and the last
/// plan checked under the cursor. `P` is the world position type, carried along.
#[derive(Debug)]
pub struct BuildState<P> {
    pub selected: Option<BuildingKind>,
    pub snap_to_grid: bool,
    pub rotation_steps: i32,
    pub preview_entity: Option<u64>,
    pub last_valid: bool,
    pub last_position: P,
    pub last_center: GridCell,
    pub last_cells: Vec<GridCell>,
    pub invalid_reason: Option<PlacementIssue>,
    pub status: String,
}

/// The build keys pressed in one frame: one flag per kind in hotkey order, then
/// the snap toggle, the rotate key, Escape and the right mouse button.
#[derive(Clone, Copy, Debug)]
pub struct BuildKeys {
    pub kind_pressed: [bool; 5],
    pub toggle_snap: bool,
    pub rotate: bool,
    pub escape: bool,
    pub right_click: bool,
}

/// The kind of the `index`th hotkey.
pub open spec fn hotkey_kind(index: int) -> BuildingKind {
    if index == 0 {
        BuildingKind::House
    } else if index == 1 {
        BuildingKind::Storage
    } else if index == 2 {
        BuildingKind::Woodcutter
    } else if index == 3 {
        BuildingKind::Gatherer
    } else {
        BuildingKind::Road
    }
}

/// The kind of the last hotkey pressed among the first `count`, if any.
pub open spec fn last_pressed(pressed: Seq<bool>, count: int) -> Option<BuildingKind>
    decreases count,
{
    if count <= 0 {
        None
    } else if pressed[count - 1] {
        Some(hotkey_kind(count - 1))
    } else {
        last_pressed(pressed, count - 1)
    }
}

pub open spec fn planning_status(kind: BuildingKind) -> Seq<char> {
    "Planning "@ + kind.spec_label() + "."@
}

pub open spec fn ready_status(kind: BuildingKind) -> Seq<char> {
    kind.spec_label() + " blueprint ready. Cost: "@ + decimal(kind.spec_wood_cost() as int)
        + " wood."@
}

pub open spec fn refused_status(kind: BuildingKind, issue: PlacementIssue) -> Seq<char> {
    "Cannot place "@ + kind.spec_label() + ": "@ + issue.spec_label() + "."@
}

pub open spec fn placed_status(kind: BuildingKind) -> Seq<char> {
    "Placed "@ + kind.spec_label() + " blueprint."@
}

/// The issue that stops a plan of `kind` with these cells and entrance, if any.
pub open spec fn plan_issue(
    grid: MapGridModel,
    kind: BuildingKind,
    cells: Seq<GridCell>,
    center: GridCell,
    rotation_steps: i32,
) -> Option<PlacementIssue> {
    grid.placement_issue_for(
        cells,
        spec_planned_entrance_cell(kind, center, rotation_steps),
        kind != BuildingKind::Road,
    )
}

/// A plan reaching off the map is refused as out of bounds, and one on the map
/// that covers a cell held by a building, plan or resource is refused as occupied.
pub proof fn lemma_plans_stay_on_free_ground(
    grid: MapGridModel,
    kind: BuildingKind,
    cells: Seq<GridCell>,
    center: GridCell,
    rotation_steps: i32,
    cell: int,
)
    requires
        0 <= cell < cells.len(),
    ensures
        !crate::types::spec_within_map(cells[cell]) ==> plan_issue(grid, kind, cells, center, rotation_steps)
            == Some(PlacementIssue::OutOfBounds),
        (forall|i: int| 0 <= i < cells.len() ==> crate::types::spec_within_map(#[trigger] cells[i]))
            && grid.occupied.dom().contains(cells[cell]) ==> plan_issue(grid, kind, cells, center, rotation_steps)
            == Some(PlacementIssue::Occupied),
{
    if !crate::types::spec_within_map(cells[cell]) {
        assert(exists|i: int| 0 <= i < cells.len() && !crate::types::spec_within_map(#[trigger] cells[i]));
    }
    if grid.occupied.dom().contains(cells[cell]) {
        assert(exists|i: int| 0 <= i < cells.len() && grid.occupied.dom().contains(#[trigger] cells[i]));
    }
}

/// Roads may be laid up to a door: a road plan whose cells all lie on the map and
/// are free of buildings, plans and resources has no placement issue, even where
/// its cells are kept free as the entrance of a building.
pub proof fn lemma_roads_may_cross_entrances(
    grid: MapGridModel,
    cells: Seq<GridCell>,
    center: GridCell,
    rotation_steps: i32,
)
    requires
        forall|i: int| 0 <= i < cells.len() ==> crate::types::spec_within_map(#[trigger] cells[i]),
        forall|i: int| 0 <= i < cells.len() ==> !grid.occupied.dom().contains(#[trigger] cells[i]),
    ensures
        plan_issue(grid, BuildingKind::Road, cells, center, rotation_steps) is None,
{
}

/// Buildings keep off entrances: a plan of any kind but a road whose cells lie on
/// the map and are free, but cover a cell kept free as an entrance, is refused as
/// occupied.
pub proof fn lemma_buildings_keep_off_entrances(
    grid: MapGridModel,
    kind: BuildingKind,
    cells: Seq<GridCell>,
    center: GridCell,
    rotation_steps: i32,
    covered: int,
)
    requires
        kind != BuildingKind::Road,
        forall|i: int| 0 <= i < cells.len() ==> crate::types::spec_within_map(#[trigger] cells[i]),
        forall|i: int| 0 <= i < cells.len() ==> !grid.occupied.dom().contains(#[trigger] cells[i]),
        0 <= covered < cells.len(),
        grid.reserved_entrances.dom().contains(cells[covered]),
    ensures
        plan_issue(grid, kind, cells, center, rotation_steps) == Some(PlacementIssue::Occupied),
{
    assert(exists|i: int| 0 <= i < cells.len() && grid.reserved_entrances.dom().contains(#[trigger] cells[i]));
}

/// The grid after a blueprint of `kind` owned by `entity` takes the plan's cells
/// and, if it has one, its entrance.
pub open spec fn grid_after_placing(
    grid: MapGridModel,
    kind: BuildingKind,
    cells: Seq<GridCell>,
    center: GridCell,
    rotation_steps: i32,
    entity: u64,
) -> MapGridModel {
    let taken = grid.occupy(cells, entity, kind == BuildingKind::Road);
    match spec_planned_entrance_cell(kind, center, rotation_steps) {
        Some(cell) => taken.reserve_entrance(cell, entity),
        None => taken,
    }
}

/// A placed plan holds its ground: once a valid plan's cells are taken by its
/// blueprint, the same plan is refused as occupied.
pub proof fn lemma_placed_plan_is_refused_again(
    grid: MapGridModel,
    kind: BuildingKind,
    cells: Seq<GridCell>,
    center: GridCell,
    rotation_steps: i32,
    entity: u64,
)
    requires
        cells.len() > 0,
        plan_issue(grid, kind, cells, center, rotation_steps) is None,
    ensures
        plan_issue(
            grid_after_placing(grid, kind, cells, center, rotation_steps, entity),
            kind,
            cells,
            center,
            rotation_steps,
        ) == Some(PlacementIssue::Occupied),
{
    assert forall|i: int| 0 <= i < cells.len() implies crate::types::spec_within_map(#[trigger] cells[i]) by {
        if !crate::types::spec_within_map(cells[i]) {
            assert(exists|j: int| 0 <= j < cells.len() && !crate::types::spec_within_map(#[trigger] cells[j]));
        }
    }
    let entrance = spec_planned_entrance_cell(kind, center, rotation_steps);
    lemma_occupied_area_is_not_free(
        grid,
        cells,
        entity,
        kind == BuildingKind::Road,
        entrance,
        kind != BuildingKind::Road,
    );
    let taken = grid.occupy(cells, entity, kind == BuildingKind::Road);
    assert(taken.occupied.dom().contains(cells[0]));
    let after = grid_after_placing(grid, kind, cells, center, rotation_steps, entity);
    assert(after.occupied == taken.occupied);
    assert(after.occupied.dom().contains(cells[0]));
}

/// A blueprint just placed, with the cells it covers and its entrance.
#[derive(Debug)]
pub struct PlacedBlueprint {
    pub blueprint: Blueprint,
    pub footprint: Footprint,
    pub entrance: Option<GridCell>,
}

fn planning_text(kind: BuildingKind) -> (text: String)
    ensures
        text@ == planning_status(kind),
{
    let definition = kind.definition();
    join("Planning ", definition.label, ".")
}

impl<P: Default> Default for BuildState<P> {
    /// Nothing selected, grid snap on, no rotation, and the default position.
    fn default() -> (state: BuildState<P>)
        ensures
            state.selected == None::<BuildingKind>,
            state.snap_to_grid,
            state.rotation_steps == 0,
            state.preview_entity == None::<u64>,
            !state.last_valid,
            state.last_cells@ == Seq::<GridCell>::empty(),
            state.invalid_reason == None::<PlacementIssue>,
            state.status@ == "Select a building to start planning."@,
    {
        BuildState::new(P::default())
    }
}

impl<P> BuildState<P> {
    /// Nothing selected, grid snap on, no rotation; `origin` stands for the last
    /// position until a plan is checked.
    pub fn new(origin: P) -> (state: BuildState<P>)
        ensures
            state.selected == None::<BuildingKind>,
            state.snap_to_grid,
            state.rotation_steps == 0,
            state.preview_entity == None::<u64>,
            !state.last_valid,
            state.last_position == origin,
            state.last_cells@ == Seq::<GridCell>::empty(),
            state.invalid_reason == None::<PlacementIssue>,
            state.status@ == "Select a building to start planning."@,
    {
        BuildState {
            selected: None,
            snap_to_grid: true,
            rotation_steps: 0,
            preview_entity: None,
            last_valid: false,
            last_position: origin,
            last_center: GridCell { x: 0, y: 0 },
            last_cells: Vec::new(),
            invalid_reason: None,
            status: "Select a building to start planning.".to_owned(),
        }
    }

    /// Starts planning `kind`.
    pub fn select_construction(&mut self, kind: BuildingKind)
        ensures
            final(self).status@ == planning_status(kind),
            *final(self) == (BuildState {
                selected: Some(kind),
                status: final(self).status,
                ..*old(self)
            }),
    {
        self.selected = Some(kind);
        self.status = planning_text(kind);
    }

    /// Leaves build mode.
    pub fn cancel(&mut self)
        ensures
            final(self).status@ == "Build mode cancelled."@,
            *final(self) == (BuildState {
                selected: None,
                last_valid: false,
                invalid_reason: None,
                status: final(self).status,
                ..*old(self)
            }),
    {
        self.selected = None;
        self.last_valid = false;
        self.invalid_reason = None;
        self.status = "Build mode cancelled.".to_owned();
    }

    /// Turns grid snapping on or off.
    pub fn toggle_snap(&mut self)
        ensures
            final(self).status@ == (if final(self).snap_to_grid {
                "Grid snap on."@
            } else {
                "Grid snap off."@
            }),
            *final(self) == (BuildState {
                snap_to_grid: !old(self).snap_to_grid,
                status: final(self).status,
                ..*old(self)
            }),
    {
        self.snap_to_grid = !self.snap_to_grid;
        self.status = if self.snap_to_grid {
            "Grid snap on.".to_owned()
        } else {
            "Grid snap off.".to_owned()
        };
    }

    /// Turns the plan a quarter turn.
    pub fn rotate(&mut self)
        requires
            old(self).rotation_steps < i32::MAX,
        ensures
            final(self).rotation_steps == (old(self).rotation_steps + 1) % 4,
            *final(self) == (BuildState { rotation_steps: final(self).rotation_steps, ..*old(self) }),
    {
        let turned = self.rotation_steps + 1;
        let steps = turned.checked_rem_euclid(4);
        match steps {
            Some(value) => self.rotation_steps = value,
            None => {},
        }
    }

    /// Applies one frame of build keys: hotkeys select (the last one pressed wins),
    /// G toggles snapping, R rotates, and Escape, or a right click while planning,
    /// leaves build mode.
    pub fn apply_keys(&mut self, keys: &BuildKeys)
        requires
            old(self).rotation_steps < i32::MAX,
        ensures
            ({
                let chosen = match last_pressed(keys.kind_pressed@, 5) {
                    Some(kind) => Some(kind),
                    None => old(self).selected,
                };
                let cancelled = keys.escape || (chosen is Some && keys.right_click);
                &&& final(self).selected == (if cancelled {
                    None
                } else {
                    chosen
                })
                &&& final(self).snap_to_grid == (if keys.toggle_snap {
                    !old(self).snap_to_grid
                } else {
                    old(self).snap_to_grid
                })
                &&& final(self).rotation_steps == (if keys.rotate {
                    (old(self).rotation_steps + 1) % 4
                } else {
                    old(self).rotation_steps as int
                })
                &&& final(self).last_valid == (!cancelled && old(self).last_valid)
                &&& final(self).invalid_reason == (if cancelled {
                    None
                } else {
                    old(self).invalid_reason
                })
                &&& final(self).preview_entity == old(self).preview_entity
                &&& final(self).last_position == old(self).last_position
                &&& final(self).last_center == old(self).last_center
                &&& final(self).last_cells == old(self).last_cells
                &&& final(self).status@ == (if cancelled {
                    "Build mode cancelled."@
                } else if keys.toggle_snap {
                    if final(self).snap_to_grid {
                        "Grid snap on."@
                    } else {
                        "Grid snap off."@
                    }
                } else {
                    match last_pressed(keys.kind_pressed@, 5) {
                        Some(kind) => planning_status(kind),
                        None => old(self).status@,
                    }
                })
            }),
    {
        let mut index: usize = 0;
        while index < 5
            invariant
                0 <= index <= 5,
                keys.kind_pressed@.len() == 5,
                self.selected == (match last_pressed(keys.kind_pressed@, index as int) {
                    Some(kind) => Some(kind),
                    None => old(self).selected,
                }),
                self.status@ == (match last_pressed(keys.kind_pressed@, index as int) {
                    Some(kind) => planning_status(kind),
                    None => old(self).status@,
                }),
                self.snap_to_grid == old(self).snap_to_grid,
                self.rotation_steps == old(self).rotation_steps,
                self.last_valid == old(self).last_valid,
                self.invalid_reason == old(self).invalid_reason,
                self.preview_entity == old(self).preview_entity,
                self.last_position == old(self).last_position,
                self.last_center == old(self).last_center,
                self.last_cells == old(self).last_cells,
            decreases 5 - index,
        {
            if keys.kind_pressed[index] {
                let kind = match index {
                    0 => BuildingKind::House,
                    1 => BuildingKind::Storage,
                    2 => BuildingKind::Woodcutter,
                    3 => BuildingKind::Gatherer,
                    _ => BuildingKind::Road,
                };
                self.select_construction(kind);
            }
            index = index + 1;
        }
        if keys.toggle_snap {
            self.toggle_snap();
        }
        if keys.rotate {
            self.rotate();
        }
        if keys.escape || (self.selected.is_some() && keys.right_click) {
            self.cancel();
        }
    }

    /// No cursor on the ground, or nothing selected: no plan is shown or valid.
    pub fn hide_plan(&mut self)
        ensures
            *final(self) == (BuildState { last_valid: false, invalid_reason: None, ..*old(self) }),
    {
        self.invalid_reason = None;
        self.last_valid = false;
    }

    /// Checks the plan of the selected kind centred on `center` against `grid`,
    /// remembering its cells and why it cannot be placed, if it cannot.
    /// `position` is where the plan is drawn.
    /// A plan so close to the `i32` limits that its cells or entrance would pass
    /// them is refused as out of bounds, with no cells: it lies far off the map.
    pub fn update_plan(&mut self, kind: BuildingKind, center: GridCell, position: P, grid: &MapGrid)
        ensures
            plan_fits(kind, center, old(self).rotation_steps) ==> footprint_contents(
                final(self).last_cells@,
                center,
                plan_size(kind, old(self).rotation_steps),
            ) && final(self).invalid_reason == plan_issue(
                grid@,
                kind,
                final(self).last_cells@,
                center,
                old(self).rotation_steps,
            ),
            !plan_fits(kind, center, old(self).rotation_steps) ==> final(self).last_cells@.len() == 0
                && final(self).invalid_reason == Some(PlacementIssue::OutOfBounds),
            final(self).last_valid == (final(self).invalid_reason is None),
            final(self).last_position == position,
            final(self).last_center == center,
            final(self).status@ == (match final(self).invalid_reason {
                None => ready_status(kind),
                Some(issue) => refused_status(kind, issue),
            }),
            final(self).selected == old(self).selected,
            final(self).snap_to_grid == old(self).snap_to_grid,
            final(self).rotation_steps == old(self).rotation_steps,
            final(self).preview_entity == old(self).preview_entity,
    {
        let definition = kind.definition();
        let (cells, issue) = if plan_fits_at(kind, center, self.rotation_steps) {
            let size = rotated_size(definition.size, self.rotation_steps);
            let cells = footprint_cells(center, size);
            let entrance = planned_entrance_cell(kind, center, self.rotation_steps);
            let issue = grid.placement_issue_for(cells.as_slice(), entrance, kind != BuildingKind::Road);
            (cells, issue)
        } else {
            (Vec::new(), Some(PlacementIssue::OutOfBounds))
        };
        self.last_valid = issue.is_none();
        self.invalid_reason = issue;
        self.last_position = position;
        self.last_center = center;
        self.last_cells = cells;
        self.status = match issue {
            None => {
                let head = join(definition.label, " blueprint ready. Cost: ", "");
                proof {
                    reveal_strlit("");
                }
                spell(head.as_str(), definition.wood_cost as i64, " wood.", "")
            },
            Some(issue) => {
                let head = join("Cannot place ", definition.label, ": ");
                join(head.as_str(), issue.label(), ".")
            },
        };
    }

    /// Places the last checked plan as a blueprint owned by `entity`, when the last
    /// check found it valid and the grid still allows it: the grid marks its cells
    /// and entrance. Otherwise nothing is placed.
    /// A plan whose entrance would pass the `i32` limits is refused as out of bounds.
    pub fn place(&mut self, grid: &mut MapGrid, entity: u64) -> (placed: Option<PlacedBlueprint>)
        ensures
            !old(self).last_valid || old(self).selected is None ==> placed is None
                && final(grid)@ == old(grid)@ && final(self).status == old(self).status
                && final(self).last_valid == old(self).last_valid,
            old(self).last_valid && old(self).selected is Some && !entrance_plan_fits(
                old(self).selected->Some_0,
                old(self).last_center,
                old(self).rotation_steps,
            ) ==> {
                &&& placed is None
                &&& final(grid)@ == old(grid)@
                &&& !final(self).last_valid
                &&& final(self).invalid_reason == Some(PlacementIssue::OutOfBounds)
                &&& final(self).status@ == refused_status(
                    old(self).selected->Some_0,
                    PlacementIssue::OutOfBounds,
                )
            },
            old(self).last_valid && old(self).selected is Some && entrance_plan_fits(
                old(self).selected->Some_0,
                old(self).last_center,
                old(self).rotation_steps,
            ) ==> ({
                let kind = old(self).selected->Some_0;
                let entrance = spec_planned_entrance_cell(
                    kind,
                    old(self).last_center,
                    old(self).rotation_steps,
                );
                match plan_issue(
                    old(grid)@,
                    kind,
                    old(self).last_cells@,
                    old(self).last_center,
                    old(self).rotation_steps,
                ) {
                    Some(issue) => {
                        &&& placed is None
                        &&& final(grid)@ == old(grid)@
                        &&& !final(self).last_valid
                        &&& final(self).invalid_reason == Some(issue)
                        &&& final(self).status@ == refused_status(kind, issue)
                    },
                    None => {
                        &&& placed is Some
                        &&& placed->Some_0.blueprint == Blueprint::spec_new(kind)
                        &&& placed->Some_0.footprint.cells@ == old(self).last_cells@
                        &&& placed->Some_0.footprint.passable == (kind == BuildingKind::Road)
                        &&& placed->Some_0.entrance == entrance
                        &&& final(grid)@ == grid_after_placing(
                            old(grid)@,
                            kind,
                            old(self).last_cells@,
                            old(self).last_center,
                            old(self).rotation_steps,
                            entity,
                        )
                        &&& !final(self).last_valid
                        &&& final(self).invalid_reason == None::<PlacementIssue>
                        &&& final(self).status@ == placed_status(kind)
                    },
                }
            }),
            final(self).selected == old(self).selected,
            final(self).snap_to_grid == old(self).snap_to_grid,
            final(self).rotation_steps == old(self).rotation_steps,
            final(self).preview_entity == old(self).preview_entity,
            final(self).last_position == old(self).last_position,
            final(self).last_cells == old(self).last_cells,
            final(self).last_center == old(self).last_center,
    {
        if !self.last_valid {
            return None;
        }
        let kind = match self.selected {
            Some(kind) => kind,
            None => {
                return None;
            },
        };
        let definition = kind.definition();
        let passable = kind == BuildingKind::Road;
        if !entrance_plan_fits_at(kind, self.last_center, self.rotation_steps) {
            let head = join("Cannot place ", definition.label, ": ");
            self.status = join(head.as_str(), PlacementIssue::OutOfBounds.label(), ".");
            self.last_valid = false;
            self.invalid_reason = Some(PlacementIssue::OutOfBounds);
            return None;
        }
        let cells = self.last_cells.clone();
        let entrance = planned_entrance_cell(kind, self.last_center, self.rotation_steps);
        if let Some(issue) = grid.placement_issue_for(
            cells.as_slice(),
            entrance,
            kind != BuildingKind::Road,
        ) {
            let head = join("Cannot place ", definition.label, ": ");
            self.status = join(head.as_str(), issue.label(), ".");
            self.last_valid = false;
            self.invalid_reason = Some(issue);
            return None;
        }
        grid.occupy(cells.as_slice(), entity, passable);
        if let Some(cell) = entrance {
            grid.reserve_entrance(cell, entity);
        }
        self.status = join("Placed ", definition.label, " blueprint.");
        self.last_valid = false;
        self.invalid_reason = None;
        Some(
            PlacedBlueprint {
                blueprint: Blueprint::new(kind),
                footprint: Footprint { cells, passable },
                entrance,
            },
        )
    }
}

} // verus!
