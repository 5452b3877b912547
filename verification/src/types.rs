use vstd::prelude::*;

verus! {

/// Half the width of the buildable map, in cells: valid cells run from
/// `-MAP_HALF_CELLS` to `MAP_HALF_CELLS` on both axes.
pub const MAP_HALF_CELLS: i32 = 24;

/// An integer position (or offset) on the building grid.
#[derive(Clone, Copy, Debug, PartialEq, Eq, Structural, Hash)]
pub struct GridCell {
    pub x: i32,
    pub y: i32,
}

/// The grid cell at integer coordinates `(x, y)`.
pub open spec fn grid_cell(x: int, y: int) -> GridCell {
    GridCell { x: x as i32, y: y as i32 }
}

impl GridCell {
    pub fn new(x: i32, y: i32) -> (cell: GridCell)
        ensures
            cell.x == x,
            cell.y == y,
    {
        GridCell { x, y }
    }
}

#[derive(Clone, Copy, Debug, PartialEq, Eq, Structural, Hash)]
pub enum ResourceKind {
    Wood,
    Food,
}

impl ResourceKind {
    /// How many capacity units one item of this kind occupies.
    pub open spec fn spec_unit_size(self) -> i32 {
        match self {
            ResourceKind::Wood => 10,
            ResourceKind::Food => 1,
        }
    }

    #[verifier::when_used_as_spec(spec_unit_size)]
    pub fn unit_size(self) -> (size: i32)
        ensures
            size == self.spec_unit_size(),
            size >= 1,
    {
        match self {
            ResourceKind::Wood => 10,
            ResourceKind::Food => 1,
        }
    }

    pub open spec fn spec_label(self) -> Seq<char> {
        match self {
            ResourceKind::Wood => "Wood"@,
            ResourceKind::Food => "Food"@,
        }
    }

    pub fn label(self) -> (text: &'static str)
        ensures
            text@ == self.spec_label(),
    {
        match self {
            ResourceKind::Wood => "Wood",
            ResourceKind::Food => "Food",
        }
    }
}

#[derive(Clone, Copy, Debug, PartialEq, Eq, Structural, Hash)]
pub enum BuildingKind {
    House,
    Storage,
    Woodcutter,
    Gatherer,
    Road,
}

/// All building kinds, in hotkey order.
pub const BUILDING_KINDS: [BuildingKind; 5] = [
    BuildingKind::House,
    BuildingKind::Storage,
    BuildingKind::Woodcutter,
    BuildingKind::Gatherer,
    BuildingKind::Road,
];

/// The static description of a building kind. Durations are in microseconds and
/// heights in thousandths of a cell, so that every figure is an exact integer.
#[derive(Clone, Copy, Debug)]
pub struct BuildingDefinition {
    pub label: &'static str,
    pub size: GridCell,
    pub wood_cost: i32,
    pub build_micros: u64,
    pub height_millis: u32,
    pub population_capacity: i32,
}

impl BuildingKind {
    pub open spec fn spec_size(self) -> GridCell {
        match self {
            BuildingKind::House => GridCell { x: 2, y: 2 },
            BuildingKind::Storage => GridCell { x: 3, y: 2 },
            BuildingKind::Woodcutter => GridCell { x: 2, y: 2 },
            BuildingKind::Gatherer => GridCell { x: 2, y: 2 },
            BuildingKind::Road => GridCell { x: 1, y: 1 },
        }
    }

    pub open spec fn spec_wood_cost(self) -> i32 {
        match self {
            BuildingKind::House => 10,
            BuildingKind::Storage => 12,
            BuildingKind::Woodcutter => 8,
            BuildingKind::Gatherer => 8,
            BuildingKind::Road => 1,
        }
    }

    pub open spec fn spec_build_micros(self) -> u64 {
        match self {
            BuildingKind::House => 5_000_000,
            BuildingKind::Storage => 6_000_000,
            BuildingKind::Woodcutter => 4_000_000,
            BuildingKind::Gatherer => 4_000_000,
            BuildingKind::Road => 600_000,
        }
    }

    pub open spec fn spec_height_millis(self) -> u32 {
        match self {
            BuildingKind::House => 1100,
            BuildingKind::Storage => 900,
            BuildingKind::Woodcutter => 1000,
            BuildingKind::Gatherer => 1000,
            BuildingKind::Road => 50,
        }
    }

    pub open spec fn spec_population_capacity(self) -> i32 {
        match self {
            BuildingKind::House => 4,
            _ => 0,
        }
    }

    pub open spec fn spec_label(self) -> Seq<char> {
        match self {
            BuildingKind::House => "House"@,
            BuildingKind::Storage => "Storage"@,
            BuildingKind::Woodcutter => "Woodcutter"@,
            BuildingKind::Gatherer => "Gatherer"@,
            BuildingKind::Road => "Road"@,
        }
    }

    pub fn definition(self) -> (definition: BuildingDefinition)
        ensures
            definition.label@ == self.spec_label(),
            definition.size == self.spec_size(),
            definition.wood_cost == self.spec_wood_cost(),
            definition.build_micros == self.spec_build_micros(),
            definition.height_millis == self.spec_height_millis(),
            definition.population_capacity == self.spec_population_capacity(),
    {
        match self {
            BuildingKind::House => BuildingDefinition {
                label: "House",
                size: GridCell { x: 2, y: 2 },
                wood_cost: 10,
                build_micros: 5_000_000,
                height_millis: 1100,
                population_capacity: 4,
            },
            BuildingKind::Storage => BuildingDefinition {
                label: "Storage",
                size: GridCell { x: 3, y: 2 },
                wood_cost: 12,
                build_micros: 6_000_000,
                height_millis: 900,
                population_capacity: 0,
            },
            BuildingKind::Woodcutter => BuildingDefinition {
                label: "Woodcutter",
                size: GridCell { x: 2, y: 2 },
                wood_cost: 8,
                build_micros: 4_000_000,
                height_millis: 1000,
                population_capacity: 0,
            },
            BuildingKind::Gatherer => BuildingDefinition {
                label: "Gatherer",
                size: GridCell { x: 2, y: 2 },
                wood_cost: 8,
                build_micros: 4_000_000,
                height_millis: 1000,
                population_capacity: 0,
            },
            BuildingKind::Road => BuildingDefinition {
                label: "Road",
                size: GridCell { x: 1, y: 1 },
                wood_cost: 1,
                build_micros: 600_000,
                height_millis: 50,
                population_capacity: 0,
            },
        }
    }

    /// The digit key (1 to 5) that selects this building kind.
    pub fn hotkey_digit(self) -> (digit: u8)
        ensures
            digit == (match self {
                BuildingKind::House => 1u8,
                BuildingKind::Storage => 2u8,
                BuildingKind::Woodcutter => 3u8,
                BuildingKind::Gatherer => 4u8,
                BuildingKind::Road => 5u8,
            }),
    {
        match self {
            BuildingKind::House => 1,
            BuildingKind::Storage => 2,
            BuildingKind::Woodcutter => 3,
            BuildingKind::Gatherer => 4,
            BuildingKind::Road => 5,
        }
    }

    pub open spec fn spec_description(self) -> Seq<char> {
        match self {
            BuildingKind::House => "Provides housing capacity for settlers."@,
            BuildingKind::Storage => "Receives gathered supplies and construction materials."@,
            BuildingKind::Woodcutter => "Unlocks automatic wood gathering from tree resource nodes."@,
            BuildingKind::Gatherer => "Unlocks automatic food gathering from forage resource nodes."@,
            BuildingKind::Road => "Marks planned paths through the settlement."@,
        }
    }

    pub fn description(self) -> (text: &'static str)
        ensures
            text@ == self.spec_description(),
    {
        match self {
            BuildingKind::House => "Provides housing capacity for settlers.",
            BuildingKind::Storage => "Receives gathered supplies and construction materials.",
            BuildingKind::Woodcutter => "Unlocks automatic wood gathering from tree resource nodes.",
            BuildingKind::Gatherer => "Unlocks automatic food gathering from forage resource nodes.",
            BuildingKind::Road => "Marks planned paths through the settlement.",
        }
    }

    pub open spec fn spec_entrance_direction(self) -> Option<GridCell> {
        match self {
            BuildingKind::Road => None,
            _ => Some(GridCell { x: 0, y: -1i32 }),
        }
    }

    /// The side of the unrotated footprint on which the entrance sits; roads have none.
    #[verifier::when_used_as_spec(spec_entrance_direction)]
    pub fn entrance_direction(self) -> (direction: Option<GridCell>)
        ensures
            direction == self.spec_entrance_direction(),
    {
        match self {
            BuildingKind::Road => None,
            _ => Some(GridCell { x: 0, y: -1 }),
        }
    }
}

/// `steps` modulo 2, rounded toward negative infinity (Euclidean remainder).
pub open spec fn quarter_turn_parity(steps: i32) -> int {
    steps as int % 2
}

pub open spec fn spec_rotated_size(size: GridCell, rotation_steps: i32) -> GridCell {
    if rotation_steps as int % 2 == 0 {
        size
    } else {
        GridCell { x: size.y, y: size.x }
    }
}

/// The footprint size after `rotation_steps` quarter turns: odd turns swap width and depth.
pub fn rotated_size(size: GridCell, rotation_steps: i32) -> (rotated: GridCell)
    ensures
        rotated == spec_rotated_size(size, rotation_steps),
{
    let parity = rotation_steps.checked_rem_euclid(2);
    match parity {
        Some(0) => size,
        _ => GridCell { x: size.y, y: size.x },
    }
}

pub open spec fn spec_rotated_direction(direction: GridCell, rotation_steps: i32) -> GridCell {
    let turn = rotation_steps as int % 4;
    if turn == 0 {
        direction
    } else if turn == 1 {
        GridCell { x: -direction.y as i32, y: direction.x }
    } else if turn == 2 {
        GridCell { x: -direction.x as i32, y: -direction.y as i32 }
    } else {
        GridCell { x: direction.y, y: -direction.x as i32 }
    }
}

/// Rotates a direction by `rotation_steps` quarter turns.
pub fn rotated_direction(direction: GridCell, rotation_steps: i32) -> (rotated: GridCell)
    requires
        direction.x > i32::MIN,
        direction.y > i32::MIN,
    ensures
        rotated == spec_rotated_direction(direction, rotation_steps),
{
    let turn = rotation_steps.checked_rem_euclid(4);
    match turn {
        Some(0) => direction,
        Some(1) => GridCell { x: -direction.y, y: direction.x },
        Some(2) => GridCell { x: -direction.x, y: -direction.y },
        _ => GridCell { x: direction.y, y: -direction.x },
    }
}

/// Division by two rounded toward zero, as integer division does in Rust.
pub open spec fn trunc_half(n: int) -> int {
    if n >= 0 {
        n / 2
    } else {
        -((-n) / 2)
    }
}

/// The lowest cell of a footprint of `size` centred on `center`.
pub open spec fn footprint_start(center: GridCell, size: GridCell) -> (int, int) {
    (center.x - trunc_half(size.x - 1), center.y - trunc_half(size.y - 1))
}

/// Whether the computation of a footprint stays within `i32`. The product of the
/// sides is the capacity reserved for the cells, so a footprint with exactly one
/// negative side, whose product is negative and asks for more memory than any
/// machine has, does not fit either.
pub open spec fn footprint_fits(center: GridCell, size: GridCell) -> bool {
    let start = footprint_start(center, size);
    &&& size.x > i32::MIN
    &&& size.y > i32::MIN
    &&& 0 <= size.x * size.y <= i32::MAX
    &&& i32::MIN <= start.0 && start.0 + size.x - 1 <= i32::MAX
    &&& i32::MIN <= start.1 && start.1 + size.y - 1 <= i32::MAX
}

/// Number of cells of a footprint of `size`.
pub open spec fn footprint_len(size: GridCell) -> int {
    if size.x > 0 && size.y > 0 {
        size.x * size.y
    } else {
        0
    }
}

/// The cells covered by a footprint, column by column: cell `i * size.y + j`
/// is the start offset by `(i, j)`.
pub open spec fn footprint_contents(cells: Seq<GridCell>, center: GridCell, size: GridCell) -> bool {
    let start = footprint_start(center, size);
    &&& cells.len() == footprint_len(size)
    &&& forall|i: int, j: int|
        0 <= i < size.x && 0 <= j < size.y ==> #[trigger] cells[i * size.y + j] == grid_cell(start.0 + i, start.1 + j)
}

/// The cells of a `size` footprint centred on `center` (for even sizes the centre
/// is the cell just below the middle).
pub fn footprint_cells(center: GridCell, size: GridCell) -> (cells: Vec<GridCell>)
    requires
        footprint_fits(center, size),
    ensures
        footprint_contents(cells@, center, size),
{
    let mut cells: Vec<GridCell> = Vec::new();
    if size.x <= 0 || size.y <= 0 {
        return cells;
    }
    let start_x: i32 = center.x - (size.x - 1) / 2;
    let start_y: i32 = center.y - (size.y - 1) / 2;
    let ghost start = footprint_start(center, size);
    assert(start_x == start.0 && start_y == start.1);
    let mut x: i32 = 0;
    while x < size.x
        invariant
            0 <= x <= size.x,
            size.x > 0,
            size.y > 0,
            footprint_fits(center, size),
            start_x == footprint_start(center, size).0,
            start_y == footprint_start(center, size).1,
            cells@.len() == x * size.y,
            forall|i: int, j: int|
                0 <= i < x && 0 <= j < size.y ==> #[trigger] cells@[i * size.y + j] == grid_cell(start_x + i, start_y + j),
        decreases size.x - x,
    {
        let mut y: i32 = 0;
        while y < size.y
            invariant
                0 <= x < size.x,
                0 <= y <= size.y,
                size.y > 0,
                footprint_fits(center, size),
                start_x == footprint_start(center, size).0,
                start_y == footprint_start(center, size).1,
                cells@.len() == x * size.y + y,
                forall|i: int, j: int|
                    0 <= i < x && 0 <= j < size.y ==> #[trigger] cells@[i * size.y + j]
                        == grid_cell(start_x + i, start_y + j),
                forall|j: int|
                    0 <= j < y ==> #[trigger] cells@[x * size.y + j] == grid_cell(start_x + x, start_y + j),
            decreases size.y - y,
        {
            proof {
                assert(x * size.y + y < (x + 1) * size.y) by (nonlinear_arith)
                    requires
                        y < size.y,
                ;
                assert((x + 1) * size.y <= size.x * size.y) by (nonlinear_arith)
                    requires
                        x + 1 <= size.x,
                        size.y > 0,
                ;
            }
            let ghost before = cells@;
            cells.push(GridCell { x: start_x + x, y: start_y + y });
            proof {
                assert forall|i: int, j: int|
                    0 <= i < x && 0 <= j < size.y implies #[trigger] cells@[i * size.y + j]
                        == grid_cell(start_x + i, start_y + j) by {
                    assert(i * size.y + j < x * size.y) by (nonlinear_arith)
                        requires
                            i < x,
                            0 <= j < size.y,
                            size.y > 0,
                    ;
                    assert(cells@[i * size.y + j] == before[i * size.y + j]);
                }
                assert forall|j: int|
                    0 <= j < y + 1 implies #[trigger] cells@[x * size.y + j] == grid_cell(start_x + x, start_y + j) by {
                    if j < y {
                        assert(cells@[x * size.y + j] == before[x * size.y + j]);
                    }
                }
            }
            y = y + 1;
        }
        proof {
            assert(cells@.len() == (x + 1) * size.y) by (nonlinear_arith)
                requires
                    cells@.len() == x * size.y + size.y,
            ;
            assert forall|i: int, j: int|
                0 <= i < x + 1 && 0 <= j < size.y implies #[trigger] cells@[i * size.y + j]
                    == grid_cell(start_x + i, start_y + j) by {
                if i == x {
                    assert(cells@[x * size.y + j] == grid_cell(start_x + x, start_y + j));
                }
            }
        }
        x = x + 1;
    }
    cells
}

/// A cell lies in the buildable map.
pub open spec fn spec_within_map(cell: GridCell) -> bool {
    -MAP_HALF_CELLS <= cell.x <= MAP_HALF_CELLS && -MAP_HALF_CELLS <= cell.y <= MAP_HALF_CELLS
}

#[verifier::when_used_as_spec(spec_within_map)]
pub fn within_map(cell: GridCell) -> (inside: bool)
    ensures
        inside == spec_within_map(cell),
{
    cell.x >= -MAP_HALF_CELLS && cell.x <= MAP_HALF_CELLS && cell.y >= -MAP_HALF_CELLS && cell.y
        <= MAP_HALF_CELLS
}


/// Every index of a `w` by `h` footprint splits into a column and a row.
proof fn lemma_footprint_index(k: int, w: int, h: int)
    requires
        0 <= k < w * h,
        w > 0,
        h > 0,
    ensures
        k == (k / h) * h + k % h,
        0 <= k / h < w,
        0 <= k % h < h,
{
    vstd::arithmetic::div_mod::lemma_fundamental_div_mod(k, h);
    vstd::arithmetic::div_mod::lemma_mod_bound(k, h);
    assert(0 <= k / h) by (nonlinear_arith)
        requires
            k >= 0,
            h > 0,
            k == h * (k / h) + k % h,
            k % h < h,
    ;
    assert(k / h < w) by (nonlinear_arith)
        requires
            k < w * h,
            h > 0,
            k == h * (k / h) + k % h,
            k % h >= 0,
    ;
    assert(k == (k / h) * h + k % h) by (nonlinear_arith)
        requires
            k == h * (k / h) + k % h,
    ;
}

/// Membership in a footprint: a cell belongs to it exactly when it lies in the
/// rectangle from the start cell to the start offset by `size - 1`, and every
/// cell appears once.
pub proof fn lemma_footprint_membership(cells: Seq<GridCell>, center: GridCell, size: GridCell)
    requires
        footprint_fits(center, size),
        footprint_contents(cells, center, size),
    ensures
        forall|c: GridCell|
            cells.contains(c) <==> (size.x > 0 && size.y > 0 && footprint_start(center, size).0
                <= c.x < footprint_start(center, size).0 + size.x && footprint_start(
                center,
                size,
            ).1 <= c.y < footprint_start(center, size).1 + size.y),
        cells.no_duplicates(),
{
    let start = footprint_start(center, size);
    if size.x > 0 && size.y > 0 {
        let w = size.x as int;
        let h = size.y as int;
        assert forall|c: GridCell| cells.contains(c) implies (start.0 <= c.x < start.0 + w
            && start.1 <= c.y < start.1 + h) by {
            let k = choose|k: int| 0 <= k < cells.len() && cells[k] == c;
            lemma_footprint_index(k, w, h);
            let i = k / h;
            let j = k % h;
            assert(cells[i * h + j] == grid_cell(start.0 + i, start.1 + j));
        }
        assert forall|c: GridCell|
            (start.0 <= c.x < start.0 + w && start.1 <= c.y < start.1 + h) implies cells.contains(
            c,
        ) by {
            let i = c.x - start.0;
            let j = c.y - start.1;
            assert(0 <= i * h + j < w * h) by (nonlinear_arith)
                requires
                    0 <= i < w,
                    0 <= j < h,
            ;
            assert(cells[i * h + j] == grid_cell(start.0 + i, start.1 + j));
        }
        assert forall|a: int, b: int|
            0 <= a < cells.len() && 0 <= b < cells.len() && a != b implies cells[a] != cells[b] by {
            lemma_footprint_index(a, w, h);
            lemma_footprint_index(b, w, h);
            let ia = a / h;
            let ja = a % h;
            let ib = b / h;
            let jb = b % h;
            assert(cells[ia * h + ja] == grid_cell(start.0 + ia, start.1 + ja));
            assert(cells[ib * h + jb] == grid_cell(start.0 + ib, start.1 + jb));
        }
    } else {
        assert(cells.len() == 0);
    }
}

/// The cell just outside a footprint on the side that `direction` points to,
/// level with the centre; the centre itself when the direction is zero.
pub open spec fn spec_entrance_cell(
    center: GridCell,
    size: GridCell,
    rotation_steps: i32,
    direction: GridCell,
) -> GridCell {
    let s = spec_rotated_size(size, rotation_steps);
    let d = spec_rotated_direction(direction, rotation_steps);
    let start = footprint_start(center, s);
    let nonempty = s.x > 0 && s.y > 0;
    let min_x = if nonempty { start.0 } else { center.x as int };
    let max_x = if nonempty { start.0 + s.x - 1 } else { center.x as int };
    let min_y = if nonempty { start.1 } else { center.y as int };
    let max_y = if nonempty { start.1 + s.y - 1 } else { center.y as int };
    if d.x < 0 {
        grid_cell(min_x - 1, center.y as int)
    } else if d.x > 0 {
        grid_cell(max_x + 1, center.y as int)
    } else if d.y < 0 {
        grid_cell(center.x as int, min_y - 1)
    } else if d.y > 0 {
        grid_cell(center.x as int, max_y + 1)
    } else {
        center
    }
}

/// Whether `entrance_cell` stays within `i32` on these inputs.
pub open spec fn entrance_fits(
    center: GridCell,
    size: GridCell,
    rotation_steps: i32,
    direction: GridCell,
) -> bool {
    let s = spec_rotated_size(size, rotation_steps);
    let d = spec_rotated_direction(direction, rotation_steps);
    let start = footprint_start(center, s);
    let nonempty = s.x > 0 && s.y > 0;
    let min_x = if nonempty { start.0 } else { center.x as int };
    let max_x = if nonempty { start.0 + s.x - 1 } else { center.x as int };
    let min_y = if nonempty { start.1 } else { center.y as int };
    let max_y = if nonempty { start.1 + s.y - 1 } else { center.y as int };
    &&& direction.x > i32::MIN
    &&& direction.y > i32::MIN
    &&& footprint_fits(center, s)
    &&& (d.x < 0 ==> min_x - 1 >= i32::MIN)
    &&& (d.x > 0 ==> max_x + 1 <= i32::MAX)
    &&& (d.x == 0 && d.y < 0 ==> min_y - 1 >= i32::MIN)
    &&& (d.x == 0 && d.y > 0 ==> max_y + 1 <= i32::MAX)
}

/// The cell in front of a building's entrance: the footprint is rotated by
/// `rotation_steps` quarter turns, and so is the entrance direction.
pub fn entrance_cell(
    center: GridCell,
    size: GridCell,
    rotation_steps: i32,
    direction: GridCell,
) -> (entrance: GridCell)
    requires
        entrance_fits(center, size, rotation_steps, direction),
    ensures
        entrance == spec_entrance_cell(center, size, rotation_steps, direction),
{
    let size = rotated_size(size, rotation_steps);
    let direction = rotated_direction(direction, rotation_steps);
    let cells = footprint_cells(center, size);
    let ghost start = footprint_start(center, size);
    proof {
        lemma_footprint_membership(cells@, center, size);
    }
    proof {
        if size.x > 0 && size.y > 0 {
            assert(size.x * size.y > 0) by (nonlinear_arith)
                requires
                    size.x > 0,
                    size.y > 0,
            ;
        }
    }
    let mut min_x = center.x;
    let mut max_x = center.x;
    let mut min_y = center.y;
    let mut max_y = center.y;
    if cells.len() > 0 {
        proof {
            assert(cells@[0 * size.y + 0] == grid_cell(start.0 + 0, start.1 + 0));
            let last_i = size.x - 1;
            let last_j = size.y - 1;
            assert(last_i * size.y + last_j == size.x * size.y - 1) by (nonlinear_arith)
                requires
                    last_i == size.x - 1,
                    last_j == size.y - 1,
            ;
            assert(cells@[last_i * size.y + last_j] == grid_cell(start.0 + last_i, start.1 + last_j));
        }
        min_x = cells[0].x;
        max_x = cells[0].x;
        min_y = cells[0].y;
        max_y = cells[0].y;
        let mut index: usize = 1;
        while index < cells.len()
            invariant
                1 <= index <= cells@.len(),
                forall|c: GridCell|
                    cells@.contains(c) <==> (start.0 <= c.x < start.0 + size.x && start.1 <= c.y
                        < start.1 + size.y),
                cells@[0] == grid_cell(start.0, start.1),
                min_x == start.0,
                min_y == start.1,
                max_x <= start.0 + size.x - 1,
                max_y <= start.1 + size.y - 1,
                exists|k: int| 0 <= k < index && #[trigger] cells@[k].x == max_x,
                exists|k: int| 0 <= k < index && #[trigger] cells@[k].y == max_y,
                forall|k: int| 0 <= k < index ==> #[trigger] cells@[k].x <= max_x,
                forall|k: int| 0 <= k < index ==> #[trigger] cells@[k].y <= max_y,
            decreases cells@.len() - index,
        {
            let cell = cells[index];
            assert(cells@.contains(cell));
            if cell.x < min_x {
                min_x = cell.x;
            }
            if cell.x > max_x {
                max_x = cell.x;
            }
            if cell.y < min_y {
                min_y = cell.y;
            }
            if cell.y > max_y {
                max_y = cell.y;
            }
            index = index + 1;
        }
        proof {
            let last = grid_cell(start.0 + size.x - 1, start.1 + size.y - 1);
            assert(cells@.contains(last));
            let k = choose|k: int| 0 <= k < cells@.len() && cells@[k] == last;
            assert(cells@[k].x <= max_x);
            assert(cells@[k].y <= max_y);
            assert(max_x == start.0 + size.x - 1);
            assert(max_y == start.1 + size.y - 1);
        }
    }
    let sign_x = if direction.x < 0 {
        -1i32
    } else if direction.x > 0 {
        1i32
    } else {
        0i32
    };
    let sign_y = if direction.y < 0 {
        -1i32
    } else if direction.y > 0 {
        1i32
    } else {
        0i32
    };
    match (sign_x, sign_y) {
        (-1, _) => GridCell { x: min_x - 1, y: center.y },
        (1, _) => GridCell { x: max_x + 1, y: center.y },
        (_, -1) => GridCell { x: center.x, y: min_y - 1 },
        (_, 1) => GridCell { x: center.x, y: max_y + 1 },
        _ => center,
    }
}

} // verus!
