use vstd::prelude::*;
use vstd::string::StringExecFns;

use bevy::ecs::entity::Entity;

use crate::blueprint::{Blueprint, HOUSING_CAPACITY};
use crate::build_state::BuildState;
use crate::colonist::{Colonist, ColonistState, ResourceNode, SATIETY_POINT, node_counts, resource_node_counts};
use crate::grid::{MapGrid, MapGridModel};
use crate::resources::{Inventory, ResourceStock};
use crate::simulation::SimulationClock;
use crate::text::{append_decimal, append_digits, decimal, digit_char, digits};
use crate::types::{BuildingKind, ResourceKind};

verus! {

/// `n / d` rounded to the nearest whole number, ties to the even one, as the
/// interface rounds the numbers it shows.
pub open spec fn rounded_quotient(n: nat, d: nat) -> nat {
    let q = n / d;
    let r = n % d;
    if 2 * r > d || (2 * r == d && q % 2 == 1) {
        q + 1
    } else {
        q
    }
}

fn rounded_quotient_of(n: u128, d: u64) -> (q: u128)
    requires
        d > 0,
        n <= u64::MAX * 128,
    ensures
        q == rounded_quotient(n as nat, d as nat),
{
    let divisor: u128 = d as u128;
    let whole: u128 = n / divisor;
    let rest: u128 = n % divisor;
    if 2 * rest > divisor || (2 * rest == divisor && whole % 2 == 1) {
        whole + 1
    } else {
        whole
    }
}

/// A count of tenths written with one decimal place.
pub open spec fn tenths_text(tenths: nat) -> Seq<char> {
    digits(tenths / 10) + "."@ + seq![digit_char(tenths % 10)]
}

/// How an entity is written out, by its id bits: a name for what bevy's
/// `Entity` prints with `{:?}`.
pub uninterp spec fn entity_text(bits: u64) -> Seq<char>;

/// The printed form of the entity with id `bits`, where the bits name one.
///
/// Calls bevy's `Entity::try_from_bits`, which accepts exactly the bits whose low
/// 32 bits are not all zero, and formats the entity with `{:?}`. The contract
/// claims that acceptance condition, and that the text is a function of the bits.
#[verifier::external_body]
fn entity_label(bits: u64) -> (label: Option<String>)
    ensures
        match label {
            Some(text) => bits % 0x1_0000_0000 != 0 && text@ == entity_text(bits),
            None => bits % 0x1_0000_0000 == 0,
        },
{
    match Entity::try_from_bits(bits) {
        Some(entity) => Some(format!("{entity:?}")),
        None => None,
    }
}

/// A colonist's home as the panel shows it.
pub open spec fn home_text(home: Option<u64>) -> Seq<char> {
    match home {
        None => "None"@,
        Some(bits) => if bits % 0x1_0000_0000 == 0 {
            "Unknown"@
        } else {
            entity_text(bits)
        },
    }
}

/// The panel body of a selected colonist: what it is doing, its satiety in whole
/// points out of a hundred, its home, and its speed in world units per second.
pub open spec fn colonist_panel_body<P>(colonist: Colonist<P>) -> Seq<char> {
    "Status: "@ + colonist.state.spec_label() + "\nSatiety: "@ + digits(
        rounded_quotient(colonist.satiety_micros as nat, SATIETY_POINT as nat),
    ) + "/100\nHome: "@ + home_text(colonist.home) + "\nSpeed: "@ + tenths_text(
        rounded_quotient(colonist.speed_millis as nat, 100),
    )
}

/// The title (its name) and body of the panel of a selected colonist.
pub fn colonist_panel_text<P>(colonist: &Colonist<P>) -> (text: (String, String))
    ensures
        text.0@ == colonist.name@,
        text.1@ == colonist_panel_body(*colonist),
{
    let title = String::from_str(colonist.name.as_str());
    let mut body = String::from_str("Status: ");
    let status = colonist.status_label();
    body.append(status.as_str());
    body.append("\nSatiety: ");
    append_digits(&mut body, rounded_quotient_of(colonist.satiety_micros as u128, SATIETY_POINT as u64));
    body.append("/100\nHome: ");
    match colonist.home {
        None => body.append("None"),
        Some(bits) => match entity_label(bits) {
            Some(label) => body.append(label.as_str()),
            None => body.append("Unknown"),
        },
    }
    body.append("\nSpeed: ");
    let tenths = rounded_quotient_of(colonist.speed_millis as u128, 100);
    append_digits(&mut body, tenths / 10);
    body.append(".");
    append_digits(&mut body, tenths % 10);
    proof {
        assert(digits((tenths % 10) as nat) == seq![digit_char((tenths % 10) as nat)]);
        assert(body@ =~= colonist_panel_body(*colonist));
    }
    (title, body)
}

/// The building that puts colonists to gathering `kind`.
pub open spec fn gathering_building(kind: ResourceKind) -> BuildingKind {
    match kind {
        ResourceKind::Wood => BuildingKind::Woodcutter,
        ResourceKind::Food => BuildingKind::Gatherer,
    }
}

pub open spec fn resource_panel_title(node: ResourceNode) -> Seq<char> {
    node.kind.spec_label() + " node"@
}

/// The panel body of a selected resource node: what is left, which building
/// gathers it, and whether such a building stands among `completed`.
pub open spec fn resource_panel_body(node: ResourceNode, completed: Seq<BuildingKind>) -> Seq<char> {
    "Remaining: "@ + decimal(node.amount as int) + "\nUsed by: "@ + gathering_building(node.kind).spec_label()
        + "\nReady to gather: "@ + if completed.contains(gathering_building(node.kind)) {
        "Yes"@
    } else {
        "Needs building"@
    }
}

/// The title and body of the panel of a selected resource node; `completed`
/// holds the kinds of the completed buildings.
pub fn resource_panel_text(node: ResourceNode, completed: &Vec<BuildingKind>) -> (text: (String, String))
    ensures
        text.0@ == resource_panel_title(node),
        text.1@ == resource_panel_body(node, completed@),
{
    let mut title = String::from_str(node.kind.label());
    title.append(" node");
    let building = match node.kind {
        ResourceKind::Wood => BuildingKind::Woodcutter,
        ResourceKind::Food => BuildingKind::Gatherer,
    };
    let mut body = String::from_str("Remaining: ");
    append_decimal(&mut body, node.amount as i64);
    body.append("\nUsed by: ");
    body.append(building.definition().label);
    body.append("\nReady to gather: ");
    if crate::assignment::has_completed(completed, building) {
        body.append("Yes");
    } else {
        body.append("Needs building");
    }
    proof {
        assert(body@ =~= resource_panel_body(node, completed@));
    }
    (title, body)
}

/// The share of a blueprint's work done, in whole percent; one with no work to
/// do counts as done.
pub open spec fn construction_percent(blueprint: Blueprint) -> nat {
    if blueprint.build_micros == 0 || blueprint.progress_micros >= blueprint.build_micros {
        100
    } else {
        rounded_quotient((blueprint.progress_micros * 100) as nat, blueprint.build_micros as nat)
    }
}

/// What a blueprint waits for, in words.
pub open spec fn material_line(blueprint: Blueprint) -> Seq<char> {
    if blueprint.spec_needs_wood() > 0 {
        "Settlers will deliver wood when stock is available."@
    } else {
        "Waiting for a builder to finish construction."@
    }
}

pub open spec fn blueprint_panel_title(blueprint: Blueprint) -> Seq<char> {
    blueprint.kind.spec_label() + " blueprint"@
}

/// The panel body of a selected blueprint: its status, the wood delivered and
/// required, the work done, what it waits for, and the cells it covers, if known.
pub open spec fn blueprint_panel_body(blueprint: Blueprint, area_cells: Option<usize>) -> Seq<char> {
    "Status: "@ + blueprint.spec_status().spec_label() + "\nWood: "@ + decimal(blueprint.delivered_wood as int)
        + "/"@ + decimal(blueprint.required_wood as int) + "\nConstruction: "@ + digits(
        construction_percent(blueprint),
    ) + "%\n"@ + material_line(blueprint) + match area_cells {
        Some(cells) => "\nArea: "@ + digits(cells as nat) + ".0 cells"@,
        None => Seq::empty(),
    }
}

/// The title and body of the panel of a selected blueprint covering `area_cells`
/// cells, if known.
pub fn blueprint_panel_text(blueprint: Blueprint, area_cells: Option<usize>) -> (text: (String, String))
    requires
        blueprint.fits(),
    ensures
        text.0@ == blueprint_panel_title(blueprint),
        text.1@ == blueprint_panel_body(blueprint, area_cells),
{
    let mut title = String::from_str(blueprint.kind.definition().label);
    title.append(" blueprint");
    let mut body = String::from_str("Status: ");
    body.append(blueprint.status().label());
    body.append("\nWood: ");
    append_decimal(&mut body, blueprint.delivered_wood as i64);
    body.append("/");
    append_decimal(&mut body, blueprint.required_wood as i64);
    body.append("\nConstruction: ");
    let percent: u128 = if blueprint.build_micros == 0 || blueprint.progress_micros >= blueprint.build_micros {
        100
    } else {
        let scaled: u128 = (blueprint.progress_micros as u128) * 100;
        rounded_quotient_of(scaled, blueprint.build_micros)
    };
    append_digits(&mut body, percent);
    body.append("%\n");
    if blueprint.needs_wood() > 0 {
        body.append("Settlers will deliver wood when stock is available.");
    } else {
        body.append("Waiting for a builder to finish construction.");
    }
    let ghost before_area = body@;
    match area_cells {
        Some(cells) => {
            body.append("\nArea: ");
            append_digits(&mut body, cells as u128);
            body.append(".0 cells");
        },
        None => {},
    }
    proof {
        assert(body@ =~= blueprint_panel_body(blueprint, area_cells));
    }
    (title, body)
}

pub open spec fn building_panel_title(kind: BuildingKind, central: bool) -> Seq<char> {
    if central {
        "Central Storage"@
    } else {
        kind.spec_label()
    }
}

/// The panel body of a selected completed building: what it is for, then its
/// residents when it houses settlers (else its population capacity, if any),
/// then what its inventory holds and how full it is.
pub open spec fn building_panel_body(kind: BuildingKind, inventory: Option<Inventory>, residents: Option<usize>) -> Seq<
    char,
> {
    kind.spec_description() + "\nStatus: Operating"@ + match residents {
        Some(count) => "\nResidents: "@ + digits(count as nat) + "/"@ + digits(HOUSING_CAPACITY as nat),
        None => if kind.spec_population_capacity() > 0 {
            "\nCapacity: "@ + decimal(kind.spec_population_capacity() as int)
        } else {
            Seq::empty()
        },
    } + match inventory {
        Some(stock) => "\nInventory: Wood "@ + decimal(stock@.wood as int) + "  Food "@ + decimal(
            stock@.food as int,
        ) + "\nCapacity: "@ + decimal(stock@.used_capacity()) + "/"@ + decimal(stock@.capacity as int),
        None => Seq::empty(),
    }
}

/// The title and body of the panel of a selected completed building of `kind`;
/// `central` marks the central storage, `inventory` is what it stores and
/// `residents` how many live in it, where it has either.
pub fn building_panel_text(
    kind: BuildingKind,
    central: bool,
    inventory: Option<Inventory>,
    residents: Option<usize>,
) -> (text: (String, String))
    requires
        match inventory {
            Some(stock) => stock@.fits(),
            None => true,
        },
    ensures
        text.0@ == building_panel_title(kind, central),
        text.1@ == building_panel_body(kind, inventory, residents),
{
    let definition = kind.definition();
    let title = if central {
        String::from_str("Central Storage")
    } else {
        String::from_str(definition.label)
    };
    let mut body = String::from_str(kind.description());
    body.append("\nStatus: Operating");
    match residents {
        Some(count) => {
            body.append("\nResidents: ");
            append_digits(&mut body, count as u128);
            body.append("/");
            append_digits(&mut body, HOUSING_CAPACITY as u128);
        },
        None => if definition.population_capacity > 0 {
            body.append("\nCapacity: ");
            append_decimal(&mut body, definition.population_capacity as i64);
        },
    }
    match inventory {
        Some(stock) => {
            body.append("\nInventory: Wood ");
            append_decimal(&mut body, stock.amount(ResourceKind::Wood) as i64);
            body.append("  Food ");
            append_decimal(&mut body, stock.amount(ResourceKind::Food) as i64);
            body.append("\nCapacity: ");
            append_decimal(&mut body, stock.used_capacity() as i64);
            body.append("/");
            append_decimal(&mut body, stock.capacity() as i64);
        },
        None => {},
    }
    proof {
        assert(body@ =~= building_panel_body(kind, inventory, residents));
    }
    (title, body)
}

/// What the top line counts of one settler: whether it has a home, and whether
/// it is idle.
#[derive(Clone, Copy, Debug)]
pub struct SettlerTally {
    pub housed: bool,
    pub idle: bool,
}

impl SettlerTally {
    pub fn of<P>(colonist: &Colonist<P>) -> (tally: SettlerTally)
        ensures
            tally.housed == colonist.home is Some,
            tally.idle == colonist.state is Idle,
    {
        SettlerTally { housed: colonist.home.is_some(), idle: matches!(colonist.state, ColonistState::Idle) }
    }
}

/// How many of `settlers` have no home.
pub open spec fn homeless_count(settlers: Seq<SettlerTally>) -> nat
    decreases settlers.len(),
{
    if settlers.len() == 0 {
        0
    } else {
        homeless_count(settlers.drop_last()) + if settlers.last().housed {
            0nat
        } else {
            1nat
        }
    }
}

/// How many of `settlers` are idle.
pub open spec fn idle_count(settlers: Seq<SettlerTally>) -> nat
    decreases settlers.len(),
{
    if settlers.len() == 0 {
        0
    } else {
        idle_count(settlers.drop_last()) + if settlers.last().idle {
            1nat
        } else {
            0nat
        }
    }
}

/// How many settlers the completed buildings of these kinds can house.
pub open spec fn housing_capacity(completed: Seq<BuildingKind>) -> nat
    decreases completed.len(),
{
    if completed.len() == 0 {
        0
    } else {
        housing_capacity(completed.drop_last()) + completed.last().spec_population_capacity() as nat
    }
}

/// The top line: the public stock, the population against the housing capacity,
/// the homeless and idle settlers, and the clock.
pub open spec fn overview_line(
    stock: ResourceStock,
    settlers: Seq<SettlerTally>,
    completed: Seq<BuildingKind>,
    clock: SimulationClock,
) -> Seq<char> {
    "Wood: "@ + decimal(stock.wood as int) + "  Food: "@ + decimal(stock.food as int) + "  Pop: "@ + digits(
        settlers.len(),
    ) + "/"@ + digits(housing_capacity(completed)) + "  Homeless: "@ + digits(homeless_count(settlers))
        + "  Idle: "@ + digits(idle_count(settlers)) + "  Time: "@ + clock.spec_label()
}

/// Writes the top line of the interface; `completed` holds the kinds of the
/// completed buildings.
pub fn overview_text(
    stock: ResourceStock,
    settlers: &Vec<SettlerTally>,
    completed: &Vec<BuildingKind>,
    clock: &SimulationClock,
) -> (text: String)
    ensures
        text@ == overview_line(stock, settlers@, completed@, *clock),
{
    let mut homeless: u128 = 0;
    let mut idle: u128 = 0;
    let mut index: usize = 0;
    assert(settlers@.take(0) =~= Seq::<SettlerTally>::empty());
    while index < settlers.len()
        invariant
            0 <= index <= settlers@.len(),
            homeless == homeless_count(settlers@.take(index as int)),
            idle == idle_count(settlers@.take(index as int)),
            homeless <= index,
            idle <= index,
        decreases settlers@.len() - index,
    {
        assert(settlers@.take(index + 1).drop_last() =~= settlers@.take(index as int));
        if !settlers[index].housed {
            homeless = homeless + 1;
        }
        if settlers[index].idle {
            idle = idle + 1;
        }
        index = index + 1;
    }
    assert(settlers@.take(index as int) =~= settlers@);
    let mut capacity: u128 = 0;
    let mut built: usize = 0;
    assert(completed@.take(0) =~= Seq::<BuildingKind>::empty());
    while built < completed.len()
        invariant
            0 <= built <= completed@.len(),
            capacity == housing_capacity(completed@.take(built as int)),
            capacity <= 4 * built,
        decreases completed@.len() - built,
    {
        assert(completed@.take(built + 1).drop_last() =~= completed@.take(built as int));
        let housed = completed[built].definition().population_capacity;
        assert(0 <= housed <= 4);
        capacity = capacity + housed as u128;
        built = built + 1;
    }
    assert(completed@.take(built as int) =~= completed@);
    let mut text = String::from_str("Wood: ");
    append_decimal(&mut text, stock.wood as i64);
    text.append("  Food: ");
    append_decimal(&mut text, stock.food as i64);
    text.append("  Pop: ");
    append_digits(&mut text, settlers.len() as u128);
    text.append("/");
    append_digits(&mut text, capacity);
    text.append("  Homeless: ");
    append_digits(&mut text, homeless);
    text.append("  Idle: ");
    append_digits(&mut text, idle);
    text.append("  Time: ");
    let label = clock.label();
    text.append(label.as_str());
    proof {
        assert(text@ =~= overview_line(stock, settlers@, completed@, *clock));
    }
    text
}

/// The status line: the build tool's message, the occupied and road cells of the
/// grid, and whether plans snap to the grid.
pub open spec fn status_line(status: Seq<char>, grid: MapGridModel, snap: bool) -> Seq<char> {
    status + "  Obstacles: "@ + digits(grid.occupied.dom().len()) + "  Roads: "@ + digits(
        grid.road_cells().len(),
    ) + "  Snap: "@ + if snap {
        "On"@
    } else {
        "Off"@
    }
}

/// Writes the status line of the interface.
pub fn status_text<P>(build: &BuildState<P>, grid: &MapGrid) -> (text: String)
    ensures
        text@ == status_line(build.status@, grid@, build.snap_to_grid),
{
    let (occupied, roads, _) = grid.summary();
    let mut text = String::from_str(build.status.as_str());
    text.append("  Obstacles: ");
    append_digits(&mut text, occupied as u128);
    text.append("  Roads: ");
    append_digits(&mut text, roads as u128);
    if build.snap_to_grid {
        text.append("  Snap: On");
    } else {
        text.append("  Snap: Off");
    }
    proof {
        reveal_strlit("  Snap: On");
        reveal_strlit("  Snap: Off");
        reveal_strlit("  Snap: ");
        reveal_strlit("On");
        reveal_strlit("Off");
        assert(text@ =~= status_line(build.status@, grid@, build.snap_to_grid));
    }
    text
}

/// The line that counts the resource nodes of each kind.
pub open spec fn nodes_line(nodes: Seq<ResourceNode>) -> Seq<char> {
    "Nodes: Wood "@ + digits(node_counts(nodes).0 as nat) + " / Food "@ + digits(node_counts(nodes).1 as nat)
}

/// Writes the line that counts the resource nodes of each kind.
pub fn nodes_text(nodes: &Vec<ResourceNode>) -> (text: String)
    ensures
        text@ == nodes_line(nodes@),
{
    let (wood, food) = resource_node_counts(nodes);
    let mut text = String::from_str("Nodes: Wood ");
    append_digits(&mut text, wood as u128);
    text.append(" / Food ");
    append_digits(&mut text, food as u128);
    proof {
        assert(text@ =~= nodes_line(nodes@));
    }
    text
}

/// The panel when nothing is selected.
pub fn nothing_selected_text() -> (text: (String, String))
    ensures
        text.0@ == "Nothing selected"@,
        text.1@ == "Click a settler, building, blueprint, or resource node."@,
{
    (
        String::from_str("Nothing selected"),
        String::from_str("Click a settler, building, blueprint, or resource node."),
    )
}

/// The panel when the selected object is gone.
pub fn selection_lost_text() -> (text: (String, String))
    ensures
        text.0@ == "Selection lost"@,
        text.1@ == "The selected object is no longer available."@,
{
    (String::from_str("Selection lost"), String::from_str("The selected object is no longer available."))
}

} // verus!
