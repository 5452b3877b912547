# colony

A small colony simulation: the player plans buildings on a grid, and settlers
fetch wood for blueprints, build them, gather wood and food, fill the stores,
stock their homes and eat.

`src/` is the library, written in Verus and verified: the grid and its
placement rules, inventories, blueprints and housing, the colonists' states and
timers, how jobs are claimed and chosen, what happens when a colonist arrives,
the build tool, the clock, what each colonist does with a tick, and the text of
the interface's panels. Quantities that the simulation measures in time or
fractions are whole numbers here: time in microseconds, satiety in the
microseconds of simulated time it lasts, heights and speeds in thousandths. The grid keeps its cells in a hash map keyed by each
cell's two coordinates packed into one `u64`.

`app/` is the Bevy program around it: rendering, input, the interface, world
positions in floating point, and the path requests. It turns the world into the
library's values, lets the library decide, and writes the outcome back.

Paths are straight walks: a request is answered with a walk straight to its
target when the target lies on the map, and with no path otherwise. Colonists
therefore walk through buildings, and since the navigation grid has no
revisions, a walk is never planned again when buildings go up on its way.

`tests/` exercise the library on concrete cases.
