# ragar

The rules of an agar.io-like game, verified with Verus: cells ("ragarmen")
grow by eating food and one another, the server keeps the game state and
answers each client message, and the client decides what to ask for and
where to draw.

Positions are integer world units. Distances, radii and speeds are
floating point, so the library takes them from its caller: `GameData::eat`
is given the two geometric tests (does a cell reach a pellet, does one
cell cover enough of another to swallow it) and `GameData::move_player`
the raw step of a cell towards the mouse; everything around those answers
is verified.

Layout:

- `src/` — the library.
  - `gamedata.rs` — the game state; eating, sorting, feeding, leaving,
    steering; mass accounting.
  - `meal.rs` — the step-by-step meaning of eating, against which `eat`
    is proved.
  - `lineage.rs` — what every step of a meal keeps: the mass, where each
    cell comes from, a cell for every player.
  - `server.rs` — settings, requests and replies, the server's state and
    its answer to each request; moves cut at the map's borders.
  - `player.rs`, `ragarman.rs`, `food.rs`, `virus.rs`, `color.rs` — the
    pieces of the game.
  - `client.rs`, `network.rs`, `component.rs`, `system/input.rs` — the
    client's decisions and the data peers exchange.
  - `sums.rs` — sums over sequences.
  - `random.rs` — the calls into `rand`.
- `tests/` — tests of the library.
- `app/` — the UDP game server: JSON in and out, the floating point
  geometry, and the loop around `ServerState::handle`.
