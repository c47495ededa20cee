use vstd::prelude::*;

use crate::food::Food;
use crate::gamedata::{
    cells_in_map, exchange_sorted, first_with_id, lemma_player_mass_nonneg, picks_players,
    player_mass_fn, players_in_map, steered, weighable, GameData,
};
use crate::lineage::{came_from, lemma_descend_each, lemma_permutation_came_from};
use crate::meal::{cells_of, ended, reach_of, run, start, swallow_of};
use crate::player::{lemma_moved_onto_mouse, moved_by, steps_onto_target, Player};
use crate::ragarman::{in_map, RagarMan};
use crate::sums::{lemma_sum_bounds_one, lemma_sum_nonneg};

verus! {

/// The step along one axis cut so that it ends on `0..=size`.
pub open spec fn clamp_axis(pos: int, step: int, size: int) -> int {
    if step > size - pos {
        size - pos
    } else if step < 0 - pos {
        0 - pos
    } else {
        step
    }
}

/// The move `moving` from `pos`, cut on each axis so that it ends on the map.
pub open spec fn spec_clamp_moving(pos: (i64, i64), moving: (i64, i64), map_size: (u32, u32)) -> (
    int,
    int,
) {
    (clamp_axis(pos.0 as int, moving.0 as int, map_size.0 as int), clamp_axis(pos.1 as int, moving.1 as int, map_size.1 as int))
}

/// Cuts the move `moving` from `pos` so that it does not leave the map: a
/// step past the far border stops on it, a step past the near border
/// stops on it.
pub fn clamp_moving(pos: (i64, i64), moving: (i64, i64), map_size: (u32, u32)) -> (m: (i64, i64))
    requires
        pos.0 > i64::MIN,
        pos.1 > i64::MIN,
        map_size.0 - pos.0 <= i64::MAX,
        map_size.1 - pos.1 <= i64::MAX,
    ensures
        m.0 == spec_clamp_moving(pos, moving, map_size).0,
        m.1 == spec_clamp_moving(pos, moving, map_size).1,
        pos.0 + moving.0 > map_size.0 ==> pos.0 + m.0 == map_size.0,
        pos.0 + moving.0 < 0 ==> pos.0 + m.0 == 0,
        0 <= pos.0 + moving.0 <= map_size.0 ==> m.0 == moving.0,
        pos.1 + moving.1 > map_size.1 ==> pos.1 + m.1 == map_size.1,
        pos.1 + moving.1 < 0 ==> pos.1 + m.1 == 0,
        0 <= pos.1 + moving.1 <= map_size.1 ==> m.1 == moving.1,
{
    let mut m = moving;
    if m.0 > map_size.0 as i64 - pos.0 {
        m.0 = map_size.0 as i64 - pos.0;
    } else if m.0 < 0 - pos.0 {
        m.0 = 0 - pos.0;
    }
    if m.1 > map_size.1 as i64 - pos.1 {
        m.1 = map_size.1 as i64 - pos.1;
    } else if m.1 < 0 - pos.1 {
        m.1 = 0 - pos.1;
    }
    m
}

/// Whatever the move and wherever it starts, the cut move ends on the map.
pub proof fn lemma_clamped_move_in_map(pos: (i64, i64), moving: (i64, i64), map_size: (u32, u32))
    ensures
        0 <= pos.0 + spec_clamp_moving(pos, moving, map_size).0 <= map_size.0,
        0 <= pos.1 + spec_clamp_moving(pos, moving, map_size).1 <= map_size.1,
{
}

/// A step that would leave the map stops on the border it crosses: past
/// the far border it ends exactly on it, past the near border exactly on
/// zero, and a step that stays on the map is not cut.
pub proof fn lemma_clamp_stops_on_border(pos: (i64, i64), moving: (i64, i64), map_size: (u32, u32))
    ensures
        pos.0 + moving.0 > map_size.0 ==> pos.0 + spec_clamp_moving(pos, moving, map_size).0 == map_size.0,
        pos.0 + moving.0 < 0 ==> pos.0 + spec_clamp_moving(pos, moving, map_size).0 == 0,
        0 <= pos.0 + moving.0 <= map_size.0 ==> spec_clamp_moving(pos, moving, map_size).0 == moving.0,
        pos.1 + moving.1 > map_size.1 ==> pos.1 + spec_clamp_moving(pos, moving, map_size).1 == map_size.1,
        pos.1 + moving.1 < 0 ==> pos.1 + spec_clamp_moving(pos, moving, map_size).1 == 0,
        0 <= pos.1 + moving.1 <= map_size.1 ==> spec_clamp_moving(pos, moving, map_size).1 == moving.1,
{
}

/// A move that already ends on the map is not cut.
pub proof fn lemma_clamp_keeps_inner_move(pos: (i64, i64), moving: (i64, i64), map_size: (u32, u32))
    requires
        in_map(((pos.0 + moving.0) as i64, (pos.1 + moving.1) as i64), map_size),
        i64::MIN <= pos.0 + moving.0 <= i64::MAX,
        i64::MIN <= pos.1 + moving.1 <= i64::MAX,
    ensures
        spec_clamp_moving(pos, moving, map_size) == (moving.0 as int, moving.1 as int),
{
}

/// The server's settings: the mass of a food pellet, the size of the map,
/// the speed of a cell of mass one, how much food may lie on the map at
/// most, and how many viruses there are.
pub struct ServerConfig {
    pub food_mass: u32,
    pub map_size: (u32, u32),
    pub v: u32,
    pub max_food: u32,
    pub virus_number: u32,
}

impl ServerConfig {
    /// The settings the server runs with.
    pub fn new() -> (c: ServerConfig)
        ensures
            c.food_mass == 50,
            c.map_size == (2400u32, 1800u32),
            c.v == 100,
            c.max_food == 1000,
            c.virus_number == 100,
    {
        ServerConfig { food_mass: 50, map_size: (2400, 1800), v: 100, max_food: 1000, virus_number: 100 }
    }
}

/// A player that joins under an id no other player has, and then leaves
/// under that id, leaves the players as they were before it joined: the
/// one that joined is the first with its id (so leaving removes it), and
/// removing it gives back the players from before.
pub proof fn lemma_join_then_leave(before: Seq<Player>, joined: Seq<Player>, id: u64)
    requires
        joined.len() == before.len() + 1,
        joined.drop_last() == before,
        joined.last().id == id,
        forall|k: int| 0 <= k < before.len() ==> before[k].id != id,
    ensures
        first_with_id(joined, id, before.len() as int),
        joined.remove(before.len() as int) == before,
{
    assert forall|m: int| 0 <= m < before.len() implies joined[m].id != id by {
        assert(joined[m] == joined.drop_last()[m]);
    }
    assert(joined.remove(before.len() as int) =~= joined.drop_last());
}


/// `after` is `before` with one pellet laid at the end, of the given mass
/// and somewhere on the map, when `lays`; `before` as it is otherwise.
pub open spec fn fed(
    before: Seq<Food>,
    after: Seq<Food>,
    lays: bool,
    food_mass: u32,
    map_size: (u32, u32),
) -> bool {
    if lays {
        &&& after.len() == before.len() + 1
        &&& after.drop_last() == before
        &&& after.last().mass == food_mass
        &&& 0 <= after.last().pos.0 < map_size.0
        &&& 0 <= after.last().pos.1 < map_size.1
    } else {
        after == before
    }
}

/// Every player of `after` but those with the id `id` came from `before`:
/// it is one of those players but for its cells, and each of its cells
/// lies where a cell of that player lay, with its name and colour and no
/// less mass.
pub open spec fn others_stay(before: Seq<Player>, after: Seq<Player>, id: u64) -> bool {
    forall|a: int| 0 <= a < after.len() && after[a].id != id ==> #[trigger] came_from(after[a], before)
}

/// What a tick for player `id` does to the game: the players eat (the
/// meal of `crate::meal::step`, with the caller's geometry); on a fault,
/// or where a player's mass is too large to weigh for the sort, that is
/// all, otherwise the players are put in order by the exchange
/// sort, a pellet is laid if `food` is set and less food lies on the map
/// than the settings allow, and the player is steered towards `mouse_pos`
/// when one is given.
pub open spec fn tick_effect<F, G, H>(
    before: ServerState,
    after: ServerState,
    id: u64,
    food: bool,
    mouse_pos: Option<(i64, i64)>,
    reaches: F,
    swallows: G,
    moving: H,
    reply: Reply,
) -> bool where
    F: Fn(&Food, &RagarMan) -> bool,
    G: Fn(&RagarMan, &RagarMan) -> bool,
    H: Fn(&RagarMan, (i64, i64)) -> (i64, i64),
 {
    let m0 = start(before.gamedata.players@, before.gamedata.food@);
    exists|k: nat, eaten: Seq<Player>|
        #![trigger run(m0, reach_of(reaches), swallow_of(swallows), k), cells_of(eaten)]
        {
            let m = run(m0, reach_of(reaches), swallow_of(swallows), k);
            &&& ended(m)
            &&& cells_of(eaten) == m.cells
            &&& picks_players(m.from, eaten, before.gamedata.players@)
            &&& if m.at is Fault || !weighable(eaten) {
                &&& reply == Reply::Fault
                &&& after.gamedata.players@ == eaten
                &&& after.gamedata.food@ == m.food
            } else {
                let sorted = exchange_sorted(eaten, 0, 1);
                &&& reply == Reply::State
                &&& fed(
                    m.food,
                    after.gamedata.food@,
                    food && m.food.len() < before.conf.max_food,
                    before.conf.food_mass,
                    before.conf.map_size,
                )
                &&& match mouse_pos {
                    Some(mp) => steered(
                        sorted,
                        after.gamedata.players@,
                        id,
                        mp,
                        before.conf.map_size,
                        moving,
                    ),
                    None => after.gamedata.players@ == sorted,
                }
            }
        }
}

/// The cell is one that the geometry moved towards `mouse_pos` from some
/// cell, cut at the map's borders.
pub open spec fn moved_there<H: Fn(&RagarMan, (i64, i64)) -> (i64, i64)>(
    moving: H,
    cell: RagarMan,
    mouse_pos: (i64, i64),
    map_size: (u32, u32),
) -> bool {
    exists|b: RagarMan| #[trigger] moved_by(moving, b, cell, mouse_pos, map_size)
}

/// A tick that ends normally with a mouse position steers the player
/// towards it, whatever the action (food only decides whether a pellet is
/// laid): each of the player's cells is one that the geometry moved
/// towards the mouse position, and with a geometry that steps straight
/// onto its target every cell of the player stands on a mouse position
/// that lies on the map.
pub proof fn lemma_tick_steers_towards_mouse<F, G, H>(
    before: ServerState,
    after: ServerState,
    id: u64,
    food: bool,
    mouse_pos: (i64, i64),
    reaches: F,
    swallows: G,
    moving: H,
)
    where
        F: Fn(&Food, &RagarMan) -> bool,
        G: Fn(&RagarMan, &RagarMan) -> bool,
        H: Fn(&RagarMan, (i64, i64)) -> (i64, i64),
    requires
        tick_effect(before, after, id, food, Some(mouse_pos), reaches, swallows, moving, Reply::State),
    ensures
        forall|k: int, c: int|
            0 <= k < after.gamedata.players@.len() && after.gamedata.players@[k].id == id && 0 <= c
                < after.gamedata.players@[k].ragarmen@.len() ==> #[trigger] moved_there(
                moving,
                after.gamedata.players@[k].ragarmen@[c],
                mouse_pos,
                before.conf.map_size,
            ),
        steps_onto_target(moving) && 0 <= mouse_pos.0 <= before.conf.map_size.0 && 0 <= mouse_pos.1
            <= before.conf.map_size.1 ==> forall|k: int, c: int|
            0 <= k < after.gamedata.players@.len() && after.gamedata.players@[k].id == id && 0 <= c
                < after.gamedata.players@[k].ragarmen@.len() ==> (#[trigger] after.gamedata.players@[k].ragarmen@[c]).pos
                == mouse_pos,
{
    let m0 = start(before.gamedata.players@, before.gamedata.food@);
    let (k0, eaten) = choose|k: nat, eaten: Seq<Player>|
        #![trigger run(m0, reach_of(reaches), swallow_of(swallows), k), cells_of(eaten)]
        {
            let m = run(m0, reach_of(reaches), swallow_of(swallows), k);
            &&& ended(m)
            &&& cells_of(eaten) == m.cells
            &&& picks_players(m.from, eaten, before.gamedata.players@)
            &&& if m.at is Fault || !weighable(eaten) {
                &&& Reply::State == Reply::Fault
                &&& after.gamedata.players@ == eaten
                &&& after.gamedata.food@ == m.food
            } else {
                let sorted = exchange_sorted(eaten, 0, 1);
                &&& Reply::State == Reply::State
                &&& fed(
                    m.food,
                    after.gamedata.food@,
                    food && m.food.len() < before.conf.max_food,
                    before.conf.food_mass,
                    before.conf.map_size,
                )
                &&& steered(
                    sorted,
                    after.gamedata.players@,
                    id,
                    mouse_pos,
                    before.conf.map_size,
                    moving,
                )
            }
        };
    let sorted = exchange_sorted(eaten, 0, 1);
    let ps = after.gamedata.players@;
    assert(steered(sorted, ps, id, mouse_pos, before.conf.map_size, moving));
    assert forall|k: int, c: int|
        0 <= k < ps.len() && ps[k].id == id && 0 <= c < ps[k].ragarmen@.len() implies #[trigger] moved_there(
        moving,
        ps[k].ragarmen@[c],
        mouse_pos,
        before.conf.map_size,
    ) by {
        if sorted[k].id != id {
            assert(ps[k] == sorted[k]);
        }
        assert(moved_by(moving, sorted[k].ragarmen@[c], ps[k].ragarmen@[c], mouse_pos, before.conf.map_size));
    }
    if steps_onto_target(moving) && 0 <= mouse_pos.0 <= before.conf.map_size.0 && 0 <= mouse_pos.1
        <= before.conf.map_size.1 {
        assert forall|k: int, c: int|
            0 <= k < ps.len() && ps[k].id == id && 0 <= c < ps[k].ragarmen@.len() implies (
            #[trigger] ps[k].ragarmen@[c]).pos == mouse_pos by {
            if sorted[k].id != id {
                assert(ps[k] == sorted[k]);
            }
            lemma_moved_onto_mouse(moving, sorted[k].ragarmen@[c], ps[k].ragarmen@[c], mouse_pos, before.conf.map_size);
        }
    }
}

/// What a client asks of the server.
pub enum Request {
    /// Join the game under this name.
    New { name: String },
    /// Leave the game.
    Disconnect { id: u64 },
    /// Play one tick: eat, then lay one more pellet if `food` is set, then
    /// steer the player's cells towards `mouse_pos` when one is given.
    Update { id: u64, food: bool, mouse_pos: Option<(i64, i64)> },
}

impl Request {
    /// What the server makes of a message with these fields, each present
    /// or not (the mouse position as an array whose two entries are numbers
    /// or not): an absent action reads as "", an absent id as 0, an absent
    /// name as "", and the mouse position counts only when it is an array
    /// of two numbers. Then "new" joins, "disconnect" leaves, anything else
    /// is a tick, which also lays food when the action is "food".
    pub fn from_message(
        action: Option<&str>,
        id: Option<u64>,
        name: Option<String>,
        mouse_pos: Option<(Option<i64>, Option<i64>)>,
    ) -> (r: Request)
        ensures
            ({
                let act = match action {
                    Some(a) => a@,
                    None => Seq::<char>::empty(),
                };
                let id = match id {
                    Some(i) => i,
                    None => 0u64,
                };
                let mouse = match mouse_pos {
                    Some((Some(x), Some(y))) => Some((x, y)),
                    _ => None,
                };
                let who = match name {
                    Some(n) => n@,
                    None => Seq::<char>::empty(),
                };
                &&& act == "new"@ ==> (r is New && r->name@ == who)
                &&& act != "new"@ && act == "disconnect"@ ==> r == (Request::Disconnect { id })
                &&& act != "new"@ && act != "disconnect"@ ==> r == (Request::Update {
                    id,
                    food: act == "food"@,
                    mouse_pos: mouse,
                })
            }),
    {
        let action = match action {
            Some(a) => a.to_owned(),
            None => String::new(),
        };
        let id = match id {
            Some(i) => i,
            None => 0,
        };
        let mouse_pos = match mouse_pos {
            Some((Some(x), Some(y))) => Some((x, y)),
            _ => None,
        };
        if action == "new".to_owned() {
            let name = match name {
                Some(n) => n,
                None => String::new(),
            };
            Request::New { name }
        } else if action == "disconnect".to_owned() {
            Request::Disconnect { id }
        } else {
            let food = action == "food".to_owned();
            Request::Update { id, food, mouse_pos }
        }
    }
}

/// What the server answers.
#[derive(PartialEq, Eq, Structural, Debug)]
pub enum Reply {
    /// A player joined; it is the last of the game's players and is sent
    /// back with the size of the map.
    Joined,
    /// Nothing is sent back.
    Silent,
    /// The whole game state is sent back.
    State,
    /// The tick stopped where a mass would not fit in 32 bits: a cell
    /// taking in a pellet or another cell, a cell weighed at 120 times its
    /// mass, or a player weighed to be put in order; the server cannot go
    /// on.
    Fault,
}

/// The game as the server keeps it: its settings and the game state.
pub struct ServerState {
    pub conf: ServerConfig,
    pub gamedata: GameData,
}

impl ServerState {
    /// The settings fit the arithmetic, the food count is right, and every
    /// cell and player is on the map.
    pub open spec fn inv(&self) -> bool {
        &&& self.gamedata.wf()
        &&& self.conf.map_size.0 > 0
        &&& self.conf.map_size.1 > 0
        &&& 150 * self.conf.food_mass <= u32::MAX
        &&& cells_in_map(self.gamedata.players@, self.conf.map_size)
        &&& players_in_map(self.gamedata.players@, self.conf.map_size)
    }

    /// What a tick leaves behind: a fault only where some mass was too
    /// large for 32 bits, then with the mass kept; otherwise the players in
    /// order of mass and the mass kept, but for one more pellet where one
    /// was laid. At most one pellet is added, and none where as much food
    /// lies as the settings allow, so a game within the food limit stays
    /// within it.
    pub open spec fn tick_outcome(before: ServerState, after: ServerState, food: bool, reply: Reply) -> bool {
        let players = after.gamedata.players@;
        let (m0, m1) = (before.gamedata.total_mass(), after.gamedata.total_mass());
        &&& reply == Reply::State || reply == Reply::Fault
        &&& 120 * m0 <= u32::MAX ==> reply == Reply::State
        &&& reply == Reply::Fault ==> m1 == m0
        &&& reply == Reply::State ==> forall|a: int, b: int|
            0 <= a < b < players.len() ==> (#[trigger] players[a]).total_mass()
                >= (#[trigger] players[b]).total_mass()
        &&& !food ==> m1 == m0
        &&& food ==> (m1 == m0 || m1 == m0 + before.conf.food_mass)
        &&& reply == Reply::State && food && before.gamedata.total_food < before.conf.max_food
            ==> m1 == m0 + before.conf.food_mass
        &&& players.len() <= before.gamedata.players@.len()
        &&& after.gamedata.food@.len() <= before.gamedata.food@.len() + 1
        &&& before.gamedata.total_food <= before.conf.max_food
            ==> after.gamedata.total_food <= before.conf.max_food
    }

    /// A new game with the server's settings.
    pub fn new() -> (s: ServerState)
        ensures
            s.inv(),
            s.conf.food_mass == 50,
            s.conf.map_size == (2400u32, 1800u32),
            s.conf.v == 100,
            s.conf.max_food == 1000,
            s.conf.virus_number == 100,
            s.gamedata.players@.len() == 0,
            s.gamedata.food@.len() == 100,
            s.gamedata.viruses@.len() == 100,
    {
        let conf = ServerConfig::new();
        let gamedata = GameData::new(&conf);
        ServerState { conf, gamedata }
    }

    /// Adds a new player with the given name and id (see `Player::new`).
    fn join(&mut self, name: String, new_id: u64)
        requires
            old(self).inv(),
        ensures
            final(self).inv(),
            final(self).conf == old(self).conf,
            final(self).gamedata.viruses@ == old(self).gamedata.viruses@,
            final(self).gamedata.players@.len() == old(self).gamedata.players@.len() + 1,
            final(self).gamedata.players@.drop_last() == old(self).gamedata.players@,
            final(self).gamedata.players@.last().id == new_id,
            final(self).gamedata.players@.last().name@ == name@,
            final(self).gamedata.players@.last().ragarmen@.len() == 1,
            final(self).gamedata.players@.last().ragarmen@[0].mass == 10 * old(self).conf.food_mass,
            final(self).gamedata.players@.last().ragarmen@[0].name@ == name@,
            final(self).gamedata.players@.last().ragarmen@[0].color == final(self).gamedata.players@.last().color,
            final(self).gamedata.players@.last().pos == final(self).gamedata.players@.last().ragarmen@[0].pos,
            final(self).gamedata.food@ == old(self).gamedata.food@,
            final(self).gamedata.total_food == old(self).gamedata.total_food,
    {
        let player = Player::new(new_id, name, self.conf.map_size, self.conf.food_mass);
        let ghost before = self.gamedata.players@;
        let ghost joined = player;
        self.gamedata.players.push(player);
        proof {
            assert(self.gamedata.players@.drop_last() =~= before);
            let ps = self.gamedata.players@;
            assert forall|k: int, c: int|
                0 <= k < ps.len() && 0 <= c < ps[k].ragarmen@.len() implies in_map(
                #[trigger] ps[k].ragarmen@[c].pos,
                self.conf.map_size,
            ) by {
                if k < before.len() {
                    assert(ps[k] == before[k]);
                    assert(in_map(before[k].ragarmen@[c].pos, self.conf.map_size));
                } else {
                    assert(ps[k] == joined);
                    assert(c == 0);
                    assert(in_map(joined.pos, self.conf.map_size));
                    assert(joined.pos == joined.ragarmen@[0].pos);
                }
            }
            assert forall|k: int| 0 <= k < ps.len() implies in_map(#[trigger] ps[k].pos, self.conf.map_size) by {
                if k < before.len() {
                    assert(ps[k] == before[k]);
                }
            }
        }
    }

    /// One tick for the player `id`: everyone eats, the players are put in
    /// order of mass, one more pellet is laid if `food` is set and there is
    /// less food than the settings allow, and the player is steered towards
    /// `mouse_pos` when one is given. No other player's cell moves.
    fn tick<F, G, H>(
        &mut self,
        id: u64,
        food: bool,
        mouse_pos: Option<(i64, i64)>,
        reaches: &F,
        swallows: &G,
        moving: &H,
    ) -> (reply: Reply)
        where
            F: Fn(&Food, &RagarMan) -> bool,
            G: Fn(&RagarMan, &RagarMan) -> bool,
            H: Fn(&RagarMan, (i64, i64)) -> (i64, i64),
        requires
            old(self).inv(),
            forall|f: Food, r: RagarMan| reaches.requires((&f, &r)),
            forall|a: RagarMan, b: RagarMan| swallows.requires((&a, &b)),
            forall|r: RagarMan, t: (i64, i64)| moving.requires((&r, t)),
            forall|f: Food, r: RagarMan|
                !(reaches.ensures((&f, &r), true) && reaches.ensures((&f, &r), false)),
            forall|a: RagarMan, b: RagarMan|
                !(swallows.ensures((&a, &b), true) && swallows.ensures((&a, &b), false)),
        ensures
            final(self).inv(),
            final(self).conf == old(self).conf,
            final(self).gamedata.viruses@ == old(self).gamedata.viruses@,
            Self::tick_outcome(*old(self), *final(self), food, reply),
            tick_effect(*old(self), *final(self), id, food, mouse_pos, *reaches, *swallows, *moving, reply),
            others_stay(old(self).gamedata.players@, final(self).gamedata.players@, id),
    {
        let ghost m0 = start(self.gamedata.players@, self.gamedata.food@);
        let ghost reach = reach_of(*reaches);
        let ghost sw = swallow_of(*swallows);
        let completed = self.gamedata.eat(reaches, swallows);
        let ghost eaten = self.gamedata.players@;
        let ghost k = choose|k: nat|
            #![trigger run(m0, reach, sw, k)]
            {
                let m = run(m0, reach, sw, k);
                &&& ended(m)
                &&& (m.at is Done) == completed
                &&& m.cells == cells_of(self.gamedata.players@)
                &&& m.food == self.gamedata.food@
                &&& picks_players(m.from, self.gamedata.players@, old(self).gamedata.players@)
            };
        let ghost m = run(m0, reach, sw, k);
        proof {
            lemma_descend_each(eaten, old(self).gamedata.players@);
        }
        if !completed {
            proof {
                assert(cells_of(eaten) == m.cells);
            }
            return Reply::Fault;
        }
        let weighed = self.gamedata.players_weighable();
        proof {
            if 120 * old(self).gamedata.total_mass() <= u32::MAX {
                lemma_player_mass_nonneg();
                assert forall|k: int| 0 <= k < self.gamedata.players@.len() implies (
                #[trigger] self.gamedata.players@[k]).total_mass() <= u32::MAX by {
                    lemma_sum_bounds_one(self.gamedata.players@, k, player_mass_fn());
                    assert forall|f: Food| #[trigger] crate::gamedata::food_mass_fn()(f) >= 0 by {}
                    lemma_sum_nonneg(self.gamedata.food@, crate::gamedata::food_mass_fn());
                }
            }
        }
        if !weighed {
            proof {
                assert(cells_of(eaten) == m.cells);
            }
            return Reply::Fault;
        }
        let ghost unsorted = self.gamedata.players@;
        self.gamedata.sort_players_by_mass();
        proof {
            lemma_permutation_came_from(unsorted, self.gamedata.players@, old(self).gamedata.players@);
            crate::gamedata::lemma_permutation_in_map(unsorted, self.gamedata.players@, self.conf.map_size);
            crate::gamedata::lemma_permutation_mass(unsorted, self.gamedata.players@);
        }
        if food {
            if self.gamedata.total_food < self.conf.max_food {
                let ghost unfed = self.gamedata.food@;
                self.gamedata.feed(self.conf.food_mass, self.conf.map_size);
                proof {
                    crate::gamedata::lemma_food_push_mass(unfed, self.gamedata.food@);
                }
            }
        }
        let ghost sorted = self.gamedata.players@;
        proof {
            assert(fed(
                m.food,
                self.gamedata.food@,
                food && m.food.len() < self.conf.max_food,
                self.conf.food_mass,
                self.conf.map_size,
            ));
        }
        if let Some(mp) = mouse_pos {
            self.gamedata.move_player(id, mp, self.conf.map_size, moving);
            proof {
                let ps = self.gamedata.players@;
                assert forall|a: int| 0 <= a < ps.len() && ps[a].id != id implies #[trigger] came_from(
                    ps[a],
                    old(self).gamedata.players@,
                ) by {
                    assert(sorted[a].id != id);
                    assert(came_from(sorted[a], old(self).gamedata.players@));
                }
                assert forall|a: int, b: int| 0 <= a < b < ps.len() implies (#[trigger] ps[a]).total_mass()
                    >= (#[trigger] ps[b]).total_mass() by {
                    assert(ps[a].total_mass() == sorted[a].total_mass());
                    assert(ps[b].total_mass() == sorted[b].total_mass());
                }
            }
        }
        proof {
            assert(cells_of(eaten) == m.cells);
            assert(sorted == exchange_sorted(eaten, 0, 1));
        }
        Reply::State
    }

    /// Answers one request. A new player gets the id `new_id`. On a tick,
    /// `reaches`, `swallows` and `moving` are the caller's geometry (see
    /// `GameData::eat` and `GameData::move_player`). No request adds more
    /// than one pellet, and none leaves more food than the settings allow
    /// where there was not more before. On a tick the cells of every other
    /// player stay where they were: they only take in mass or leave.
    pub fn handle<F, G, H>(
        &mut self,
        req: Request,
        new_id: u64,
        reaches: &F,
        swallows: &G,
        moving: &H,
    ) -> (reply: Reply)
        where
            F: Fn(&Food, &RagarMan) -> bool,
            G: Fn(&RagarMan, &RagarMan) -> bool,
            H: Fn(&RagarMan, (i64, i64)) -> (i64, i64),
        requires
            old(self).inv(),
            forall|f: Food, r: RagarMan| reaches.requires((&f, &r)),
            forall|a: RagarMan, b: RagarMan| swallows.requires((&a, &b)),
            forall|r: RagarMan, t: (i64, i64)| moving.requires((&r, t)),
            forall|f: Food, r: RagarMan|
                !(reaches.ensures((&f, &r), true) && reaches.ensures((&f, &r), false)),
            forall|a: RagarMan, b: RagarMan|
                !(swallows.ensures((&a, &b), true) && swallows.ensures((&a, &b), false)),
        ensures
            final(self).inv(),
            final(self).conf == old(self).conf,
            final(self).gamedata.viruses@ == old(self).gamedata.viruses@,
            final(self).gamedata.food@.len() <= old(self).gamedata.food@.len() + 1,
            old(self).gamedata.total_food <= old(self).conf.max_food
                ==> final(self).gamedata.total_food <= final(self).conf.max_food,
            match req {
                Request::New { name } => {
                    let players = final(self).gamedata.players@;
                    &&& reply == Reply::Joined
                    &&& players.len() == old(self).gamedata.players@.len() + 1
                    &&& players.drop_last() == old(self).gamedata.players@
                    &&& players.last().id == new_id
                    &&& players.last().name@ == name@
                    &&& players.last().ragarmen@.len() == 1
                    &&& players.last().ragarmen@[0].mass == 10 * old(self).conf.food_mass
                    &&& players.last().ragarmen@[0].name@ == name@
                    &&& players.last().ragarmen@[0].color == players.last().color
                    &&& players.last().pos == players.last().ragarmen@[0].pos
                    &&& final(self).gamedata.food@ == old(self).gamedata.food@
                    &&& final(self).gamedata.total_food == old(self).gamedata.total_food
                },
                Request::Disconnect { id } => {
                    &&& reply == Reply::Silent
                    &&& forall|k: int|
                        crate::gamedata::first_with_id(old(self).gamedata.players@, id, k)
                            ==> final(self).gamedata.players@ == old(self).gamedata.players@.remove(k)
                    &&& (forall|k: int|
                        0 <= k < old(self).gamedata.players@.len()
                            ==> old(self).gamedata.players@[k].id != id)
                        ==> final(self).gamedata.players@ == old(self).gamedata.players@
                    &&& final(self).gamedata.food@ == old(self).gamedata.food@
                    &&& final(self).gamedata.total_food == old(self).gamedata.total_food
                },
                Request::Update { id, food, mouse_pos } => {
                    &&& Self::tick_outcome(*old(self), *final(self), food, reply)
                    &&& others_stay(old(self).gamedata.players@, final(self).gamedata.players@, id)
                    &&& tick_effect(
                        *old(self),
                        *final(self),
                        id,
                        food,
                        mouse_pos,
                        *reaches,
                        *swallows,
                        *moving,
                        reply,
                    )
                },
            },
    {
        match req {
            Request::New { name } => {
                self.join(name, new_id);
                Reply::Joined
            },
            Request::Disconnect { id } => {
                let ghost before = self.gamedata.players@;
                self.gamedata.remove_player(id);
                proof {
                    if exists|k0: int| 0 <= k0 < before.len() && before[k0].id == id {
                        let k0 = choose|k0: int| 0 <= k0 < before.len() && before[k0].id == id;
                        crate::gamedata::lemma_first_with_id_exists(before, id, k0);
                        let k = choose|k: int| crate::gamedata::first_with_id(before, id, k);
                        crate::gamedata::lemma_in_map_drop(before, k);
                        assert(self.gamedata.players@ == before.remove(k));
                    }
                }
                Reply::Silent
            },
            Request::Update { id, food, mouse_pos } => self.tick(
                id,
                food,
                mouse_pos,
                reaches,
                swallows,
                moving,
            ),
        }
    }
}

} // verus!
