use vstd::prelude::*;

use crate::food::Food;
use crate::lineage::{all_have_cells, cells_descend, lemma_meal_outcome_players};
use crate::meal::{
    cells_of, ended, grown, places, reach_of, run, start, swallow_of, Meal, Stage,
};
use crate::player::{cells_mass, moved_by, spec_player_pos, Player};
use crate::ragarman::{in_map, RagarMan};
use crate::server::ServerConfig;
use crate::sums::{
    lemma_sum_bounds_one, lemma_sum_bounds_two, lemma_sum_nonneg, lemma_sum_prefix,
    lemma_sum_remove, lemma_sum_take_next, lemma_sum_update, lemma_sum_zero, seq_sum,
};
use crate::virus::Virus;

verus! {

broadcast use vstd::seq_lib::group_to_multiset_ensures;

/// The mass of one player: the summed mass of its cells.
pub open spec fn player_mass_fn() -> spec_fn(Player) -> int {
    |p: Player| cells_mass(p.ragarmen@)
}

/// The mass of one food pellet.
pub open spec fn food_mass_fn() -> spec_fn(Food) -> int {
    |f: Food| f.mass as int
}

/// The two players differ at most in their cells.
pub open spec fn same_but_cells(a: Player, b: Player) -> bool {
    &&& a.id == b.id
    &&& a.name == b.name
    &&& a.color == b.color
    &&& a.pos == b.pos
}

/// `k` is the place of the first player with the given id.
pub open spec fn first_with_id(players: Seq<Player>, id: u64, k: int) -> bool {
    &&& 0 <= k < players.len()
    &&& players[k].id == id
    &&& forall|m: int| 0 <= m < k ==> players[m].id != id
}

/// A player with the given id at `k0` means there is a first one.
pub proof fn lemma_first_with_id_exists(players: Seq<Player>, id: u64, k0: int)
    requires
        0 <= k0 < players.len(),
        players[k0].id == id,
    ensures
        exists|k: int| first_with_id(players, id, k),
    decreases k0,
{
    if exists|m: int| 0 <= m < k0 && players[m].id == id {
        let m = choose|m: int| 0 <= m < k0 && players[m].id == id;
        lemma_first_with_id_exists(players, id, m);
    } else {
        assert(first_with_id(players, id, k0));
    }
}

/// No player has a negative mass.
pub proof fn lemma_player_mass_nonneg()
    ensures
        forall|p: Player| #[trigger] player_mass_fn()(p) >= 0,
{
    assert forall|p: Player| #[trigger] player_mass_fn()(p) >= 0 by {
        lemma_sum_nonneg(p.ragarmen@, crate::player::cell_mass_fn());
    }
}

/// No cell has a negative mass.
proof fn lemma_cell_mass_nonneg()
    ensures
        forall|r: RagarMan| #[trigger] crate::player::cell_mass_fn()(r) >= 0,
{
}

/// One cell of one player gains `m`: the players together gain `m`.
proof fn lemma_players_gain(before: Seq<Player>, after: Seq<Player>, k: int, c: int, m: int)
    requires
        0 <= k < before.len(),
        0 <= c < before[k].ragarmen@.len(),
        after == before.update(k, after[k]),
        after[k].ragarmen@ == before[k].ragarmen@.update(c, after[k].ragarmen@[c]),
        after[k].ragarmen@[c].mass == before[k].ragarmen@[c].mass + m,
    ensures
        seq_sum(after, player_mass_fn()) == seq_sum(before, player_mass_fn()) + m,
{
    let cf = crate::player::cell_mass_fn();
    lemma_sum_update(before[k].ragarmen@, c, after[k].ragarmen@[c], cf);
    lemma_sum_update(before, k, after[k], player_mass_fn());
}

/// One cell of one player is taken away: the players lose its mass.
proof fn lemma_players_lose(before: Seq<Player>, after: Seq<Player>, k: int, c: int)
    requires
        0 <= k < before.len(),
        0 <= c < before[k].ragarmen@.len(),
        after == before.update(k, after[k]),
        after[k].ragarmen@ == before[k].ragarmen@.remove(c),
    ensures
        seq_sum(after, player_mass_fn()) == seq_sum(before, player_mass_fn())
            - before[k].ragarmen@[c].mass,
{
    let cf = crate::player::cell_mass_fn();
    lemma_sum_remove(before[k].ragarmen@, c, cf);
    lemma_sum_update(before, k, after[k], player_mass_fn());
}

/// A player with no cells leaves: the players' mass stays.
proof fn lemma_players_drop_empty(before: Seq<Player>, k: int)
    requires
        0 <= k < before.len(),
        before[k].ragarmen@.len() == 0,
    ensures
        seq_sum(before.remove(k), player_mass_fn()) == seq_sum(before, player_mass_fn()),
{
    lemma_sum_remove(before, k, player_mass_fn());
    lemma_sum_zero(before[k].ragarmen@, crate::player::cell_mass_fn());
}

/// One cell weighs at most what all players weigh together.
proof fn lemma_cell_bound(players: Seq<Player>, k: int, c: int)
    requires
        0 <= k < players.len(),
        0 <= c < players[k].ragarmen@.len(),
    ensures
        players[k].ragarmen@[c].mass <= seq_sum(players, player_mass_fn()),
{
    lemma_cell_mass_nonneg();
    lemma_player_mass_nonneg();
    lemma_sum_bounds_one(players[k].ragarmen@, c, crate::player::cell_mass_fn());
    lemma_sum_bounds_one(players, k, player_mass_fn());
}

/// Two cells of two different players weigh together at most what all
/// players weigh together.
proof fn lemma_two_cells_bound(players: Seq<Player>, k1: int, c1: int, k2: int, c2: int)
    requires
        0 <= k1 < players.len(),
        0 <= k2 < players.len(),
        k1 != k2,
        0 <= c1 < players[k1].ragarmen@.len(),
        0 <= c2 < players[k2].ragarmen@.len(),
    ensures
        players[k1].ragarmen@[c1].mass + players[k2].ragarmen@[c2].mass <= seq_sum(
            players,
            player_mass_fn(),
        ),
{
    lemma_cell_mass_nonneg();
    lemma_player_mass_nonneg();
    lemma_sum_bounds_one(players[k1].ragarmen@, c1, crate::player::cell_mass_fn());
    lemma_sum_bounds_one(players[k2].ragarmen@, c2, crate::player::cell_mass_fn());
    lemma_sum_bounds_two(players, k1, k2, player_mass_fn());
}

/// One food pellet weighs at most what all food weighs together.
proof fn lemma_food_bound(food: Seq<Food>, i: int)
    requires
        0 <= i < food.len(),
    ensures
        food[i].mass <= seq_sum(food, food_mass_fn()),
{
    assert forall|f: Food| #[trigger] food_mass_fn()(f) >= 0 by {}
    lemma_sum_bounds_one(food, i, food_mass_fn());
}

/// Every cell of every player lies on the map.
pub open spec fn cells_in_map(players: Seq<Player>, map_size: (u32, u32)) -> bool {
    forall|k: int, c: int|
        0 <= k < players.len() && 0 <= c < players[k].ragarmen@.len() ==> in_map(
            #[trigger] players[k].ragarmen@[c].pos,
            map_size,
        )
}

/// Every player stands on the map.
pub open spec fn players_in_map(players: Seq<Player>, map_size: (u32, u32)) -> bool {
    forall|k: int| 0 <= k < players.len() ==> in_map(#[trigger] players[k].pos, map_size)
}

/// Replacing one cell of one player by a cell at the same place, or
/// taking one cell away, keeps every cell and player on whatever map they
/// were on.
proof fn lemma_in_map_kept(before: Seq<Player>, after: Seq<Player>, k: int)
    requires
        0 <= k < before.len(),
        after == before.update(k, after[k]),
        after[k].pos == before[k].pos,
        forall|c: int|
            0 <= c < after[k].ragarmen@.len() ==> exists|c2: int|
                0 <= c2 < before[k].ragarmen@.len() && #[trigger] after[k].ragarmen@[c].pos
                    == before[k].ragarmen@[c2].pos,
    ensures
        forall|m: (u32, u32)| cells_in_map(before, m) ==> #[trigger] cells_in_map(after, m),
        forall|m: (u32, u32)| players_in_map(before, m) ==> #[trigger] players_in_map(after, m),
{
    assert forall|m: (u32, u32)| cells_in_map(before, m) implies #[trigger] cells_in_map(after, m) by {
        assert forall|k2: int, c: int|
            0 <= k2 < after.len() && 0 <= c < after[k2].ragarmen@.len() implies in_map(
            #[trigger] after[k2].ragarmen@[c].pos,
            m,
        ) by {
            if k2 == k {
                let c2 = choose|c2: int|
                    0 <= c2 < before[k].ragarmen@.len() && after[k].ragarmen@[c].pos
                        == before[k].ragarmen@[c2].pos;
                assert(in_map(before[k].ragarmen@[c2].pos, m));
            } else {
                assert(after[k2] == before[k2]);
                assert(in_map(before[k2].ragarmen@[c].pos, m));
            }
        }
    }
    assert forall|m: (u32, u32)| players_in_map(before, m) implies #[trigger] players_in_map(after, m) by {
        assert forall|k2: int| 0 <= k2 < after.len() implies in_map(#[trigger] after[k2].pos, m) by {
            assert(in_map(before[k2].pos, m));
        }
    }
}

/// Taking one player away keeps every other cell and player where it was.
pub proof fn lemma_in_map_drop(before: Seq<Player>, k: int)
    requires
        0 <= k < before.len(),
    ensures
        forall|m: (u32, u32)| cells_in_map(before, m) ==> #[trigger] cells_in_map(before.remove(k), m),
        forall|m: (u32, u32)| players_in_map(before, m) ==> #[trigger] players_in_map(before.remove(k), m),
{
    let after = before.remove(k);
    assert forall|m: (u32, u32)| cells_in_map(before, m) implies #[trigger] cells_in_map(after, m) by {
        assert forall|k2: int, c: int|
            0 <= k2 < after.len() && 0 <= c < after[k2].ragarmen@.len() implies in_map(
            #[trigger] after[k2].ragarmen@[c].pos,
            m,
        ) by {
            let k3 = if k2 < k { k2 } else { k2 + 1 };
            assert(after[k2] == before[k3]);
            assert(in_map(before[k3].ragarmen@[c].pos, m));
        }
    }
    assert forall|m: (u32, u32)| players_in_map(before, m) implies #[trigger] players_in_map(after, m) by {
        assert forall|k2: int| 0 <= k2 < after.len() implies in_map(#[trigger] after[k2].pos, m) by {
            let k3 = if k2 < k { k2 } else { k2 + 1 };
            assert(after[k2] == before[k3]);
            assert(in_map(before[k3].pos, m));
        }
    }
}

/// Players in another order stand where they stood.
pub proof fn lemma_permutation_in_map(a: Seq<Player>, b: Seq<Player>, map_size: (u32, u32))
    requires
        a.to_multiset() == b.to_multiset(),
    ensures
        cells_in_map(a, map_size) ==> cells_in_map(b, map_size),
        players_in_map(a, map_size) ==> players_in_map(b, map_size),
{
    assert forall|k: int| 0 <= k < b.len() implies exists|j: int| 0 <= j < a.len() && a[j] == #[trigger] b[k] by {
        assert(b.contains(b[k]));
        assert(b.to_multiset().count(b[k]) > 0);
        assert(a.contains(b[k]));
    }
    if cells_in_map(a, map_size) {
        assert forall|k: int, c: int|
            0 <= k < b.len() && 0 <= c < b[k].ragarmen@.len() implies in_map(
            #[trigger] b[k].ragarmen@[c].pos,
            map_size,
        ) by {
            let j = choose|j: int| 0 <= j < a.len() && a[j] == b[k];
            assert(in_map(a[j].ragarmen@[c].pos, map_size));
        }
    }
    if players_in_map(a, map_size) {
        assert forall|k: int| 0 <= k < b.len() implies in_map(#[trigger] b[k].pos, map_size) by {
            let j = choose|j: int| 0 <= j < a.len() && a[j] == b[k];
            assert(in_map(a[j].pos, map_size));
        }
    }
}

/// Players in another order weigh what they weighed.
pub proof fn lemma_permutation_mass(a: Seq<Player>, b: Seq<Player>)
    requires
        a.to_multiset() == b.to_multiset(),
    ensures
        seq_sum(a, player_mass_fn()) == seq_sum(b, player_mass_fn()),
    decreases a.len(),
{
    broadcast use vstd::seq_lib::group_to_multiset_ensures;

    assert(a.to_multiset().len() == a.len());
    assert(b.to_multiset().len() == b.len());
    if a.len() == 0 {
        assert(b.len() == 0);
    } else {
        let x = a.last();
        assert(a.contains(x)) by {
            assert(a[a.len() - 1] == x);
        }
        assert(a.to_multiset().count(x) > 0);
        assert(b.contains(x));
        let j = choose|j: int| 0 <= j < b.len() && b[j] == x;
        assert(a.drop_last() =~= a.remove(a.len() - 1));
        assert(a.drop_last().to_multiset() =~= b.remove(j).to_multiset());
        lemma_permutation_mass(a.drop_last(), b.remove(j));
        lemma_sum_remove(b, j, player_mass_fn());
    }
}

/// One more pellet adds its mass.
pub proof fn lemma_food_push_mass(before: Seq<Food>, after: Seq<Food>)
    requires
        after.len() == before.len() + 1,
        after.drop_last() == before,
    ensures
        seq_sum(after, food_mass_fn()) == seq_sum(before, food_mass_fn()) + after.last().mass,
{
}

/// `m` picks, in order, the place each player of `now` had among `before`:
/// the players of `now` are players of `before` (the same but for their
/// cells), in the same order.
pub open spec fn picks_players(m: Seq<int>, now: Seq<Player>, before: Seq<Player>) -> bool {
    &&& m.len() == now.len()
    &&& forall|i: int, j: int| 0 <= i < j < m.len() ==> m[i] < m[j]
    &&& forall|i: int|
        #![trigger m[i]]
        0 <= i < m.len() ==> 0 <= m[i] < before.len() && same_but_cells(now[i], before[m[i]])
}

/// The players of `now` are players of `before` (the same but for their
/// cells), some left out, the rest in the same order.
pub open spec fn players_kept_in_order(now: Seq<Player>, before: Seq<Player>) -> bool {
    exists|m: Seq<int>| picks_players(m, now, before)
}

/// `m` picks, in order, the place each pellet of `now` had among `before`.
pub open spec fn picks_food(m: Seq<int>, now: Seq<Food>, before: Seq<Food>) -> bool {
    &&& m.len() == now.len()
    &&& forall|i: int, j: int| 0 <= i < j < m.len() ==> m[i] < m[j]
    &&& forall|i: int|
        #![trigger m[i]]
        0 <= i < m.len() ==> 0 <= m[i] < before.len() && now[i] == before[m[i]]
}

/// The pellets of `now` are pellets of `before`, some left out, the rest in
/// the same order.
pub open spec fn food_kept_in_order(now: Seq<Food>, before: Seq<Food>) -> bool {
    exists|m: Seq<int>| picks_food(m, now, before)
}

proof fn lemma_picks_food_remove(m: Seq<int>, now: Seq<Food>, before: Seq<Food>, i: int)
    requires
        picks_food(m, now, before),
        0 <= i < now.len(),
    ensures
        picks_food(m.remove(i), now.remove(i), before),
{
    let m2 = m.remove(i);
    assert forall|a: int, b: int| 0 <= a < b < m2.len() implies m2[a] < m2[b] by {
        let a1 = if a < i { a } else { a + 1 };
        let b1 = if b < i { b } else { b + 1 };
        assert(m2[a] == m[a1] && m2[b] == m[b1]);
    }
    assert forall|a: int|
        #![trigger m2[a]]
        0 <= a < m2.len() implies 0 <= m2[a] < before.len() && now.remove(i)[a] == before[m2[a]] by {
        let a1 = if a < i { a } else { a + 1 };
        assert(m2[a] == m[a1]);
    }
}

proof fn lemma_picks_players_remove(m: Seq<int>, now: Seq<Player>, before: Seq<Player>, i: int)
    requires
        picks_players(m, now, before),
        0 <= i < now.len(),
    ensures
        picks_players(m.remove(i), now.remove(i), before),
{
    let m2 = m.remove(i);
    assert forall|a: int, b: int| 0 <= a < b < m2.len() implies m2[a] < m2[b] by {
        let a1 = if a < i { a } else { a + 1 };
        let b1 = if b < i { b } else { b + 1 };
        assert(m2[a] == m[a1] && m2[b] == m[b1]);
    }
    assert forall|a: int|
        #![trigger m2[a]]
        0 <= a < m2.len() implies 0 <= m2[a] < before.len() && same_but_cells(now.remove(i)[a], before[m2[a]]) by {
        let a1 = if a < i { a } else { a + 1 };
        assert(m2[a] == m[a1]);
    }
}

/// Every element picks itself.
proof fn lemma_picks_identity(food: Seq<Food>, players: Seq<Player>)
    ensures
        picks_food(Seq::new(food.len(), |i: int| i), food, food),
        picks_players(Seq::new(players.len(), |i: int| i), players, players),
{
}

/// The players as the exchange sort leaves them, from the point where
/// player `i` is compared with player `j`: each player in turn is
/// exchanged with every later player that is strictly heavier.
pub open spec fn exchange_sorted(s: Seq<Player>, i: int, j: int) -> Seq<Player>
    decreases s.len() - i, s.len() - j,
{
    if i < 0 || j < 0 || i >= s.len() - 1 {
        s
    } else if j >= s.len() {
        exchange_sorted(s, i + 1, i + 2)
    } else if s[i].total_mass() < s[j].total_mass() {
        exchange_sorted(s.update(i, s[j]).update(j, s[i]), i, j + 1)
    } else {
        exchange_sorted(s, i, j + 1)
    }
}

/// Players already in order of mass, heaviest first, are left as they are
/// by the exchange sort: no player is strictly heavier than one before it,
/// so nothing is exchanged, not even players of equal mass. Sorting twice
/// therefore gives what sorting once gives.
pub proof fn lemma_exchange_sorted_keeps_order(s: Seq<Player>, i: int, j: int)
    requires
        0 <= i < j,
        forall|a: int, b: int|
            0 <= a < b < s.len() ==> (#[trigger] s[a]).total_mass() >= (#[trigger] s[b]).total_mass(),
    ensures
        exchange_sorted(s, i, j) == s,
    decreases s.len() - i, s.len() - j,
{
    if i >= s.len() - 1 {
    } else if j >= s.len() {
        lemma_exchange_sorted_keeps_order(s, i + 1, i + 2);
    } else {
        assert(s[i].total_mass() >= s[j].total_mass());
        lemma_exchange_sorted_keeps_order(s, i, j + 1);
    }
}

/// `after` is `before` with every player of the given id steered towards
/// `mouse_pos` (see `Player::steer`) and every other player as it was.
pub open spec fn steered<H: Fn(&RagarMan, (i64, i64)) -> (i64, i64)>(
    before: Seq<Player>,
    after: Seq<Player>,
    id: u64,
    mouse_pos: (i64, i64),
    map_size: (u32, u32),
    moving: H,
) -> bool {
    &&& after.len() == before.len()
    &&& forall|k: int|
        0 <= k < before.len() && before[k].id != id ==> #[trigger] after[k] == before[k]
    &&& forall|k: int|
        0 <= k < before.len() && before[k].id == id ==> {
            let (b, a) = (before[k], #[trigger] after[k]);
            &&& a.id == b.id
            &&& a.name == b.name
            &&& a.color == b.color
            &&& a.ragarmen@.len() == b.ragarmen@.len()
            &&& forall|c: int|
                0 <= c < a.ragarmen@.len() ==> moved_by(
                    moving,
                    b.ragarmen@[c],
                    #[trigger] a.ragarmen@[c],
                    mouse_pos,
                    map_size,
                )
            &&& a.pos.0 == spec_player_pos(a.ragarmen@).0
            &&& a.pos.1 == spec_player_pos(a.ragarmen@).1
        }
}

/// Every player's mass fits in 32 bits, where there are at least two
/// players to put in order.
pub open spec fn weighable(players: Seq<Player>) -> bool {
    players.len() >= 2 ==> forall|k: int|
        0 <= k < players.len() ==> (#[trigger] players[k]).total_mass() <= u32::MAX
}

/// By mass alone, a cell of mass `eater` may swallow one of mass `prey`:
/// it weighs at least 120/100 of it, rounded down.
pub open spec fn spec_can_swallow(eater: u32, prey: u32) -> bool {
    eater as int >= (120 * prey as int) / 100
}

/// Whether, by mass alone, a cell of mass `eater` may swallow one of mass
/// `prey`.
pub fn can_swallow(eater: u32, prey: u32) -> (b: bool)
    requires
        120 * prey <= u32::MAX,
    ensures
        b == spec_can_swallow(eater, prey),
{
    eater >= 120 * prey / 100
}

/// Exchanges the elements at `i` and `j`.
fn swap_elems<T>(v: &mut Vec<T>, i: usize, j: usize)
    requires
        i < j < old(v)@.len(),
    ensures
        final(v)@ == old(v)@.update(i as int, old(v)@[j as int]).update(j as int, old(v)@[i as int]),
{
    let mut elem_j = v.remove(j);
    std::mem::swap(&mut v[i], &mut elem_j);
    v.insert(j, elem_j);
    assert(v@ =~= old(v)@.update(i as int, old(v)@[j as int]).update(j as int, old(v)@[i as int]));
}

/// The state of a game: the players, the food and the viruses on the map,
/// and a count of the food.
pub struct GameData {
    pub players: Vec<Player>,
    pub food: Vec<Food>,
    pub viruses: Vec<Virus>,
    pub total_food: u32,
}

impl GameData {
    /// The food count is the number of pellets on the map.
    pub open spec fn wf(&self) -> bool {
        self.total_food as int == self.food@.len()
    }

    /// The summed mass of all cells of all players.
    pub open spec fn players_mass(&self) -> int {
        seq_sum(self.players@, player_mass_fn())
    }

    /// The summed mass of all food pellets.
    pub open spec fn food_mass(&self) -> int {
        seq_sum(self.food@, food_mass_fn())
    }

    /// All the mass that cells and food hold together.
    pub open spec fn total_mass(&self) -> int {
        self.players_mass() + self.food_mass()
    }

    /// A new game on the configured map: no players, a hundred food pellets
    /// and the configured number of viruses, all at random places.
    pub fn new(conf: &ServerConfig) -> (g: GameData)
        requires
            conf.virus_number > 0 ==> 150 * conf.food_mass <= u32::MAX,
            conf.map_size.0 > 0,
            conf.map_size.1 > 0,
        ensures
            g.wf(),
            g.players@.len() == 0,
            g.food@.len() == 100,
            g.total_food == 100,
            forall|k: int|
                0 <= k < g.food@.len() ==> {
                    &&& (#[trigger] g.food@[k]).mass == conf.food_mass
                    &&& 0 <= g.food@[k].pos.0 < conf.map_size.0
                    &&& 0 <= g.food@[k].pos.1 < conf.map_size.1
                },
            g.viruses@.len() == conf.virus_number,
            forall|k: int|
                0 <= k < g.viruses@.len() ==> {
                    &&& (#[trigger] g.viruses@[k]).mass == 150 * conf.food_mass
                    &&& g.viruses@[k].gen == crate::virus::GREEN_FREEZE
                    &&& 0 <= g.viruses@[k].pos.0 < conf.map_size.0
                    &&& 0 <= g.viruses@[k].pos.1 < conf.map_size.1
                },
    {
        let initial_food: u32 = 100;
        let mut food: Vec<Food> = Vec::new();
        let mut n: u32 = 0;
        while n < initial_food
            invariant
                n <= initial_food,
                food@.len() == n,
                forall|k: int|
                    0 <= k < food@.len() ==> {
                        &&& (#[trigger] food@[k]).mass == conf.food_mass
                        &&& 0 <= food@[k].pos.0 < conf.map_size.0
                        &&& 0 <= food@[k].pos.1 < conf.map_size.1
                    },
                conf.map_size.0 > 0,
                conf.map_size.1 > 0,
            decreases initial_food - n,
        {
            food.push(Food::scatter(conf.food_mass, conf.map_size));
            n = n + 1;
        }
        let mut viruses: Vec<Virus> = Vec::new();
        let mut n: u32 = 0;
        while n < conf.virus_number
            invariant
                n <= conf.virus_number,
                viruses@.len() == n,
                forall|k: int|
                    0 <= k < viruses@.len() ==> {
                        &&& (#[trigger] viruses@[k]).mass == 150 * conf.food_mass
                        &&& viruses@[k].gen == crate::virus::GREEN_FREEZE
                        &&& 0 <= viruses@[k].pos.0 < conf.map_size.0
                        &&& 0 <= viruses@[k].pos.1 < conf.map_size.1
                    },
                conf.virus_number > 0 ==> 150 * conf.food_mass <= u32::MAX,
                conf.map_size.0 > 0,
                conf.map_size.1 > 0,
            decreases conf.virus_number - n,
        {
            viruses.push(Virus::new(conf.map_size, conf.food_mass));
            n = n + 1;
        }
        GameData { players: Vec::new(), food, viruses, total_food: initial_food }
    }

    /// Players eat everything they can: first each cell takes in the food
    /// it reaches, then each cell of each player meets every cell of each
    /// later player, and players left without cells leave the game;
    /// `crate::meal::step` says exactly how, and the game is left as the
    /// meal that starts from it ends. Where a pellet or a cell lies, and
    /// how far a cell reaches, is the caller's geometry, which must give
    /// one answer for one question: `reaches(food, cell)` says whether the
    /// cell reaches the pellet, `swallows(eater, prey)` whether the eater
    /// covers enough of the prey to swallow it. Returns `false`, having
    /// stopped, where a mass would not fit in 32 bits: a cell taking in a
    /// pellet or another cell, or a cell weighed at 120 times its mass
    /// (which can only happen when all the mass together is that large).
    /// Either way the mass is kept, and each player's cells are some of the
    /// cells it had, in order: cells only take in mass or leave, and keep
    /// their place, name and colour. Where every player had a cell and the
    /// meal finished, every player left has one: a player leaves exactly
    /// when all its cells have been swallowed.
    pub fn eat<F, G>(&mut self, reaches: &F, swallows: &G) -> (completed: bool)
        where
            F: Fn(&Food, &RagarMan) -> bool,
            G: Fn(&RagarMan, &RagarMan) -> bool,
        requires
            old(self).wf(),
            forall|f: Food, r: RagarMan| reaches.requires((&f, &r)),
            forall|a: RagarMan, b: RagarMan| swallows.requires((&a, &b)),
            forall|f: Food, r: RagarMan|
                !(reaches.ensures((&f, &r), true) && reaches.ensures((&f, &r), false)),
            forall|a: RagarMan, b: RagarMan|
                !(swallows.ensures((&a, &b), true) && swallows.ensures((&a, &b), false)),
        ensures
            final(self).wf(),
            final(self).total_mass() == old(self).total_mass(),
            final(self).viruses@ == old(self).viruses@,
            final(self).food@.len() <= old(self).food@.len(),
            final(self).players@.len() <= old(self).players@.len(),
            food_kept_in_order(final(self).food@, old(self).food@),
            players_kept_in_order(final(self).players@, old(self).players@),
            exists|k: nat|
                #![trigger run(start(old(self).players@, old(self).food@), reach_of(*reaches), swallow_of(*swallows), k)]
                {
                    let m = run(
                        start(old(self).players@, old(self).food@),
                        reach_of(*reaches),
                        swallow_of(*swallows),
                        k,
                    );
                    &&& ended(m)
                    &&& (m.at is Done) == completed
                    &&& m.cells == cells_of(final(self).players@)
                    &&& m.food == final(self).food@
                    &&& picks_players(m.from, final(self).players@, old(self).players@)
                },
            forall|m: (u32, u32)|
                cells_in_map(old(self).players@, m) ==> #[trigger] cells_in_map(final(self).players@, m),
            forall|m: (u32, u32)|
                players_in_map(old(self).players@, m) ==> #[trigger] players_in_map(final(self).players@, m),
            120 * old(self).total_mass() <= u32::MAX ==> completed,
            cells_descend(final(self).players@, old(self).players@),
            all_have_cells(old(self).players@) && completed ==> all_have_cells(final(self).players@),
    {
        let ghost init = start(self.players@, self.food@);
        let ghost reach = reach_of(*reaches);
        let ghost sw = swallow_of(*swallows);
        let fed_all = self.eat_food(reaches, Ghost(sw));
        let ghost fed = self.players@;
        if !fed_all {
            proof {
                let k = choose|k: nat|
                    run(init, reach, sw, k) == (Meal {
                        cells: cells_of(self.players@),
                        from: places(old(self).players@.len()),
                        food: self.food@,
                        at: Stage::Fault,
                    });
                let m = run(init, reach, sw, k);
                assert(ended(m));
                assert forall|a: int| #![trigger m.from[a]] 0 <= a < m.from.len() implies 0 <= m.from[a]
                    < old(self).players@.len() && same_but_cells(self.players@[a], old(self).players@[m.from[a]]) by {
                    assert(m.from[a] == a);
                    assert(same_but_cells(self.players@[a], old(self).players@[a]));
                }
                assert(picks_players(m.from, self.players@, old(self).players@));
                lemma_meal_outcome_players(old(self).players@, old(self).food@, reach, sw, k, self.players@);
                lemma_player_mass_nonneg();
                lemma_sum_nonneg(old(self).players@, player_mass_fn());
                assert forall|f: Food| #[trigger] food_mass_fn()(f) >= 0 by {}
                lemma_sum_nonneg(old(self).food@, food_mass_fn());
            }
            return false;
        }
        let ghost k0 = choose|k: nat|
            run(init, reach, sw, k) == (Meal {
                cells: cells_of(self.players@),
                from: places(old(self).players@.len()),
                food: self.food@,
                at: Stage::Outer { i: 0 },
            });
        let completed = self.eat_players(swallows, Ghost(init), Ghost(reach), Ghost(k0));
        proof {
            let k = choose|k: nat|
                #![trigger run(init, reach, sw, k)]
                {
                    let m = run(init, reach, sw, k);
                    &&& ended(m)
                    &&& (m.at is Done) == completed
                    &&& m.cells == cells_of(self.players@)
                    &&& m.food == self.food@
                    &&& picks_players(m.from, self.players@, fed)
                };
            let m = run(init, reach, sw, k);
            lemma_meal_outcome_players(old(self).players@, old(self).food@, reach, sw, k, self.players@);
            assert forall|a: int|
                #![trigger m.from[a]]
                0 <= a < m.from.len() implies 0 <= m.from[a] < old(self).players@.len() && same_but_cells(
                self.players@[a],
                old(self).players@[m.from[a]],
            ) by {
                assert(same_but_cells(fed[m.from[a]], old(self).players@[m.from[a]]));
            }
            assert(picks_players(m.from, self.players@, old(self).players@));
        }
        completed
    }

    /// Every cell takes in each food pellet that it reaches, the pellets
    /// scanned in order for each cell of each player in turn (the food
    /// stage of `step`). `reaches(food, cell)` says whether the cell
    /// reaches the pellet.
    fn eat_food<F>(&mut self, reaches: &F, Ghost(swallow): Ghost<spec_fn(RagarMan, RagarMan) -> bool>) -> (fed: bool)
        where
            F: Fn(&Food, &RagarMan) -> bool,
        requires
            old(self).wf(),
            forall|f: Food, r: RagarMan| reaches.requires((&f, &r)),
            forall|f: Food, r: RagarMan|
                !(reaches.ensures((&f, &r), true) && reaches.ensures((&f, &r), false)),
        ensures
            final(self).wf(),
            final(self).total_mass() == old(self).total_mass(),
            final(self).viruses@ == old(self).viruses@,
            forall|m: (u32, u32)|
                cells_in_map(old(self).players@, m) ==> #[trigger] cells_in_map(final(self).players@, m),
            forall|m: (u32, u32)|
                players_in_map(old(self).players@, m) ==> #[trigger] players_in_map(final(self).players@, m),
            final(self).players@.len() == old(self).players@.len(),
            forall|k: int|
                0 <= k < final(self).players@.len() ==> {
                    &&& (#[trigger] final(self).players@[k]).ragarmen@.len() == old(self).players@[k].ragarmen@.len()
                    &&& same_but_cells(final(self).players@[k], old(self).players@[k])
                },
            final(self).food@.len() <= old(self).food@.len(),
            food_kept_in_order(final(self).food@, old(self).food@),
            exists|k: nat|
                run(start(old(self).players@, old(self).food@), reach_of(*reaches), swallow, k) == (Meal {
                    cells: cells_of(final(self).players@),
                    from: places(old(self).players@.len()),
                    food: final(self).food@,
                    at: if fed { Stage::Outer { i: 0 } } else { Stage::Fault },
                }),
            old(self).total_mass() <= u32::MAX ==> fed,
    {
        let ghost reach = reach_of(*reaches);
        let ghost init = start(self.players@, self.food@);
        let ghost n0 = self.players@.len();
        let ghost mut steps: nat = 0;
        let ghost mut kept = Seq::new(self.food@.len(), |i: int| i);
        proof {
            lemma_picks_identity(self.food@, self.players@);
            assert(run(init, reach, swallow, 0) =~~= (Meal {
                cells: cells_of(self.players@),
                from: places(n0),
                food: self.food@,
                at: Stage::Food { p: 0, r: 0, i: 0 },
            }));
        }
        let mut p: usize = 0;
        while p < self.players.len()
            invariant
                self.wf(),
                self.total_mass() == old(self).total_mass(),
                forall|f: Food, r: RagarMan| reaches.requires((&f, &r)),
                forall|f: Food, r: RagarMan|
                    !(reaches.ensures((&f, &r), true) && reaches.ensures((&f, &r), false)),
                self.viruses@ == old(self).viruses@,
                forall|m: (u32, u32)|
                    cells_in_map(old(self).players@, m) ==> #[trigger] cells_in_map(self.players@, m),
                forall|m: (u32, u32)|
                    players_in_map(old(self).players@, m) ==> #[trigger] players_in_map(self.players@, m),
                self.players@.len() == old(self).players@.len(),
                forall|k: int|
                    0 <= k < self.players@.len() ==> {
                        &&& (#[trigger] self.players@[k]).ragarmen@.len() == old(self).players@[k].ragarmen@.len()
                        &&& same_but_cells(self.players@[k], old(self).players@[k])
                    },
                self.food@.len() <= old(self).food@.len(),
                picks_food(kept, self.food@, old(self).food@),
                p <= self.players@.len(),
                reach == reach_of(*reaches),
                init == start(old(self).players@, old(self).food@),
                n0 == old(self).players@.len(),
                run(init, reach, swallow, steps) == (Meal {
                    cells: cells_of(self.players@),
                    from: places(n0),
                    food: self.food@,
                    at: Stage::Food { p: p as int, r: 0, i: 0 },
                }),
            decreases self.players@.len() - p,
        {
            let mut r: usize = 0;
            while r < self.players[p].ragarmen.len()
                invariant
                    self.wf(),
                    self.total_mass() == old(self).total_mass(),
                        forall|f: Food, r: RagarMan| reaches.requires((&f, &r)),
                    forall|f: Food, r: RagarMan|
                        !(reaches.ensures((&f, &r), true) && reaches.ensures((&f, &r), false)),
                    self.viruses@ == old(self).viruses@,
                    forall|m: (u32, u32)|
                        cells_in_map(old(self).players@, m) ==> #[trigger] cells_in_map(self.players@, m),
                    forall|m: (u32, u32)|
                        players_in_map(old(self).players@, m) ==> #[trigger] players_in_map(self.players@, m),
                    self.players@.len() == old(self).players@.len(),
                    forall|k: int|
                        0 <= k < self.players@.len() ==> {
                            &&& (#[trigger] self.players@[k]).ragarmen@.len() == old(self).players@[k].ragarmen@.len()
                            &&& same_but_cells(self.players@[k], old(self).players@[k])
                        },
                    self.food@.len() <= old(self).food@.len(),
                    picks_food(kept, self.food@, old(self).food@),

                    p < self.players@.len(),
                    r <= self.players@[p as int].ragarmen@.len(),
                    reach == reach_of(*reaches),
                    init == start(old(self).players@, old(self).food@),
                    n0 == old(self).players@.len(),
                    run(init, reach, swallow, steps) == (Meal {
                        cells: cells_of(self.players@),
                        from: places(n0),
                        food: self.food@,
                        at: Stage::Food { p: p as int, r: r as int, i: 0 },
                    }),
                decreases self.players@[p as int].ragarmen@.len() - r,
            {
                let mut i: usize = 0;
                while i < self.food.len()
                    invariant
                        self.wf(),
                        self.total_mass() == old(self).total_mass(),
                                forall|f: Food, r: RagarMan| reaches.requires((&f, &r)),
                        forall|f: Food, r: RagarMan|
                            !(reaches.ensures((&f, &r), true) && reaches.ensures((&f, &r), false)),
                        self.viruses@ == old(self).viruses@,
                        forall|m: (u32, u32)|
                            cells_in_map(old(self).players@, m) ==> #[trigger] cells_in_map(self.players@, m),
                        forall|m: (u32, u32)|
                            players_in_map(old(self).players@, m) ==> #[trigger] players_in_map(self.players@, m),
                        self.players@.len() == old(self).players@.len(),
                        forall|k: int|
                            0 <= k < self.players@.len() ==> {
                                &&& (#[trigger] self.players@[k]).ragarmen@.len() == old(self).players@[k].ragarmen@.len()
                                &&& same_but_cells(self.players@[k], old(self).players@[k])
                            },
                        self.food@.len() <= old(self).food@.len(),
                        picks_food(kept, self.food@, old(self).food@),

                        p < self.players@.len(),
                        r < self.players@[p as int].ragarmen@.len(),
                        i <= self.food@.len(),
                        reach == reach_of(*reaches),
                        init == start(old(self).players@, old(self).food@),
                        n0 == old(self).players@.len(),
                        run(init, reach, swallow, steps) == (Meal {
                            cells: cells_of(self.players@),
                            from: places(n0),
                            food: self.food@,
                            at: Stage::Food { p: p as int, r: r as int, i: i as int },
                        }),
                    decreases self.food@.len() - i,
                {
                    let b = reaches(&self.food[i], &self.players[p].ragarmen[r]);
                    proof {
                        assert(b == reach(self.food@[i as int], self.players@[p as int].ragarmen@[r as int]));
                    }
                    if b {
                        let fm = self.food[i].mass;
                        let ghost before = self.players@;
                        let ghost meal = run(init, reach, swallow, steps);
                        proof {
                            lemma_cell_bound(before, p as int, r as int);
                            lemma_food_bound(self.food@, i as int);
                            lemma_player_mass_nonneg();
                            lemma_sum_nonneg(before, player_mass_fn());
                            assert forall|f: Food| #[trigger] food_mass_fn()(f) >= 0 by {}
                            lemma_sum_nonneg(self.food@, food_mass_fn());
                        }
                        if fm > 0xffff_ffff - self.players[p].ragarmen[r].mass {
                            proof {
                                steps = steps + 1;
                                assert(run(init, reach, swallow, steps) == (Meal {
                                    cells: cells_of(self.players@),
                                    from: places(n0),
                                    food: self.food@,
                                    at: Stage::Fault,
                                }));
                            }
                            return false;
                        }
                        self.players[p].ragarmen[r].gain_mass(fm);
                        proof {
                            assert(self.players@ == before.update(p as int, self.players@[p as int]));
                            assert(self.players@[p as int].ragarmen@ == before[p as int].ragarmen@.update(
                                r as int,
                                self.players@[p as int].ragarmen@[r as int],
                            ));
                            lemma_players_gain(before, self.players@, p as int, r as int, fm as int);
                            assert forall|c: int|
                                0 <= c < self.players@[p as int].ragarmen@.len() implies exists|c2: int|
                                0 <= c2 < before[p as int].ragarmen@.len() && (#[trigger] self.players@[p as int].ragarmen@[c]).pos
                                    == (#[trigger] before[p as int].ragarmen@[c2]).pos by {
                                assert(self.players@[p as int].ragarmen@[c].pos == before[p as int].ragarmen@[c].pos);
                            }
                            lemma_in_map_kept(before, self.players@, p as int);
                            lemma_sum_remove(self.food@, i as int, food_mass_fn());
                            lemma_picks_food_remove(kept, self.food@, old(self).food@, i as int);
                            kept = kept.remove(i as int);
                            assert(same_but_cells(self.players@[p as int], before[p as int]));
                            assert(self.players@[p as int].ragarmen@[r as int] == grown(
                                before[p as int].ragarmen@[r as int],
                                fm,
                            ));
                            assert(cells_of(self.players@) =~= meal.cells.update(
                                p as int,
                                meal.cells[p as int].update(r as int, grown(meal.cells[p as int][r as int], fm)),
                            ));
                        }
                        self.food.remove(i);
                        self.total_food = self.total_food - 1;
                        proof {
                            steps = steps + 1;
                        }
                    } else {
                        i = i + 1;
                        proof {
                            steps = steps + 1;
                        }
                    }
                }
                r = r + 1;
                proof {
                    steps = steps + 1;
                }
            }
            p = p + 1;
            proof {
                steps = steps + 1;
            }
        }
        proof {
            steps = steps + 1;
            assert(picks_food(kept, self.food@, old(self).food@));
            assert(run(init, reach, swallow, steps) == (Meal {
                cells: cells_of(self.players@),
                from: places(n0),
                food: self.food@,
                at: Stage::Outer { i: 0 },
            }));
        }
        true
    }

    /// Each pair of players, in order, sets its cells against each other
    /// (the later stages of `step`): each cell of the first meets every
    /// cell of the second; a cell that weighs at least 120/100 of another
    /// and swallows it (as `swallows(eater, prey)` says) takes in its mass,
    /// and the other cell is gone; a player left without cells leaves the
    /// game. Stops and returns `false` where a mass would not fit in 32
    /// bits, when weighed at 120 times or when taken in.
    fn eat_players<G>(
        &mut self,
        swallows: &G,
        Ghost(init): Ghost<Meal>,
        Ghost(reach): Ghost<spec_fn(Food, RagarMan) -> bool>,
        Ghost(steps0): Ghost<nat>,
    ) -> (completed: bool)
        where
            G: Fn(&RagarMan, &RagarMan) -> bool,
        requires
            old(self).wf(),
            forall|a: RagarMan, b: RagarMan| swallows.requires((&a, &b)),
            forall|a: RagarMan, b: RagarMan|
                !(swallows.ensures((&a, &b), true) && swallows.ensures((&a, &b), false)),
            run(init, reach, swallow_of(*swallows), steps0) == (Meal {
                cells: cells_of(old(self).players@),
                from: places(old(self).players@.len()),
                food: old(self).food@,
                at: Stage::Outer { i: 0 },
            }),
        ensures
            final(self).wf(),
            final(self).total_mass() == old(self).total_mass(),
            final(self).food@ == old(self).food@,
            final(self).total_food == old(self).total_food,
            final(self).viruses@ == old(self).viruses@,
            forall|m: (u32, u32)|
                cells_in_map(old(self).players@, m) ==> #[trigger] cells_in_map(final(self).players@, m),
            forall|m: (u32, u32)|
                players_in_map(old(self).players@, m) ==> #[trigger] players_in_map(final(self).players@, m),
            final(self).players@.len() <= old(self).players@.len(),
            120 * old(self).total_mass() <= u32::MAX ==> completed,
            exists|k: nat|
                #![trigger run(init, reach, swallow_of(*swallows), k)]
                {
                    let m = run(init, reach, swallow_of(*swallows), k);
                    &&& ended(m)
                    &&& (m.at is Done) == completed
                    &&& m.cells == cells_of(final(self).players@)
                    &&& m.food == final(self).food@
                    &&& picks_players(m.from, final(self).players@, old(self).players@)
                },
    {
        let ghost sw = swallow_of(*swallows);
        let ghost mut pm = places(self.players@.len());
        let ghost mut steps: nat = steps0;
        proof {
            lemma_picks_identity(self.food@, self.players@);
        }
        let mut i: usize = 0;
        let mut players_len: usize = self.players.len();
        while players_len != 0 && i < players_len - 1
            invariant
                self.wf(),
                self.total_mass() == old(self).total_mass(),
                forall|a: RagarMan, b: RagarMan| swallows.requires((&a, &b)),
                forall|a: RagarMan, b: RagarMan|
                    !(swallows.ensures((&a, &b), true) && swallows.ensures((&a, &b), false)),
                sw == swallow_of(*swallows),
                self.food@ == old(self).food@,
                self.total_food == old(self).total_food,
                self.viruses@ == old(self).viruses@,
                forall|m: (u32, u32)|
                    cells_in_map(old(self).players@, m) ==> #[trigger] cells_in_map(self.players@, m),
                forall|m: (u32, u32)|
                    players_in_map(old(self).players@, m) ==> #[trigger] players_in_map(self.players@, m),
                players_len == self.players@.len(),
                players_len <= old(self).players@.len(),
                picks_players(pm, self.players@, old(self).players@),
                run(init, reach, sw, steps) == (Meal {
                    cells: cells_of(self.players@),
                    from: pm,
                    food: self.food@,
                    at: Stage::Outer { i: i as int },
                }),
                i <= players_len,
            decreases players_len - i,
        {
            proof {
                steps = steps + 1;
            }
            let ghost len0 = players_len;
            let mut j: usize = i + 1;
            let mut eaten = false;
            while j < players_len
                invariant_except_break
                    i < j <= players_len,
                    !eaten,
                    run(init, reach, sw, steps) == (Meal {
                        cells: cells_of(self.players@),
                        from: pm,
                        food: self.food@,
                        at: Stage::Partners { i: i as int, j: j as int },
                    }),
                invariant
                    self.wf(),
                    self.total_mass() == old(self).total_mass(),
                    forall|a: RagarMan, b: RagarMan| swallows.requires((&a, &b)),
                    forall|a: RagarMan, b: RagarMan|
                        !(swallows.ensures((&a, &b), true) && swallows.ensures((&a, &b), false)),
                    sw == swallow_of(*swallows),
                    self.food@ == old(self).food@,
                    self.total_food == old(self).total_food,
                    self.viruses@ == old(self).viruses@,
                    forall|m: (u32, u32)|
                        cells_in_map(old(self).players@, m) ==> #[trigger] cells_in_map(self.players@, m),
                    forall|m: (u32, u32)|
                        players_in_map(old(self).players@, m) ==> #[trigger] players_in_map(self.players@, m),
                    players_len == self.players@.len(),
                    players_len <= old(self).players@.len(),
                    picks_players(pm, self.players@, old(self).players@),
                    players_len <= len0,
                ensures
                    players_len <= len0,
                    eaten ==> players_len < len0 && i <= players_len,
                    !eaten ==> i < players_len,
                    eaten ==> run(init, reach, sw, steps) == (Meal {
                        cells: cells_of(self.players@),
                        from: pm,
                        food: self.food@,
                        at: Stage::Outer { i: i as int },
                    }),
                    !eaten ==> run(init, reach, sw, steps) == (Meal {
                        cells: cells_of(self.players@),
                        from: pm,
                        food: self.food@,
                        at: Stage::Partners { i: i as int, j: j as int },
                    }),
                    !eaten ==> j >= players_len,
                decreases players_len - j,
            {
                proof {
                    steps = steps + 1;
                }
                let mut p: usize = 0;
                let mut leni = self.players[i].ragarmen.len();
                let mut lenj = self.players[j].ragarmen.len();
                while p < leni
                    invariant
                        self.wf(),
                        self.total_mass() == old(self).total_mass(),
                        forall|a: RagarMan, b: RagarMan| swallows.requires((&a, &b)),
                        forall|a: RagarMan, b: RagarMan|
                            !(swallows.ensures((&a, &b), true) && swallows.ensures((&a, &b), false)),
                        sw == swallow_of(*swallows),
                        self.food@ == old(self).food@,
                        self.total_food == old(self).total_food,
                        self.viruses@ == old(self).viruses@,
                        forall|m: (u32, u32)|
                            cells_in_map(old(self).players@, m) ==> #[trigger] cells_in_map(self.players@, m),
                        forall|m: (u32, u32)|
                            players_in_map(old(self).players@, m) ==> #[trigger] players_in_map(self.players@, m),
                        players_len == self.players@.len(),
                        players_len <= old(self).players@.len(),
                        picks_players(pm, self.players@, old(self).players@),
                        run(init, reach, sw, steps) == (Meal {
                            cells: cells_of(self.players@),
                            from: pm,
                            food: self.food@,
                            at: Stage::Cells { i: i as int, j: j as int, p: p as int },
                        }),
                        i < j < players_len,
                        leni == self.players@[i as int].ragarmen@.len(),
                        lenj == self.players@[j as int].ragarmen@.len(),
                        p <= leni,
                    decreases leni - p,
                {
                    proof {
                        steps = steps + 1;
                    }
                    let mut q: usize = 0;
                    let mut eatenp = false;
                    let ghost leni0 = leni;
                    while q < lenj
                        invariant_except_break
                            !eatenp,
                            p < leni,
                            leni == leni0,
                            run(init, reach, sw, steps) == (Meal {
                                cells: cells_of(self.players@),
                                from: pm,
                                food: self.food@,
                                at: Stage::Versus { i: i as int, j: j as int, p: p as int, q: q as int },
                            }),
                        invariant
                            self.wf(),
                            self.total_mass() == old(self).total_mass(),
                            forall|a: RagarMan, b: RagarMan| swallows.requires((&a, &b)),
                            forall|a: RagarMan, b: RagarMan|
                                !(swallows.ensures((&a, &b), true) && swallows.ensures((&a, &b), false)),
                            sw == swallow_of(*swallows),
                            self.food@ == old(self).food@,
                            self.total_food == old(self).total_food,
                            self.viruses@ == old(self).viruses@,
                            forall|m: (u32, u32)|
                                cells_in_map(old(self).players@, m) ==> #[trigger] cells_in_map(self.players@, m),
                            forall|m: (u32, u32)|
                                players_in_map(old(self).players@, m) ==> #[trigger] players_in_map(self.players@, m),
                            players_len == self.players@.len(),
                            players_len <= old(self).players@.len(),
                            picks_players(pm, self.players@, old(self).players@),
                            i < j < players_len,
                            leni == self.players@[i as int].ragarmen@.len(),
                            lenj == self.players@[j as int].ragarmen@.len(),
                            q <= lenj,
                            p <= leni,
                        ensures
                            eatenp ==> leni < leni0,
                            !eatenp ==> leni == leni0,
                            eatenp ==> run(init, reach, sw, steps) == (Meal {
                                cells: cells_of(self.players@),
                                from: pm,
                                food: self.food@,
                                at: Stage::Cells { i: i as int, j: j as int, p: p as int },
                            }),
                            !eatenp ==> p < leni && q >= lenj && run(init, reach, sw, steps) == (Meal {
                                cells: cells_of(self.players@),
                                from: pm,
                                food: self.food@,
                                at: Stage::Versus { i: i as int, j: j as int, p: p as int, q: q as int },
                            }),
                        decreases lenj - q,
                    {
                        let m1 = self.players[i].ragarmen[p].mass;
                        let m2 = self.players[j].ragarmen[q].mass;
                        let ghost meal = run(init, reach, sw, steps);
                        proof {
                            lemma_two_cells_bound(self.players@, i as int, p as int, j as int, q as int);
                            lemma_player_mass_nonneg();
                            lemma_sum_nonneg(self.players@, player_mass_fn());
                            assert forall|f: Food| #[trigger] food_mass_fn()(f) >= 0 by {}
                            lemma_sum_nonneg(self.food@, food_mass_fn());
                        }
                        if m2 > 35791394 {
                                proof {
                                    steps = steps + 1;
                                    assert(ended(run(init, reach, sw, steps)));
                                    assert(!(120 * old(self).total_mass() <= u32::MAX));
                                }
                                return false;
                        }
                        if can_swallow(m1, m2) {
                            let b = swallows(&self.players[i].ragarmen[p], &self.players[j].ragarmen[q]);
                            proof {
                                assert(b == sw(self.players@[i as int].ragarmen@[p as int], self.players@[j as int].ragarmen@[q as int]));
                            }
                            if b {
                                if m1 > 0xffff_ffff - m2 {
                                    proof {
                                        steps = steps + 1;
                                        assert(ended(run(init, reach, sw, steps)));
                                        assert(!(120 * old(self).total_mass() <= u32::MAX));
                                    }
                                    return false;
                                }
                                let ghost before = self.players@;
                                self.players[i].ragarmen[p].gain_mass(m2);
                                let ghost middle = self.players@;
                                proof {
                                    assert(middle == before.update(i as int, middle[i as int]));
                                    assert(middle[i as int].ragarmen@ == before[i as int].ragarmen@.update(
                                        p as int,
                                        middle[i as int].ragarmen@[p as int],
                                    ));
                                    lemma_players_gain(before, middle, i as int, p as int, m2 as int);
                                    assert forall|c: int|
                                        0 <= c < middle[i as int].ragarmen@.len() implies exists|c2: int|
                                        0 <= c2 < before[i as int].ragarmen@.len() && (#[trigger] middle[i as int].ragarmen@[c]).pos
                                            == (#[trigger] before[i as int].ragarmen@[c2]).pos by {
                                        assert(middle[i as int].ragarmen@[c].pos == before[i as int].ragarmen@[c].pos);
                                    }
                                    lemma_in_map_kept(before, middle, i as int);
                                    assert(same_but_cells(middle[i as int], before[i as int]));
                                }
                                self.players[j].ragarmen.remove(q);
                                proof {
                                    assert(self.players@ == middle.update(j as int, self.players@[j as int]));
                                    lemma_players_lose(middle, self.players@, j as int, q as int);
                                    assert forall|c: int|
                                        0 <= c < self.players@[j as int].ragarmen@.len() implies exists|c2: int|
                                        0 <= c2 < middle[j as int].ragarmen@.len() && (#[trigger] self.players@[j as int].ragarmen@[c]).pos
                                            == (#[trigger] middle[j as int].ragarmen@[c2]).pos by {
                                        let c2 = if c < q { c } else { c + 1 };
                                        assert(self.players@[j as int].ragarmen@[c] == middle[j as int].ragarmen@[c2]);
                                    }
                                    lemma_in_map_kept(middle, self.players@, j as int);
                                    assert(same_but_cells(self.players@[j as int], middle[j as int]));
                                    assert forall|a: int|
                                        #![trigger pm[a]]
                                        0 <= a < pm.len() implies same_but_cells(self.players@[a], old(self).players@[pm[a]]) by {
                                        if a != i && a != j {
                                            assert(self.players@[a] == before[a]);
                                        }
                                    }
                                    assert(self.players@[i as int].ragarmen@[p as int] == grown(
                                        before[i as int].ragarmen@[p as int],
                                        m2,
                                    ));
                                    assert(cells_of(self.players@) =~= meal.cells.update(
                                        i as int,
                                        meal.cells[i as int].update(p as int, grown(meal.cells[i as int][p as int], m2)),
                                    ).update(j as int, meal.cells[j as int].remove(q as int)));
                                    steps = steps + 1;
                                }
                                lenj = lenj - 1;
                            } else {
                                q = q + 1;
                                proof {
                                    steps = steps + 1;
                                }
                            }
                        } else if m1 > 35791394 {
                                proof {
                                    steps = steps + 1;
                                    assert(ended(run(init, reach, sw, steps)));
                                    assert(!(120 * old(self).total_mass() <= u32::MAX));
                                }
                                return false;
                        } else if can_swallow(m2, m1) {
                            let b = swallows(&self.players[j].ragarmen[q], &self.players[i].ragarmen[p]);
                            proof {
                                assert(b == sw(self.players@[j as int].ragarmen@[q as int], self.players@[i as int].ragarmen@[p as int]));
                            }
                            if b {
                                if m1 > 0xffff_ffff - m2 {
                                    proof {
                                        steps = steps + 1;
                                        assert(ended(run(init, reach, sw, steps)));
                                        assert(!(120 * old(self).total_mass() <= u32::MAX));
                                    }
                                    return false;
                                }
                                let ghost before = self.players@;
                                self.players[j].ragarmen[q].gain_mass(m1);
                                let ghost middle = self.players@;
                                proof {
                                    assert(middle == before.update(j as int, middle[j as int]));
                                    assert(middle[j as int].ragarmen@ == before[j as int].ragarmen@.update(
                                        q as int,
                                        middle[j as int].ragarmen@[q as int],
                                    ));
                                    lemma_players_gain(before, middle, j as int, q as int, m1 as int);
                                    assert forall|c: int|
                                        0 <= c < middle[j as int].ragarmen@.len() implies exists|c2: int|
                                        0 <= c2 < before[j as int].ragarmen@.len() && (#[trigger] middle[j as int].ragarmen@[c]).pos
                                            == (#[trigger] before[j as int].ragarmen@[c2]).pos by {
                                        assert(middle[j as int].ragarmen@[c].pos == before[j as int].ragarmen@[c].pos);
                                    }
                                    lemma_in_map_kept(before, middle, j as int);
                                    assert(same_but_cells(middle[j as int], before[j as int]));
                                }
                                self.players[i].ragarmen.remove(p);
                                proof {
                                    assert(self.players@ == middle.update(i as int, self.players@[i as int]));
                                    lemma_players_lose(middle, self.players@, i as int, p as int);
                                    assert forall|c: int|
                                        0 <= c < self.players@[i as int].ragarmen@.len() implies exists|c2: int|
                                        0 <= c2 < middle[i as int].ragarmen@.len() && (#[trigger] self.players@[i as int].ragarmen@[c]).pos
                                            == (#[trigger] middle[i as int].ragarmen@[c2]).pos by {
                                        let c2 = if c < p { c } else { c + 1 };
                                        assert(self.players@[i as int].ragarmen@[c] == middle[i as int].ragarmen@[c2]);
                                    }
                                    lemma_in_map_kept(middle, self.players@, i as int);
                                    assert(same_but_cells(self.players@[i as int], middle[i as int]));
                                    assert forall|a: int|
                                        #![trigger pm[a]]
                                        0 <= a < pm.len() implies same_but_cells(self.players@[a], old(self).players@[pm[a]]) by {
                                        if a != i && a != j {
                                            assert(self.players@[a] == before[a]);
                                        }
                                    }
                                    assert(self.players@[j as int].ragarmen@[q as int] == grown(
                                        before[j as int].ragarmen@[q as int],
                                        m1,
                                    ));
                                    assert(cells_of(self.players@) =~= meal.cells.update(
                                        j as int,
                                        meal.cells[j as int].update(q as int, grown(meal.cells[j as int][q as int], m1)),
                                    ).update(i as int, meal.cells[i as int].remove(p as int)));
                                    steps = steps + 1;
                                }
                                leni = leni - 1;
                                eatenp = true;
                                break;
                            } else {
                                q = q + 1;
                                proof {
                                    steps = steps + 1;
                                }
                            }
                        } else {
                            q = q + 1;
                            proof {
                                steps = steps + 1;
                            }
                        }
                    }
                    if !eatenp {
                        p = p + 1;
                        proof {
                            steps = steps + 1;
                        }
                    }
                }
                proof {
                    steps = steps + 1;
                }
                let ghost meal = run(init, reach, sw, steps);
                if lenj == 0 {
                    proof {
                        lemma_players_drop_empty(self.players@, j as int);
                        lemma_in_map_drop(self.players@, j as int);
                        lemma_picks_players_remove(pm, self.players@, old(self).players@, j as int);
                        pm = pm.remove(j as int);
                        assert(cells_of(self.players@.remove(j as int)) =~= cells_of(self.players@).remove(j as int));
                    }
                    self.players.remove(j);
                    players_len = players_len - 1;
                } else {
                    j = j + 1;
                }
                if leni == 0 {
                    proof {
                        lemma_players_drop_empty(self.players@, i as int);
                        lemma_in_map_drop(self.players@, i as int);
                        lemma_picks_players_remove(pm, self.players@, old(self).players@, i as int);
                        pm = pm.remove(i as int);
                        assert(cells_of(self.players@.remove(i as int)) =~= cells_of(self.players@).remove(i as int));
                    }
                    self.players.remove(i);
                    players_len = players_len - 1;
                    eaten = true;
                    proof {
                        steps = steps + 1;
                        assert(run(init, reach, sw, steps) == (Meal {
                            cells: cells_of(self.players@),
                            from: pm,
                            food: self.food@,
                            at: Stage::Outer { i: i as int },
                        }));
                    }
                    break;
                }
                proof {
                    steps = steps + 1;
                }
            }
            if !eaten {
                i = i + 1;
                proof {
                    steps = steps + 1;
                }
            }
        }
        proof {
            steps = steps + 1;
            assert(picks_players(pm, self.players@, old(self).players@));
            assert(ended(run(init, reach, sw, steps)));
        }
        true
    }

    /// Steers every player with the given id towards `mouse_pos` (see
    /// `Player::steer`); `moving(cell, target)` is the caller's move for a
    /// cell towards the target.
    pub fn move_player<H>(&mut self, id: u64, mouse_pos: (i64, i64), map_size: (u32, u32), moving: &H)
        where
            H: Fn(&RagarMan, (i64, i64)) -> (i64, i64),
        requires
            forall|r: RagarMan, t: (i64, i64)| moving.requires((&r, t)),
            cells_in_map(old(self).players@, map_size),
            players_in_map(old(self).players@, map_size),
        ensures
            steered(old(self).players@, final(self).players@, id, mouse_pos, map_size, *moving),
            forall|k: int|
                0 <= k < final(self).players@.len() ==> (#[trigger] final(self).players@[k]).total_mass()
                    == old(self).players@[k].total_mass(),
            cells_in_map(final(self).players@, map_size),
            players_in_map(final(self).players@, map_size),
            final(self).players_mass() == old(self).players_mass(),
            final(self).food@ == old(self).food@,
            final(self).viruses@ == old(self).viruses@,
            final(self).total_food == old(self).total_food,
    {
        let mut k: usize = 0;
        while k < self.players.len()
            invariant
                forall|r: RagarMan, t: (i64, i64)| moving.requires((&r, t)),
                self.players@.len() == old(self).players@.len(),
                k <= self.players@.len(),
                forall|j: int|
                    k <= j < self.players@.len() ==> #[trigger] self.players@[j] == old(self).players@[j],
                forall|j: int|
                    0 <= j < k && old(self).players@[j].id != id ==> #[trigger] self.players@[j]
                        == old(self).players@[j],
                forall|j: int|
                    0 <= j < k && old(self).players@[j].id == id ==> {
                        let (before, after) = (old(self).players@[j], #[trigger] self.players@[j]);
                        &&& after.id == before.id
                        &&& after.name == before.name
                        &&& after.color == before.color
                        &&& after.ragarmen@.len() == before.ragarmen@.len()
                        &&& forall|c: int|
                            0 <= c < after.ragarmen@.len() ==> moved_by(
                                *moving,
                                before.ragarmen@[c],
                                #[trigger] after.ragarmen@[c],
                                mouse_pos,
                                map_size,
                            )
                        &&& after.pos.0 == spec_player_pos(after.ragarmen@).0
                        &&& after.pos.1 == spec_player_pos(after.ragarmen@).1
                    },
                forall|j: int|
                    0 <= j < self.players@.len() ==> (#[trigger] self.players@[j]).total_mass()
                        == old(self).players@[j].total_mass(),
                cells_in_map(self.players@, map_size),
                players_in_map(self.players@, map_size),
                self.players_mass() == old(self).players_mass(),
                self.food@ == old(self).food@,
                self.viruses@ == old(self).viruses@,
                self.total_food == old(self).total_food,
            decreases self.players@.len() - k,
        {
            if self.players[k].id == id {
                let ghost before = self.players@;
                proof {
                    assert forall|c: int|
                        0 <= c < before[k as int].ragarmen@.len() implies in_map(
                        (#[trigger] before[k as int].ragarmen@[c]).pos,
                        map_size,
                    ) by {
                        assert(in_map(before[k as int].ragarmen@[c].pos, map_size));
                    }
                }
                self.players[k].steer(mouse_pos, map_size, moving);
                proof {
                    assert(self.players@ == before.update(k as int, self.players@[k as int]));
                    lemma_sum_update(before, k as int, self.players@[k as int], player_mass_fn());
                    assert forall|j: int, c: int|
                        0 <= j < self.players@.len() && 0 <= c < self.players@[j].ragarmen@.len()
                        implies in_map(#[trigger] self.players@[j].ragarmen@[c].pos, map_size) by {
                        if j != k {
                            assert(self.players@[j] == before[j]);
                        }
                    }
                    assert forall|j: int| 0 <= j < self.players@.len() implies in_map(
                        #[trigger] self.players@[j].pos,
                        map_size,
                    ) by {
                        if j != k {
                            assert(self.players@[j] == before[j]);
                        }
                    }
                }
            }
            k = k + 1;
        }
    }

    /// Whether the players can be put in order of mass: where there are at
    /// least two of them, the mass of each must fit in 32 bits to be
    /// weighed.
    pub fn players_weighable(&self) -> (b: bool)
        ensures
            b == weighable(self.players@),
    {
        if self.players.len() < 2 {
            return true;
        }
        let mut k: usize = 0;
        while k < self.players.len()
            invariant
                k <= self.players@.len(),
                self.players@.len() >= 2,
                forall|x: int| 0 <= x < k ==> (#[trigger] self.players@[x]).total_mass() <= u32::MAX,
            decreases self.players@.len() - k,
        {
            if !self.players[k].mass_fits() {
                assert(!(self.players@[k as int].total_mass() <= u32::MAX));
                return false;
            }
            k = k + 1;
        }
        true
    }

    /// Removes the first player with the given id, if there is one.
    pub fn remove_player(&mut self, id: u64)
        ensures
            forall|k: int|
                first_with_id(old(self).players@, id, k) ==> final(self).players@ == old(
                    self,
                ).players@.remove(k),
            (forall|k: int| 0 <= k < old(self).players@.len() ==> old(self).players@[k].id != id)
                ==> final(self).players@ == old(self).players@,
            final(self).food@ == old(self).food@,
            final(self).viruses@ == old(self).viruses@,
            final(self).total_food == old(self).total_food,
            old(self).wf() ==> final(self).wf(),
    {
        let mut i: usize = 0;
        while i < self.players.len()
            invariant
                i <= self.players@.len(),
                self.players@ == old(self).players@,
                self.food@ == old(self).food@,
                self.viruses@ == old(self).viruses@,
                self.total_food == old(self).total_food,
                forall|m: int| 0 <= m < i ==> self.players@[m].id != id,
            decreases self.players@.len() - i,
        {
            if id == self.players[i].id {
                self.players.remove(i);
                assert(first_with_id(old(self).players@, id, i as int));
                return;
            }
            i = i + 1;
        }
    }

    /// Lays one more food pellet at a random place and counts it.
    pub fn feed(&mut self, food_mass: u32, map_size: (u32, u32))
        requires
            old(self).total_food < u32::MAX,
            map_size.0 > 0,
            map_size.1 > 0,
        ensures
            final(self).food@.len() == old(self).food@.len() + 1,
            final(self).food@.drop_last() == old(self).food@,
            final(self).food@.last().mass == food_mass,
            0 <= final(self).food@.last().pos.0 < map_size.0,
            0 <= final(self).food@.last().pos.1 < map_size.1,
            final(self).total_food == old(self).total_food + 1,
            final(self).players@ == old(self).players@,
            final(self).viruses@ == old(self).viruses@,
            old(self).wf() ==> final(self).wf(),
            final(self).total_mass() == old(self).total_mass() + food_mass,
    {
        self.food.push(Food::scatter(food_mass, map_size));
        self.total_food = self.total_food + 1;
        assert(self.food@.drop_last() =~= old(self).food@);
        proof {
            lemma_food_push_mass(old(self).food@, self.food@);
        }
    }

    /// Orders the players from the heaviest to the lightest, exchanging a
    /// player with each heavier one that stands after it.
    pub fn sort_players_by_mass(&mut self)
        requires
            weighable(old(self).players@),
        ensures
            final(self).players@ == exchange_sorted(old(self).players@, 0, 1),
            (forall|a: int, b: int|
                0 <= a < b < old(self).players@.len() ==> (#[trigger] old(self).players@[a]).total_mass()
                    >= (#[trigger] old(self).players@[b]).total_mass())
                ==> final(self).players@ == old(self).players@,
            final(self).players@.len() == old(self).players@.len(),
            final(self).players@.to_multiset() == old(self).players@.to_multiset(),
            final(self).total_mass() == old(self).total_mass(),
            old(self).wf() ==> final(self).wf(),
            forall|a: int, b: int|
                0 <= a < b < final(self).players@.len() ==> (#[trigger] final(self).players@[a]).total_mass()
                    >= (#[trigger] final(self).players@[b]).total_mass(),
            final(self).food@ == old(self).food@,
            final(self).viruses@ == old(self).viruses@,
            final(self).total_food == old(self).total_food,
    {
        let n = self.players.len();
        if n > 0 {
            let mut i: usize = 0;
            while i < n - 1
                invariant
                    n == self.players@.len(),
                    n > 0,
                    i <= n - 1,
                    self.players@.to_multiset() == old(self).players@.to_multiset(),
                    n >= 2 ==> forall|k: int|
                        0 <= k < n ==> (#[trigger] self.players@[k]).total_mass() <= u32::MAX,
                    forall|a: int, b: int|
                        0 <= a < i && a < b < n ==> (#[trigger] self.players@[a]).total_mass()
                            >= (#[trigger] self.players@[b]).total_mass(),
                    self.food@ == old(self).food@,
                    self.viruses@ == old(self).viruses@,
                    self.total_food == old(self).total_food,
                    exchange_sorted(self.players@, i as int, i + 1) == exchange_sorted(old(self).players@, 0, 1),
                decreases n - 1 - i,
            {
                let mut j: usize = i + 1;
                while j < n
                    invariant
                        n == self.players@.len(),
                        i < n - 1,
                        i < j <= n,
                        self.players@.to_multiset() == old(self).players@.to_multiset(),
                        forall|k: int|
                            0 <= k < n ==> (#[trigger] self.players@[k]).total_mass() <= u32::MAX,
                        forall|a: int, b: int|
                            0 <= a < i && a < b < n ==> (#[trigger] self.players@[a]).total_mass()
                                >= (#[trigger] self.players@[b]).total_mass(),
                        forall|b: int|
                            i < b < j ==> self.players@[i as int].total_mass()
                                >= (#[trigger] self.players@[b]).total_mass(),
                        self.food@ == old(self).food@,
                        self.viruses@ == old(self).viruses@,
                        self.total_food == old(self).total_food,
                        exchange_sorted(self.players@, i as int, j as int) == exchange_sorted(
                            old(self).players@,
                            0,
                            1,
                        ),
                    decreases n - j,
                {
                    if self.players[i].mass() < self.players[j].mass() {
                        let ghost before = self.players@;
                        swap_elems(&mut self.players, i, j);
                        proof {
                            vstd::seq_lib::to_multiset_update(before, i as int, before[j as int]);
                            vstd::seq_lib::to_multiset_update(
                                before.update(i as int, before[j as int]),
                                j as int,
                                before[i as int],
                            );
                            assert(self.players@.to_multiset() =~= before.to_multiset());
                        }
                    }
                    j = j + 1;
                }
                i = i + 1;
            }
        }
        proof {
            lemma_permutation_mass(old(self).players@, self.players@);
            if forall|a: int, b: int|
                0 <= a < b < old(self).players@.len() ==> (#[trigger] old(self).players@[a]).total_mass()
                    >= (#[trigger] old(self).players@[b]).total_mass() {
                lemma_exchange_sorted_keeps_order(old(self).players@, 0, 1);
            }
        }
    }
}

} // verus!
