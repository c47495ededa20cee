//! What a meal keeps from one step to the next: the mass, where each cell
//! comes from, and a cell for every player that takes part.

use vstd::prelude::*;

use crate::food::Food;
use crate::gamedata::{food_mass_fn, picks_players, player_mass_fn, same_but_cells, spec_can_swallow};
use crate::meal::{cells_of, grown, places, run, start, step, Meal, Stage};
use crate::player::{cell_mass_fn, cells_mass, Player};
use crate::ragarman::RagarMan;
use crate::sums::{lemma_sum_nonneg, lemma_sum_remove, lemma_sum_update, seq_sum};

verus! {

/// The summed mass of one player's cells.
pub open spec fn cells_mass_fn() -> spec_fn(Seq<RagarMan>) -> int {
    |cs: Seq<RagarMan>| cells_mass(cs)
}

/// All the mass in a meal: every cell and every pellet left.
pub open spec fn meal_mass(m: Meal) -> int {
    seq_sum(m.cells, cells_mass_fn()) + seq_sum(m.food, food_mass_fn())
}

/// `now` is the cell `was` after it has eaten: the same place, name and
/// colour, and no less mass.
pub open spec fn descends(now: RagarMan, was: RagarMan) -> bool {
    &&& now.pos == was.pos
    &&& now.name == was.name
    &&& now.color == was.color
    &&& now.mass >= was.mass
}

/// `pick` picks, in order, the place among `was` of the cell each cell of
/// `now` descends from.
pub open spec fn picks_cells(pick: Seq<int>, now: Seq<RagarMan>, was: Seq<RagarMan>) -> bool {
    &&& pick.len() == now.len()
    &&& forall|a: int, b: int| 0 <= a < b < pick.len() ==> pick[a] < pick[b]
    &&& forall|c: int|
        #![trigger pick[c]]
        0 <= c < pick.len() ==> 0 <= pick[c] < was.len() && descends(now[c], was[pick[c]])
}

/// The cells `now` are some of the cells `was`, in the same order, each
/// having perhaps taken in mass.
pub open spec fn subseq_of(now: Seq<RagarMan>, was: Seq<RagarMan>) -> bool {
    exists|pick: Seq<int>| #[trigger] picks_cells(pick, now, was)
}

/// Each remaining player stands for the player at place `from[k]` at the
/// start, and its cells are some of the cells that player had, in order.
pub open spec fn lineage(cells: Seq<Seq<RagarMan>>, from: Seq<int>, first: Seq<Seq<RagarMan>>) -> bool {
    &&& cells.len() == from.len()
    &&& forall|k: int| 0 <= k < from.len() ==> 0 <= #[trigger] from[k] < first.len()
    &&& forall|k: int| 0 <= k < cells.len() ==> #[trigger] subseq_of(cells[k], first[from[k]])
}

/// Every player has a cell, but perhaps players `i` and `j`.
pub open spec fn cells_left_but(cells: Seq<Seq<RagarMan>>, i: int, j: int) -> bool {
    forall|k: int| 0 <= k < cells.len() && k != i && k != j ==> (#[trigger] cells[k]).len() > 0
}

/// The places a meal stands at are in range.
pub open spec fn well_placed(m: Meal) -> bool {
    let n = m.cells.len() as int;
    match m.at {
        Stage::Food { p, r, i } => p >= 0 && r >= 0 && i >= 0,
        Stage::Outer { i } => i >= 0,
        Stage::Partners { i, j } => 0 <= i < j,
        Stage::Cells { i, j, p } => 0 <= i < j < n && p >= 0,
        Stage::Versus { i, j, p, q } => 0 <= i < j < n && 0 <= p < m.cells[i].len() && q >= 0,
        Stage::After { i, j } => 0 <= i < j < n,
        Stage::Done => true,
        Stage::Fault => true,
    }
}

/// Every player has a cell, but perhaps the two set against each other.
pub open spec fn cells_left(m: Meal) -> bool {
    match m.at {
        Stage::Cells { i, j, p } => cells_left_but(m.cells, i, j),
        Stage::Versus { i, j, p, q } => cells_left_but(m.cells, i, j),
        Stage::After { i, j } => cells_left_but(m.cells, i, j),
        Stage::Fault => true,
        _ => cells_left_but(m.cells, -1, -1),
    }
}

/// No cell, player or pellet weighs less than nothing.
proof fn lemma_masses_nonneg()
    ensures
        forall|r: RagarMan| #[trigger] cell_mass_fn()(r) >= 0,
        forall|cs: Seq<RagarMan>| #[trigger] cells_mass_fn()(cs) >= 0,
        forall|f: Food| #[trigger] food_mass_fn()(f) >= 0,
{
    assert forall|r: RagarMan| #[trigger] cell_mass_fn()(r) >= 0 by {}
    assert forall|cs: Seq<RagarMan>| #[trigger] cells_mass_fn()(cs) >= 0 by {
        lemma_sum_nonneg(cs, cell_mass_fn());
    }
}

/// A cell that takes in mass stays in the line of descent.
proof fn lemma_subseq_grow(now: Seq<RagarMan>, was: Seq<RagarMan>, x: int, g: RagarMan)
    requires
        subseq_of(now, was),
        0 <= x < now.len(),
        descends(g, now[x]),
    ensures
        subseq_of(now.update(x, g), was),
{
    let pick = choose|pick: Seq<int>| #[trigger] picks_cells(pick, now, was);
    assert forall|c: int| #![trigger pick[c]] 0 <= c < pick.len() implies 0 <= pick[c] < was.len() && descends(
        now.update(x, g)[c],
        was[pick[c]],
    ) by {}
    assert(picks_cells(pick, now.update(x, g), was));
}

/// Leaving out a cell keeps the line of descent.
proof fn lemma_subseq_remove(now: Seq<RagarMan>, was: Seq<RagarMan>, y: int)
    requires
        subseq_of(now, was),
        0 <= y < now.len(),
    ensures
        subseq_of(now.remove(y), was),
{
    let pick = choose|pick: Seq<int>| #[trigger] picks_cells(pick, now, was);
    let pick2 = pick.remove(y);
    assert forall|c: int| #![trigger pick2[c]] 0 <= c < pick2.len() implies 0 <= pick2[c] < was.len() && descends(
        now.remove(y)[c],
        was[pick2[c]],
    ) by {
        let c1 = if c < y { c } else { c + 1 };
        assert(pick2[c] == pick[c1]);
        assert(now.remove(y)[c] == now[c1]);
    }
    assert forall|a: int, b: int| 0 <= a < b < pick2.len() implies pick2[a] < pick2[b] by {
        let a1 = if a < y { a } else { a + 1 };
        let b1 = if b < y { b } else { b + 1 };
        assert(pick2[a] == pick[a1]);
        assert(pick2[b] == pick[b1]);
    }
    assert(picks_cells(pick2, now.remove(y), was));
}

/// Cell `r` of player `p` takes in pellet `i`, whose mass it can hold: the
/// mass stays the same and the lineage holds.
proof fn lemma_take_food(m: Meal, first: Seq<Seq<RagarMan>>, p: int, r: int, i: int)
    requires
        lineage(m.cells, m.from, first),
        0 <= p < m.cells.len(),
        0 <= r < m.cells[p].len(),
        0 <= i < m.food.len(),
        m.cells[p][r].mass + m.food[i].mass <= u32::MAX,
    ensures
        ({
            let cells = m.cells.update(p, m.cells[p].update(r, grown(m.cells[p][r], m.food[i].mass)));
            let food = m.food.remove(i);
            &&& lineage(cells, m.from, first)
            &&& seq_sum(cells, cells_mass_fn()) + seq_sum(food, food_mass_fn()) == meal_mass(m)
            &&& forall|k: int| 0 <= k < cells.len() ==> (#[trigger] cells[k]).len() == m.cells[k].len()
        }),
{
    let c = m.cells[p][r];
    let fm = m.food[i].mass;
    let g = grown(c, fm);
    let cs = m.cells[p].update(r, g);
    let cells = m.cells.update(p, cs);
    assert(g.mass == c.mass + fm);
    lemma_sum_update(m.cells[p], r, g, cell_mass_fn());
    lemma_sum_update(m.cells, p, cs, cells_mass_fn());
    lemma_sum_remove(m.food, i, food_mass_fn());
    assert(cells_mass_fn()(cs) == cells_mass_fn()(m.cells[p]) + fm);
    assert forall|k: int| 0 <= k < cells.len() implies (#[trigger] cells[k]).len() == m.cells[k].len() by {}
    assert forall|k: int| 0 <= k < cells.len() implies #[trigger] subseq_of(cells[k], first[m.from[k]]) by {
        assert(subseq_of(m.cells[k], first[m.from[k]]));
        if k == p {
            lemma_subseq_grow(m.cells[p], first[m.from[p]], r, g);
        }
    }
    assert(lineage(cells, m.from, first));
}

/// Cell `x` of player `e` swallows cell `y` of another player `v`, and can
/// hold the mass: the mass stays the same and the lineage holds.
proof fn lemma_swallow(m: Meal, first: Seq<Seq<RagarMan>>, e: int, x: int, v: int, y: int)
    requires
        lineage(m.cells, m.from, first),
        0 <= e < m.cells.len(),
        0 <= v < m.cells.len(),
        e != v,
        0 <= x < m.cells[e].len(),
        0 <= y < m.cells[v].len(),
        m.cells[e][x].mass + m.cells[v][y].mass <= u32::MAX,
    ensures
        ({
            let cells = m.cells.update(e, m.cells[e].update(x, grown(m.cells[e][x], m.cells[v][y].mass))).update(
                v,
                m.cells[v].remove(y),
            );
            &&& lineage(cells, m.from, first)
            &&& seq_sum(cells, cells_mass_fn()) == seq_sum(m.cells, cells_mass_fn())
            &&& cells.len() == m.cells.len()
            &&& cells[e].len() == m.cells[e].len()
            &&& cells[v].len() == m.cells[v].len() - 1
            &&& forall|k: int| 0 <= k < cells.len() && k != e && k != v ==> #[trigger] cells[k] == m.cells[k]
        }),
{
    let a = m.cells[e][x];
    let b = m.cells[v][y];
    let g = grown(a, b.mass);
    let ce = m.cells[e].update(x, g);
    let cv = m.cells[v].remove(y);
    let mid = m.cells.update(e, ce);
    let cells = mid.update(v, cv);
    assert(g.mass == a.mass + b.mass);
    lemma_sum_update(m.cells[e], x, g, cell_mass_fn());
    lemma_sum_remove(m.cells[v], y, cell_mass_fn());
    lemma_sum_update(m.cells, e, ce, cells_mass_fn());
    assert(mid[v] == m.cells[v]);
    lemma_sum_update(mid, v, cv, cells_mass_fn());
    assert(cells_mass_fn()(ce) == cells_mass_fn()(m.cells[e]) + b.mass);
    assert(cells_mass_fn()(cv) == cells_mass_fn()(m.cells[v]) - b.mass);
    assert forall|k: int| 0 <= k < cells.len() implies #[trigger] subseq_of(cells[k], first[m.from[k]]) by {
        assert(subseq_of(m.cells[k], first[m.from[k]]));
        if k == v {
            lemma_subseq_remove(m.cells[v], first[m.from[v]], y);
        } else if k == e {
            lemma_subseq_grow(m.cells[e], first[m.from[e]], x, g);
        } else {
            assert(cells[k] == m.cells[k]);
        }
    }
    assert(lineage(cells, m.from, first));
}

/// A player left without cells leaves, and with it its place: the mass
/// stays the same and the lineage holds.
proof fn lemma_drop_empty(cells: Seq<Seq<RagarMan>>, from: Seq<int>, first: Seq<Seq<RagarMan>>, k: int)
    requires
        lineage(cells, from, first),
        0 <= k < cells.len(),
        cells[k].len() == 0,
    ensures
        lineage(cells.remove(k), from.remove(k), first),
        seq_sum(cells.remove(k), cells_mass_fn()) == seq_sum(cells, cells_mass_fn()),
{
    lemma_sum_remove(cells, k, cells_mass_fn());
    assert(cells_mass_fn()(cells[k]) == 0);
    let cs = cells.remove(k);
    let fs = from.remove(k);
    assert forall|a: int| 0 <= a < fs.len() implies 0 <= #[trigger] fs[a] < first.len() by {
        let a1 = if a < k { a } else { a + 1 };
        assert(fs[a] == from[a1]);
    }
    assert forall|a: int| 0 <= a < cs.len() implies #[trigger] subseq_of(cs[a], first[fs[a]]) by {
        let a1 = if a < k { a } else { a + 1 };
        assert(cs[a] == cells[a1]);
        assert(fs[a] == from[a1]);
        assert(subseq_of(cells[a1], first[from[a1]]));
    }
}

/// One step keeps the places in range and every player but the two set
/// against each other with a cell.
proof fn lemma_step_placed(
    m: Meal,
    reach: spec_fn(Food, RagarMan) -> bool,
    swallow: spec_fn(RagarMan, RagarMan) -> bool,
)
    requires
        well_placed(m),
    ensures
        well_placed(step(m, reach, swallow)),
        cells_left(m) ==> cells_left(step(m, reach, swallow)),
{
    let n = m.cells.len() as int;
    let s = step(m, reach, swallow);
    match m.at {
        Stage::Food { p, r, i } => {
            if p < n && r < m.cells[p].len() && i < m.food.len() {
                assert forall|k: int| 0 <= k < n implies (#[trigger] s.cells[k]).len() == m.cells[k].len() by {}
            }
        },
        Stage::Versus { i, j, p, q } => {
            assert forall|k: int| 0 <= k < n && k != i && k != j implies #[trigger] s.cells[k] == m.cells[k] by {}
            assert(s.cells.len() == n);
            if s.at is Versus {
                assert(s.cells[i].len() == m.cells[i].len());
            }
        },
        Stage::After { i, j } => {
            let gone_j = m.cells[j].len() == 0;
            let cells1 = if gone_j { m.cells.remove(j) } else { m.cells };
            if cells_left(m) {
                assert forall|k: int| 0 <= k < cells1.len() && k != i implies (#[trigger] cells1[k]).len() > 0 by {
                    if gone_j {
                        let k1 = if k < j { k } else { k + 1 };
                        assert(cells1[k] == m.cells[k1]);
                    }
                }
                assert(cells1[i] == m.cells[i]);
                if m.cells[i].len() == 0 {
                    assert forall|k: int| 0 <= k < cells1.len() - 1 implies (#[trigger] cells1.remove(i)[k]).len() > 0 by {
                        let k1 = if k < i { k } else { k + 1 };
                        assert(cells1.remove(i)[k] == cells1[k1]);
                    }
                }
            }
        },
        _ => {},
    }
}

/// One step keeps the lineage and the mass.
proof fn lemma_step_lineage(
    m: Meal,
    reach: spec_fn(Food, RagarMan) -> bool,
    swallow: spec_fn(RagarMan, RagarMan) -> bool,
    first: Seq<Seq<RagarMan>>,
)
    requires
        well_placed(m),
        lineage(m.cells, m.from, first),
    ensures
        lineage(step(m, reach, swallow).cells, step(m, reach, swallow).from, first),
        meal_mass(step(m, reach, swallow)) == meal_mass(m),
{
    let n = m.cells.len() as int;
    match m.at {
        Stage::Food { p, r, i } => {
            if p < n && r < m.cells[p].len() && i < m.food.len() && m.cells[p][r].mass + m.food[i].mass
                <= u32::MAX {
                lemma_take_food(m, first, p, r, i);
            }
        },
        Stage::Versus { i, j, p, q } => {
            if q < m.cells[j].len() && m.cells[i][p].mass + m.cells[j][q].mass <= u32::MAX {
                lemma_swallow(m, first, i, p, j, q);
                lemma_swallow(m, first, j, q, i, p);
            }
        },
        Stage::After { i, j } => {
            let gone_j = m.cells[j].len() == 0;
            let cells1 = if gone_j { m.cells.remove(j) } else { m.cells };
            let from1 = if gone_j { m.from.remove(j) } else { m.from };
            if gone_j {
                lemma_drop_empty(m.cells, m.from, first, j);
            }
            assert(cells1[i] == m.cells[i]);
            if m.cells[i].len() == 0 {
                lemma_drop_empty(cells1, from1, first, i);
            }
        },
        _ => {},
    }
}

/// Every step of a meal keeps the places in range.
proof fn lemma_meal_placed(
    players: Seq<Player>,
    food: Seq<Food>,
    reach: spec_fn(Food, RagarMan) -> bool,
    swallow: spec_fn(RagarMan, RagarMan) -> bool,
    k: nat,
)
    ensures
        well_placed(run(start(players, food), reach, swallow, k)),
    decreases k,
{
    if k > 0 {
        lemma_meal_placed(players, food, reach, swallow, (k - 1) as nat);
        lemma_step_placed(run(start(players, food), reach, swallow, (k - 1) as nat), reach, swallow);
    }
}

/// Every step of a meal that starts with a cell for every player keeps a
/// cell for every player but the two set against each other.
proof fn lemma_run_cells_left(
    players: Seq<Player>,
    food: Seq<Food>,
    reach: spec_fn(Food, RagarMan) -> bool,
    swallow: spec_fn(RagarMan, RagarMan) -> bool,
    k: nat,
)
    requires
        forall|x: int| 0 <= x < players.len() ==> (#[trigger] players[x]).ragarmen@.len() > 0,
    ensures
        cells_left(run(start(players, food), reach, swallow, k)),
    decreases k,
{
    if k == 0 {
        let m = start(players, food);
        assert forall|x: int| 0 <= x < m.cells.len() && x != -1 && x != -1 implies (#[trigger] m.cells[x]).len()
            > 0 by {
            assert(m.cells[x] == players[x].ragarmen@);
        }
    } else {
        lemma_run_cells_left(players, food, reach, swallow, (k - 1) as nat);
        lemma_meal_placed(players, food, reach, swallow, (k - 1) as nat);
        lemma_step_placed(run(start(players, food), reach, swallow, (k - 1) as nat), reach, swallow);
    }
}

/// A meal that starts with a cell for every player and finishes leaves a
/// cell for every player that remains: a player leaves exactly when all
/// its cells have been swallowed.
pub proof fn lemma_finished_meal_leaves_cells(
    players: Seq<Player>,
    food: Seq<Food>,
    reach: spec_fn(Food, RagarMan) -> bool,
    swallow: spec_fn(RagarMan, RagarMan) -> bool,
    k: nat,
)
    requires
        forall|x: int| 0 <= x < players.len() ==> (#[trigger] players[x]).ragarmen@.len() > 0,
    ensures
        run(start(players, food), reach, swallow, k).at is Done ==> forall|x: int|
            0 <= x < run(start(players, food), reach, swallow, k).cells.len() ==> (#[trigger] run(
                start(players, food),
                reach,
                swallow,
                k,
            ).cells[x]).len() > 0,
{
    lemma_run_cells_left(players, food, reach, swallow, k);
}

/// The players' cells sum to the players' mass.
proof fn lemma_cells_of_mass(players: Seq<Player>)
    ensures
        seq_sum(cells_of(players), cells_mass_fn()) == seq_sum(players, player_mass_fn()),
    decreases players.len(),
{
    if players.len() > 0 {
        lemma_cells_of_mass(players.drop_last());
        assert(cells_of(players).drop_last() =~= cells_of(players.drop_last()));
    }
}

/// At every step of a meal the mass is what it was at the start, every
/// remaining player stands for a player at the start, and its cells are
/// some of the cells that player had, in the same order, each with the
/// same place, name and colour and no less mass: cells only take in mass
/// or leave.
pub proof fn lemma_meal_lineage(
    players: Seq<Player>,
    food: Seq<Food>,
    reach: spec_fn(Food, RagarMan) -> bool,
    swallow: spec_fn(RagarMan, RagarMan) -> bool,
    k: nat,
)
    ensures
        lineage(
            run(start(players, food), reach, swallow, k).cells,
            run(start(players, food), reach, swallow, k).from,
            cells_of(players),
        ),
        meal_mass(run(start(players, food), reach, swallow, k)) == seq_sum(players, player_mass_fn())
            + seq_sum(food, food_mass_fn()),
    decreases k,
{
    let m0 = start(players, food);
    if k == 0 {
        lemma_cells_of_mass(players);
        assert forall|a: int| 0 <= a < m0.cells.len() implies #[trigger] subseq_of(
            m0.cells[a],
            cells_of(players)[m0.from[a]],
        ) by {
            assert(m0.from[a] == a);
            let pick = Seq::new(m0.cells[a].len(), |c: int| c);
            assert(picks_cells(pick, m0.cells[a], cells_of(players)[a]));
        }
    } else {
        lemma_meal_lineage(players, food, reach, swallow, (k - 1) as nat);
        lemma_meal_placed(players, food, reach, swallow, (k - 1) as nat);
        lemma_step_lineage(run(m0, reach, swallow, (k - 1) as nat), reach, swallow, cells_of(players));
    }
}

/// Every player has a cell.
pub open spec fn all_have_cells(players: Seq<Player>) -> bool {
    forall|k: int| 0 <= k < players.len() ==> (#[trigger] players[k]).ragarmen@.len() > 0
}

/// The players of `now` are players of `before` (the same but for their
/// cells), some left out and the rest in the same order, and the cells of
/// each are some of the cells that player had in `before`, in the same
/// order, each with the same place, name and colour and no less mass.
pub open spec fn cells_descend(now: Seq<Player>, before: Seq<Player>) -> bool {
    exists|from: Seq<int>|
        #[trigger] picks_players(from, now, before) && forall|a: int|
            0 <= a < now.len() ==> #[trigger] subseq_of(now[a].ragarmen@, before[from[a]].ragarmen@)
}

/// The player is a player of `before` but for its cells, and its cells
/// are some of the cells that player had, in order, each with the same
/// place, name and colour and no less mass.
pub open spec fn came_from(p: Player, before: Seq<Player>) -> bool {
    exists|k0: int|
        0 <= k0 < before.len() && #[trigger] same_but_cells(p, before[k0]) && subseq_of(
            p.ragarmen@,
            before[k0].ragarmen@,
        )
}

/// Where the players' cells descend from cells of `before`, each player
/// came from `before`.
pub proof fn lemma_descend_each(now: Seq<Player>, before: Seq<Player>)
    requires
        cells_descend(now, before),
    ensures
        forall|a: int| 0 <= a < now.len() ==> #[trigger] came_from(now[a], before),
{
    let from = choose|from: Seq<int>|
        #[trigger] picks_players(from, now, before) && forall|a: int|
            0 <= a < now.len() ==> #[trigger] subseq_of(now[a].ragarmen@, before[from[a]].ragarmen@);
    assert forall|a: int| 0 <= a < now.len() implies #[trigger] came_from(now[a], before) by {
        assert(0 <= from[a] < before.len() && same_but_cells(now[a], before[from[a]]));
        assert(subseq_of(now[a].ragarmen@, before[from[a]].ragarmen@));
    }
}

/// A meal leaves players whose cells descend from the cells they had
/// (`lemma_meal_lineage`), and, where every player had a cell and the meal
/// finished, every remaining player with a cell.
pub proof fn lemma_meal_outcome_players(
    before: Seq<Player>,
    food: Seq<Food>,
    reach: spec_fn(Food, RagarMan) -> bool,
    swallow: spec_fn(RagarMan, RagarMan) -> bool,
    k: nat,
    after: Seq<Player>,
)
    requires
        run(start(before, food), reach, swallow, k).cells == cells_of(after),
        picks_players(run(start(before, food), reach, swallow, k).from, after, before),
    ensures
        cells_descend(after, before),
        all_have_cells(before) && run(start(before, food), reach, swallow, k).at is Done ==> all_have_cells(
            after,
        ),
{
    let m = run(start(before, food), reach, swallow, k);
    lemma_meal_lineage(before, food, reach, swallow, k);
    assert forall|a: int| 0 <= a < after.len() implies #[trigger] subseq_of(
        after[a].ragarmen@,
        before[m.from[a]].ragarmen@,
    ) by {
        assert(m.cells[a] == after[a].ragarmen@);
        assert(cells_of(before)[m.from[a]] == before[m.from[a]].ragarmen@);
        assert(subseq_of(m.cells[a], cells_of(before)[m.from[a]]));
    }
    assert(picks_players(m.from, after, before));
    if all_have_cells(before) && m.at is Done {
        lemma_finished_meal_leaves_cells(before, food, reach, swallow, k);
        assert forall|x: int| 0 <= x < after.len() implies (#[trigger] after[x]).ragarmen@.len() > 0 by {
            assert(m.cells[x] == after[x].ragarmen@);
        }
    }
}

/// Players that all came from `before` still do in another order.
pub proof fn lemma_permutation_came_from(a: Seq<Player>, b: Seq<Player>, before: Seq<Player>)
    requires
        a.to_multiset() == b.to_multiset(),
        forall|x: int| 0 <= x < a.len() ==> #[trigger] came_from(a[x], before),
    ensures
        forall|y: int| 0 <= y < b.len() ==> #[trigger] came_from(b[y], before),
{
    broadcast use vstd::seq_lib::group_to_multiset_ensures;

    assert forall|y: int| 0 <= y < b.len() implies #[trigger] came_from(b[y], before) by {
        assert(b.contains(b[y]));
        assert(b.to_multiset().count(b[y]) > 0);
        assert(a.contains(b[y]));
        let x = choose|x: int| 0 <= x < a.len() && a[x] == b[y];
        assert(came_from(a[x], before));
    }
}

} // verus!
