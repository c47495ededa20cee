//! What a meal gives where that can be told in a few words: a single
//! pellet goes to the first cell that reaches it, and two players that
//! are not neighbours in the list still meet.

use vstd::prelude::*;

use crate::food::Food;
use crate::gamedata::spec_can_swallow;
use crate::meal::{cells_of, run, start, step, Meal, Stage};
use crate::player::Player;
use crate::ragarman::RagarMan;

verus! {

/// Cell `r` of player `p` of `players` exists.
pub open spec fn is_cell(players: Seq<Player>, p: int, r: int) -> bool {
    0 <= p < players.len() && 0 <= r < players[p].ragarmen@.len()
}

/// Some cell of some player, as it stands, reaches the pellet.
pub open spec fn some_cell_reaches(
    players: Seq<Player>,
    f: Food,
    reach: spec_fn(Food, RagarMan) -> bool,
) -> bool {
    exists|p: int, r: int| is_cell(players, p, r) && #[trigger] reach(f, players[p].ragarmen@[r])
}

/// Cell `(p1, r1)` comes before the scan at `(p, r, i)` of a single pellet
/// has moved past it.
spec fn scanned(p1: int, r1: int, p: int, r: int, i: int) -> bool {
    p1 < p || (p1 == p && r1 < r) || (p1 == p && r1 == r && i > 0)
}

/// How a meal that starts with the single pellet `f` stands: the pellet is
/// still there and no cell scanned so far reaches it (during the food
/// stage the cells are as they started), or it has been taken in by a cell
/// that reaches it.
spec fn one_pellet_inv(m: Meal, players: Seq<Player>, f: Food, reach: spec_fn(Food, RagarMan) -> bool) -> bool {
    &&& (m.food == seq![f] || (m.food.len() == 0 && some_cell_reaches(players, f, reach)))
    &&& match m.at {
        Stage::Food { p, r, i } => {
            &&& p >= 0 && r >= 0 && i >= 0
            &&& m.food == seq![f] ==> {
                &&& m.cells == cells_of(players)
                &&& forall|p1: int, r1: int|
                    is_cell(players, p1, r1) && scanned(p1, r1, p, r, i) ==> !#[trigger] reach(
                        f,
                        players[p1].ragarmen@[r1],
                    )
            }
        },
        _ => m.food == seq![f] ==> !some_cell_reaches(players, f, reach),
    }
}

proof fn lemma_one_pellet_step(
    m: Meal,
    players: Seq<Player>,
    f: Food,
    reach: spec_fn(Food, RagarMan) -> bool,
    swallow: spec_fn(RagarMan, RagarMan) -> bool,
)
    requires
        one_pellet_inv(m, players, f, reach),
        forall|p: int, r: int|
            is_cell(players, p, r) ==> players[p].ragarmen@[r].mass + f.mass <= u32::MAX,
    ensures
        one_pellet_inv(step(m, reach, swallow), players, f, reach),
{
    let s = step(m, reach, swallow);
    let n = m.cells.len() as int;
    match m.at {
        Stage::Food { p, r, i } => {
            if m.food == seq![f] {
                assert(n == players.len());
                if p >= n {
                    assert forall|p1: int, r1: int| is_cell(players, p1, r1) implies !#[trigger] reach(
                        f,
                        players[p1].ragarmen@[r1],
                    ) by {
                        assert(scanned(p1, r1, p, r, i));
                    }
                } else {
                    assert(m.cells[p] == players[p].ragarmen@);
                    if r >= m.cells[p].len() {
                        assert forall|p1: int, r1: int|
                            is_cell(players, p1, r1) && scanned(p1, r1, p + 1, 0, 0) implies !#[trigger] reach(
                            f,
                            players[p1].ragarmen@[r1],
                        ) by {
                            assert(scanned(p1, r1, p, r, i));
                        }
                    } else if i >= m.food.len() {
                        assert forall|p1: int, r1: int|
                            is_cell(players, p1, r1) && scanned(p1, r1, p, r + 1, 0) implies !#[trigger] reach(
                            f,
                            players[p1].ragarmen@[r1],
                        ) by {
                            assert(scanned(p1, r1, p, r, i));
                        }
                    } else if reach(m.food[i], m.cells[p][r]) {
                        assert(i == 0);
                        assert(is_cell(players, p, r));
                        assert(reach(f, players[p].ragarmen@[r]));
                        assert(s.food.len() == 0);
                    } else {
                        assert(i == 0);
                        assert forall|p1: int, r1: int|
                            is_cell(players, p1, r1) && scanned(p1, r1, p, r, 1) implies !#[trigger] reach(
                            f,
                            players[p1].ragarmen@[r1],
                        ) by {
                            if !(p1 == p && r1 == r) {
                                assert(scanned(p1, r1, p, r, i));
                            }
                        }
                    }
                }
            }
        },
        _ => {},
    }
}

/// A meal that starts with one pellet takes it in exactly when some cell
/// of some player reaches it: every cell of every player scans the food
/// at its turn, and until the pellet is taken no cell has grown. Once the
/// food has been scanned, the pellet is gone where some cell reaches it
/// and still there where none does (given that no cell overflows taking
/// it in).
pub proof fn lemma_one_pellet(
    players: Seq<Player>,
    f: Food,
    reach: spec_fn(Food, RagarMan) -> bool,
    swallow: spec_fn(RagarMan, RagarMan) -> bool,
    k: nat,
)
    requires
        forall|p: int, r: int|
            is_cell(players, p, r) ==> players[p].ragarmen@[r].mass + f.mass <= u32::MAX,
    ensures
        !(run(start(players, seq![f]), reach, swallow, k).at is Food) ==> (run(
            start(players, seq![f]),
            reach,
            swallow,
            k,
        ).food.len() == 0 <==> some_cell_reaches(players, f, reach)),
        !(run(start(players, seq![f]), reach, swallow, k).at is Food) && !some_cell_reaches(players, f, reach)
            ==> run(start(players, seq![f]), reach, swallow, k).food == seq![f],
    decreases k,
{
    lemma_one_pellet_run(players, f, reach, swallow, k);
}

proof fn lemma_one_pellet_run(
    players: Seq<Player>,
    f: Food,
    reach: spec_fn(Food, RagarMan) -> bool,
    swallow: spec_fn(RagarMan, RagarMan) -> bool,
    k: nat,
)
    requires
        forall|p: int, r: int|
            is_cell(players, p, r) ==> players[p].ragarmen@[r].mass + f.mass <= u32::MAX,
    ensures
        one_pellet_inv(run(start(players, seq![f]), reach, swallow, k), players, f, reach),
    decreases k,
{
    if k > 0 {
        lemma_one_pellet_run(players, f, reach, swallow, (k - 1) as nat);
        lemma_one_pellet_step(run(start(players, seq![f]), reach, swallow, (k - 1) as nat), players, f, reach, swallow);
    }
}

/// Every player has one cell, and the geometry lets only the cell of
/// player `x` swallow the cell of a later player `y` (which it outweighs
/// by 120/100): no other cell is the same as either of the two, and no
/// mass, nor that of the two together, is too large to weigh.
pub open spec fn lone_pair(
    players: Seq<Player>,
    x: int,
    y: int,
    swallow: spec_fn(RagarMan, RagarMan) -> bool,
) -> bool {
    let cx = players[x].ragarmen@[0];
    let cy = players[y].ragarmen@[0];
    &&& 0 <= x < y < players.len()
    &&& forall|k: int| 0 <= k < players.len() ==> (#[trigger] players[k]).ragarmen@.len() == 1
    &&& forall|k: int| 0 <= k < players.len() ==> 120 * (#[trigger] players[k]).ragarmen@[0].mass <= u32::MAX
    &&& 120 * (cx.mass + cy.mass) <= u32::MAX
    &&& spec_can_swallow(cx.mass, cy.mass)
    &&& swallow(cx, cy)
    &&& forall|a: RagarMan, b: RagarMan| #[trigger] swallow(a, b) ==> a == cx && b == cy
    &&& forall|k: int| 0 <= k < players.len() && k != x ==> (#[trigger] players[k]).ragarmen@[0] != cx
    &&& forall|k: int| 0 <= k < players.len() && k != y ==> (#[trigger] players[k]).ragarmen@[0] != cy
}

/// The cell of player `x` after taking in the cell of player `y`.
pub open spec fn eater_after(players: Seq<Player>, x: int, y: int) -> RagarMan {
    let cx = players[x].ragarmen@[0];
    let cy = players[y].ragarmen@[0];
    RagarMan { pos: cx.pos, mass: (cx.mass + cy.mass) as u32, name: cx.name, color: cx.color }
}

/// The players' cells once `x` has swallowed `y`: `x` grown, `y` gone.
pub open spec fn cells_after(players: Seq<Player>, x: int, y: int) -> Seq<Seq<RagarMan>> {
    cells_of(players).update(x, seq![eater_after(players, x, y)]).remove(y)
}

/// The pair `(i, j)` is set against each other before `(x, y)`.
spec fn pair_before(i: int, j: int, x: int, y: int) -> bool {
    i < x || (i == x && j < y)
}

/// How the meal stands: before `x` meets `y` nothing has changed; while
/// they meet, `x` has grown and `y` has no cell; after, the cells are
/// those of `cells_after` and nothing more happens.
spec fn pair_inv(m: Meal, players: Seq<Player>, x: int, y: int) -> bool {
    let c0 = cells_of(players);
    let n = c0.len() as int;
    let mid = c0.update(x, seq![eater_after(players, x, y)]).update(y, Seq::<RagarMan>::empty());
    let e = cells_after(players, x, y);
    &&& m.food.len() == 0
    &&& if m.cells == c0 {
        match m.at {
            Stage::Food { p, r, i } => p >= 0 && r >= 0 && i >= 0,
            Stage::Outer { i } => 0 <= i <= x,
            Stage::Partners { i, j } => 0 <= i < j && (i < x || (i == x && j <= y)),
            Stage::Cells { i, j, p } => 0 <= i < j < n && 0 <= p <= 1 && (pair_before(i, j, x, y) || (i == x && j
                == y && p == 0)),
            Stage::Versus { i, j, p, q } => 0 <= i < j < n && p == 0 && q >= 0 && (pair_before(i, j, x, y) || (i
                == x && j == y && q == 0)),
            Stage::After { i, j } => 0 <= i < j < n && pair_before(i, j, x, y),
            Stage::Done => false,
            Stage::Fault => false,
        }
    } else if m.cells == mid {
        m.at == Stage::Versus { i: x, j: y, p: 0, q: 0 } || m.at == Stage::Cells { i: x, j: y, p: 1 } || m.at
            == Stage::After { i: x, j: y }
    } else {
        &&& m.cells == e
        &&& match m.at {
            Stage::Food { p, r, i } => false,
            Stage::Outer { i } => i >= 0,
            Stage::Partners { i, j } => 0 <= i < j,
            Stage::Cells { i, j, p } => 0 <= i < j < e.len() && 0 <= p <= 1,
            Stage::Versus { i, j, p, q } => 0 <= i < j < e.len() && p == 0 && q >= 0,
            Stage::After { i, j } => 0 <= i < j < e.len(),
            Stage::Done => true,
            Stage::Fault => false,
        }
    }
}

/// The cells once `x` has swallowed `y`: one each, none the same as the
/// prey, none too heavy to weigh.
proof fn lemma_cells_after(players: Seq<Player>, x: int, y: int, swallow: spec_fn(RagarMan, RagarMan) -> bool)
    requires
        lone_pair(players, x, y, swallow),
    ensures
        cells_after(players, x, y).len() == players.len() - 1,
        forall|k: int|
            0 <= k < players.len() - 1 ==> {
                &&& (#[trigger] cells_after(players, x, y)[k]).len() == 1
                &&& cells_after(players, x, y)[k][0] != players[y].ragarmen@[0]
                &&& 120 * cells_after(players, x, y)[k][0].mass <= u32::MAX
            },
{
    let c0 = cells_of(players);
    let cx = players[x].ragarmen@[0];
    let cy = players[y].ragarmen@[0];
    let g = eater_after(players, x, y);
    let e = cells_after(players, x, y);
    assert(g != cy) by {
        if g == cy {
            assert(cx.mass == 0);
            assert(cx == cy);
            assert(players[x].ragarmen@[0] != cy);
        }
    }
    assert forall|k: int| 0 <= k < players.len() - 1 implies {
        &&& (#[trigger] e[k]).len() == 1
        &&& e[k][0] != cy
        &&& 120 * e[k][0].mass <= u32::MAX
    } by {
        let k1 = if k < y { k } else { k + 1 };
        assert(e[k] == c0.update(x, seq![g])[k1]);
        if k1 != x {
            assert(e[k] == players[k1].ragarmen@);
            assert(players[k1].ragarmen@.len() == 1);
        }
    }
}

proof fn lemma_pair_step(
    m: Meal,
    players: Seq<Player>,
    x: int,
    y: int,
    reach: spec_fn(Food, RagarMan) -> bool,
    swallow: spec_fn(RagarMan, RagarMan) -> bool,
)
    requires
        lone_pair(players, x, y, swallow),
        pair_inv(m, players, x, y),
    ensures
        pair_inv(step(m, reach, swallow), players, x, y),
{
    let c0 = cells_of(players);
    let n = c0.len() as int;
    let g = eater_after(players, x, y);
    let mid = c0.update(x, seq![g]).update(y, Seq::<RagarMan>::empty());
    let e = cells_after(players, x, y);
    let cx = players[x].ragarmen@[0];
    let cy = players[y].ragarmen@[0];
    let s = step(m, reach, swallow);
    lemma_cells_after(players, x, y, swallow);
    assert(mid != c0) by {
        assert(mid[y].len() == 0);
        assert(c0[y] == players[y].ragarmen@);
    }
    assert(e != c0) by {
        assert(e.len() != c0.len());
    }
    assert(e != mid) by {
        assert(e.len() != mid.len());
    }
    assert forall|k: int| 0 <= k < n implies (#[trigger] c0[k]).len() == 1 && c0[k][0] == players[k].ragarmen@[0]
        by {
        assert(c0[k] == players[k].ragarmen@);
    }
    if m.cells == c0 {
        match m.at {
            Stage::Versus { i, j, p, q } => {
                if q < 1 {
                    let a = c0[i][0];
                    let b = c0[j][0];
                    if i == x && j == y {
                        assert(a == cx && b == cy);
                        assert(c0[x].update(0, g) =~= seq![g]);
                        assert(c0[y].remove(0) =~= Seq::<RagarMan>::empty());
                        assert(s.cells == mid);
                    } else {
                        if swallow(a, b) {
                            assert(a == cx && b == cy);
                            assert(i == x);
                            assert(j == y);
                        }
                        if swallow(b, a) {
                            assert(b == cx && a == cy);
                            assert(j == x);
                            assert(i == y);
                        }
                        assert(s.cells == c0);
                    }
                }
            },
            _ => {},
        }
    } else if m.cells == mid {
        if m.at == (Stage::After { i: x, j: y }) {
            assert(mid.remove(y) =~= e);
            assert(mid[x] =~= seq![g]);
        }
    } else {
        match m.at {
            Stage::Versus { i, j, p, q } => {
                if q < 1 {
                    let a = e[i][0];
                    let b = e[j][0];
                    if swallow(a, b) {
                        assert(b == cy);
                    }
                    if swallow(b, a) {
                        assert(a == cy);
                    }
                    assert(s.cells == e);
                }
            },
            _ => {},
        }
    }
}

proof fn lemma_pair_run(
    players: Seq<Player>,
    x: int,
    y: int,
    reach: spec_fn(Food, RagarMan) -> bool,
    swallow: spec_fn(RagarMan, RagarMan) -> bool,
    k: nat,
)
    requires
        lone_pair(players, x, y, swallow),
    ensures
        pair_inv(run(start(players, Seq::empty()), reach, swallow, k), players, x, y),
    decreases k,
{
    if k > 0 {
        lemma_pair_run(players, x, y, reach, swallow, (k - 1) as nat);
        lemma_pair_step(run(start(players, Seq::empty()), reach, swallow, (k - 1) as nat), players, x, y, reach, swallow);
    }
}

/// Every pair of players meets, not only neighbours in the list: where a
/// cell of player `x` can swallow the cell of a later player `y`, and no
/// other cell is involved, the meal ends normally with `x`'s cell grown
/// by the prey's mass and `y` gone, whatever players stand between them.
pub proof fn lemma_lone_pair_meets(
    players: Seq<Player>,
    x: int,
    y: int,
    reach: spec_fn(Food, RagarMan) -> bool,
    swallow: spec_fn(RagarMan, RagarMan) -> bool,
    k: nat,
)
    requires
        lone_pair(players, x, y, swallow),
    ensures
        ({
            let m = run(start(players, Seq::empty()), reach, swallow, k);
            (m.at is Done || m.at is Fault) ==> m.at is Done && m.cells == cells_after(players, x, y)
        }),
{
    lemma_pair_run(players, x, y, reach, swallow, k);
}

} // verus!
