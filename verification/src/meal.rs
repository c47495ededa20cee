use vstd::prelude::*;

use crate::food::Food;
use crate::gamedata::spec_can_swallow;
use crate::player::Player;
use crate::ragarman::RagarMan;

verus! {

/// Where a meal stands: scanning food (player `p`, cell `r`, pellet `i`),
/// or setting the cells of player `i` against those of player `j` (cell
/// `p` of `i` against each cell of `j`, from cell `q` on), or finished,
/// or stopped on a fault.
pub enum Stage {
    Food { p: int, r: int, i: int },
    Outer { i: int },
    Partners { i: int, j: int },
    Cells { i: int, j: int, p: int },
    Versus { i: int, j: int, p: int, q: int },
    After { i: int, j: int },
    Done,
    Fault,
}

/// A meal in progress: the cells of each remaining player, the place each
/// remaining player had among the players at the start, the food left,
/// and the stage.
#[verifier::ext_equal]
pub struct Meal {
    pub cells: Seq<Seq<RagarMan>>,
    pub from: Seq<int>,
    pub food: Seq<Food>,
    pub at: Stage,
}

/// The cells of each player.
pub open spec fn cells_of(players: Seq<Player>) -> Seq<Seq<RagarMan>> {
    players.map_values(|p: Player| p.ragarmen@)
}

/// The places `0..n`, in order.
pub open spec fn places(n: nat) -> Seq<int> {
    Seq::new(n, |k: int| k)
}

/// The cell after taking in `m`.
pub open spec fn grown(r: RagarMan, m: u32) -> RagarMan {
    RagarMan { pos: r.pos, mass: (r.mass + m) as u32, name: r.name, color: r.color }
}

/// Whether the closure may answer yes for this pellet and cell.
pub open spec fn reach_of<F: Fn(&Food, &RagarMan) -> bool>(reaches: F) -> spec_fn(Food, RagarMan) -> bool {
    |f: Food, r: RagarMan| reaches.ensures((&f, &r), true)
}

/// Whether the closure may answer yes for this eater and prey.
pub open spec fn swallow_of<G: Fn(&RagarMan, &RagarMan) -> bool>(swallows: G) -> spec_fn(
    RagarMan,
    RagarMan,
) -> bool {
    |a: RagarMan, b: RagarMan| swallows.ensures((&a, &b), true)
}

/// A meal at its start.
pub open spec fn start(players: Seq<Player>, food: Seq<Food>) -> Meal {
    Meal { cells: cells_of(players), from: places(players.len()), food, at: Stage::Food { p: 0, r: 0, i: 0 } }
}

/// One step of a meal. First each cell, player by player, scans the food
/// in order and takes in every pellet it reaches (the scan stays on the
/// same place after taking one). Then, for each player `i` in order and
/// each later player `j`, each cell of `i` meets every cell of `j` in
/// turn: a cell that weighs at least 120/100 of the other, and swallows
/// it, takes in its mass and the other is gone. Once the cell of `i` is
/// swallowed, the next cell of `i` takes its place and starts over. A
/// player left without cells leaves (`j` first, then `i`); the meal goes
/// on with the players that take their places. A mass that would not fit
/// in 32 bits is a fault: a cell taking in a pellet or another cell, or a
/// cell weighed at 120 times its mass (the prey is weighed first, the
/// eater only when the prey is not swallowable).
pub open spec fn step(
    m: Meal,
    reach: spec_fn(Food, RagarMan) -> bool,
    swallow: spec_fn(RagarMan, RagarMan) -> bool,
) -> Meal {
    let n = m.cells.len() as int;
    match m.at {
        Stage::Food { p, r, i } => {
            if p >= n {
                Meal { at: Stage::Outer { i: 0 }, ..m }
            } else if r >= m.cells[p].len() {
                Meal { at: Stage::Food { p: p + 1, r: 0, i: 0 }, ..m }
            } else if i >= m.food.len() {
                Meal { at: Stage::Food { p, r: r + 1, i: 0 }, ..m }
            } else if reach(m.food[i], m.cells[p][r]) {
                if m.cells[p][r].mass + m.food[i].mass > u32::MAX {
                    Meal { at: Stage::Fault, ..m }
                } else {
                    Meal {
                        cells: m.cells.update(p, m.cells[p].update(r, grown(m.cells[p][r], m.food[i].mass))),
                        food: m.food.remove(i),
                        ..m
                    }
                }
            } else {
                Meal { at: Stage::Food { p, r, i: i + 1 }, ..m }
            }
        },
        Stage::Outer { i } => {
            if n != 0 && i < n - 1 {
                Meal { at: Stage::Partners { i, j: i + 1 }, ..m }
            } else {
                Meal { at: Stage::Done, ..m }
            }
        },
        Stage::Partners { i, j } => {
            if j < n {
                Meal { at: Stage::Cells { i, j, p: 0 }, ..m }
            } else {
                Meal { at: Stage::Outer { i: i + 1 }, ..m }
            }
        },
        Stage::Cells { i, j, p } => {
            if p < m.cells[i].len() {
                Meal { at: Stage::Versus { i, j, p, q: 0 }, ..m }
            } else {
                Meal { at: Stage::After { i, j }, ..m }
            }
        },
        Stage::Versus { i, j, p, q } => {
            if q >= m.cells[j].len() {
                Meal { at: Stage::Cells { i, j, p: p + 1 }, ..m }
            } else {
                let a = m.cells[i][p];
                let b = m.cells[j][q];
                if 120 * b.mass > u32::MAX {
                    Meal { at: Stage::Fault, ..m }
                } else if spec_can_swallow(a.mass, b.mass) {
                    if !swallow(a, b) {
                        Meal { at: Stage::Versus { i, j, p, q: q + 1 }, ..m }
                    } else if a.mass + b.mass > u32::MAX {
                        Meal { at: Stage::Fault, ..m }
                    } else {
                        Meal {
                            cells: m.cells.update(i, m.cells[i].update(p, grown(a, b.mass))).update(
                                j,
                                m.cells[j].remove(q),
                            ),
                            ..m
                        }
                    }
                } else if 120 * a.mass > u32::MAX {
                    Meal { at: Stage::Fault, ..m }
                } else if spec_can_swallow(b.mass, a.mass) {
                    if !swallow(b, a) {
                        Meal { at: Stage::Versus { i, j, p, q: q + 1 }, ..m }
                    } else if a.mass + b.mass > u32::MAX {
                        Meal { at: Stage::Fault, ..m }
                    } else {
                        Meal {
                            cells: m.cells.update(j, m.cells[j].update(q, grown(b, a.mass))).update(
                                i,
                                m.cells[i].remove(p),
                            ),
                            at: Stage::Cells { i, j, p },
                            ..m
                        }
                    }
                } else {
                    Meal { at: Stage::Versus { i, j, p, q: q + 1 }, ..m }
                }
            }
        },
        Stage::After { i, j } => {
            let gone_j = m.cells[j].len() == 0;
            let cells1 = if gone_j { m.cells.remove(j) } else { m.cells };
            let from1 = if gone_j { m.from.remove(j) } else { m.from };
            let j1 = if gone_j { j } else { j + 1 };
            if m.cells[i].len() == 0 {
                Meal { cells: cells1.remove(i), from: from1.remove(i), at: Stage::Outer { i }, ..m }
            } else {
                Meal { cells: cells1, from: from1, at: Stage::Partners { i, j: j1 }, ..m }
            }
        },
        Stage::Done => m,
        Stage::Fault => m,
    }
}

/// The meal after `k` steps.
pub open spec fn run(
    m: Meal,
    reach: spec_fn(Food, RagarMan) -> bool,
    swallow: spec_fn(RagarMan, RagarMan) -> bool,
    k: nat,
) -> Meal
    decreases k,
{
    if k == 0 {
        m
    } else {
        step(run(m, reach, swallow, (k - 1) as nat), reach, swallow)
    }
}

/// The meal has ended, finished or on a fault.
pub open spec fn ended(m: Meal) -> bool {
    m.at is Done || m.at is Fault
}

/// An ended meal stays as it is.
pub proof fn lemma_ended_stays(
    m: Meal,
    reach: spec_fn(Food, RagarMan) -> bool,
    swallow: spec_fn(RagarMan, RagarMan) -> bool,
    k1: nat,
    k2: nat,
)
    requires
        ended(run(m, reach, swallow, k1)),
        k1 <= k2,
    ensures
        run(m, reach, swallow, k2) == run(m, reach, swallow, k1),
    decreases k2 - k1,
{
    if k2 > k1 {
        lemma_ended_stays(m, reach, swallow, k1, (k2 - 1) as nat);
    }
}

/// A meal ends one way only: any two runs that have ended agree, so what
/// a meal leaves behind is a function of where it started and of the
/// answers of the geometry.
pub proof fn lemma_meal_outcome_unique(
    m: Meal,
    reach: spec_fn(Food, RagarMan) -> bool,
    swallow: spec_fn(RagarMan, RagarMan) -> bool,
    k1: nat,
    k2: nat,
)
    requires
        ended(run(m, reach, swallow, k1)),
        ended(run(m, reach, swallow, k2)),
    ensures
        run(m, reach, swallow, k1) == run(m, reach, swallow, k2),
{
    if k1 <= k2 {
        lemma_ended_stays(m, reach, swallow, k1, k2);
    } else {
        lemma_ended_stays(m, reach, swallow, k2, k1);
    }
}

} // verus!
