use vstd::prelude::*;

use crate::color::Color;
use crate::ragarman::{in_map, RagarMan};
use crate::server::{clamp_moving, lemma_clamp_stops_on_border, lemma_clamped_move_in_map, spec_clamp_moving};
use crate::sums::{lemma_sum_prefix, lemma_sum_take_next, lemma_sum_update, seq_sum};
use vstd::arithmetic::div_mod::{
    lemma_div_pos_is_pos, lemma_fundamental_div_mod, lemma_mod_pos_bound,
};

verus! {

/// The mass of one cell, as an integer.
pub open spec fn cell_mass_fn() -> spec_fn(RagarMan) -> int {
    |r: RagarMan| r.mass as int
}

/// The summed mass of a sequence of cells.
pub open spec fn cells_mass(cells: Seq<RagarMan>) -> int {
    seq_sum(cells, cell_mass_fn())
}

/// A cell's place on the first axis.
pub open spec fn x_fn() -> spec_fn(RagarMan) -> int {
    |r: RagarMan| r.pos.0 as int
}

/// A cell's place on the second axis.
pub open spec fn y_fn() -> spec_fn(RagarMan) -> int {
    |r: RagarMan| r.pos.1 as int
}

/// The mean of `sum` over `n` places, rounded to the nearest whole unit
/// (halves up); zero for no places.
pub open spec fn rounded_mean(sum: int, n: int) -> int {
    if n <= 0 {
        0
    } else {
        (sum + n / 2) / n
    }
}

/// Where a player with these cells stands: on each axis, the mean place of
/// its cells, rounded to the nearest whole unit; at the origin when it has
/// no cells.
pub open spec fn spec_player_pos(cells: Seq<RagarMan>) -> (int, int) {
    (rounded_mean(seq_sum(cells, x_fn()), cells.len() as int), rounded_mean(
        seq_sum(cells, y_fn()),
        cells.len() as int,
    ))
}

/// `after` is `before` moved towards `mouse_pos`: the move is one that
/// `moving` may give for the cell, cut so that it ends on the map; mass,
/// name and colour stay.
pub open spec fn moved_by<H: Fn(&RagarMan, (i64, i64)) -> (i64, i64)>(
    moving: H,
    before: RagarMan,
    after: RagarMan,
    mouse_pos: (i64, i64),
    map_size: (u32, u32),
) -> bool {
    &&& after.mass == before.mass
    &&& after.name == before.name
    &&& after.color == before.color
    &&& exists|raw: (i64, i64)|
        {
            &&& #[trigger] moving.ensures((&before, mouse_pos), raw)
            &&& after.pos.0 == before.pos.0 + spec_clamp_moving(before.pos, raw, map_size).0
            &&& after.pos.1 == before.pos.1 + spec_clamp_moving(before.pos, raw, map_size).1
        }
}

/// The geometry steps straight onto its target: the raw move it gives a
/// cell is the way from the cell to the target.
pub open spec fn steps_onto_target<H: Fn(&RagarMan, (i64, i64)) -> (i64, i64)>(moving: H) -> bool {
    forall|c: RagarMan, t: (i64, i64), raw: (i64, i64)|
        #[trigger] moving.ensures((&c, t), raw) ==> raw.0 == t.0 - c.pos.0 && raw.1 == t.1 - c.pos.1
}

/// A cell is moved towards the mouse position as given: with a geometry
/// that steps straight onto its target, a moved cell stands on the mouse
/// position wherever that lies on the map.
pub proof fn lemma_moved_onto_mouse<H: Fn(&RagarMan, (i64, i64)) -> (i64, i64)>(
    moving: H,
    before: RagarMan,
    after: RagarMan,
    mouse_pos: (i64, i64),
    map_size: (u32, u32),
)
    requires
        moved_by(moving, before, after, mouse_pos, map_size),
        steps_onto_target(moving),
        0 <= mouse_pos.0 <= map_size.0,
        0 <= mouse_pos.1 <= map_size.1,
    ensures
        after.pos == mouse_pos,
{
    let raw = choose|raw: (i64, i64)|
        {
            &&& #[trigger] moving.ensures((&before, mouse_pos), raw)
            &&& after.pos.0 == before.pos.0 + spec_clamp_moving(before.pos, raw, map_size).0
            &&& after.pos.1 == before.pos.1 + spec_clamp_moving(before.pos, raw, map_size).1
        };
    lemma_clamp_stops_on_border(before.pos, raw, map_size);
}

/// The mean of places on `0..=size` lies on `0..=size`.
proof fn lemma_rounded_mean_bound(sum: int, n: int, size: int)
    requires
        0 <= sum <= n * size,
        n > 0,
        size >= 0,
    ensures
        0 <= rounded_mean(sum, n) <= size,
{
    let h = n / 2;
    lemma_div_pos_is_pos(sum + h, n);
    assert(sum + h < n * (size + 1)) by (nonlinear_arith)
        requires
            sum <= n * size,
            h == n / 2,
            n > 0,
    ;
    lemma_fundamental_div_mod(sum + h, n);
    lemma_mod_pos_bound(sum + h, n);
    let q = (sum + h) / n;
    assert(q <= size) by (nonlinear_arith)
        requires
            sum + h == n * q + (sum + h) % n,
            0 <= (sum + h) % n,
            sum + h < n * (size + 1),
            n > 0,
    ;
}

/// A player: an identity, a name and the cells it steers.
pub struct Player {
    pub id: u64,
    pub name: String,
    pub ragarmen: Vec<RagarMan>,
    pub color: Color,
    pub pos: (i64, i64),
}

impl Player {
    /// The summed mass of the player's cells.
    pub open spec fn total_mass(&self) -> int {
        cells_mass(self.ragarmen@)
    }

    /// A new player with one cell of ten times the food mass, at a random
    /// place, in a random colour; the player stands where its cell stands.
    pub fn new(id: u64, name: String, map_size: (u32, u32), food_mass: u32) -> (p: Player)
        requires
            10 * food_mass <= u32::MAX,
            map_size.0 > 0,
            map_size.1 > 0,
        ensures
            p.id == id,
            p.name@ == name@,
            p.ragarmen@.len() == 1,
            p.ragarmen@[0].mass == 10 * food_mass,
            p.ragarmen@[0].name@ == name@,
            p.ragarmen@[0].color == p.color,
            p.pos == p.ragarmen@[0].pos,
            0 <= p.pos.0 < map_size.0,
            0 <= p.pos.1 < map_size.1,
    {
        let mass = 10 * food_mass;
        let color = Color::random();
        let ragarman = RagarMan::new(map_size, mass, name.clone(), color);
        let pos = ragarman.pos;
        Player { id, name, ragarmen: vec![ragarman], color, pos }
    }

    /// Moves every cell towards `mouse_pos` by the move `moving` gives for
    /// it, cut so that the cell stays on the map, and sets the player where
    /// its cells stand together (see `spec_player_pos`).
    pub fn steer<H>(&mut self, mouse_pos: (i64, i64), map_size: (u32, u32), moving: &H)
        where
            H: Fn(&RagarMan, (i64, i64)) -> (i64, i64),
        requires
            forall|r: RagarMan, t: (i64, i64)| moving.requires((&r, t)),
            forall|c: int|
                0 <= c < old(self).ragarmen@.len() ==> in_map(
                    (#[trigger] old(self).ragarmen@[c]).pos,
                    map_size,
                ),
        ensures
            final(self).id == old(self).id,
            final(self).name == old(self).name,
            final(self).color == old(self).color,
            final(self).ragarmen@.len() == old(self).ragarmen@.len(),
            forall|c: int|
                0 <= c < final(self).ragarmen@.len() ==> moved_by(
                    *moving,
                    old(self).ragarmen@[c],
                    #[trigger] final(self).ragarmen@[c],
                    mouse_pos,
                    map_size,
                ),
            forall|c: int|
                0 <= c < final(self).ragarmen@.len() ==> in_map(
                    (#[trigger] final(self).ragarmen@[c]).pos,
                    map_size,
                ),
            final(self).pos.0 == spec_player_pos(final(self).ragarmen@).0,
            final(self).pos.1 == spec_player_pos(final(self).ragarmen@).1,
            in_map(final(self).pos, map_size),
            final(self).total_mass() == old(self).total_mass(),
    {
        self.pos = (0, 0);
        let n = self.ragarmen.len();
        let mut sum_x: u128 = 0;
        let mut sum_y: u128 = 0;
        let mut c: usize = 0;
        while c < n
            invariant
                forall|r: RagarMan, t: (i64, i64)| moving.requires((&r, t)),
                n == self.ragarmen@.len(),
                n == old(self).ragarmen@.len(),
                c <= n,
                self.id == old(self).id,
                self.name == old(self).name,
                self.color == old(self).color,
                self.pos == (0i64, 0i64),
                forall|k: int|
                    0 <= k < c ==> moved_by(
                        *moving,
                        old(self).ragarmen@[k],
                        #[trigger] self.ragarmen@[k],
                        mouse_pos,
                        map_size,
                    ),
                forall|k: int| c <= k < n ==> #[trigger] self.ragarmen@[k] == old(self).ragarmen@[k],
                forall|k: int|
                    0 <= k < n ==> in_map((#[trigger] old(self).ragarmen@[k]).pos, map_size),
                forall|k: int| 0 <= k < c ==> in_map((#[trigger] self.ragarmen@[k]).pos, map_size),
                sum_x == seq_sum(self.ragarmen@.take(c as int), x_fn()),
                sum_y == seq_sum(self.ragarmen@.take(c as int), y_fn()),
                sum_x <= c * map_size.0,
                sum_y <= c * map_size.1,
                cells_mass(self.ragarmen@) == cells_mass(old(self).ragarmen@),
            decreases n - c,
        {
            let ghost before = self.ragarmen@;
            let cur = self.ragarmen[c].pos;
            let raw = moving(&self.ragarmen[c], mouse_pos);
            let step = clamp_moving(cur, raw, map_size);
            proof {
                lemma_clamped_move_in_map(cur, raw, map_size);
            }
            let np = (cur.0 + step.0, cur.1 + step.1);
            self.ragarmen[c].pos = np;
            proof {
                assert(self.ragarmen@ == before.update(c as int, self.ragarmen@[c as int]));
                lemma_sum_update(before, c as int, self.ragarmen@[c as int], cell_mass_fn());
                assert(moved_by(*moving, old(self).ragarmen@[c as int], self.ragarmen@[c as int], mouse_pos, map_size));
                lemma_sum_take_next(self.ragarmen@, c as int, x_fn());
                lemma_sum_take_next(self.ragarmen@, c as int, y_fn());
                assert(self.ragarmen@.take(c as int) =~= before.take(c as int));
                assert(sum_x + np.0 <= (c + 1) * map_size.0) by (nonlinear_arith)
                    requires
                        sum_x <= c * map_size.0,
                        np.0 <= map_size.0,
                ;
                assert(sum_y + np.1 <= (c + 1) * map_size.1) by (nonlinear_arith)
                    requires
                        sum_y <= c * map_size.1,
                        np.1 <= map_size.1,
                ;
                assert((c + 1) * map_size.0 <= 0x1_0000_0000_0000_0000 * 0x1_0000_0000) by (
                nonlinear_arith)
                    requires
                        c + 1 <= 0x1_0000_0000_0000_0000,
                        map_size.0 <= 0x1_0000_0000,
                ;
                assert((c + 1) * map_size.1 <= 0x1_0000_0000_0000_0000 * 0x1_0000_0000) by (
                nonlinear_arith)
                    requires
                        c + 1 <= 0x1_0000_0000_0000_0000,
                        map_size.1 <= 0x1_0000_0000,
                ;
            }
            sum_x = sum_x + np.0 as u128;
            sum_y = sum_y + np.1 as u128;
            c = c + 1;
        }
        proof {
            assert(self.ragarmen@.take(n as int) =~= self.ragarmen@);
        }
        if n > 0 {
            let nn = n as u128;
            proof {
                lemma_rounded_mean_bound(sum_x as int, n as int, map_size.0 as int);
                lemma_rounded_mean_bound(sum_y as int, n as int, map_size.1 as int);
                assert(n * map_size.0 <= 0x1_0000_0000_0000_0000 * 0x1_0000_0000) by (nonlinear_arith)
                    requires
                        n <= 0x1_0000_0000_0000_0000,
                        map_size.0 <= 0x1_0000_0000,
                ;
                assert(n * map_size.1 <= 0x1_0000_0000_0000_0000 * 0x1_0000_0000) by (nonlinear_arith)
                    requires
                        n <= 0x1_0000_0000_0000_0000,
                        map_size.1 <= 0x1_0000_0000,
                ;
            }
            let px = ((sum_x + nn / 2) / nn) as i64;
            let py = ((sum_y + nn / 2) / nn) as i64;
            self.pos = (px, py);
        }
    }

    /// Whether the summed mass of the player's cells fits in 32 bits.
    pub fn mass_fits(&self) -> (b: bool)
        ensures
            b == (self.total_mass() <= u32::MAX),
    {
        let mut acc: u64 = 0;
        let mut k: usize = 0;
        proof {
            assert forall|r: RagarMan| #[trigger] cell_mass_fn()(r) >= 0 by {}
        }
        while k < self.ragarmen.len()
            invariant
                k <= self.ragarmen@.len(),
                acc == cells_mass(self.ragarmen@.take(k as int)),
                acc <= 0xffff_ffff,
                forall|r: RagarMan| #[trigger] cell_mass_fn()(r) >= 0,
            decreases self.ragarmen@.len() - k,
        {
            proof {
                lemma_sum_take_next(self.ragarmen@, k as int, cell_mass_fn());
                lemma_sum_prefix(self.ragarmen@, k + 1, cell_mass_fn());
            }
            acc = acc + self.ragarmen[k].mass as u64;
            if acc > 0xffff_ffff {
                return false;
            }
            k = k + 1;
        }
        proof {
            assert(self.ragarmen@.take(k as int) =~= self.ragarmen@);
        }
        true
    }

    /// The summed mass of the player's cells.
    pub fn mass(&self) -> (m: u32)
        requires
            self.total_mass() <= u32::MAX,
        ensures
            m == self.total_mass(),
    {
        let mut m: u32 = 0;
        let mut k: usize = 0;
        while k < self.ragarmen.len()
            invariant
                k <= self.ragarmen@.len(),
                m == cells_mass(self.ragarmen@.take(k as int)),
                cells_mass(self.ragarmen@) <= u32::MAX,
            decreases self.ragarmen@.len() - k,
        {
            proof {
                lemma_sum_take_next(self.ragarmen@, k as int, cell_mass_fn());
                lemma_sum_prefix(self.ragarmen@, k + 1, cell_mass_fn());
            }
            m = m + self.ragarmen[k].mass;
            k = k + 1;
        }
        proof {
            assert(self.ragarmen@.take(k as int) =~= self.ragarmen@);
        }
        m
    }
}

} // verus!
