use vstd::prelude::*;

use crate::color::Color;
use crate::random::random_below;

verus! {

/// `pos` lies on the map of the given size, borders included.
pub open spec fn in_map(pos: (i64, i64), map_size: (u32, u32)) -> bool {
    &&& 0 <= pos.0 <= map_size.0
    &&& 0 <= pos.1 <= map_size.1
}

/// A point drawn at random on a map of the given size.
pub fn random_point(map_size: (u32, u32)) -> (p: (i64, i64))
    requires
        map_size.0 > 0,
        map_size.1 > 0,
    ensures
        0 <= p.0 < map_size.0,
        0 <= p.1 < map_size.1,
{
    let x = random_below(map_size.0);
    let y = random_below(map_size.1);
    (x as i64, y as i64)
}

/// One cell of a player. Its radius is a function of its mass that the
/// caller computes; the library keeps the mass.
pub struct RagarMan {
    pub pos: (i64, i64),
    pub mass: u32,
    pub name: String,
    pub color: Color,
}

impl RagarMan {
    /// A cell of the given mass at a random place on the map.
    pub fn new(map_size: (u32, u32), mass: u32, name: String, color: Color) -> (r: RagarMan)
        requires
            map_size.0 > 0,
            map_size.1 > 0,
        ensures
            r.mass == mass,
            r.name == name,
            r.color == color,
            0 <= r.pos.0 < map_size.0,
            0 <= r.pos.1 < map_size.1,
    {
        let pos = random_point(map_size);
        RagarMan { pos, mass, name, color }
    }

    /// The cell takes in `mass`.
    pub fn gain_mass(&mut self, mass: u32)
        requires
            old(self).mass + mass <= u32::MAX,
        ensures
            final(self).mass == old(self).mass + mass,
            final(self).pos == old(self).pos,
            final(self).name == old(self).name,
            final(self).color == old(self).color,
    {
        self.mass = self.mass + mass;
    }
}

} // verus!
