use vstd::prelude::*;

use crate::ragarman::random_point;

verus! {

/// The kinds of virus.
pub const GREEN_FREEZE: u8 = 1;

pub const GREEN_ROLL: u8 = 2;

pub const ORANGE: u8 = 3;

/// A virus: a still obstacle on the map.
pub struct Virus {
    pub pos: (i64, i64),
    pub mass: u32,
    pub gen: u8,
}

impl Virus {
    /// A green, still virus of 150 times the food mass at a random place.
    pub fn new(map_size: (u32, u32), food_mass: u32) -> (v: Virus)
        requires
            150 * food_mass <= u32::MAX,
            map_size.0 > 0,
            map_size.1 > 0,
        ensures
            v.mass == 150 * food_mass,
            v.gen == GREEN_FREEZE,
            0 <= v.pos.0 < map_size.0,
            0 <= v.pos.1 < map_size.1,
    {
        let pos = random_point(map_size);
        Virus { pos, mass: 150 * food_mass, gen: GREEN_FREEZE }
    }

    /// The virus takes in `mass`.
    pub fn gain_mass(&mut self, mass: u32)
        requires
            old(self).mass + mass <= u32::MAX,
        ensures
            final(self).mass == old(self).mass + mass,
            final(self).pos == old(self).pos,
            final(self).gen == old(self).gen,
    {
        self.mass = self.mass + mass;
    }
}

} // verus!
