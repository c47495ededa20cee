use vstd::prelude::*;

use crate::color::Color;
use crate::ragarman::random_point;

verus! {

/// What a food pellet needs to know of the game: the size of the map, the
/// size of the screen it is seen on, and the mass of one pellet.
pub struct Config {
    pub map_size: (u32, u32),
    pub screen_size: (u32, u32),
    pub food_mass: u32,
}

/// A food pellet: where it lies on the map, where it is drawn on the
/// screen, its colour and the mass a cell takes in by eating it.
pub struct Food {
    pub pos: (i64, i64),
    pub mass: u32,
    pub draw_pos: (i64, i64),
    pub color: Color,
}

impl Food {
    /// A pellet at a random place on the map, seen from a cell that stands
    /// at `ragar_pos` on the map and at `ragar_draw_pos` on the screen: the
    /// pellet is drawn where it lies relative to that cell.
    pub fn new(ragar_pos: (i64, i64), ragar_draw_pos: (i64, i64), conf: &Config) -> (f: Food)
        requires
            conf.map_size.0 > 0,
            conf.map_size.1 > 0,
            ragar_pos.0 - conf.map_size.0 >= i64::MIN,
            ragar_pos.1 - conf.map_size.1 >= i64::MIN,
            ragar_draw_pos.0 - ragar_pos.0 >= i64::MIN,
            ragar_draw_pos.1 - ragar_pos.1 >= i64::MIN,
            ragar_draw_pos.0 - ragar_pos.0 + conf.map_size.0 <= i64::MAX,
            ragar_draw_pos.1 - ragar_pos.1 + conf.map_size.1 <= i64::MAX,
        ensures
            0 <= f.pos.0 < conf.map_size.0,
            0 <= f.pos.1 < conf.map_size.1,
            f.draw_pos.0 == ragar_draw_pos.0 - (ragar_pos.0 - f.pos.0),
            f.draw_pos.1 == ragar_draw_pos.1 - (ragar_pos.1 - f.pos.1),
            f.mass == conf.food_mass,
    {
        let (x, y) = random_point(conf.map_size);
        let draw_pos = (ragar_draw_pos.0 - (ragar_pos.0 - x), ragar_draw_pos.1 - (ragar_pos.1 - y));
        Food { pos: (x, y), mass: conf.food_mass, draw_pos, color: Color::random() }
    }

    /// A pellet of the given mass at a random place on the map, as the
    /// server lays it out; it is drawn where it lies.
    pub fn scatter(food_mass: u32, map_size: (u32, u32)) -> (f: Food)
        requires
            map_size.0 > 0,
            map_size.1 > 0,
        ensures
            0 <= f.pos.0 < map_size.0,
            0 <= f.pos.1 < map_size.1,
            f.draw_pos == f.pos,
            f.mass == food_mass,
    {
        let pos = random_point(map_size);
        Food { pos, mass: food_mass, draw_pos: pos, color: Color::random() }
    }

    /// The view moved by `moving`: the pellet is drawn that much the other way.
    pub fn update(&mut self, moving: (i64, i64))
        requires
            i64::MIN <= old(self).draw_pos.0 - moving.0 <= i64::MAX,
            i64::MIN <= old(self).draw_pos.1 - moving.1 <= i64::MAX,
        ensures
            final(self).draw_pos.0 == old(self).draw_pos.0 - moving.0,
            final(self).draw_pos.1 == old(self).draw_pos.1 - moving.1,
            final(self).pos == old(self).pos,
            final(self).mass == old(self).mass,
            final(self).color == old(self).color,
    {
        self.draw_pos = (self.draw_pos.0 - moving.0, self.draw_pos.1 - moving.1);
    }

    /// Where, and in which colour, the pellet is drawn: nowhere when it
    /// lies off the screen, borders included in the screen.
    pub fn draw(&self, conf: &Config) -> (d: Option<((i64, i64), Color)>)
        ensures
            d == (if 0 <= self.draw_pos.0 <= conf.screen_size.0 && 0 <= self.draw_pos.1
                <= conf.screen_size.1 {
                Some((self.draw_pos, self.color))
            } else {
                None
            }),
    {
        if self.draw_pos.0 >= 0 && self.draw_pos.0 <= conf.screen_size.0 as i64 && self.draw_pos.1
            >= 0 && self.draw_pos.1 <= conf.screen_size.1 as i64 {
            Some((self.draw_pos, self.color))
        } else {
            None
        }
    }
}

} // verus!
