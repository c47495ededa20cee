use vstd::prelude::*;

verus! {

/// What peers exchange each frame: the mouse position and where new food
/// appears.
#[derive(Clone, Copy, PartialEq, Eq, Structural, Debug)]
pub struct ExchangeData {
    pub mouse_x: u32,
    pub mouse_y: u32,
    pub new_food_x: u32,
    pub new_food_y: u32,
}

impl ExchangeData {
    /// All fields zero.
    pub fn zero() -> (d: ExchangeData)
        ensures
            d == (ExchangeData { mouse_x: 0, mouse_y: 0, new_food_x: 0, new_food_y: 0 }),
    {
        ExchangeData { mouse_x: 0, mouse_y: 0, new_food_x: 0, new_food_y: 0 }
    }
}

} // verus!
