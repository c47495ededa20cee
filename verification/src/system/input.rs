use vstd::prelude::*;

use crate::component::ExchangeData;

verus! {

/// This frame's input: the cursor's place when the cursor is in the
/// window, zero otherwise; no new food.
pub fn input(cursor: Option<(u32, u32)>) -> (d: ExchangeData)
    ensures
        d.new_food_x == 0,
        d.new_food_y == 0,
        match cursor {
            Some(position) => d.mouse_x == position.0 && d.mouse_y == position.1,
            None => d.mouse_x == 0 && d.mouse_y == 0,
        },
{
    let mut input = ExchangeData::zero();
    if let Some(position) = cursor {
        input.mouse_x = position.0;
        input.mouse_y = position.1;
    }
    input
}

} // verus!
