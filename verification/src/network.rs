use vstd::prelude::*;

verus! {

/// How many players a session waits for.
pub const NUM_PLAYERS: usize = 2;

/// Whether, with this many peers connected, the session can start; it
/// waits while there are fewer than `NUM_PLAYERS`.
pub fn wait_for_player(connected: usize) -> (ready: bool)
    ensures
        ready == (connected >= NUM_PLAYERS),
{
    if connected < NUM_PLAYERS {
        return false;
    }
    true
}

} // verus!
