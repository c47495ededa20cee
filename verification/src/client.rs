use vstd::prelude::*;

use crate::player::Player;

verus! {

/// The client's settings: the size of its window.
pub struct ClientConf {
    pub screen_size: (u32, u32),
}

impl ClientConf {
    /// A 1024 by 768 window.
    pub fn new() -> (c: ClientConf)
        ensures
            c.screen_size == (1024u32, 768u32),
    {
        ClientConf { screen_size: (1024, 768) }
    }
}

/// What the client asks for on the given tick: food every hundredth tick,
/// a plain update otherwise.
pub fn action_for_tick(tick: u64) -> (a: &'static str)
    ensures
        tick % 100 == 0 ==> a@ == "food"@,
        tick % 100 != 0 ==> a@ == "update"@,
{
    if tick % 100 == 0 {
        "food"
    } else {
        "update"
    }
}

/// Where on the map the mouse points, the camera looking at `cam_pos` from
/// the middle of the screen.
pub fn mouse_world_pos(cam_pos: (i64, i64), screen_size: (u32, u32), screen_mouse: (i64, i64)) -> (p: (
    i64,
    i64,
))
    requires
        i64::MIN <= cam_pos.0 - screen_size.0 / 2 + screen_mouse.0 <= i64::MAX,
        i64::MIN <= cam_pos.1 - screen_size.1 / 2 + screen_mouse.1 <= i64::MAX,
        i64::MIN <= cam_pos.0 - screen_size.0 / 2,
        i64::MIN <= cam_pos.1 - screen_size.1 / 2,
    ensures
        p.0 == cam_pos.0 - screen_size.0 / 2 + screen_mouse.0,
        p.1 == cam_pos.1 - screen_size.1 / 2 + screen_mouse.1,
{
    (
        cam_pos.0 - (screen_size.0 / 2) as i64 + screen_mouse.0,
        cam_pos.1 - (screen_size.1 / 2) as i64 + screen_mouse.1,
    )
}

/// Where on the screen a place on the map is drawn, the camera looking at
/// `cam_pos` from the middle of the screen.
pub fn screen_pos(pos: (i64, i64), cam_pos: (i64, i64), screen_size: (u32, u32)) -> (p: (i64, i64))
    requires
        i64::MIN <= pos.0 + screen_size.0 / 2 - cam_pos.0 <= i64::MAX,
        i64::MIN <= pos.1 + screen_size.1 / 2 - cam_pos.1 <= i64::MAX,
        pos.0 + screen_size.0 / 2 <= i64::MAX,
        pos.1 + screen_size.1 / 2 <= i64::MAX,
    ensures
        p.0 == pos.0 + screen_size.0 / 2 - cam_pos.0,
        p.1 == pos.1 + screen_size.1 / 2 - cam_pos.1,
{
    (pos.0 + (screen_size.0 / 2) as i64 - cam_pos.0, pos.1 + (screen_size.1 / 2) as i64 - cam_pos.1)
}

/// Where the camera looks after an update: at the last player with the
/// client's id, or where it looked before when there is none.
pub fn follow(players: &Vec<Player>, id: u64, cam_pos: (i64, i64)) -> (c: (i64, i64))
    ensures
        (exists|k: int| 0 <= k < players@.len() && players@[k].id == id) ==> exists|k: int|
            {
                &&& 0 <= k < players@.len()
                &&& players@[k].id == id
                &&& c == players@[k].pos
                &&& forall|m: int| k < m < players@.len() ==> players@[m].id != id
            },
        (forall|k: int| 0 <= k < players@.len() ==> players@[k].id != id) ==> c == cam_pos,
{
    let mut cam = cam_pos;
    let mut i: usize = 0;
    let ghost mut last: int = -1;
    while i < players.len()
        invariant
            i <= players@.len(),
            last == -1 ==> cam == cam_pos && forall|m: int| 0 <= m < i ==> players@[m].id != id,
            last != -1 ==> {
                &&& 0 <= last < i
                &&& players@[last].id == id
                &&& cam == players@[last].pos
                &&& forall|m: int| last < m < i ==> players@[m].id != id
            },
        decreases players@.len() - i,
    {
        if players[i].id == id {
            cam = players[i].pos;
            proof {
                last = i as int;
            }
        }
        i = i + 1;
    }
    cam
}

} // verus!
