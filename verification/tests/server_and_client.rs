use ragar::client::{action_for_tick, follow, mouse_world_pos, screen_pos, ClientConf};
use ragar::color::Color;
use ragar::component::ExchangeData;
use ragar::food::Food;
use ragar::network::{wait_for_player, NUM_PLAYERS};
use ragar::player::Player;
use ragar::ragarman::RagarMan;
use ragar::server::{Reply, Request, ServerState};
use ragar::system::input::input;

fn never_reaches(_: &Food, _: &RagarMan) -> bool {
    false
}

fn never_swallows(_: &RagarMan, _: &RagarMan) -> bool {
    false
}

fn always_swallows(_: &RagarMan, _: &RagarMan) -> bool {
    true
}

fn step(_: &RagarMan, _: (i64, i64)) -> (i64, i64) {
    (5, 5)
}

fn total_mass(s: &ServerState) -> u64 {
    let cells: u64 = s.gamedata.players.iter().flat_map(|p| p.ragarmen.iter()).map(|r| r.mass as u64).sum();
    let food: u64 = s.gamedata.food.iter().map(|f| f.mass as u64).sum();
    cells + food
}

fn cell(pos: (i64, i64), mass: u32) -> RagarMan {
    RagarMan { pos, mass, name: String::from("c"), color: Color { r: 1, g: 2, b: 3 } }
}

#[test]
fn request_from_message_reads_action() {
    match Request::from_message(Some("new"), Some(3), Some(String::from("ann")), None) {
        Request::New { name } => assert_eq!(name, "ann"),
        _ => panic!("expected a join"),
    }
    match Request::from_message(Some("disconnect"), Some(3), None, Some((Some(1), Some(2)))) {
        Request::Disconnect { id } => assert_eq!(id, 3),
        _ => panic!("expected a leave"),
    }
    match Request::from_message(Some("food"), Some(4), None, Some((Some(1), Some(2)))) {
        Request::Update { id, food, mouse_pos } => {
            assert_eq!(id, 4);
            assert!(food);
            assert_eq!(mouse_pos, Some((1, 2)));
        }
        _ => panic!("expected a tick"),
    }
    match Request::from_message(Some("update"), Some(5), None, None) {
        Request::Update { id, food, mouse_pos } => {
            assert_eq!(id, 5);
            assert!(!food);
            assert_eq!(mouse_pos, None);
        }
        _ => panic!("expected a tick"),
    }
}

#[test]
fn request_from_message_fills_in_missing_fields() {
    match Request::from_message(Some("new"), None, None, None) {
        Request::New { name } => assert_eq!(name, ""),
        _ => panic!("expected a join"),
    }
    match Request::from_message(Some("disconnect"), None, None, None) {
        Request::Disconnect { id } => assert_eq!(id, 0),
        _ => panic!("expected a leave"),
    }
    match Request::from_message(None, None, Some(String::from("ann")), Some((Some(7), None))) {
        Request::Update { id, food, mouse_pos } => {
            assert_eq!(id, 0);
            assert!(!food);
            assert_eq!(mouse_pos, None);
        }
        _ => panic!("expected a tick"),
    }
    match Request::from_message(Some("food"), Some(9), None, Some((None, Some(7)))) {
        Request::Update { id, food, mouse_pos } => {
            assert_eq!(id, 9);
            assert!(food);
            assert_eq!(mouse_pos, None);
        }
        _ => panic!("expected a tick"),
    }
}

#[test]
fn server_state_new_has_food_and_viruses() {
    let s = ServerState::new();
    assert_eq!(s.gamedata.players.len(), 0);
    assert_eq!(s.gamedata.food.len(), 100);
    assert_eq!(s.gamedata.viruses.len(), 100);
    assert_eq!(s.gamedata.total_food, 100);
    assert_eq!(s.conf.map_size, (2400, 1800));
}

#[test]
fn join_then_leave_restores_players() {
    let mut s = ServerState::new();
    let reply = s.handle(Request::New { name: String::from("ann") }, 11, &never_reaches, &never_swallows, &step);
    assert_eq!(reply, Reply::Joined);
    assert_eq!(s.gamedata.players.len(), 1);
    assert_eq!(s.gamedata.players[0].id, 11);
    assert_eq!(s.gamedata.players[0].name, "ann");
    assert_eq!(s.gamedata.players[0].ragarmen[0].mass, 500);
    let reply = s.handle(Request::New { name: String::from("bob") }, 12, &never_reaches, &never_swallows, &step);
    assert_eq!(reply, Reply::Joined);
    let reply = s.handle(Request::Disconnect { id: 12 }, 0, &never_reaches, &never_swallows, &step);
    assert_eq!(reply, Reply::Silent);
    assert_eq!(s.gamedata.players.len(), 1);
    assert_eq!(s.gamedata.players[0].id, 11);
}

#[test]
fn tick_lays_food_and_sorts() {
    let mut s = ServerState::new();
    s.handle(Request::New { name: String::from("a") }, 1, &never_reaches, &never_swallows, &step);
    s.handle(Request::New { name: String::from("b") }, 2, &never_reaches, &never_swallows, &step);
    s.gamedata.players[1].ragarmen[0].mass = 900;
    let before = total_mass(&s);
    let reply = s.handle(
        Request::Update { id: 7, food: true, mouse_pos: None },
        0,
        &never_reaches,
        &never_swallows,
        &step,
    );
    assert_eq!(reply, Reply::State);
    assert_eq!(s.gamedata.food.len(), 101);
    assert_eq!(s.gamedata.total_food, 101);
    assert_eq!(total_mass(&s), before + 50);
    assert_eq!(s.gamedata.players[0].id, 2);
    assert_eq!(s.gamedata.players[1].id, 1);
}

#[test]
fn tick_without_food_keeps_mass() {
    let mut s = ServerState::new();
    s.handle(Request::New { name: String::from("a") }, 1, &never_reaches, &never_swallows, &step);
    let before = total_mass(&s);
    let reply = s.handle(Request::Update { id: 1, food: false, mouse_pos: None }, 0, &never_reaches, &never_swallows, &step);
    assert_eq!(reply, Reply::State);
    assert_eq!(total_mass(&s), before);
    assert_eq!(s.gamedata.food.len(), 100);
}

#[test]
fn tick_food_capped_by_max_food() {
    let mut s = ServerState::new();
    s.conf.max_food = 100;
    let reply = s.handle(Request::Update { id: 1, food: true, mouse_pos: None }, 0, &never_reaches, &never_swallows, &step);
    assert_eq!(reply, Reply::State);
    assert_eq!(s.gamedata.food.len(), 100);
}

#[test]
fn tick_steers_the_player_within_the_map() {
    let mut s = ServerState::new();
    s.handle(Request::New { name: String::from("a") }, 1, &never_reaches, &never_swallows, &step);
    s.gamedata.players[0].ragarmen[0].pos = (2398, 10);
    s.gamedata.players[0].pos = (2398, 10);
    let reply = s.handle(Request::Update { id: 1, food: false, mouse_pos: Some((0, 0)) }, 0, &never_reaches, &never_swallows, &step);
    assert_eq!(reply, Reply::State);
    assert_eq!(s.gamedata.players[0].ragarmen[0].pos, (2400, 15));
    assert_eq!(s.gamedata.players[0].pos, (2400, 15));
}

#[test]
fn tick_player_whose_last_cell_is_swallowed_leaves() {
    let mut s = ServerState::new();
    s.handle(Request::New { name: String::from("a") }, 1, &never_reaches, &never_swallows, &step);
    s.handle(Request::New { name: String::from("b") }, 2, &never_reaches, &never_swallows, &step);
    s.gamedata.players[0].ragarmen[0].mass = 10;
    let p = s.gamedata.players[1].ragarmen[0].pos;
    s.gamedata.players[1].ragarmen.push(cell(p, 500));
    let before = total_mass(&s);
    let reply = s.handle(Request::Update { id: 1, food: false, mouse_pos: None }, 0, &never_reaches, &always_swallows, &step);
    assert_eq!(reply, Reply::State);
    assert_eq!(total_mass(&s), before);
    assert_eq!(s.gamedata.players.len(), 1);
    assert_eq!(s.gamedata.players[0].id, 2);
    assert_eq!(s.gamedata.players[0].ragarmen[0].mass, 510);
    assert_eq!(s.gamedata.players[0].ragarmen[1].mass, 500);
}

#[test]
fn tick_plays_on_when_all_mass_together_exceeds_32_bits() {
    let mut s = ServerState::new();
    for k in 0..121u64 {
        s.handle(Request::New { name: format!("p{}", k) }, k, &never_reaches, &never_swallows, &step);
        s.gamedata.players[k as usize].ragarmen[0].mass = 35_700_000;
    }
    assert!(total_mass(&s) > u32::MAX as u64);
    let reply = s.handle(Request::Update { id: 0, food: false, mouse_pos: None }, 0, &never_reaches, &always_swallows, &step);
    assert_eq!(reply, Reply::State);
    assert_eq!(s.gamedata.players.len(), 121);
}

#[test]
fn tick_fault_where_a_player_is_too_heavy_to_weigh() {
    let mut s = ServerState::new();
    s.handle(Request::New { name: String::from("a") }, 1, &never_reaches, &never_swallows, &step);
    s.handle(Request::New { name: String::from("b") }, 2, &never_reaches, &never_swallows, &step);
    s.gamedata.players[0].ragarmen[0].mass = 10;
    let p = s.gamedata.players[1].ragarmen[0].pos;
    s.gamedata.players[1].ragarmen[0].mass = 35_700_000;
    for _ in 0..120 {
        s.gamedata.players[1].ragarmen.push(cell(p, 35_700_000));
    }
    let before = total_mass(&s);
    let reply = s.handle(Request::Update { id: 1, food: false, mouse_pos: None }, 0, &never_reaches, &never_swallows, &step);
    assert_eq!(reply, Reply::Fault);
    assert_eq!(total_mass(&s), before);
    assert_eq!(s.gamedata.players[0].id, 1);
}

#[test]
fn client_conf_window() {
    assert_eq!(ClientConf::new().screen_size, (1024, 768));
}

#[test]
fn action_every_hundredth_tick() {
    assert_eq!(action_for_tick(0), "food");
    assert_eq!(action_for_tick(200), "food");
    assert_eq!(action_for_tick(201), "update");
    assert_eq!(action_for_tick(99), "update");
}

#[test]
fn mouse_and_screen_positions() {
    assert_eq!(mouse_world_pos((1000, 900), (1024, 768), (0, 0)), (488, 516));
    assert_eq!(mouse_world_pos((1000, 900), (1024, 768), (512, 384)), (1000, 900));
    assert_eq!(screen_pos((1000, 900), (1000, 900), (1024, 768)), (512, 384));
    assert_eq!(screen_pos((0, 0), (1000, 900), (1024, 768)), (-488, -516));
}

#[test]
fn camera_follows_last_player_with_id() {
    let mk = |id: u64, pos: (i64, i64)| Player { id, name: String::new(), ragarmen: vec![], color: Color { r: 0, g: 0, b: 0 }, pos };
    let players = vec![mk(1, (1, 1)), mk(2, (2, 2)), mk(1, (3, 3))];
    assert_eq!(follow(&players, 1, (9, 9)), (3, 3));
    assert_eq!(follow(&players, 2, (9, 9)), (2, 2));
    assert_eq!(follow(&players, 5, (9, 9)), (9, 9));
}

#[test]
fn input_takes_cursor() {
    let d = input(Some((30, 40)));
    assert_eq!(d, ExchangeData { mouse_x: 30, mouse_y: 40, new_food_x: 0, new_food_y: 0 });
    let d = input(None);
    assert_eq!(d, ExchangeData::zero());
}

#[test]
fn session_waits_for_two_players() {
    assert_eq!(NUM_PLAYERS, 2);
    assert!(!wait_for_player(0));
    assert!(!wait_for_player(1));
    assert!(wait_for_player(2));
    assert!(wait_for_player(3));
}

#[test]
fn ticks_never_lay_more_food_than_allowed() {
    let mut s = ServerState::new();
    s.conf.max_food = 101;
    for _ in 0..3 {
        let reply = s.handle(Request::Update { id: 1, food: true, mouse_pos: None }, 0, &never_reaches, &never_swallows, &step);
        assert_eq!(reply, Reply::State);
        assert!(s.gamedata.total_food <= s.conf.max_food);
    }
    assert_eq!(s.gamedata.total_food, 101);
    assert_eq!(s.gamedata.food.len(), 101);
}

#[test]
fn tick_leaves_other_players_cells_in_place() {
    let mut s = ServerState::new();
    s.handle(Request::New { name: String::from("a") }, 1, &never_reaches, &never_swallows, &step);
    s.handle(Request::New { name: String::from("b") }, 2, &never_reaches, &never_swallows, &step);
    s.gamedata.players[0].ragarmen[0].pos = (100, 100);
    s.gamedata.players[0].pos = (100, 100);
    s.gamedata.players[1].ragarmen[0].pos = (2000, 1500);
    s.gamedata.players[1].pos = (2000, 1500);
    let reply = s.handle(Request::Update { id: 1, food: false, mouse_pos: Some((0, 0)) }, 0, &never_reaches, &never_swallows, &step);
    assert_eq!(reply, Reply::State);
    let other = s.gamedata.players.iter().find(|p| p.id == 2).unwrap();
    assert_eq!(other.ragarmen[0].pos, (2000, 1500));
    assert_eq!(other.pos, (2000, 1500));
    let moved = s.gamedata.players.iter().find(|p| p.id == 1).unwrap();
    assert_eq!(moved.ragarmen[0].pos, (105, 105));
}
