use ragar::color::Color;
use ragar::food::{Config, Food};
use ragar::gamedata::{can_swallow, GameData};
use ragar::player::Player;
use ragar::ragarman::RagarMan;
use ragar::server::{clamp_moving, ServerConfig};
use ragar::virus::{Virus, GREEN_FREEZE};

fn cell(pos: (i64, i64), mass: u32) -> RagarMan {
    RagarMan { pos, mass, name: String::from("c"), color: Color { r: 1, g: 2, b: 3 } }
}

fn player(id: u64, cells: Vec<RagarMan>) -> Player {
    let pos = if cells.is_empty() { (0, 0) } else { cells[0].pos };
    Player { id, name: format!("p{}", id), ragarmen: cells, color: Color { r: 0, g: 0, b: 0 }, pos }
}

fn pellet(pos: (i64, i64), mass: u32) -> Food {
    Food { pos, mass, draw_pos: pos, color: Color { r: 9, g: 9, b: 9 } }
}

fn game(players: Vec<Player>, food: Vec<Food>) -> GameData {
    let total_food = food.len() as u32;
    GameData { players, food, viruses: Vec::new(), total_food }
}

fn radius(mass: u32) -> f32 {
    (mass as f32 / std::f32::consts::PI).sqrt()
}

fn distance(a: (i64, i64), b: (i64, i64)) -> f32 {
    (((b.0 - a.0) as f32).powf(2.0) + ((b.1 - a.1) as f32).powf(2.0)).sqrt()
}

fn reaches(f: &Food, r: &RagarMan) -> bool {
    distance(f.pos, r.pos) < radius(r.mass)
}

fn swallows(eater: &RagarMan, prey: &RagarMan) -> bool {
    let d = distance(eater.pos, prey.pos);
    d + radius(prey.mass) - radius(eater.mass) <= radius(prey.mass) / 4.0
}

fn total_mass(g: &GameData) -> u64 {
    let cells: u64 = g.players.iter().flat_map(|p| p.ragarmen.iter()).map(|r| r.mass as u64).sum();
    let food: u64 = g.food.iter().map(|f| f.mass as u64).sum();
    cells + food
}

#[test]
fn can_swallow_needs_six_fifths() {
    assert!(can_swallow(120, 100));
    assert!(!can_swallow(119, 100));
    assert!(can_swallow(6, 5));
    assert!(!can_swallow(5, 5));
    assert!(can_swallow(0, 0));
}

#[test]
fn clamp_moving_stops_on_borders() {
    assert_eq!(clamp_moving((10, 10), (200, -50), (100, 100)), (90, -10));
    assert_eq!(clamp_moving((10, 10), (5, 7), (100, 100)), (5, 7));
    assert_eq!(clamp_moving((100, 0), (1, -1), (100, 100)), (0, 0));
    assert_eq!(clamp_moving((150, -20), (0, 0), (100, 100)), (-50, 20));
}

#[test]
fn ragarman_new_lies_on_map() {
    for _ in 0..200 {
        let r = RagarMan::new((3, 2), 77, String::from("x"), Color { r: 1, g: 1, b: 1 });
        assert!(r.pos.0 >= 0 && r.pos.0 < 3);
        assert!(r.pos.1 >= 0 && r.pos.1 < 2);
        assert_eq!(r.mass, 77);
        assert_eq!(r.name, "x");
    }
}

#[test]
fn gain_mass_adds() {
    let mut r = cell((4, 5), 10);
    r.gain_mass(32);
    assert_eq!(r.mass, 42);
    assert_eq!(r.pos, (4, 5));
    let mut v = Virus { pos: (1, 1), mass: 5, gen: GREEN_FREEZE };
    v.gain_mass(6);
    assert_eq!(v.mass, 11);
}

#[test]
fn player_new_has_one_cell_of_ten_pellets() {
    let p = Player::new(7, String::from("bob"), (2400, 1800), 50);
    assert_eq!(p.id, 7);
    assert_eq!(p.name, "bob");
    assert_eq!(p.ragarmen.len(), 1);
    assert_eq!(p.ragarmen[0].mass, 500);
    assert_eq!(p.ragarmen[0].name, "bob");
    assert_eq!(p.ragarmen[0].color, p.color);
    assert_eq!(p.pos, p.ragarmen[0].pos);
    assert!(p.pos.0 >= 0 && p.pos.0 < 2400 && p.pos.1 >= 0 && p.pos.1 < 1800);
    assert_eq!(p.mass(), 500);
}

#[test]
fn player_mass_sums_cells() {
    let p = player(1, vec![cell((0, 0), 3), cell((1, 1), 4), cell((2, 2), 5)]);
    assert_eq!(p.mass(), 12);
    let empty = player(2, vec![]);
    assert_eq!(empty.mass(), 0);
}

#[test]
fn virus_new_is_green_and_heavy() {
    let v = Virus::new((10, 10), 50);
    assert_eq!(v.mass, 7500);
    assert_eq!(v.gen, GREEN_FREEZE);
    assert!(v.pos.0 >= 0 && v.pos.0 < 10 && v.pos.1 >= 0 && v.pos.1 < 10);
}

#[test]
fn food_new_is_drawn_relative_to_cell() {
    let conf = Config { map_size: (50, 40), screen_size: (1024, 768), food_mass: 3 };
    for _ in 0..100 {
        let f = Food::new((20, 10), (512, 384), &conf);
        assert!(f.pos.0 >= 0 && f.pos.0 < 50 && f.pos.1 >= 0 && f.pos.1 < 40);
        assert_eq!(f.draw_pos, (512 - (20 - f.pos.0), 384 - (10 - f.pos.1)));
        assert_eq!(f.mass, 3);
    }
}

#[test]
fn food_update_moves_drawing_back() {
    let mut f = pellet((5, 5), 1);
    f.draw_pos = (100, 200);
    f.update((3, -4));
    assert_eq!(f.draw_pos, (97, 204));
    f.update((-3, 4));
    assert_eq!(f.draw_pos, (100, 200));
    assert_eq!(f.pos, (5, 5));
}

#[test]
fn food_draw_only_on_screen() {
    let conf = Config { map_size: (50, 40), screen_size: (100, 80), food_mass: 3 };
    let mut f = pellet((5, 5), 1);
    f.draw_pos = (100, 80);
    assert_eq!(f.draw(&conf), Some(((100, 80), f.color)));
    f.draw_pos = (0, 0);
    assert_eq!(f.draw(&conf), Some(((0, 0), f.color)));
    f.draw_pos = (101, 10);
    assert_eq!(f.draw(&conf), None);
    f.draw_pos = (10, -1);
    assert_eq!(f.draw(&conf), None);
}

#[test]
fn food_scatter_lies_on_map() {
    for _ in 0..100 {
        let f = Food::scatter(9, (4, 3));
        assert!(f.pos.0 >= 0 && f.pos.0 < 4 && f.pos.1 >= 0 && f.pos.1 < 3);
        assert_eq!(f.draw_pos, f.pos);
        assert_eq!(f.mass, 9);
    }
}

#[test]
fn gamedata_new_lays_out_food_and_viruses() {
    let conf = ServerConfig::new();
    let g = GameData::new(&conf);
    assert_eq!(g.players.len(), 0);
    assert_eq!(g.food.len(), 100);
    assert_eq!(g.total_food, 100);
    assert_eq!(g.viruses.len(), 100);
    for f in &g.food {
        assert_eq!(f.mass, 50);
        assert!(f.pos.0 >= 0 && f.pos.0 < 2400 && f.pos.1 >= 0 && f.pos.1 < 1800);
    }
    for v in &g.viruses {
        assert_eq!(v.mass, 7500);
        assert_eq!(v.gen, GREEN_FREEZE);
    }
}

#[test]
fn server_config_values() {
    let c = ServerConfig::new();
    assert_eq!(c.food_mass, 50);
    assert_eq!(c.map_size, (2400, 1800));
    assert_eq!(c.v, 100);
    assert_eq!(c.max_food, 1000);
    assert_eq!(c.virus_number, 100);
}

#[test]
fn remove_player_removes_first_with_id() {
    let mut g = game(vec![player(1, vec![cell((0, 0), 1)]), player(2, vec![cell((0, 0), 2)]), player(1, vec![cell((0, 0), 3)])], vec![]);
    g.remove_player(1);
    assert_eq!(g.players.len(), 2);
    assert_eq!(g.players[0].id, 2);
    assert_eq!(g.players[1].id, 1);
    assert_eq!(g.players[1].ragarmen[0].mass, 3);
    g.remove_player(9);
    assert_eq!(g.players.len(), 2);
}

#[test]
fn sort_players_heaviest_first() {
    let mut g = game(
        vec![
            player(1, vec![cell((0, 0), 1)]),
            player(2, vec![cell((0, 0), 5)]),
            player(3, vec![cell((0, 0), 2), cell((0, 0), 1)]),
            player(4, vec![]),
            player(5, vec![cell((0, 0), 9)]),
        ],
        vec![],
    );
    g.sort_players_by_mass();
    let ids: Vec<u64> = g.players.iter().map(|p| p.id).collect();
    assert_eq!(ids, vec![5, 2, 3, 1, 4]);
    let masses: Vec<u32> = g.players.iter().map(|p| p.mass()).collect();
    assert_eq!(masses, vec![9, 5, 3, 1, 0]);
}

#[test]
fn sort_single_player_untouched() {
    let mut g = game(vec![player(1, vec![cell((0, 0), 1)])], vec![]);
    g.sort_players_by_mass();
    assert_eq!(g.players.len(), 1);
    assert_eq!(g.players[0].id, 1);
}

#[test]
fn feed_adds_one_counted_pellet() {
    let mut g = game(vec![], vec![pellet((1, 1), 5)]);
    g.feed(50, (10, 10));
    assert_eq!(g.food.len(), 2);
    assert_eq!(g.total_food, 2);
    assert_eq!(g.food[1].mass, 50);
    assert!(g.food[1].pos.0 >= 0 && g.food[1].pos.0 < 10);
    assert_eq!(g.food[0].pos, (1, 1));
}

#[test]
fn eat_food_in_reach_only() {
    let mut g = game(
        vec![player(1, vec![cell((100, 100), 500)])],
        vec![pellet((105, 100), 50), pellet((300, 300), 50), pellet((100, 110), 50)],
    );
    let before = total_mass(&g);
    assert!(g.eat(&reaches, &swallows));
    assert_eq!(g.players[0].ragarmen[0].mass, 600);
    assert_eq!(g.food.len(), 1);
    assert_eq!(g.food[0].pos, (300, 300));
    assert_eq!(g.total_food, 1);
    assert_eq!(total_mass(&g), before);
}

#[test]
fn eat_bigger_swallows_smaller_and_player_leaves() {
    let mut g = game(
        vec![player(1, vec![cell((100, 100), 1000)]), player(2, vec![cell((102, 100), 100)]), player(3, vec![cell((900, 900), 100)])],
        vec![],
    );
    let before = total_mass(&g);
    assert!(g.eat(&reaches, &swallows));
    assert_eq!(g.players.len(), 2);
    assert_eq!(g.players[0].id, 1);
    assert_eq!(g.players[0].ragarmen[0].mass, 1100);
    assert_eq!(g.players[1].id, 3);
    assert_eq!(total_mass(&g), before);
}

#[test]
fn eat_smaller_first_is_swallowed_by_later() {
    let mut g = game(vec![player(1, vec![cell((100, 100), 100)]), player(2, vec![cell((101, 100), 1000)])], vec![]);
    assert!(g.eat(&reaches, &swallows));
    assert_eq!(g.players.len(), 1);
    assert_eq!(g.players[0].id, 2);
    assert_eq!(g.players[0].ragarmen[0].mass, 1100);
}

#[test]
fn eat_close_masses_do_not_swallow() {
    let mut g = game(vec![player(1, vec![cell((100, 100), 110)]), player(2, vec![cell((100, 100), 100)])], vec![]);
    assert!(g.eat(&|_: &Food, _: &RagarMan| true, &|_: &RagarMan, _: &RagarMan| true));
    assert_eq!(g.players.len(), 2);
    assert_eq!(g.players[0].ragarmen[0].mass, 110);
}

#[test]
fn eat_players_without_cells_leave() {
    let mut g = game(vec![player(1, vec![]), player(2, vec![])], vec![]);
    assert!(g.eat(&reaches, &swallows));
    assert_eq!(g.players.len(), 0);
    let mut lone = game(vec![player(1, vec![])], vec![]);
    assert!(lone.eat(&reaches, &swallows));
    assert_eq!(lone.players.len(), 1);
}

#[test]
fn eat_player_whose_last_cell_is_swallowed_leaves() {
    let mut g = game(
        vec![player(1, vec![cell((0, 0), 50)]), player(2, vec![cell((0, 0), 500), cell((100, 100), 500)])],
        vec![],
    );
    assert!(g.eat(&reaches, &swallows));
    assert_eq!(g.players.len(), 1);
    assert_eq!(g.players[0].id, 2);
    assert_eq!(g.players[0].ragarmen[0].mass, 550);
    assert_eq!(g.players[0].ragarmen[1].mass, 500);
}

#[test]
fn players_weighable_where_each_mass_fits() {
    let ok = game(vec![player(1, vec![cell((0, 0), 4_294_967_000), cell((0, 0), 295)]), player(2, vec![cell((0, 0), 1)])], vec![]);
    assert!(ok.players_weighable());
    let over = game(vec![player(1, vec![cell((0, 0), 4_294_967_000), cell((0, 0), 296)]), player(2, vec![cell((0, 0), 1)])], vec![]);
    assert!(!over.players_weighable());
    let alone = game(vec![player(1, vec![cell((0, 0), 4_294_967_000), cell((0, 0), 296)])], vec![]);
    assert!(alone.players_weighable());
}

#[test]
fn move_player_steers_only_that_player() {
    let mut g = game(vec![player(1, vec![cell((10, 10), 5), cell((20, 30), 5)]), player(2, vec![cell((50, 50), 5)])], vec![]);
    g.move_player(1, (0, 0), (100, 100), &|_: &RagarMan, _: (i64, i64)| (3, -40));
    assert_eq!(g.players[0].ragarmen[0].pos, (13, 0));
    assert_eq!(g.players[0].ragarmen[1].pos, (23, 0));
    assert_eq!(g.players[0].pos, (18, 0));
    assert_eq!(g.players[1].ragarmen[0].pos, (50, 50));
    assert_eq!(g.players[1].pos, (50, 50));
    assert_eq!(g.players[0].ragarmen[0].mass, 5);
}

#[test]
fn eat_each_cell_meets_every_cell_of_the_other_player() {
    let mut g = game(
        vec![player(1, vec![cell((0, 0), 50), cell((100, 0), 500)]), player(2, vec![cell((100, 0), 50)])],
        vec![],
    );
    assert!(g.eat(&reaches, &swallows));
    assert_eq!(g.players.len(), 1);
    assert_eq!(g.players[0].id, 1);
    assert_eq!(g.players[0].ragarmen[0].mass, 50);
    assert_eq!(g.players[0].ragarmen[1].mass, 550);
}

#[test]
fn eat_first_cell_swallows_then_goes_on() {
    let mut g = game(
        vec![player(1, vec![cell((500, 500), 1000)]), player(2, vec![cell((500, 500), 100), cell((501, 500), 100)])],
        vec![],
    );
    assert!(g.eat(&reaches, &swallows));
    assert_eq!(g.players.len(), 1);
    assert_eq!(g.players[0].ragarmen[0].mass, 1200);
}

#[test]
fn eat_with_no_players_or_food() {
    let mut g = game(vec![], vec![pellet((1, 1), 5)]);
    assert!(g.eat(&reaches, &swallows));
    assert_eq!(g.food.len(), 1);
    let mut h = game(vec![], vec![]);
    assert!(h.eat(&reaches, &swallows));
    assert_eq!(h.total_food, 0);
}

#[test]
fn sort_exchanges_only_with_strictly_heavier() {
    let mut g = game(
        vec![
            player(1, vec![cell((0, 0), 2)]),
            player(2, vec![cell((0, 0), 3)]),
            player(3, vec![cell((0, 0), 3)]),
            player(4, vec![cell((0, 0), 3)]),
        ],
        vec![],
    );
    g.sort_players_by_mass();
    let ids: Vec<u64> = g.players.iter().map(|p| p.id).collect();
    assert_eq!(ids, vec![2, 3, 4, 1]);
}

#[test]
fn player_stands_at_rounded_mean_of_cells() {
    let mut g = game(vec![player(1, vec![cell((1, 5), 5), cell((2, 6), 5), cell((2, 6), 5)])], vec![]);
    g.move_player(1, (0, 0), (100, 100), &|_: &RagarMan, _: (i64, i64)| (0, 0));
    assert_eq!(g.players[0].pos, (2, 6));
    let mut h = game(vec![player(1, vec![cell((1, 5), 5), cell((2, 6), 5)])], vec![]);
    h.move_player(1, (0, 0), (100, 100), &|_: &RagarMan, _: (i64, i64)| (0, 0));
    assert_eq!(h.players[0].pos, (2, 6));
}

#[test]
fn eat_big_masses_far_apart() {
    let mut g = game(vec![player(1, vec![cell((0, 0), 20_000_000)]), player(2, vec![cell((9000, 9000), 20_000_000)])], vec![]);
    assert!(g.eat(&reaches, &swallows));
    assert_eq!(g.players.len(), 2);
}

#[test]
fn eat_stops_where_a_mass_is_too_large_to_weigh() {
    let mut g = game(vec![player(1, vec![cell((0, 0), 1)]), player(2, vec![cell((9000, 9000), 40_000_000)])], vec![]);
    assert!(!g.eat(&reaches, &swallows));
    let mut h = game(vec![player(1, vec![cell((0, 0), 40_000_000)]), player(2, vec![cell((9000, 9000), 1)])], vec![]);
    assert!(h.eat(&reaches, &swallows));
}

#[test]
fn sort_twice_equals_sort_once() {
    let mut g = game(
        vec![
            player(1, vec![cell((0, 0), 4)]),
            player(2, vec![cell((0, 0), 7)]),
            player(3, vec![cell((0, 0), 4)]),
            player(4, vec![cell((0, 0), 9)]),
        ],
        vec![],
    );
    g.sort_players_by_mass();
    let once: Vec<u64> = g.players.iter().map(|p| p.id).collect();
    g.sort_players_by_mass();
    let twice: Vec<u64> = g.players.iter().map(|p| p.id).collect();
    assert_eq!(once, twice);
}

#[test]
fn sort_keeps_players_already_in_order_even_of_equal_mass() {
    let mut g = game(
        vec![
            player(1, vec![cell((0, 0), 9)]),
            player(2, vec![cell((0, 0), 5)]),
            player(3, vec![cell((0, 0), 5)]),
            player(4, vec![cell((0, 0), 2)]),
        ],
        vec![],
    );
    g.sort_players_by_mass();
    let ids: Vec<u64> = g.players.iter().map(|p| p.id).collect();
    assert_eq!(ids, vec![1, 2, 3, 4]);
}

#[test]
fn eat_cells_keep_place_name_colour_and_no_less_mass() {
    let mut a = cell((100, 100), 1000);
    a.name = String::from("a");
    a.color = Color { r: 7, g: 8, b: 9 };
    let mut g = game(
        vec![player(1, vec![a]), player(2, vec![cell((102, 100), 100)]), player(3, vec![cell((900, 900), 100)])],
        vec![pellet((101, 101), 50), pellet((500, 500), 50)],
    );
    let before: Vec<(u64, String, Color, Vec<((i64, i64), String, Color, u32)>)> = g
        .players
        .iter()
        .map(|p| {
            let cells = p.ragarmen.iter().map(|r| (r.pos, r.name.clone(), r.color, r.mass)).collect();
            (p.id, p.name.clone(), p.color, cells)
        })
        .collect();
    assert!(g.eat(&reaches, &swallows));
    for p in &g.players {
        let was = before.iter().find(|q| q.0 == p.id).unwrap();
        assert_eq!(p.name, was.1);
        assert_eq!(p.color, was.2);
        for r in &p.ragarmen {
            assert!(was.3.iter().any(|w| w.0 == r.pos && w.1 == r.name && w.2 == r.color && r.mass >= w.3));
        }
    }
    assert_eq!(g.players[0].ragarmen[0].pos, (100, 100));
    assert_eq!(g.players[0].ragarmen[0].name, "a");
    assert_eq!(g.players[0].ragarmen[0].color, Color { r: 7, g: 8, b: 9 });
    assert_eq!(g.players[0].ragarmen[0].mass, 1150);
}

#[test]
fn eat_finished_meal_leaves_every_player_a_cell() {
    let mut g = game(
        vec![
            player(1, vec![cell((100, 100), 100)]),
            player(2, vec![cell((101, 100), 1000)]),
            player(3, vec![cell((900, 900), 100)]),
            player(4, vec![cell((901, 900), 30)]),
        ],
        vec![],
    );
    assert!(g.eat(&reaches, &swallows));
    let ids: Vec<u64> = g.players.iter().map(|p| p.id).collect();
    assert_eq!(ids, vec![2, 3]);
    assert!(g.players.iter().all(|p| !p.ragarmen.is_empty()));
}

#[test]
fn eat_stops_where_a_cell_cannot_hold_a_pellet() {
    let mut g = game(vec![player(1, vec![cell((0, 0), 4_000_000_000)])], vec![pellet((0, 0), 300_000_000)]);
    let before = total_mass(&g);
    assert!(!g.eat(&|_: &Food, _: &RagarMan| true, &swallows));
    assert_eq!(total_mass(&g), before);
    assert_eq!(g.food.len(), 1);
    assert_eq!(g.total_food, 1);
}

#[test]
fn eat_stops_where_a_cell_cannot_hold_its_prey() {
    let mut g = game(vec![player(1, vec![cell((0, 0), 4_290_000_000)]), player(2, vec![cell((0, 0), 10_000_000)])], vec![]);
    let before = total_mass(&g);
    assert!(!g.eat(&reaches, &|_: &RagarMan, _: &RagarMan| true));
    assert_eq!(total_mass(&g), before);
    assert_eq!(g.players.len(), 2);
}

#[test]
fn eat_plays_on_when_all_mass_together_exceeds_32_bits() {
    let players: Vec<Player> = (0..121u64).map(|k| player(k, vec![cell((k as i64 * 9000, 0), 35_700_000)])).collect();
    let mut g = game(players, vec![]);
    assert!(total_mass(&g) > u32::MAX as u64);
    assert!(g.eat(&reaches, &swallows));
    assert_eq!(g.players.len(), 121);
}
