use snork::env::{Direction, Vec2D};
use snork::game::{Game, Outcome, SnakeData};
use snork::grid::CellKind;

use Direction::{Left, Right, Up};

fn v(x: i16, y: i16) -> Vec2D {
    Vec2D::new(x, y)
}

fn kind(game: &Game, x: i16, y: i16) -> CellKind {
    game.grid.get(v(x, y)).kind
}

fn two_snakes() -> [SnakeData; 2] {
    [
        SnakeData::new(100, vec![v(4, 8), v(4, 7), v(4, 6)]),
        SnakeData::new(100, vec![v(6, 8), v(6, 7), v(6, 6)]),
    ]
}

#[test]
fn game_step_test() {
    let snakes = two_snakes();
    let mut game = Game::new(11, 11, &snakes, &[]);
    game.step([Right, Right, Up, Up]);

    assert!(game.snake_is_alive(0));
    assert!(game.snake_is_alive(1));
    assert_eq!(kind(&game, 4, 6), CellKind::Free);
    assert_eq!(kind(&game, 5, 8), CellKind::Occupied);
    assert_eq!(kind(&game, 6, 6), CellKind::Free);
    assert_eq!(kind(&game, 7, 8), CellKind::Occupied);

    game.step([Right, Right, Up, Up]);
    assert!(!game.snake_is_alive(0));
    assert_eq!(kind(&game, 5, 8), CellKind::Free);
    assert!(game.snake_is_alive(1));
    assert_eq!(kind(&game, 8, 8), CellKind::Occupied);

    let mut game = Game::new(11, 11, &snakes, &[]);
    game.step([Right, Left, Up, Up]);
    assert!(!game.snake_is_alive(0));
    assert!(!game.snake_is_alive(1));
}

#[test]
fn equal_heads_collide_into_draw() {
    let snakes = two_snakes();
    let mut game = Game::new(11, 11, &snakes, &[]);
    assert_eq!(game.outcome(), Outcome::Ongoing);
    game.step([Right, Left, Up, Up]);
    for (x, y) in [(4, 6), (4, 7), (4, 8), (6, 6), (6, 7), (6, 8), (5, 8)] {
        assert_eq!(kind(&game, x, y), CellKind::Free);
    }
    assert_eq!(game.outcome(), Outcome::Draw);
}

#[test]
fn longer_snake_wins_head_to_head() {
    let snakes = [
        SnakeData::new(100, vec![v(4, 8), v(4, 7), v(4, 6), v(4, 5)]),
        SnakeData::new(100, vec![v(6, 8), v(6, 7), v(6, 6)]),
    ];
    let mut game = Game::new(11, 11, &snakes, &[]);
    game.step([Right, Left, Up, Up]);
    assert!(game.snake_is_alive(0));
    assert!(!game.snake_is_alive(1));
    assert_eq!(kind(&game, 5, 8), CellKind::Occupied);
    assert_eq!(kind(&game, 6, 8), CellKind::Free);
    assert_eq!(kind(&game, 4, 5), CellKind::Free);
    assert_eq!(game.outcome(), Outcome::Winner(0));
}

#[test]
fn eating_grows_and_restores_health() {
    let snakes = [
        SnakeData::new(1, vec![v(2, 2), v(2, 1), v(2, 0)]),
        SnakeData::new(50, vec![v(8, 8), v(8, 7), v(8, 6)]),
    ];
    let mut game = Game::new(11, 11, &snakes, &[v(3, 2)]);
    assert_eq!(kind(&game, 3, 2), CellKind::Food);
    game.step([Right, Up, Up, Up]);
    let s = &game.snakes[0];
    assert_eq!(s.health, 100);
    assert_eq!(s.body.len(), 4);
    assert_eq!(s.body, vec![v(2, 1), v(2, 1), v(2, 2), v(3, 2)]);
    assert_eq!(game.snakes[1].health, 49);
    assert_eq!(kind(&game, 3, 2), CellKind::Occupied);

    // the stacked tail stays put and keeps its cell
    game.step([Up, Up, Up, Up]);
    assert_eq!(game.snakes[0].body, vec![v(2, 1), v(2, 2), v(3, 2), v(3, 3)]);
    assert_eq!(kind(&game, 2, 1), CellKind::Occupied);
    game.step([Up, Up, Up, Up]);
    assert_eq!(kind(&game, 2, 1), CellKind::Free);
}

#[test]
fn last_health_point_without_food_starves() {
    let snakes = [
        SnakeData::new(1, vec![v(2, 2), v(2, 1), v(2, 0)]),
        SnakeData::new(50, vec![v(8, 8), v(8, 7), v(8, 6)]),
    ];
    let mut game = Game::new(11, 11, &snakes, &[]);
    game.step([Right, Up, Up, Up]);
    assert!(game.snake_is_alive(0));
    assert_eq!(game.snakes[0].health, 0);
    game.step([Right, Up, Up, Up]);
    assert!(!game.snake_is_alive(0));
    assert_eq!(kind(&game, 3, 2), CellKind::Free);
    assert_eq!(kind(&game, 4, 2), CellKind::Free);
    assert_eq!(game.outcome(), Outcome::Winner(1));
}

#[test]
fn leaving_the_board_eliminates() {
    let snakes = [
        SnakeData::new(100, vec![v(0, 5), v(1, 5), v(2, 5)]),
        SnakeData::new(100, vec![v(8, 8), v(8, 7), v(8, 6)]),
    ];
    let mut game = Game::new(11, 11, &snakes, &[]);
    game.step([Left, Up, Up, Up]);
    assert!(!game.snake_is_alive(0));
    assert_eq!(kind(&game, 1, 5), CellKind::Free);
    assert_eq!(game.snakes.len(), 1);
}

#[test]
fn entering_a_released_tail_is_legal() {
    // snake 1 chases the tail of snake 0
    let snakes = [
        SnakeData::new(100, vec![v(5, 7), v(5, 6), v(5, 5)]),
        SnakeData::new(100, vec![v(5, 4), v(5, 3)]),
    ];
    let mut game = Game::new(11, 11, &snakes, &[]);
    game.step([Up, Up, Up, Up]);
    assert!(game.snake_is_alive(0));
    assert!(game.snake_is_alive(1));
    assert_eq!(game.snakes[1].body, vec![v(5, 4), v(5, 5)]);
    assert_eq!(kind(&game, 5, 5), CellKind::Occupied);
    assert_eq!(kind(&game, 5, 3), CellKind::Free);
}

#[test]
fn valid_moves_of_a_cornered_snake() {
    let snakes = [
        SnakeData::new(100, vec![v(0, 0), v(1, 0), v(2, 0)]),
        SnakeData::new(100, vec![v(0, 1), v(0, 2), v(0, 3)]),
    ];
    let game = Game::new(11, 11, &snakes, &[]);
    assert_eq!(game.valid_moves(0), [false, false, false, false]);
    assert_eq!(game.valid_moves(1), [false, true, false, false]);
    assert_eq!(game.valid_moves(3), [false, false, false, false]);
}

#[test]
fn new_reverses_bodies_and_places_food() {
    let snakes = two_snakes();
    let game = Game::new(11, 11, &snakes, &[v(0, 0), v(10, 10)]);
    assert_eq!(game.snakes[0].id, 0);
    assert_eq!(game.snakes[1].id, 1);
    assert_eq!(game.snakes[0].body, vec![v(4, 6), v(4, 7), v(4, 8)]);
    assert_eq!(game.snakes[0].head(), v(4, 8));
    assert_eq!(kind(&game, 0, 0), CellKind::Food);
    assert_eq!(kind(&game, 10, 10), CellKind::Food);
    assert_eq!(kind(&game, 6, 7), CellKind::Occupied);
    assert_eq!(kind(&game, 5, 5), CellKind::Free);
    assert!(!game.grid.get(v(5, 5)).hazard);
    assert!(!game.snake_is_alive(2));
}

#[test]
fn outcome_winner_and_draw() {
    let snakes = [SnakeData::new(100, vec![v(0, 5), v(1, 5)])];
    let mut game = Game::new(11, 11, &snakes, &[]);
    assert_eq!(game.outcome(), Outcome::Winner(0));
    game.step([Left, Up, Up, Up]);
    assert_eq!(game.outcome(), Outcome::Draw);
    assert_eq!(kind(&game, 0, 5), CellKind::Free);
    assert_eq!(kind(&game, 1, 5), CellKind::Free);
}

#[test]
fn malformed_snapshots_are_rejected() {
    let snakes = two_snakes();
    assert!(snork::game::snapshot_is_valid(11, 11, &snakes, &[v(0, 0)]));
    assert!(!snork::game::snapshot_is_valid(11, 11, &snakes, &[v(11, 0)]));
    assert!(!snork::game::snapshot_is_valid(5, 5, &snakes, &[]));
    let short = [SnakeData::new(100, vec![v(1, 1)])];
    assert!(!snork::game::snapshot_is_valid(11, 11, &short, &[]));
    let sick = [SnakeData::new(101, vec![v(1, 1), v(1, 2)])];
    assert!(!snork::game::snapshot_is_valid(11, 11, &sick, &[]));
    assert!(!snork::game::snapshot_is_valid(40000, 11, &[], &[]));
}

#[test]
fn seen_by_exchanges_ids() {
    let snakes = two_snakes();
    let game = Game::new(11, 11, &snakes, &[]);
    let seen = game.seen_by(1);
    assert_eq!(seen.snakes[0].id, 1);
    assert_eq!(seen.snakes[1].id, 0);
    assert_eq!(seen.snakes[1].body, game.snakes[1].body);
    assert_eq!(seen.valid_moves(0), game.valid_moves(1));
}

fn occupancy_matches_bodies(game: &Game) {
    for x in 0..11 {
        for y in 0..11 {
            let in_body = game.snakes.iter().any(|s| s.body.contains(&v(x, y)));
            assert_eq!(kind(game, x, y) == CellKind::Occupied, in_body, "({x}, {y})");
        }
    }
}

#[test]
fn occupancy_follows_the_bodies_over_many_turns() {
    let snakes = [
        SnakeData::new(100, vec![v(1, 1), v(1, 1), v(1, 1)]),
        SnakeData::new(100, vec![v(9, 9), v(9, 9), v(9, 9)]),
        SnakeData::new(100, vec![v(1, 9), v(1, 9), v(1, 9)]),
        SnakeData::new(100, vec![v(9, 1), v(9, 1), v(9, 1)]),
    ];
    let mut game = Game::new(11, 11, &snakes, &[v(5, 5), v(2, 2), v(8, 8)]);
    occupancy_matches_bodies(&game);
    let plan = [Up, Right, Up, Right, Up, Right, Up, Right, Up, Right, Up, Right];
    for (t, &d) in plan.iter().enumerate() {
        let other = if t % 2 == 0 { Left } else { Up };
        game.step([d, other, Right, Up]);
        occupancy_matches_bodies(&game);
    }
}

#[test]
fn hazard_is_independent_of_the_kind() {
    let snakes = two_snakes();
    let mut game = Game::new(11, 11, &snakes, &[v(0, 0)]);
    game.grid.set_hazard(v(0, 0), true);
    game.grid.set_hazard(v(4, 8), true);
    assert!(game.grid.get(v(0, 0)).hazard);
    assert_eq!(kind(&game, 0, 0), CellKind::Food);
    assert_eq!(kind(&game, 4, 8), CellKind::Occupied);
    game.step([Right, Right, Up, Up]);
    assert!(game.grid.get(v(4, 8)).hazard);
    assert!(!game.grid.get(v(5, 8)).hazard);
}
