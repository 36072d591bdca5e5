use snork::agent::{
    after_depth, argmax, choose_move, fallback_move, step_fast, tree_search, use_fast_path, DepthAction,
    Deepening, Random,
};
use snork::env::{Direction, Vec2D};
use snork::game::{Game, SnakeData};
use snork::search::{max_n, Heuristic, Standard, LOSS, WIN};

fn v(x: i16, y: i16) -> Vec2D {
    Vec2D::new(x, y)
}

const LENGTH: Standard = Standard;

/// Snake 0 at (0,0) heading left; only Up is free.
fn cornered() -> Game {
    let snakes = [
        SnakeData::new(100, vec![v(0, 0), v(1, 0), v(2, 0)]),
        SnakeData::new(100, vec![v(8, 8), v(8, 7), v(8, 6)]),
    ];
    Game::new(11, 11, &snakes, &[])
}

#[test]
fn max_n_scores_illegal_moves_as_loss() {
    let game = cornered();
    for depth in 1..4 {
        let r = max_n(&game, depth, &LENGTH);
        assert!(r[0] > LOSS, "{r:?}");
        assert_eq!(r[1], LOSS);
        assert_eq!(r[2], LOSS);
        assert_eq!(r[3], LOSS);
        assert!(r.iter().all(|&x| LOSS <= x && x <= WIN));
    }
}

#[test]
fn single_legal_move_is_selected() {
    let game = cornered();
    assert_eq!(step_fast(&LENGTH, &game), Direction::Up);
    for depth in 1..4 {
        let (dir, value) = tree_search(&LENGTH, &game, depth);
        assert_eq!(dir, Direction::Up);
        assert!(value > LOSS);
    }
}

#[test]
fn all_losses_fall_back_to_a_legal_move() {
    let game = cornered();
    assert_eq!(choose_move(&[LOSS; 4], &game), Direction::Up);
    let snakes = [
        SnakeData::new(100, vec![v(5, 5), v(4, 5)]),
        SnakeData::new(100, vec![v(8, 8), v(8, 7)]),
    ];
    let game = Game::new(11, 11, &snakes, &[]);
    assert_eq!(fallback_move(&game), Direction::Up);
    assert_eq!(choose_move(&[LOSS; 4], &game), Direction::Up);
    assert_eq!(choose_move(&[LOSS, 3, 7, 7], &game), Direction::Down);
}

#[test]
fn dead_root_gets_fixed_default() {
    let snakes = [
        SnakeData::new(100, vec![v(0, 0), v(1, 0), v(2, 0)]),
        SnakeData::new(100, vec![v(0, 1), v(0, 2), v(0, 3)]),
    ];
    let game = Game::new(11, 11, &snakes, &[]);
    assert_eq!(max_n(&game, 2, &LENGTH), [LOSS; 4]);
    assert_eq!(step_fast(&LENGTH, &game), Direction::Up);
}

#[test]
fn sole_survivor_is_a_win() {
    let snakes = [SnakeData::new(100, vec![v(5, 5), v(5, 4)])];
    let game = Game::new(11, 11, &snakes, &[]);
    let r = max_n(&game, 1, &LENGTH);
    assert_eq!(r[0], WIN);
    assert_eq!(r[2], LOSS);
}

#[test]
fn search_avoids_a_losing_collision() {
    // snake 0 is shorter; moving Right meets snake 1's head at (5,8)
    let snakes = [
        SnakeData::new(100, vec![v(4, 8), v(4, 7), v(4, 6)]),
        SnakeData::new(100, vec![v(6, 8), v(6, 7), v(6, 6), v(6, 5)]),
    ];
    let game = Game::new(11, 11, &snakes, &[]);
    let r = max_n(&game, 1, &LENGTH);
    assert_eq!(r[1], LOSS);
    assert_ne!(step_fast(&LENGTH, &game), Direction::Right);
}

#[test]
fn argmax_takes_the_first_largest() {
    assert_eq!(argmax(&[1, 5, 5, 2]), 1);
    assert_eq!(argmax(&[LOSS, LOSS, LOSS, LOSS]), 0);
    assert_eq!(argmax(&[0, 0, 0, 9]), 3);
}

#[test]
fn fast_path_threshold() {
    assert!(use_fast_path(200, 50));
    assert!(!use_fast_path(200, 49));
    assert!(use_fast_path(100, 500));
    assert!(!use_fast_path(500, 0));
}

#[test]
fn deepening_schedule() {
    assert_eq!(after_depth(1, LOSS), DepthAction::Abandon);
    assert_eq!(after_depth(1, WIN), DepthAction::Stop);
    assert_eq!(after_depth(1, 0), DepthAction::Deepen);
    assert_eq!(after_depth(7, 0), DepthAction::Stop);
}

#[test]
fn deepening_keeps_the_deepest_published_direction() {
    let game = cornered();
    let mut d = Deepening::new();
    assert_eq!(d.answer(&game), Direction::Up);
    d.record(Direction::Left, 5);
    assert_eq!(d.depth, 2);
    d.record(Direction::Right, 6);
    assert_eq!(d.best, Some(Direction::Right));
    assert_eq!(d.best_depth, 2);
    d.record(Direction::Down, LOSS);
    assert!(d.finished);
    assert_eq!(d.answer(&game), Direction::Right);

    let mut d = Deepening::new();
    while !d.finished {
        let depth = d.depth;
        d.record(Direction::Left, depth as i64);
    }
    assert_eq!(d.best_depth, 7);
    assert_eq!(d.answer(&game), Direction::Left);
}

#[test]
fn random_agent_moves() {
    let mut r = Random::default();
    for _ in 0..20 {
        let d = r.step();
        assert!(d.index() < 4);
    }
}

#[test]
fn standard_heuristic_scores_length_then_health() {
    let snakes = [
        SnakeData::new(80, vec![v(4, 8), v(4, 7), v(4, 6)]),
        SnakeData::new(100, vec![v(6, 8), v(6, 7)]),
    ];
    let game = Game::new(11, 11, &snakes, &[]);
    assert_eq!(Standard.eval(&game, 0), 110);
    assert_eq!(Standard.eval(&game, 1), 120);
    assert_eq!(Standard.eval(&game, 2), -1);
}

#[test]
fn search_next_matches_standalone_searches() {
    let snakes = [
        SnakeData::new(100, vec![v(4, 8), v(4, 7), v(4, 6)]),
        SnakeData::new(90, vec![v(6, 2), v(6, 3), v(6, 4)]),
    ];
    let game = Game::new(11, 11, &snakes, &[v(4, 9)]);
    let mut d = Deepening::new();
    let mut completed = 0;
    while !d.finished && completed < 3 {
        let depth = d.depth;
        d.search_next(&LENGTH, &game);
        completed += 1;
        let (dir, value) = tree_search(&LENGTH, &game, depth);
        if value > LOSS {
            assert_eq!(d.best, Some(dir));
            assert_eq!(d.best_depth, depth);
            assert_eq!(d.answer(&game), dir);
        }
    }
    assert!(game.valid_moves(0)[d.answer(&game).index()]);
}
