use snork::env::Vec2D;
use snork::game::{Game, SnakeData};
use snork::setup::{food_candidates, grow_hazard, hazard_can_grow, start_positions};

#[test]
fn start_positions_in_corners_and_on_edges() {
    let c = start_positions(11, 11, true);
    assert_eq!(c, [Vec2D::new(1, 1), Vec2D::new(9, 1), Vec2D::new(9, 9), Vec2D::new(1, 9)]);
    let e = start_positions(11, 7, false);
    assert_eq!(e, [Vec2D::new(5, 1), Vec2D::new(9, 3), Vec2D::new(5, 5), Vec2D::new(1, 3)]);
}

#[test]
fn food_goes_next_to_a_start_on_the_border() {
    let p = Vec2D::new(1, 1);
    let game = Game::new(11, 11, &[SnakeData::new(100, vec![p, p, p])], &[]);
    let mut c = food_candidates(&game, p);
    c.sort_by_key(|q| (q.x, q.y));
    assert_eq!(c, vec![Vec2D::new(0, 2), Vec2D::new(2, 0)]);

    let p = Vec2D::new(5, 1);
    let game = Game::new(11, 11, &[SnakeData::new(100, vec![p, p, p])], &[]);
    let mut c = food_candidates(&game, p);
    c.sort_by_key(|q| (q.x, q.y));
    assert_eq!(c, vec![Vec2D::new(4, 0), Vec2D::new(6, 0)]);
}

#[test]
fn hazard_grows_line_by_line() {
    let p = Vec2D::new(2, 2);
    let mut game = Game::new(5, 4, &[SnakeData::new(100, vec![p, p])], &[]);
    let mut insets = [0usize; 4];
    assert!(hazard_can_grow(5, 4, &insets));
    grow_hazard(&mut game.grid, &mut insets, 0);
    assert_eq!(insets, [1, 0, 0, 0]);
    for x in 0..5 {
        assert!(game.grid.get(Vec2D::new(x, 0)).hazard);
        assert!(!game.grid.get(Vec2D::new(x, 1)).hazard);
    }
    grow_hazard(&mut game.grid, &mut insets, 3);
    assert_eq!(insets, [1, 0, 0, 1]);
    for y in 0..4 {
        assert!(game.grid.get(Vec2D::new(4, y)).hazard);
        assert!(!game.grid.get(Vec2D::new(3, y)).hazard || y == 0);
    }
    grow_hazard(&mut game.grid, &mut insets, 2);
    grow_hazard(&mut game.grid, &mut insets, 2);
    assert!(game.grid.get(Vec2D::new(1, 2)).hazard);
    assert!(!game.grid.get(Vec2D::new(1, 1)).hazard);
    assert!(hazard_can_grow(5, 4, &insets));
    grow_hazard(&mut game.grid, &mut insets, 0);
    assert!(!hazard_can_grow(5, 4, &insets));
}
