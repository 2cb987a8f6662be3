use snake_core::board::{Board, Direction, Position};

fn board() -> Board {
    Board::new(400, 400, 8).unwrap()
}

#[test]
fn new_keeps_dimensions() {
    let b = board();
    assert_eq!(b.half_width(), 400);
    assert_eq!(b.half_height(), 400);
    assert_eq!(b.cell_size(), 8);
}

#[test]
fn new_refuses_zero_cell() {
    assert!(Board::new(400, 400, 0).is_none());
}

#[test]
fn new_refuses_zero_extent() {
    assert!(Board::new(0, 400, 8).is_none());
    assert!(Board::new(400, 0, 8).is_none());
}

#[test]
fn new_refuses_extent_not_above_cell() {
    assert!(Board::new(8, 400, 8).is_none());
    assert!(Board::new(400, 8, 8).is_none());
    assert!(Board::new(9, 9, 8).is_some());
}

#[test]
fn from_size_halves_the_extents() {
    let b = Board::from_size(800, 600, 8).unwrap();
    assert_eq!(b.half_width(), 400);
    assert_eq!(b.half_height(), 300);
    assert!(Board::from_size(16, 600, 8).is_none());
}

#[test]
fn contains_is_strict_on_both_axes() {
    let b = board();
    assert!(b.contains(Position::new(0, 0)));
    assert!(b.contains(Position::new(392, -392)));
    assert!(b.contains(Position::new(399, 399)));
    assert!(!b.contains(Position::new(400, 0)));
    assert!(!b.contains(Position::new(-400, 0)));
    assert!(!b.contains(Position::new(0, 400)));
    assert!(!b.contains(Position::new(0, -400)));
    assert!(!b.contains(Position::new(i64::MIN, 0)));
}

#[test]
fn step_moves_one_cell() {
    let b = board();
    let p = Position::new(16, -24);
    assert_eq!(b.step(p, Direction::Up), Position::new(16, -16));
    assert_eq!(b.step(p, Direction::Down), Position::new(16, -32));
    assert_eq!(b.step(p, Direction::Left), Position::new(8, -24));
    assert_eq!(b.step(p, Direction::Right), Position::new(24, -24));
}

#[test]
fn opposite_pairs() {
    assert_eq!(Direction::Up.opposite(), Direction::Down);
    assert_eq!(Direction::Down.opposite(), Direction::Up);
    assert_eq!(Direction::Left.opposite(), Direction::Right);
    assert_eq!(Direction::Right.opposite(), Direction::Left);
}

#[test]
fn snap_rounds_up_to_the_grid() {
    let b = board();
    assert_eq!(b.snap_to_grid(0), 0);
    assert_eq!(b.snap_to_grid(3), 8);
    assert_eq!(b.snap_to_grid(8), 8);
    assert_eq!(b.snap_to_grid(9), 16);
    assert_eq!(b.snap_to_grid(-3), 0);
    assert_eq!(b.snap_to_grid(-8), -8);
    assert_eq!(b.snap_to_grid(-9), -8);
    assert_eq!(b.snap_to_grid(-17), -16);
}

#[test]
fn grid_position_snaps_both_axes() {
    let b = board();
    assert_eq!(b.grid_position(-3, 13), Position::new(0, 16));
    assert_eq!(b.grid_position(-100, 40), Position::new(-96, 40));
}

#[test]
fn is_on_grid_checks_both_axes() {
    let b = board();
    assert!(b.is_on_grid(Position::new(-16, 8)));
    assert!(!b.is_on_grid(Position::new(-15, 8)));
    assert!(!b.is_on_grid(Position::new(16, 4)));
}

#[test]
fn random_positions_are_on_grid_and_inside() {
    let b = board();
    let mut xs = Vec::new();
    for _ in 0..300 {
        let p = b.random_grid_position(8);
        assert!(b.is_on_grid(p));
        assert!(b.contains(p));
        assert!(p.x >= -392 && p.x <= 392);
        assert!(p.y >= -392 && p.y <= 392);
        xs.push(p.x);
    }
    xs.sort();
    xs.dedup();
    assert!(xs.len() > 1);
}

#[test]
fn random_positions_on_smallest_board() {
    let b = Board::new(9, 9, 8).unwrap();
    for _ in 0..50 {
        assert_eq!(b.random_grid_position(8), Position::new(0, 0));
    }
}
