use snake_core::board::{Board, Direction, Position};
use snake_core::engine::{GameEngine, GameStatus};

fn p(x: i64, y: i64) -> Position {
    Position::new(x, y)
}

fn engine() -> GameEngine {
    GameEngine::new(Board::new(400, 400, 8).unwrap())
}

/// Ticks with the food parked where the snake will not reach it.
fn tick_without_food(e: &mut GameEngine) -> GameStatus {
    assert!(e.place_food(p(-200, -200)));
    e.advance()
}

/// Ticks with the food placed on the cell the head moves to.
fn tick_onto_food(e: &mut GameEngine, next_head: Position) -> GameStatus {
    assert!(e.place_food(next_head));
    e.advance()
}

#[test]
fn fresh_game() {
    let e = engine();
    let (segments, food, status) = e.state();
    assert_eq!(segments, vec![p(0, 0)]);
    assert_eq!(status, GameStatus::Running);
    assert_eq!(e.direction(), Direction::Right);
    assert_eq!(e.pending_direction(), Direction::Right);
    assert_eq!(food, p(32, 16));
    assert_eq!(e.food(), food);
}

#[test]
fn first_food_on_small_board_avoids_the_snake() {
    // Food four cells right does not fit: it is drawn among the nine cells
    // {-8, 0, 8} x {-8, 0, 8}, and never under the head.
    for _ in 0..50 {
        let e = GameEngine::new(Board::new(17, 17, 8).unwrap());
        let food = e.food();
        assert_ne!(food, p(0, 0));
        assert!(food.x.abs() <= 8 && food.y.abs() <= 8);
        assert!(e.board().is_on_grid(food));
    }
}

#[test]
fn first_food_on_one_cell_board_is_the_only_cell() {
    let e = GameEngine::new(Board::new(9, 9, 8).unwrap());
    assert_eq!(e.food(), p(0, 0));
}

#[test]
fn single_step_right_without_food() {
    let mut e = engine();
    assert_eq!(e.food(), p(32, 16));
    assert_eq!(e.advance(), GameStatus::Running);
    assert_eq!(e.segments(), &vec![p(8, 0)]);
    assert_eq!(e.status(), GameStatus::Running);
    assert_eq!(e.food(), p(32, 16));
}

#[test]
fn single_step_onto_food_grows() {
    let mut e = engine();
    assert!(e.place_food(p(8, 0)));
    assert_eq!(e.advance(), GameStatus::Running);
    let (segments, food, status) = e.state();
    assert_eq!(segments.len(), 2);
    assert_eq!(segments, vec![p(8, 0), p(16, 0)]);
    assert_eq!(status, GameStatus::Running);
    assert!(!segments.contains(&food));
    assert!(e.board().is_on_grid(food));
    assert!(e.board().contains(food));
}

#[test]
fn tight_turn_into_body_ends_game() {
    let mut e = engine();
    assert_eq!(tick_onto_food(&mut e, p(8, 0)), GameStatus::Running);
    assert_eq!(tick_without_food(&mut e), GameStatus::Running);
    assert_eq!(tick_onto_food(&mut e, p(24, 0)), GameStatus::Running);
    assert_eq!(tick_onto_food(&mut e, p(32, 0)), GameStatus::Running);
    assert_eq!(tick_onto_food(&mut e, p(40, 0)), GameStatus::Running);
    assert_eq!(
        e.segments(),
        &vec![p(40, 0), p(32, 0), p(24, 0), p(16, 0), p(24, 0)]
    );
    e.set_direction(Direction::Up);
    assert_eq!(tick_without_food(&mut e), GameStatus::Running);
    e.set_direction(Direction::Left);
    assert_eq!(tick_without_food(&mut e), GameStatus::Running);
    e.set_direction(Direction::Down);
    assert_eq!(tick_without_food(&mut e), GameStatus::Over);
    assert_eq!(
        e.segments(),
        &vec![p(32, 0), p(32, 8), p(40, 8), p(40, 0), p(32, 0)]
    );
    assert_eq!(e.advance(), GameStatus::Over);
}

#[test]
fn reaching_right_edge_ends_game() {
    let mut e = engine();
    for _ in 0..49 {
        assert_eq!(tick_without_food(&mut e), GameStatus::Running);
    }
    assert_eq!(e.segments(), &vec![p(392, 0)]);
    assert_eq!(tick_without_food(&mut e), GameStatus::Over);
    assert_eq!(e.segments(), &vec![p(400, 0)]);
    assert_eq!(e.status(), GameStatus::Over);
}

#[test]
fn reaching_bottom_edge_ends_game() {
    let mut e = engine();
    e.set_direction(Direction::Down);
    for _ in 0..49 {
        assert_eq!(tick_without_food(&mut e), GameStatus::Running);
    }
    assert_eq!(e.segments(), &vec![p(0, -392)]);
    assert_eq!(tick_without_food(&mut e), GameStatus::Over);
}

#[test]
fn reversal_rejected_for_long_snake() {
    let mut e = engine();
    assert_eq!(tick_onto_food(&mut e, p(8, 0)), GameStatus::Running);
    assert_eq!(tick_without_food(&mut e), GameStatus::Running);
    assert_eq!(e.segments(), &vec![p(16, 0), p(8, 0)]);
    e.set_direction(Direction::Left);
    assert_eq!(e.pending_direction(), Direction::Right);
    assert_eq!(tick_without_food(&mut e), GameStatus::Running);
    assert_eq!(e.direction(), Direction::Right);
    assert_eq!(e.segments(), &vec![p(24, 0), p(16, 0)]);
}

#[test]
fn reversal_allowed_for_single_segment() {
    let mut e = engine();
    e.set_direction(Direction::Left);
    assert_eq!(e.pending_direction(), Direction::Left);
    assert_eq!(tick_without_food(&mut e), GameStatus::Running);
    assert_eq!(e.segments(), &vec![p(-8, 0)]);
    assert_eq!(e.direction(), Direction::Left);
}

#[test]
fn last_command_before_tick_wins() {
    let mut e = engine();
    assert_eq!(tick_onto_food(&mut e, p(8, 0)), GameStatus::Running);
    e.set_direction(Direction::Up);
    e.set_direction(Direction::Down);
    assert_eq!(e.pending_direction(), Direction::Down);
    assert_eq!(tick_without_food(&mut e), GameStatus::Running);
    assert_eq!(e.segments(), &vec![p(8, -8), p(8, 0)]);
}

#[test]
fn commands_ignored_after_game_over() {
    let mut e = engine();
    e.set_direction(Direction::Up);
    for _ in 0..50 {
        tick_without_food(&mut e);
    }
    assert_eq!(e.status(), GameStatus::Over);
    let before = e.state();
    e.set_direction(Direction::Left);
    assert_eq!(e.pending_direction(), Direction::Up);
    assert_eq!(e.advance(), GameStatus::Over);
    assert_eq!(e.state(), before);
}

#[test]
fn place_food_refusals() {
    let mut e = engine();
    assert!(e.place_food(p(16, 16)));
    assert!(!e.place_food(p(0, 0)));
    assert!(!e.place_food(p(3, 8)));
    assert!(!e.place_food(p(400, 0)));
    assert!(!e.place_food(p(0, -400)));
    assert_eq!(e.food(), p(16, 16));
}

#[test]
fn length_never_shrinks_over_a_run() {
    let mut e = engine();
    let turns = [Direction::Up, Direction::Left, Direction::Down, Direction::Right];
    let mut len = e.segments().len();
    for i in 0..40 {
        e.set_direction(turns[(i / 3) % 4]);
        let status = e.advance();
        let n = e.segments().len();
        assert!(n == len || n == len + 1);
        for s in e.segments() {
            assert_eq!(s.x % 8, 0);
            assert_eq!(s.y % 8, 0);
        }
        len = n;
        if status == GameStatus::Over {
            break;
        }
    }
}
