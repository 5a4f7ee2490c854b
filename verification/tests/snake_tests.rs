use snek::game::{GameObject, GamePos};
use snek::snake::{Direction, MoveSnakeResult, Snake};

const GRID: (i32, i32) = (20, 20);

#[test]
fn single_cell_snake_accepts_all_directions() {
    for requested in [Direction::Left, Direction::Right, Direction::Up, Direction::Down] {
        let mut snake = Snake::new(GamePos(5, 5));
        snake.set_direction(requested);
        assert_eq!(snake.current_direction(), requested);
    }
}

#[test]
fn long_snake_rejects_exact_reversal() {
    let mut snake = Snake::new(GamePos(5, 5));
    snake.mark_pending_growth();
    assert!(matches!(snake.move_snake(GRID), MoveSnakeResult::Moved));
    assert_eq!(snake.cells().len(), 2);
    assert_eq!(snake.current_direction(), Direction::Right);
    snake.set_direction(Direction::Left);
    assert_eq!(snake.current_direction(), Direction::Right);
    snake.set_direction(Direction::Up);
    assert_eq!(snake.current_direction(), Direction::Up);
    snake.set_direction(Direction::Down);
    assert_eq!(snake.current_direction(), Direction::Up);
}

#[test]
fn moved_step_keeps_length_without_growth() {
    let mut snake = Snake::new(GamePos(5, 5));
    assert!(matches!(snake.move_snake(GRID), MoveSnakeResult::Moved));
    assert_eq!(snake.cells().len(), 1);
    assert_eq!(snake.cells()[0], GamePos(6, 5));
}

#[test]
fn moved_step_grows_by_one_with_pending_growth() {
    let mut snake = Snake::new(GamePos(5, 5));
    snake.mark_pending_growth();
    assert!(matches!(snake.move_snake(GRID), MoveSnakeResult::Moved));
    assert_eq!(snake.cells().len(), 2);
    assert_eq!(snake.cells()[0], GamePos(6, 5));
    assert_eq!(snake.cells()[1], GamePos(5, 5));
}

#[test]
fn occupies_exactly_the_body_cells() {
    let mut snake = Snake::new(GamePos(5, 5));
    snake.mark_pending_growth();
    snake.move_snake(GRID);
    assert!(snake.would_collide(GamePos(5, 5)));
    assert!(snake.would_collide(GamePos(6, 5)));
    assert!(!snake.would_collide(GamePos(7, 5)));
    assert!(!snake.would_collide(GamePos(5, 6)));
    assert!(!snake.would_collide(GamePos(0, 0)));
}

#[test]
fn stepping_off_left_edge_is_game_over() {
    let mut snake = Snake::new(GamePos(0, 5));
    snake.set_direction(Direction::Left);
    assert!(matches!(snake.move_snake(GRID), MoveSnakeResult::GameOver));
}

#[test]
fn stepping_off_right_edge_is_game_over() {
    let mut snake = Snake::new(GamePos(19, 5));
    assert!(matches!(snake.move_snake(GRID), MoveSnakeResult::GameOver));
}

#[test]
fn stepping_off_top_edge_is_game_over() {
    let mut snake = Snake::new(GamePos(5, 0));
    snake.set_direction(Direction::Up);
    assert!(matches!(snake.move_snake(GRID), MoveSnakeResult::GameOver));
}

#[test]
fn stepping_off_bottom_edge_is_game_over() {
    let mut snake = Snake::new(GamePos(5, 19));
    snake.set_direction(Direction::Down);
    assert!(matches!(snake.move_snake(GRID), MoveSnakeResult::GameOver));
}

#[test]
fn revisiting_own_cell_is_game_over() {
    let mut snake = Snake::new(GamePos(5, 5));
    for _ in 0..4 {
        snake.mark_pending_growth();
        assert!(matches!(snake.move_snake(GRID), MoveSnakeResult::Moved));
    }
    assert_eq!(snake.cells().len(), 5);
    snake.set_direction(Direction::Down);
    snake.mark_pending_growth();
    assert!(matches!(snake.move_snake(GRID), MoveSnakeResult::Moved));
    snake.set_direction(Direction::Left);
    snake.mark_pending_growth();
    assert!(matches!(snake.move_snake(GRID), MoveSnakeResult::Moved));
    snake.set_direction(Direction::Up);
    let before = snake.cells().clone();
    assert!(matches!(snake.move_snake(GRID), MoveSnakeResult::GameOver));
    assert_eq!(snake.cells(), &before);
}

#[test]
fn moving_into_free_cell_in_bounds_is_moved() {
    let mut snake = Snake::new(GamePos(5, 5));
    snake.set_direction(Direction::Down);
    assert!(matches!(snake.move_snake(GRID), MoveSnakeResult::Moved));
    assert_eq!(snake.cells()[0], GamePos(5, 6));
}

#[test]
fn tail_cell_can_be_reentered_without_growth() {
    // without pending growth the tail vacates its cell in the same step,
    // so a length-two snake may turn back onto it
    let mut snake = Snake::new(GamePos(5, 5));
    snake.mark_pending_growth();
    assert!(matches!(snake.move_snake(GRID), MoveSnakeResult::Moved));
    snake.set_direction(Direction::Down);
    assert!(matches!(snake.move_snake(GRID), MoveSnakeResult::Moved));
    snake.set_direction(Direction::Left);
    assert!(matches!(snake.move_snake(GRID), MoveSnakeResult::Moved));
    assert_eq!(snake.cells()[0], GamePos(5, 6));
}

#[test]
fn length_one_snake_steps_off_at_column_zero_moving_left() {
    let mut snake = Snake::new(GamePos(0, 5));
    snake.set_direction(Direction::Left);
    let result = snake.move_snake(GRID);
    assert!(matches!(result, MoveSnakeResult::GameOver));
    assert_eq!(snake.cells().len(), 1);
    assert_eq!(snake.cells()[0], GamePos(0, 5));
}
