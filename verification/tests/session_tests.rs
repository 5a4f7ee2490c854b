use snek::game::{Game, GameInput, GamePos, GameState};
use snek::highscore::{HighscoreError, StoreRead};
use snek::snake::Direction;

// at five updates per second one tick spans 200 000 microseconds
const TICK: u64 = 200_000;

fn playing_game(cols: i32, rows: i32) -> Game {
    let mut game = Game::new((cols, rows), 5, 0);
    game.handle_input(GameInput::Begin);
    assert_eq!(game.state(), GameState::Playing);
    game
}

#[test]
fn three_ticks_right_then_eat_and_grow() {
    let store = StoreRead::Missing;
    let mut game = playing_game(20, 20);
    assert_eq!(game.snake_cells().len(), 1);
    assert_eq!(game.snake_cells()[0], GamePos(10, 10));
    // the very first update releases a tick immediately
    assert_eq!(game.update(0, &store), Ok(None));
    assert_eq!(game.update(TICK, &store), Ok(None));
    assert_eq!(game.update(TICK, &store), Ok(None));
    assert_eq!(game.snake_cells().len(), 1);
    assert_eq!(game.snake_cells()[0], GamePos(13, 10));
    assert_eq!(game.score(), 0);
    // the head's own cell is no lawful food position; the next cell is
    assert!(!game.place_food(GamePos(13, 10)));
    assert!(game.place_food(GamePos(14, 10)));
    assert_eq!(game.update(TICK, &store), Ok(None));
    assert_eq!(game.score(), 1);
    assert_eq!(game.snake_cells().len(), 1);
    assert_eq!(game.update(TICK, &store), Ok(None));
    assert_eq!(game.snake_cells().len(), 2);
}

#[test]
fn updates_below_the_interval_release_no_tick() {
    let store = StoreRead::Missing;
    let mut game = playing_game(20, 20);
    assert_eq!(game.update(0, &store), Ok(None));
    assert_eq!(game.snake_cells()[0], GamePos(11, 10));
    assert_eq!(game.update(100_000, &store), Ok(None));
    assert_eq!(game.snake_cells()[0], GamePos(11, 10));
    assert_eq!(game.update(100_000, &store), Ok(None));
    assert_eq!(game.snake_cells()[0], GamePos(12, 10));
}

#[test]
fn wall_hit_ends_the_session_and_score_is_registered() {
    let store = StoreRead::Missing;
    let mut game = playing_game(3, 1);
    assert_eq!(game.snake_cells()[0], GamePos(1, 0));
    assert!(game.place_food(GamePos(2, 0)));
    assert_eq!(game.update(0, &store), Ok(None));
    assert_eq!(game.score(), 1);
    assert_eq!(game.state(), GameState::Playing);
    assert_eq!(game.update(TICK, &store), Ok(None));
    assert_eq!(game.state(), GameState::GameOver);
    assert_eq!(game.score(), 1);
    // the game-over screen stays up for three seconds of ticks
    for _ in 0..15 {
        assert_eq!(game.update(TICK, &store), Ok(None));
        assert_eq!(game.state(), GameState::GameOver);
    }
    // the tick that completes the delay asks the caller to persist the score
    assert_eq!(game.update(TICK, &store), Ok(Some(1)));
    assert_eq!(game.state(), GameState::ToBegin);
    assert_eq!(game.score(), 0);
    assert_eq!(game.highscore(&store), Ok(1));
}

#[test]
fn no_new_highscore_is_not_persisted() {
    let store = StoreRead::Content(b"5".to_vec());
    let mut game = playing_game(3, 1);
    assert_eq!(game.update(0, &store), Ok(None));
    assert_eq!(game.update(TICK, &store), Ok(None));
    assert_eq!(game.state(), GameState::GameOver);
    assert_eq!(game.score(), 0);
    for _ in 0..15 {
        assert_eq!(game.update(TICK, &store), Ok(None));
    }
    // a score of zero does not beat the stored five: nothing to write
    assert_eq!(game.update(TICK, &store), Ok(None));
    assert_eq!(game.state(), GameState::ToBegin);
    assert_eq!(game.highscore(&store), Ok(5));
}

#[test]
fn persistence_failure_is_reported_not_fatal() {
    let store = StoreRead::Unreadable;
    let mut game = playing_game(3, 1);
    assert_eq!(game.update(0, &store), Ok(None));
    assert_eq!(game.update(TICK, &store), Ok(None));
    for _ in 0..15 {
        assert_eq!(game.update(TICK, &store), Ok(None));
    }
    assert_eq!(game.update(TICK, &store), Err(HighscoreError::IoError));
    // gameplay goes on: a fresh game can begin
    assert_eq!(game.state(), GameState::ToBegin);
    game.handle_input(GameInput::Begin);
    assert_eq!(game.state(), GameState::Playing);
}

#[test]
fn begin_stocks_food_on_the_only_free_cell() {
    let mut game = Game::new((2, 1), 5, 1);
    game.handle_input(GameInput::Begin);
    assert_eq!(game.snake_cells(), &vec![GamePos(1, 0)]);
    assert_eq!(game.food_positions(), vec![GamePos(0, 0)]);
}

#[test]
fn begin_resets_snake_food_and_score() {
    let store = StoreRead::Missing;
    let mut game = playing_game(3, 1);
    assert!(game.place_food(GamePos(2, 0)));
    assert_eq!(game.update(0, &store), Ok(None));
    assert_eq!(game.update(TICK, &store), Ok(None));
    assert_eq!(game.state(), GameState::GameOver);
    for _ in 0..16 {
        game.update(TICK, &store).unwrap();
    }
    assert_eq!(game.state(), GameState::ToBegin);
    game.handle_input(GameInput::Begin);
    assert_eq!(game.state(), GameState::Playing);
    assert_eq!(game.snake_cells(), &vec![GamePos(1, 0)]);
    assert_eq!(game.food_positions(), vec![]);
    assert_eq!(game.score(), 0);
    assert_eq!(game.direction(), Direction::Right);
}

#[test]
fn turn_input_during_play_respects_reversal_rule() {
    let store = StoreRead::Missing;
    let mut game = playing_game(20, 20);
    game.handle_input(GameInput::Turn(Direction::Down));
    assert_eq!(game.direction(), Direction::Down);
    assert_eq!(game.update(0, &store), Ok(None));
    assert_eq!(game.snake_cells()[0], GamePos(10, 11));
    // a single-cell snake may reverse outright
    game.handle_input(GameInput::Turn(Direction::Up));
    assert_eq!(game.direction(), Direction::Up);
}

#[test]
fn input_is_ignored_outside_its_phase() {
    let store = StoreRead::Missing;
    let mut game = Game::new((3, 1), 5, 0);
    // turns mean nothing on the waiting screen
    game.handle_input(GameInput::Turn(Direction::Down));
    assert_eq!(game.state(), GameState::ToBegin);
    assert_eq!(game.direction(), Direction::Right);
    game.handle_input(GameInput::Begin);
    // begin means nothing during play
    game.handle_input(GameInput::Begin);
    assert_eq!(game.state(), GameState::Playing);
    assert_eq!(game.update(0, &store), Ok(None));
    assert_eq!(game.update(TICK, &store), Ok(None));
    assert_eq!(game.state(), GameState::GameOver);
    // all input is ignored on the game-over screen
    game.handle_input(GameInput::Turn(Direction::Down));
    assert_eq!(game.direction(), Direction::Right);
    game.handle_input(GameInput::Begin);
    assert_eq!(game.state(), GameState::GameOver);
}

#[test]
fn place_food_rejects_taken_cells() {
    let mut game = playing_game(20, 20);
    assert!(game.place_food(GamePos(3, 3)));
    assert!(!game.place_food(GamePos(3, 3)));
    assert!(!game.place_food(GamePos(10, 10)));
    assert!(!game.place_food(GamePos(20, 0)));
    assert!(!game.place_food(GamePos(-1, 0)));
    assert_eq!(game.food_positions(), vec![GamePos(3, 3)]);
}

#[test]
fn restocked_food_lands_on_a_free_cell() {
    let store = StoreRead::Missing;
    let mut game = playing_game(3, 1);
    assert!(game.place_food(GamePos(2, 0)));
    assert_eq!(game.update(0, &store), Ok(None));
    // the eaten food was replaced somewhere off the snake, on the grid
    let foods = game.food_positions();
    assert_eq!(foods.len(), 1);
    let food = foods[0];
    assert!(food.0 >= 0 && food.0 < 3 && food.1 == 0);
    assert_ne!(food, GamePos(2, 0));
}
