use snake_game::game::{Cue, Effects, Game, GameState, Input, MOVING_PERIOD, RESTART_TIME};
use snake_game::snake::Direction;

fn started() -> Game {
    let mut g = Game::new(15, 15, 0);
    let e = g.key_pressed(Input::Start);
    assert_eq!(e.cue, Some(Cue::Start));
    assert_eq!(g.state(), GameState::Playing);
    g
}

fn head(g: &Game) -> (i32, i32) {
    g.snake().head_position()
}

const QUIET: Effects = Effects { cue: None, new_high_score: None, ticked: false };

#[test]
fn new_game_waits_in_menu() {
    let mut g = Game::new(15, 15, 5);
    assert_eq!(g.state(), GameState::Menu);
    assert_eq!(g.food(), Some((6, 4)));
    assert_eq!(g.high_score(), 5);
    assert_eq!(head(&g), (4, 2));
    assert_eq!(g.key_pressed(Input::Down), QUIET);
    assert_eq!(g.key_pressed(Input::Pause), QUIET);
    assert_eq!(g.update(10 * MOVING_PERIOD), QUIET);
    assert_eq!(g.state(), GameState::Menu);
    assert_eq!(head(&g), (4, 2));
}

#[test]
fn down_then_left_scenario() {
    let mut g = started();
    assert_eq!(head(&g), (4, 2));
    assert_eq!(g.snake().head_direction(), Direction::Right);
    let e = g.key_pressed(Input::Down);
    assert!(e.ticked);
    assert_eq!(head(&g), (4, 3));
    assert_eq!(g.snake().head_direction(), Direction::Down);
    let e = g.key_pressed(Input::Left);
    assert!(e.ticked);
    assert_eq!(head(&g), (3, 3));
    assert_eq!(g.snake().head_direction(), Direction::Left);
    g.update(MOVING_PERIOD + 1);
    assert_eq!(head(&g), (2, 3));
    assert_eq!(g.state(), GameState::Playing);
}

#[test]
fn update_moves_only_past_the_period() {
    let mut g = started();
    assert!(!g.update(MOVING_PERIOD).ticked);
    assert_eq!(head(&g), (4, 2));
    assert!(g.update(1).ticked);
    assert_eq!(head(&g), (5, 2));
    assert!(!g.update(MOVING_PERIOD).ticked);
    assert_eq!(head(&g), (5, 2));
}

#[test]
fn reversal_is_ignored_other_keys_continue() {
    let mut g = started();
    assert_eq!(g.key_pressed(Input::Left), QUIET);
    assert_eq!(head(&g), (4, 2));
    assert!(g.key_pressed(Input::Other).ticked);
    assert_eq!(head(&g), (5, 2));
    assert!(g.key_pressed(Input::Right).ticked);
    assert_eq!(head(&g), (6, 2));
}

#[test]
fn paused_game_ignores_everything_but_pause() {
    let mut g = started();
    g.key_pressed(Input::Pause);
    assert_eq!(g.state(), GameState::Paused);
    for i in [Input::Up, Input::Down, Input::Left, Input::Right, Input::Start, Input::Other] {
        assert_eq!(g.key_pressed(i), QUIET);
        assert_eq!(g.state(), GameState::Paused);
        assert_eq!(head(&g), (4, 2));
    }
    assert_eq!(g.update(10 * MOVING_PERIOD), QUIET);
    assert_eq!(head(&g), (4, 2));
    g.key_pressed(Input::Pause);
    assert_eq!(g.state(), GameState::Playing);
    assert!(g.update(0).ticked);
    assert_eq!(head(&g), (5, 2));
}

#[test]
fn moving_into_the_wall_ends_the_game() {
    let mut g = started();
    assert!(g.key_pressed(Input::Up).ticked);
    assert_eq!(head(&g), (4, 1));
    assert_eq!(g.state(), GameState::Playing);
    let e = g.key_pressed(Input::Up);
    assert_eq!(e.cue, Some(Cue::Death));
    assert_eq!(g.state(), GameState::GameOver { elapsed: 0, final_score: 3 });
    assert_eq!(head(&g), (4, 1));
}

#[test]
fn moving_along_the_interior_edge_is_safe() {
    let mut g = Game::new(7, 5, 0);
    g.key_pressed(Input::Start);
    assert!(g.key_pressed(Input::Right).ticked);
    assert_eq!(head(&g), (5, 2));
    assert_eq!(g.state(), GameState::Playing);
    let e = g.key_pressed(Input::Right);
    assert_eq!(e.cue, Some(Cue::Death));
    assert_eq!(g.state(), GameState::GameOver { elapsed: 0, final_score: 3 });
}

fn eat_first_food(g: &mut Game) -> Effects {
    g.key_pressed(Input::Right);
    g.key_pressed(Input::Right);
    g.key_pressed(Input::Down);
    g.key_pressed(Input::Down)
}

#[test]
fn eating_grows_by_one_and_sets_high_score() {
    let mut g = started();
    let e = eat_first_food(&mut g);
    assert_eq!(e, Effects { cue: Some(Cue::Eat), new_high_score: Some(4), ticked: true });
    assert_eq!(g.snake().len(), 4);
    assert_eq!(g.food(), None);
    assert_eq!(g.high_score(), 4);
    assert_eq!(g.snake().cells(), vec![(6, 4), (6, 3), (6, 2), (5, 2)]);
}

#[test]
fn eating_below_high_score_keeps_it() {
    let mut g = Game::new(15, 15, 10);
    g.key_pressed(Input::Start);
    let e = eat_first_food(&mut g);
    assert_eq!(e, Effects { cue: Some(Cue::Eat), new_high_score: None, ticked: true });
    assert_eq!(g.snake().len(), 4);
    assert_eq!(g.high_score(), 10);
}

#[test]
fn moving_into_the_tail_ends_the_game_with_length() {
    let mut g = started();
    eat_first_food(&mut g);
    g.key_pressed(Input::Left);
    g.key_pressed(Input::Up);
    assert_eq!(g.snake().cells(), vec![(5, 3), (5, 4), (6, 4), (6, 3)]);
    let e = g.key_pressed(Input::Right);
    assert_eq!(e.cue, Some(Cue::Death));
    assert_eq!(g.state(), GameState::GameOver { elapsed: 0, final_score: 4 });
}

#[test]
fn food_respawns_on_a_free_interior_cell() {
    let mut g = started();
    eat_first_food(&mut g);
    assert_eq!(g.food(), None);
    let e = g.update(1);
    assert!(!e.ticked);
    let (fx, fy) = g.food().expect("food placed");
    assert!(0 < fx && fx < 14 && 0 < fy && fy < 14);
    assert!(!g.snake().cells().contains(&(fx, fy)));
}

#[test]
fn free_cells_are_the_uncovered_interior_in_row_order() {
    let g = Game::new(6, 4, 0);
    assert_eq!(g.free_cells(), vec![(1, 1), (2, 1), (3, 1), (4, 1), (1, 2)]);
    let small = Game::new(2, 2, 0);
    assert_eq!(small.free_cells(), Vec::<(i32, i32)>::new());
    let big = Game::new(15, 15, 0);
    assert_eq!(big.free_cells().len(), 13 * 13 - 3);
}

#[test]
fn game_over_waits_then_restarts() {
    let mut g = started();
    g.key_pressed(Input::Up);
    g.key_pressed(Input::Up);
    assert!(matches!(g.state(), GameState::GameOver { .. }));
    assert_eq!(g.key_pressed(Input::Start), QUIET);
    assert_eq!(g.update(RESTART_TIME), QUIET);
    assert_eq!(g.state(), GameState::GameOver { elapsed: RESTART_TIME, final_score: 3 });
    assert_eq!(head(&g), (4, 1));
    let e = g.update(1);
    assert_eq!(e.cue, Some(Cue::Start));
    assert_eq!(g.state(), GameState::Playing);
    assert_eq!(g.snake().len(), 3);
    assert_eq!(head(&g), (4, 2));
    assert_eq!(g.food(), Some((6, 4)));
}

#[test]
fn huge_time_steps_saturate() {
    let mut g = started();
    g.key_pressed(Input::Up);
    g.key_pressed(Input::Up);
    g.update(u64::MAX);
    assert_eq!(g.state(), GameState::Playing);
    g.update(u64::MAX);
    assert_eq!(head(&g), (5, 2));
    g.update(u64::MAX);
    assert_eq!(head(&g), (6, 2));
}

#[test]
fn snapshot_reflects_the_game() {
    let mut g = Game::new(15, 15, 0);
    let s = g.snapshot();
    assert_eq!(s.state, "menu");
    assert_eq!(s.tick, 0);
    g.key_pressed(Input::Start);
    g.key_pressed(Input::Down);
    let s = g.snapshot();
    assert_eq!((s.width, s.height), (15, 15));
    assert_eq!(s.snake, vec![(4, 3), (4, 2), (3, 2)]);
    assert_eq!(s.food, Some((6, 4)));
    assert_eq!(s.score, 3);
    assert_eq!(s.state, "playing");
    assert_eq!(s.tick, 1);
    g.key_pressed(Input::Pause);
    assert_eq!(g.snapshot().state, "paused");
    g.key_pressed(Input::Pause);
    g.key_pressed(Input::Left);
    g.key_pressed(Input::Left);
    g.key_pressed(Input::Left);
    assert_eq!(head(&g), (1, 3));
    g.key_pressed(Input::Left);
    assert_eq!(g.snapshot().state, "game_over");
    assert_eq!(g.snapshot().tick, 5);
}
