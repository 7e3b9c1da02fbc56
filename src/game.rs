use crate::snake::{Direction, Snake, SnakeModel};
use crate::spectator::GameSnapshot;
use vstd::prelude::*;

verus! {

/// Time between two moves of the snake, in microseconds.
pub const MOVING_PERIOD: u64 = 300000;

/// Time spent on the game-over screen before a new round starts, in
/// microseconds.
pub const RESTART_TIME: u64 = 3000000;

/// Where each round seeds the snake's tail.
pub const START_X: i32 = 2;

pub const START_Y: i32 = 2;

/// Where each round places the first food.
pub const FOOD_X: i32 = 6;

pub const FOOD_Y: i32 = 4;

/// The phase the game is in.
#[derive(Copy, Clone, PartialEq, Eq, Structural, Debug)]
pub enum GameState {
    Menu,
    Playing,
    Paused,
    /// `elapsed` counts the microseconds since death; `final_score` is the
    /// snake's length when it died.
    GameOver { elapsed: u64, final_score: usize },
}

/// The commands the game understands; the caller maps keys onto them.
#[derive(Copy, Clone, PartialEq, Eq, Structural, Debug)]
pub enum Input {
    Up,
    Down,
    Left,
    Right,
    Pause,
    Start,
    /// Any other key.
    Other,
}

/// A sound the game asks its caller to play.
#[derive(Copy, Clone, PartialEq, Eq, Structural, Debug)]
pub enum Cue {
    Eat,
    Death,
    Start,
}

/// What the caller has to do after a call into the game.
#[derive(Copy, Clone, PartialEq, Eq, Structural, Debug)]
pub struct Effects {
    /// A sound to play.
    pub cue: Option<Cue>,
    /// A new high score to persist.
    pub new_high_score: Option<u64>,
    /// Whether the snake took a step (a logical tick happened).
    pub ticked: bool,
}

impl Effects {
    pub open spec fn spec_none() -> Effects {
        Effects { cue: None, new_high_score: None, ticked: false }
    }

    pub open spec fn spec_cue(c: Cue) -> Effects {
        Effects { cue: Some(c), new_high_score: None, ticked: false }
    }
}

/// The heading that an input asks for: a direction key gives its own
/// heading, every other key keeps the current one.
pub open spec fn input_heading(input: Input, current: Direction) -> Direction {
    match input {
        Input::Up => Direction::Up,
        Input::Down => Direction::Down,
        Input::Left => Direction::Left,
        Input::Right => Direction::Right,
        _ => current,
    }
}

/// `a + b`, stopping at `u64::MAX`.
pub open spec fn add_sat(a: u64, b: u64) -> u64 {
    if a + b <= u64::MAX {
        (a + b) as u64
    } else {
        u64::MAX
    }
}

/// The free cells of row `y` with `0 < x < x_end`, left to right.
pub open spec fn free_in_row(body: Seq<(i32, i32)>, y: int, x_end: int) -> Seq<(i32, i32)>
    decreases x_end,
{
    if x_end <= 1 {
        Seq::empty()
    } else {
        let rest = free_in_row(body, y, x_end - 1);
        let c = ((x_end - 1) as i32, y as i32);
        if body.contains(c) {
            rest
        } else {
            rest.push(c)
        }
    }
}

/// The free cells of rows `0 < y < y_end` with `0 < x < width - 1`, in
/// row-major order.
pub open spec fn free_in_rows(body: Seq<(i32, i32)>, width: int, y_end: int) -> Seq<(i32, i32)>
    decreases y_end,
{
    if y_end <= 1 {
        Seq::empty()
    } else {
        free_in_rows(body, width, y_end - 1) + free_in_row(body, y_end - 1, width - 1)
    }
}

/// The name a snapshot gives each state.
pub open spec fn state_label(s: GameState) -> Seq<char> {
    match s {
        GameState::Menu => "menu"@,
        GameState::Playing => "playing"@,
        GameState::Paused => "paused"@,
        GameState::GameOver { .. } => "game_over"@,
    }
}

/// What a game is, as far as its contracts are concerned.
pub struct GameModel {
    pub snake: SnakeModel,
    pub food: (i32, i32),
    pub food_exists: bool,
    pub width: i32,
    pub height: i32,
    pub state: GameState,
    /// Microseconds since the last step.
    pub waiting: u64,
    pub high_score: u64,
    /// Number of steps taken so far.
    pub tick: u64,
}

impl GameModel {
    /// The invariant every game keeps: a non-empty body of distinct cells
    /// whose head can move one cell in any direction without leaving `i32`.
    pub open spec fn wf(self) -> bool {
        &&& self.snake.body.len() >= 1
        &&& i32::MIN < self.snake.head().0 < i32::MAX
        &&& i32::MIN < self.snake.head().1 < i32::MAX
        &&& self.snake.body.no_duplicates()
    }

    /// `c` lies strictly inside the one-cell wall around the grid.
    pub open spec fn inside(self, c: (int, int)) -> bool {
        &&& 0 < c.0 < self.width - 1
        &&& 0 < c.1 < self.height - 1
    }

    /// The interior cells that the snake does not cover, row by row.
    pub open spec fn free_cells(self) -> Seq<(i32, i32)> {
        free_in_rows(self.snake.body, self.width as int, self.height - 1)
    }

    /// A move with `dir` kills the snake: its next cell is part of the body
    /// behind the head, or is not inside the wall.
    pub open spec fn fatal(self, dir: Option<Direction>) -> bool {
        let n = self.snake.next_cell(dir);
        self.snake.occupies((n.0 as i32, n.1 as i32)) || !self.inside(n)
    }

    pub open spec fn next_tick(self) -> u64 {
        add_sat(self.tick, 1)
    }

    /// One step of the snake with `dir`: death, or a move followed by a
    /// check for food.
    pub open spec fn step(self, dir: Option<Direction>) -> (GameModel, Effects) {
        let advanced = GameModel { waiting: 0, tick: self.next_tick(), ..self };
        if self.fatal(dir) {
            (
                GameModel {
                    state: GameState::GameOver {
                        elapsed: 0,
                        final_score: self.snake.body.len() as usize,
                    },
                    ..advanced
                },
                Effects { cue: Some(Cue::Death), new_high_score: None, ticked: true },
            )
        } else {
            GameModel { snake: self.snake.moved(dir), ..advanced }.eaten()
        }
    }

    /// After a move: a head on the food eats it, which grows the snake by
    /// its pending tail cell and may set a new high score.
    pub open spec fn eaten(self) -> (GameModel, Effects) {
        if self.food_exists && self.snake.head() == self.food {
            let grown = self.snake.grown();
            let len = grown.body.len();
            let record = len > self.high_score;
            (
                GameModel {
                    snake: grown,
                    food_exists: false,
                    high_score: if record {
                        len as u64
                    } else {
                        self.high_score
                    },
                    ..self
                },
                Effects {
                    cue: Some(Cue::Eat),
                    new_high_score: if record {
                        Some(len as u64)
                    } else {
                        None
                    },
                    ticked: true,
                },
            )
        } else {
            (self, Effects { cue: None, new_high_score: None, ticked: true })
        }
    }

    /// What an input does: the menu waits for start, a pause toggles,
    /// game over ignores everything, and while playing any other input
    /// steps the snake unless it asks for a reversal.
    pub open spec fn key_result(self, input: Input) -> (GameModel, Effects) {
        match self.state {
            GameState::Menu => {
                if input == Input::Start {
                    (GameModel { state: GameState::Playing, ..self }, Effects::spec_cue(Cue::Start))
                } else {
                    (self, Effects::spec_none())
                }
            },
            GameState::Paused => {
                if input == Input::Pause {
                    (GameModel { state: GameState::Playing, ..self }, Effects::spec_none())
                } else {
                    (self, Effects::spec_none())
                }
            },
            GameState::GameOver { .. } => (self, Effects::spec_none()),
            GameState::Playing => {
                if input == Input::Pause {
                    (GameModel { state: GameState::Paused, ..self }, Effects::spec_none())
                } else {
                    let d = input_heading(input, self.snake.heading);
                    if d == self.snake.heading.spec_opposite() {
                        (self, Effects::spec_none())
                    } else {
                        self.step(Some(d))
                    }
                }
            },
        }
    }

    /// The game with food placed at `spawn`, if there is one.
    pub open spec fn with_food(self, spawn: Option<(i32, i32)>) -> GameModel {
        match spawn {
            Some(c) => GameModel { food: c, food_exists: true, ..self },
            None => self,
        }
    }

    /// What `dt` microseconds do. `spawn` is where food is placed when a
    /// playing game has none (drawn at random among `free_cells`).
    pub open spec fn update_result(self, dt: u64, spawn: Option<(i32, i32)>) -> (
        GameModel,
        Effects,
    ) {
        let m = GameModel { waiting: add_sat(self.waiting, dt), ..self };
        match self.state {
            GameState::Menu => (m, Effects::spec_none()),
            GameState::Paused => (m, Effects::spec_none()),
            GameState::GameOver { elapsed, final_score } => {
                let e = add_sat(elapsed, dt);
                if e > RESTART_TIME {
                    (m.restarted(), Effects::spec_cue(Cue::Start))
                } else {
                    (
                        GameModel {
                            state: GameState::GameOver { elapsed: e, final_score },
                            ..m
                        },
                        Effects::spec_none(),
                    )
                }
            },
            GameState::Playing => {
                let fed = if self.food_exists {
                    m
                } else {
                    m.with_food(spawn)
                };
                if m.waiting > MOVING_PERIOD {
                    fed.step(None)
                } else {
                    (fed, Effects::spec_none())
                }
            },
        }
    }

    /// An update of this game draws a food cell.
    pub open spec fn needs_food(self) -> bool {
        self.state == GameState::Playing && !self.food_exists && self.free_cells().len() > 0
    }

    /// A new round: fresh snake and food, playing.
    pub open spec fn restarted(self) -> GameModel {
        GameModel {
            snake: SnakeModel::fresh(START_X, START_Y),
            food: (FOOD_X, FOOD_Y),
            food_exists: true,
            state: GameState::Playing,
            waiting: 0,
            ..self
        }
    }

    /// The game as `Game::new` builds it.
    pub open spec fn initial(width: i32, height: i32, high_score: u64) -> GameModel {
        GameModel {
            snake: SnakeModel::fresh(START_X, START_Y),
            food: (FOOD_X, FOOD_Y),
            food_exists: true,
            width,
            height,
            state: GameState::Menu,
            waiting: 0,
            high_score,
            tick: 0,
        }
    }
}

/// The game: a snake on a walled grid, food, and the state machine that
/// drives them.
pub struct Game {
    snake: Snake,
    food_exists: bool,
    food_x: i32,
    food_y: i32,
    width: i32,
    height: i32,
    state: GameState,
    waiting_time: u64,
    high_score: u64,
    tick: u64,
}

impl View for Game {
    type V = GameModel;

    closed spec fn view(&self) -> GameModel {
        GameModel {
            snake: self.snake@,
            food: (self.food_x, self.food_y),
            food_exists: self.food_exists,
            width: self.width,
            height: self.height,
            state: self.state,
            waiting: self.waiting_time,
            high_score: self.high_score,
            tick: self.tick,
        }
    }
}

impl Game {
    pub closed spec fn wf(&self) -> bool {
        self.snake.wf() && self@.wf()
    }

    /// A game on a `width` by `height` grid, in the menu, with the high
    /// score loaded from storage.
    pub fn new(width: i32, height: i32, high_score: u32) -> (r: Game)
        ensures
            r.wf(),
            r@.wf(),
            r@ == GameModel::initial(width, height, high_score as u64),
    {
        let snake = Snake::new(START_X, START_Y);
        let r = Game {
            snake,
            food_exists: true,
            food_x: FOOD_X,
            food_y: FOOD_Y,
            width,
            height,
            state: GameState::Menu,
            waiting_time: 0,
            high_score: high_score as u64,
            tick: 0,
        };
        proof {
            lemma_fresh_wf(r@);
        }
        r
    }

    /// Handles one input; see `GameModel::key_result`.
    pub fn key_pressed(&mut self, input: Input) -> (r: Effects)
        requires
            old(self).wf(),
        ensures
            final(self).wf(),
            final(self)@.wf(),
            (final(self)@, r) == old(self)@.key_result(input),
    {
        match self.state {
            GameState::Menu => {
                if input == Input::Start {
                    self.state = GameState::Playing;
                    Effects { cue: Some(Cue::Start), new_high_score: None, ticked: false }
                } else {
                    Effects { cue: None, new_high_score: None, ticked: false }
                }
            },
            GameState::Paused => {
                if input == Input::Pause {
                    self.state = GameState::Playing;
                }
                Effects { cue: None, new_high_score: None, ticked: false }
            },
            GameState::GameOver { .. } => Effects { cue: None, new_high_score: None, ticked: false },
            GameState::Playing => {
                if input == Input::Pause {
                    self.state = GameState::Paused;
                    return Effects { cue: None, new_high_score: None, ticked: false };
                }
                let current = self.snake.head_direction();
                let dir = match input {
                    Input::Up => Direction::Up,
                    Input::Down => Direction::Down,
                    Input::Left => Direction::Left,
                    Input::Right => Direction::Right,
                    _ => current,
                };
                if dir == current.opposite() {
                    return Effects { cue: None, new_high_score: None, ticked: false };
                }
                self.update_snake(Some(dir))
            },
        }
    }

    /// Advances the clock by `dt` microseconds; see
    /// `GameModel::update_result`. Food that has to be placed goes to a
    /// free cell drawn at random.
    pub fn update(&mut self, dt: u64) -> (r: Effects)
        requires
            old(self).wf(),
        ensures
            final(self).wf(),
            final(self)@.wf(),
            old(self)@.needs_food() ==> exists|k: int|
                0 <= k < old(self)@.free_cells().len() && (final(self)@, r)
                    == old(self)@.update_result(dt, Some(old(self)@.free_cells()[k])),
            !old(self)@.needs_food() ==> (final(self)@, r) == old(self)@.update_result(dt, None),
    {
        self.waiting_time = if self.waiting_time <= u64::MAX - dt {
            self.waiting_time + dt
        } else {
            u64::MAX
        };
        match self.state {
            GameState::Menu => Effects { cue: None, new_high_score: None, ticked: false },
            GameState::Paused => Effects { cue: None, new_high_score: None, ticked: false },
            GameState::GameOver { elapsed, final_score } => {
                let e = if elapsed <= u64::MAX - dt {
                    elapsed + dt
                } else {
                    u64::MAX
                };
                if e > RESTART_TIME {
                    self.restart();
                    Effects { cue: Some(Cue::Start), new_high_score: None, ticked: false }
                } else {
                    self.state = GameState::GameOver { elapsed: e, final_score };
                    Effects { cue: None, new_high_score: None, ticked: false }
                }
            },
            GameState::Playing => {
                if !self.food_exists {
                    self.add_food();
                }
                if self.waiting_time > MOVING_PERIOD {
                    self.update_snake(None)
                } else {
                    Effects { cue: None, new_high_score: None, ticked: false }
                }
            },
        }
    }

    /// The interior cells not covered by the snake, row by row.
    pub fn free_cells(&self) -> (r: Vec<(i32, i32)>)
        requires
            self.wf(),
        ensures
            r@ == self@.free_cells(),
    {
        let mut v: Vec<(i32, i32)> = Vec::new();
        let w_end: i64 = self.width as i64 - 1;
        let h_end: i64 = self.height as i64 - 1;
        let mut y: i64 = 1;
        while y < h_end
            invariant
                self.wf(),
                w_end == self@.width - 1,
                h_end == self@.height - 1,
                1 <= y,
                y <= h_end || y == 1,
                v@ == free_in_rows(self@.snake.body, self@.width as int, y as int),
            decreases h_end - y,
        {
            let mut x: i64 = 1;
            while x < w_end
                invariant
                    self.wf(),
                    w_end == self@.width - 1,
                    1 <= y < h_end,
                    h_end == self@.height - 1,
                    1 <= x,
                    x <= w_end || x == 1,
                    v@ == free_in_rows(self@.snake.body, self@.width as int, y as int)
                        + free_in_row(self@.snake.body, y as int, x as int),
                decreases w_end - x,
            {
                let covered = self.snake.covers(x as i32, y as i32);
                if !covered {
                    v.push((x as i32, y as i32));
                }
                x += 1;
                proof {
                    assert(v@ =~= free_in_rows(self@.snake.body, self@.width as int, y as int)
                        + free_in_row(self@.snake.body, y as int, x as int));
                }
            }
            assert(free_in_row(self@.snake.body, y as int, x as int) == free_in_row(
                self@.snake.body,
                y as int,
                w_end as int,
            ));
            y += 1;
        }
        assert(free_in_rows(self@.snake.body, self@.width as int, y as int) == free_in_rows(
            self@.snake.body,
            self@.width as int,
            h_end as int,
        ));
        v
    }

    /// Places food on a free interior cell drawn at random; leaves it absent
    /// when the board has no free cell.
    fn add_food(&mut self)
        requires
            old(self).wf(),
        ensures
            final(self).wf(),
            old(self)@.free_cells().len() == 0 ==> final(self)@ == old(self)@,
            old(self)@.free_cells().len() > 0 ==> exists|k: int|
                0 <= k < old(self)@.free_cells().len() && final(self)@ == old(self)@.with_food(
                    Some(old(self)@.free_cells()[k]),
                ),
    {
        let free = self.free_cells();
        if free.len() > 0 {
            let k = random_index(free.len());
            let c = free[k];
            self.food_x = c.0;
            self.food_y = c.1;
            self.food_exists = true;
            assert(self@ == old(self)@.with_food(Some(old(self)@.free_cells()[k as int])));
        }
    }

    /// Starts a new round: fresh snake and food, playing.
    fn restart(&mut self)
        requires
            old(self).wf(),
        ensures
            final(self).wf(),
            final(self)@ == old(self)@.restarted(),
    {
        self.snake = Snake::new(START_X, START_Y);
        self.waiting_time = 0;
        self.food_exists = true;
        self.food_x = FOOD_X;
        self.food_y = FOOD_Y;
        self.state = GameState::Playing;
        proof {
            lemma_fresh_wf(self@);
        }
    }

    pub fn snake(&self) -> (r: &Snake)
        requires
            self.wf(),
        ensures
            r.wf(),
            r@ == self@.snake,
    {
        &self.snake
    }

    pub fn state(&self) -> (r: GameState)
        ensures
            r == self@.state,
    {
        self.state
    }

    /// The food's cell, or `None` while it is absent.
    pub fn food(&self) -> (r: Option<(i32, i32)>)
        ensures
            r == (if self@.food_exists {
                Some(self@.food)
            } else {
                None
            }),
    {
        if self.food_exists {
            Some((self.food_x, self.food_y))
        } else {
            None
        }
    }

    pub fn high_score(&self) -> (r: u64)
        ensures
            r == self@.high_score,
    {
        self.high_score
    }

    /// The game as spectators see it.
    pub fn snapshot(&self) -> (r: GameSnapshot)
        requires
            self.wf(),
        ensures
            r.width == self@.width,
            r.height == self@.height,
            r.snake@ == self@.snake.body,
            r.food == (if self@.food_exists {
                Some(self@.food)
            } else {
                None
            }),
            r.score == self@.snake.body.len(),
            r.state@ == state_label(self@.state),
            r.tick == self@.tick,
    {
        let label = match self.state {
            GameState::Menu => "menu",
            GameState::Playing => "playing",
            GameState::Paused => "paused",
            GameState::GameOver { .. } => "game_over",
        };
        GameSnapshot {
            width: self.width,
            height: self.height,
            snake: self.snake.cells(),
            food: self.food(),
            score: self.snake.len(),
            state: label.to_owned(),
            tick: self.tick,
        }
    }

    /// One step of the snake; the move is checked before it is made.
    fn update_snake(&mut self, dir: Option<Direction>) -> (r: Effects)
        requires
            old(self).wf(),
        ensures
            final(self).wf(),
            (final(self)@, r) == old(self)@.step(dir),
    {
        let ghost m = self@;
        let alive = self.check_if_snake_alive(dir);
        self.tick = if self.tick < u64::MAX {
            self.tick + 1
        } else {
            self.tick
        };
        self.waiting_time = 0;
        if !alive {
            self.state = GameState::GameOver { elapsed: 0, final_score: self.snake.len() };
            return Effects { cue: Some(Cue::Death), new_high_score: None, ticked: true };
        }
        proof {
            lemma_move_keeps_wf(m, dir);
        }
        self.snake.move_forward(dir);
        self.check_eating()
    }

    /// Whether a move with `dir` is safe: the next cell is neither behind
    /// the head nor on or beyond the wall.
    fn check_if_snake_alive(&self, dir: Option<Direction>) -> (r: bool)
        requires
            self.wf(),
        ensures
            r == !self@.fatal(dir),
    {
        let (next_x, next_y) = self.snake.next_head(dir);
        if self.snake.overlap_tail(next_x, next_y) {
            return false;
        }
        next_x > 0 && next_y > 0 && (next_x as i64) < self.width as i64 - 1 && (next_y as i64)
            < self.height as i64 - 1
    }

    /// Eats the food if the head has just landed on it.
    fn check_eating(&mut self) -> (r: Effects)
        requires
            old(self).snake.wf(),
            old(self)@.wf(),
            old(self)@.snake.pending matches Some(p) && !old(self)@.snake.body.contains(p),
        ensures
            final(self).wf(),
            (final(self)@, r) == old(self)@.eaten(),
    {
        let (head_x, head_y) = self.snake.head_position();
        if self.food_exists && self.food_x == head_x && self.food_y == head_y {
            self.food_exists = false;
            self.snake.restore_tail();
            proof {
                let b = old(self)@.snake.body;
                let p = old(self)@.snake.pending->0;
                let g = self@.snake.body;
                assert(g == b.push(p));
                assert(g[0] == b[0]);
                assert forall|i: int, j: int| 0 <= i < j < g.len() implies g[i] != g[j] by {
                    if j == b.len() {
                        assert(g[i] == b[i]);
                    } else {
                        assert(g[i] == b[i] && g[j] == b[j]);
                    }
                }
            }
            let current_score = self.snake.len() as u64;
            if current_score > self.high_score {
                self.high_score = current_score;
                Effects { cue: Some(Cue::Eat), new_high_score: Some(current_score), ticked: true }
            } else {
                Effects { cue: Some(Cue::Eat), new_high_score: None, ticked: true }
            }
        } else {
            Effects { cue: None, new_high_score: None, ticked: true }
        }
    }
}

/// Relies on `rand::thread_rng` and `rand::Rng::gen_range`: a value drawn
/// uniformly from `0..n`; `gen_range` panics on an empty range.
#[verifier::external_body]
fn random_index(n: usize) -> (r: usize)
    requires
        n > 0,
    ensures
        r < n,
{
    rand::Rng::gen_range(&mut rand::thread_rng(), 0..n)
}

/// The head never counts as occupied: in every game no cell behind the head
/// equals it, and every call on a game keeps the game well formed.
pub proof fn lemma_head_never_occupied(m: GameModel)
    requires
        m.wf(),
    ensures
        !m.snake.occupies(m.snake.head()),
{
    let b = m.snake.body;
    assert forall|i: int| 0 <= i < b.skip(1).len() implies b.skip(1)[i] != b[0] by {
        assert(b.skip(1)[i] == b[i + 1]);
    }
}

/// Moving into a cell of the body behind the head ends the game, with the
/// length before death as final score; the snake stays where it was.
pub proof fn lemma_self_collision_ends_game(m: GameModel, dir: Option<Direction>)
    requires
        m.wf(),
        m.state == GameState::Playing,
        m.snake.occupies(
            (m.snake.next_cell(dir).0 as i32, m.snake.next_cell(dir).1 as i32),
        ),
    ensures
        m.step(dir).0.state == (GameState::GameOver {
            elapsed: 0,
            final_score: m.snake.body.len() as usize,
        }),
        m.step(dir).0.snake == m.snake,
{
}

/// A move onto a free interior cell keeps the game playing; a move onto
/// the wall or beyond it always ends the game.
pub proof fn lemma_walls(m: GameModel, dir: Option<Direction>)
    requires
        m.wf(),
        m.state == GameState::Playing,
    ensures
        m.inside(m.snake.next_cell(dir)) && !m.snake.occupies(
            (m.snake.next_cell(dir).0 as i32, m.snake.next_cell(dir).1 as i32),
        ) ==> m.step(dir).0.state == GameState::Playing,
        !m.inside(m.snake.next_cell(dir)) ==> m.step(dir).0.state is GameOver,
{
}

proof fn lemma_step_keeps_high_score(m: GameModel, dir: Option<Direction>)
    requires
        m.wf(),
        m.snake.body.len() < usize::MAX,
    ensures
        m.step(dir).0.high_score >= m.high_score,
{
    assert(m.snake.moved(dir).body.len() == m.snake.body.len());
}

/// The high score never goes down, whatever the input or update.
pub proof fn lemma_high_score_never_drops(
    m: GameModel,
    input: Input,
    dt: u64,
    spawn: Option<(i32, i32)>,
)
    requires
        m.wf(),
        m.snake.body.len() < usize::MAX,
    ensures
        m.key_result(input).0.high_score >= m.high_score,
        m.update_result(dt, spawn).0.high_score >= m.high_score,
{
    lemma_step_keeps_high_score(m, Some(input_heading(input, m.snake.heading)));
    let w = GameModel { waiting: add_sat(m.waiting, dt), ..m };
    lemma_step_keeps_high_score(w, None);
    lemma_step_keeps_high_score(w.with_food(spawn), None);
}

/// Landing on the food grows the snake by exactly one cell, removes the
/// food, and raises the high score exactly when the new length beats it;
/// any other safe move keeps the length.
pub proof fn lemma_eating(m: GameModel, dir: Option<Direction>)
    requires
        m.wf(),
        !m.fatal(dir),
    ensures
        m.food_exists && m.snake.moved(dir).head() == m.food ==> {
            let r = m.step(dir).0;
            &&& r.snake.body.len() == m.snake.body.len() + 1
            &&& !r.food_exists
            &&& r.high_score == (if m.snake.body.len() + 1 > m.high_score {
                (m.snake.body.len() + 1) as u64
            } else {
                m.high_score
            })
        },
        !(m.food_exists && m.snake.moved(dir).head() == m.food) ==> {
            let r = m.step(dir).0;
            &&& r.snake.body.len() == m.snake.body.len()
            &&& r.food_exists == m.food_exists
            &&& r.high_score == m.high_score
        },
{
    lemma_move_keeps_wf(m, dir);
}

proof fn lemma_free_in_row(body: Seq<(i32, i32)>, y: int, x_end: int, c: (i32, i32))
    requires
        i32::MIN <= y <= i32::MAX,
        x_end <= i32::MAX + 1,
    ensures
        free_in_row(body, y, x_end).contains(c) <==> (c.1 == y && 0 < c.0 < x_end
            && !body.contains(c)),
    decreases x_end,
{
    if x_end > 1 {
        lemma_free_in_row(body, y, x_end - 1, c);
        let rest = free_in_row(body, y, x_end - 1);
        let d = ((x_end - 1) as i32, y as i32);
        if !body.contains(d) {
            if rest.push(d).contains(c) {
                let k = choose|k: int| 0 <= k < rest.push(d).len() && rest.push(d)[k] == c;
                if k < rest.len() {
                    assert(rest[k] == c);
                }
            }
            if rest.contains(c) {
                let k = choose|k: int| 0 <= k < rest.len() && rest[k] == c;
                assert(rest.push(d)[k] == c);
            }
            if c == d {
                assert(rest.push(d)[rest.len() as int] == c);
            }
        }
    }
}

proof fn lemma_free_in_rows(body: Seq<(i32, i32)>, width: int, y_end: int, c: (i32, i32))
    requires
        y_end <= i32::MAX + 1,
        width <= i32::MAX,
    ensures
        free_in_rows(body, width, y_end).contains(c) <==> (0 < c.1 < y_end && 0 < c.0 < width
            - 1 && !body.contains(c)),
    decreases y_end,
{
    if y_end > 1 {
        lemma_free_in_rows(body, width, y_end - 1, c);
        lemma_free_in_row(body, y_end - 1, width - 1, c);
        let a = free_in_rows(body, width, y_end - 1);
        let b = free_in_row(body, y_end - 1, width - 1);
        if (a + b).contains(c) {
            let k = choose|k: int| 0 <= k < (a + b).len() && (a + b)[k] == c;
            if k < a.len() {
                assert(a[k] == c);
            } else {
                assert(b[k - a.len()] == c);
            }
        }
        if a.contains(c) {
            let k = choose|k: int| 0 <= k < a.len() && a[k] == c;
            assert((a + b)[k] == c);
        }
        if b.contains(c) {
            let k = choose|k: int| 0 <= k < b.len() && b[k] == c;
            assert((a + b)[a.len() + k] == c);
        }
    }
}

/// The free cells are exactly the interior cells that the snake does not
/// cover.
pub proof fn lemma_free_cells_exact(m: GameModel, c: (i32, i32))
    ensures
        m.free_cells().contains(c) <==> (m.inside((c.0 as int, c.1 as int)) && !m.snake.covers(c)),
{
    lemma_free_in_rows(m.snake.body, m.width as int, m.height - 1, c);
}

/// Food that an update places lands on an interior cell the snake does not
/// cover; after the update it is still there, unless the snake stepped
/// onto it in that same update.
pub proof fn lemma_respawn(m: GameModel, dt: u64, k: int)
    requires
        m.wf(),
        m.needs_food(),
        0 <= k < m.free_cells().len(),
    ensures
        ({
            let c = m.free_cells()[k];
            let r = m.update_result(dt, Some(c)).0;
            &&& m.inside((c.0 as int, c.1 as int))
            &&& !m.snake.covers(c)
            &&& r.food_exists ==> r.food == c
            &&& !r.food_exists ==> r.snake.head() == c
        }),
{
    let c = m.free_cells()[k];
    lemma_free_cells_exact(m, c);
}

/// A paused game only reacts to the pause toggle; updates and every other
/// input leave the snake where it is.
pub proof fn lemma_paused(m: GameModel, input: Input, dt: u64, spawn: Option<(i32, i32)>)
    requires
        m.state == GameState::Paused,
    ensures
        input != Input::Pause ==> m.key_result(input) == (m, Effects::spec_none()),
        input == Input::Pause ==> m.key_result(input).0 == (GameModel {
            state: GameState::Playing,
            ..m
        }),
        m.update_result(dt, spawn).0.state == GameState::Paused,
        m.update_result(dt, spawn).0.snake == m.snake,
{
}

/// After death the game waits: while the time since death stays within
/// the restart delay nothing changes but the clock; once it passes the
/// delay a new round starts with a three-cell snake and fresh food.
pub proof fn lemma_game_over_restart(m: GameModel, dt: u64, spawn: Option<(i32, i32)>)
    requires
        m.state is GameOver,
    ensures
        ({
            let e = add_sat(m.state->elapsed, dt);
            let r = m.update_result(dt, spawn).0;
            &&& e <= RESTART_TIME ==> r.state == (GameState::GameOver {
                elapsed: e,
                final_score: m.state->final_score,
            }) && r.snake == m.snake
            &&& e > RESTART_TIME ==> r.state == GameState::Playing && r.snake.body.len() == 3
                && r.food_exists && r.food == (FOOD_X, FOOD_Y)
        }),
{
}

proof fn lemma_fresh_wf(m: GameModel)
    requires
        m.snake == SnakeModel::fresh(START_X, START_Y),
    ensures
        m.wf(),
{
    let b = m.snake.body;
    assert(b[0] == (4i32, 2i32));
    assert(b[1] == (3i32, 2i32));
    assert(b[2] == (2i32, 2i32));
}

/// A move that is not fatal stays inside the wall and keeps the body
/// distinct, and the tail cell it drops is no longer part of the body.
proof fn lemma_move_keeps_wf(m: GameModel, dir: Option<Direction>)
    requires
        m.wf(),
        !m.fatal(dir),
    ensures
        m.snake.moved(dir).body.no_duplicates(),
        !m.snake.moved(dir).body.contains(m.snake.body.last()),
        m.snake.moved(dir).body.len() == m.snake.body.len(),
        m.inside(m.snake.next_cell(dir)),
{
    let b = m.snake.body;
    let n = m.snake.next_cell(dir);
    let c = (n.0 as i32, n.1 as i32);
    let d = m.snake.step_heading(dir);
    assert(d.dx() != 0 || d.dy() != 0);
    assert(c != b[0]);
    assert forall|i: int| 0 <= i < b.len() implies b[i] != c by {
        if i > 0 {
            assert(b.skip(1)[i - 1] == b[i]);
        }
    }
    let mb = m.snake.moved(dir).body;
    assert(mb[0] == c);
    assert forall|i: int, j: int| 0 <= i < j < mb.len() implies mb[i] != mb[j] by {
        if i > 0 {
            assert(mb[i] == b[i - 1]);
            assert(mb[j] == b[j - 1]);
        } else {
            assert(mb[j] == b[j - 1]);
        }
    }
    assert forall|i: int| 0 <= i < mb.len() implies mb[i] != b.last() by {
        if i > 0 {
            assert(mb[i] == b[i - 1]);
        }
    }
}

} // verus!
