use vstd::prelude::*;

use rand::Rng;

use crate::food::Food;
use crate::highscore::{
    current_high, register_cache, register_result, HighscoreError, HighscoreService, StoreRead,
};
use crate::snake::{
    body_in_grid, coords_in_body, kept_body, lemma_body_len_bounded, opposite, pos_in_grid,
    target_x, target_y, Direction, MoveSnakeResult, Snake,
};
use crate::timing::{accumulated, delay_completes, tick_released, Yield};

verus! {

/// A cell of the grid: 0-indexed column and row.
#[derive(Clone, Copy, PartialEq, Eq, Structural, Debug, Hash)]
pub struct GamePos(pub i32, pub i32);

/// Phase of a session: in play, waiting for the begin input, or showing the
/// game-over screen until the post-game delay elapses.
#[derive(Clone, Copy, PartialEq, Eq, Structural, Debug)]
pub enum GameState {
    Playing,
    ToBegin,
    GameOver,
}

/// Anything placed on the grid that the session tests cells against.
pub trait GameObject {
    /// Whether this object occupies the cell `pos`.
    spec fn occupied(&self, pos: GamePos) -> bool;

    /// Collision test against the cell `pos`.
    fn would_collide(&self, pos: GamePos) -> (hit: bool)
        ensures
            hit == self.occupied(pos),
    ;
}

/// A decoded input intent, handed in by the input-mapping layer.
#[derive(Clone, Copy, PartialEq, Eq, Structural, Debug)]
pub enum GameInput {
    Begin,
    Turn(Direction),
}

/// How long the game-over screen stays up before the session returns to the
/// waiting screen, in microseconds.
pub const GAME_OVER_DELAY_MICROS: u64 = 3_000_000;

/// How many random draws food placement makes before it falls back to
/// scanning the grid for a free cell.
pub const FOOD_SAMPLE_ATTEMPTS: u32 = 128;

/// One second, in the microsecond unit the session counts time in.
pub const MICROS_PER_SECOND: u64 = 1_000_000;

/// The whole observable state of a session.
#[verifier::ext_equal]
pub ghost struct GameView {
    /// Snake body cells, head first.
    pub body: Seq<GamePos>,
    /// Snake direction of travel.
    pub dir: Direction,
    /// Whether the snake's next step keeps its tail.
    pub pending: bool,
    /// Positions of the food items.
    pub foods: Seq<GamePos>,
    /// Food eaten since the current game began.
    pub score: u32,
    /// Session phase.
    pub state: GameState,
    /// Accumulator of the tick throttle.
    pub tick_acc: Option<u64>,
    /// Accumulator of the post-game delay timer.
    pub delay_acc: Option<u64>,
    /// In-memory copy of the highscore, once established.
    pub cache: Option<u32>,
    /// Grid width in cells.
    pub columns: int,
    /// Grid height in cells.
    pub rows: int,
    /// Microseconds between ticks.
    pub interval: u64,
    /// Microseconds the game-over screen stays up.
    pub delay_threshold: u64,
    /// How many food items a fresh game is stocked with.
    pub food_target: int,
}

/// The session invariant: a live, self-avoiding snake on the grid; distinct
/// food items on free cells; timers within their thresholds; and, during
/// play, a score that counts exactly the growth the snake has earned.
pub open spec fn view_wf(v: GameView) -> bool {
    &&& v.body.len() >= 1
    &&& v.body.no_duplicates()
    &&& 1 <= v.columns
    &&& 1 <= v.rows
    &&& v.columns * v.rows <= u32::MAX as int
    &&& body_in_grid(v.body, v.columns, v.rows)
    &&& v.foods.no_duplicates()
    &&& forall|i: int|
        0 <= i < v.foods.len() ==> pos_in_grid(
            (#[trigger] v.foods[i]).0 as int,
            v.foods[i].1 as int,
            v.columns,
            v.rows,
        )
    &&& forall|i: int| 0 <= i < v.foods.len() ==> !v.body.contains(#[trigger] v.foods[i])
    &&& 1 <= v.interval
    &&& (v.tick_acc matches Some(a) ==> a <= v.interval)
    &&& (v.delay_acc matches Some(a) ==> a <= v.delay_threshold)
    &&& (v.state == GameState::Playing ==> v.score + 1 == v.body.len() + (if v.pending {
        1int
    } else {
        0int
    }))
    &&& (v.state != GameState::GameOver ==> v.delay_acc is None)
    &&& 0 <= v.food_target
    &&& v.food_target + 1 <= v.columns * v.rows
}

/// Whether the cell `(px, py)` lies on the grid and carries neither a body
/// cell nor a food item.
pub open spec fn cell_free(
    body: Seq<GamePos>,
    foods: Seq<GamePos>,
    cols: int,
    rows: int,
    px: int,
    py: int,
) -> bool {
    &&& pos_in_grid(px, py, cols, rows)
    &&& !body.contains(GamePos(px as i32, py as i32))
    &&& !foods.contains(GamePos(px as i32, py as i32))
}

/// Whether some grid cell is free of snake and food.
pub open spec fn has_free_cell(body: Seq<GamePos>, foods: Seq<GamePos>, cols: int, rows: int) -> bool {
    exists|px: int, py: int| cell_free(body, foods, cols, rows, px, py)
}

/// The code of a cell when the grid is read column by column.
pub open spec fn cell_code(p: GamePos, rows: int) -> int {
    (p.0 as int) * rows + (p.1 as int)
}

/// Distinct on-grid cells have distinct codes, all within `[0, cols * rows)`.
proof fn lemma_cell_codes(cells: Seq<GamePos>, cols: int, rows: int)
    requires
        cells.no_duplicates(),
        body_in_grid(cells, cols, rows),
        0 <= cols,
        0 <= rows,
    ensures
        ({
            let taken = cells.map_values(|p: GamePos| cell_code(p, rows)).to_set();
            &&& taken.finite()
            &&& taken.len() == cells.len()
            &&& taken.subset_of(vstd::set_lib::set_int_range(0, cols * rows))
        }),
{
    broadcast use vstd::set::group_set_axioms;
    broadcast use vstd::seq_lib::seq_to_set_is_finite;

    let enc = |p: GamePos| cell_code(p, rows);
    let mapped = cells.map_values(enc);
    assert(mapped.len() == cells.len());
    assert forall|i: int, j: int|
        (0 <= i < mapped.len() && 0 <= j < mapped.len() && i != j) implies mapped[i] != mapped[j] by {
        let p = cells[i];
        let q = cells[j];
        assert(p != q);
        assert(pos_in_grid(p.0 as int, p.1 as int, cols, rows));
        assert(pos_in_grid(q.0 as int, q.1 as int, cols, rows));
        let px = p.0 as int;
        let py = p.1 as int;
        let qx = q.0 as int;
        let qy = q.1 as int;
        assert(px * rows + py != qx * rows + qy) by (nonlinear_arith)
            requires
                0 <= py < rows,
                0 <= qy < rows,
                px != qx || py != qy,
        {}
        assert(mapped[i] == enc(p));
        assert(mapped[j] == enc(q));
    }
    assert(mapped.no_duplicates());
    mapped.unique_seq_to_set();
    assert forall|x: int| mapped.to_set().contains(x) implies vstd::set_lib::set_int_range(
        0,
        cols * rows,
    ).contains(x) by {
        assert(mapped.contains(x));
        let i = choose|i: int| 0 <= i < mapped.len() && mapped[i] == x;
        let p = cells[i];
        assert(pos_in_grid(p.0 as int, p.1 as int, cols, rows));
        let px = p.0 as int;
        let py = p.1 as int;
        assert(0 <= px * rows + py < cols * rows) by (nonlinear_arith)
            requires
                0 <= px < cols,
                0 <= py < rows,
        {}
        assert(mapped[i] == enc(p));
    }
}

/// On a grid that the snake and the food do not fill, some cell is free.
pub proof fn lemma_free_cell_exists(body: Seq<GamePos>, foods: Seq<GamePos>, cols: int, rows: int)
    requires
        body.no_duplicates(),
        foods.no_duplicates(),
        body_in_grid(body, cols, rows),
        body_in_grid(foods, cols, rows),
        forall|i: int| 0 <= i < foods.len() ==> !body.contains(#[trigger] foods[i]),
        1 <= cols <= i32::MAX,
        1 <= rows <= i32::MAX,
        body.len() + foods.len() < cols * rows,
    ensures
        has_free_cell(body, foods, cols, rows),
{
    broadcast use vstd::set::group_set_axioms;

    let all = body + foods;
    assert(all.len() == body.len() + foods.len());
    assert forall|i: int|
        0 <= i < all.len() implies pos_in_grid(
        (#[trigger] all[i]).0 as int,
        all[i].1 as int,
        cols,
        rows,
    ) by {
        if i < body.len() {
            assert(all[i] == body[i]);
        } else {
            assert(all[i] == foods[i - body.len()]);
        }
    }
    assert forall|i: int, j: int|
        (0 <= i < all.len() && 0 <= j < all.len() && i != j) implies all[i] != all[j] by {
        if i < body.len() && j < body.len() {
            assert(all[i] == body[i] && all[j] == body[j]);
        } else if i < body.len() && j >= body.len() {
            assert(all[i] == body[i] && all[j] == foods[j - body.len()]);
            assert(body.contains(body[i]));
        } else if i >= body.len() && j < body.len() {
            assert(all[i] == foods[i - body.len()] && all[j] == body[j]);
            assert(body.contains(body[j]));
        } else {
            assert(all[i] == foods[i - body.len()] && all[j] == foods[j - body.len()]);
        }
    }
    assert(all.no_duplicates());
    lemma_cell_codes(all, cols, rows);
    let enc = |p: GamePos| cell_code(p, rows);
    let taken = all.map_values(enc).to_set();
    let range = vstd::set_lib::set_int_range(0, cols * rows);
    vstd::set_lib::lemma_int_range(0, cols * rows);
    let free_codes = range.difference(taken);
    assert(range.subset_of(free_codes.union(taken)));
    vstd::set_lib::lemma_len_union(free_codes, taken);
    vstd::set_lib::lemma_len_subset(range, free_codes.union(taken));
    assert(free_codes.len() >= range.len() - taken.len());
    assert(free_codes.len() > 0);
    assert(exists|k: int| free_codes.contains(k)) by {
        if !(exists|k: int| free_codes.contains(k)) {
            assert(free_codes =~= Set::<int>::empty());
        }
    }
    let k = choose|k: int| free_codes.contains(k);
    assert(0 <= k < cols * rows);
    let px = k / rows;
    let py = k % rows;
    vstd::arithmetic::div_mod::lemma_fundamental_div_mod(k, rows);
    vstd::arithmetic::div_mod::lemma_mod_bound(k, rows);
    assert(k == rows * px + py);
    assert(0 <= py < rows);
    assert(0 <= px < cols) by (nonlinear_arith)
        requires
            k == rows * px + py,
            0 <= py < rows,
            0 <= k < cols * rows,
            1 <= rows,
    {}
    let p = GamePos(px as i32, py as i32);
    assert(p.0 as int == px && p.1 as int == py);
    assert(cell_code(p, rows) == px * rows + py);
    assert(px * rows == rows * px) by (nonlinear_arith);
    assert(cell_code(p, rows) == k);
    assert(!body.contains(p)) by {
        if body.contains(p) {
            let i = choose|i: int| 0 <= i < body.len() && body[i] == p;
            assert(all[i] == p);
            assert(all.map_values(enc)[i] == k);
            assert(taken.contains(k));
        }
    }
    assert(!foods.contains(p)) by {
        if foods.contains(p) {
            let i = choose|i: int| 0 <= i < foods.len() && foods[i] == p;
            assert(all[body.len() + i] == p);
            assert(all.map_values(enc)[body.len() + i] == k);
            assert(taken.contains(k));
        }
    }
    assert(cell_free(body, foods, cols, rows, px, py));
}

/// One tick of the session state machine: the waiting screen consumes it as a
/// no-op; the game-over screen feeds it to the delay timer and, on
/// completion, registers the score and returns to the waiting screen; play
/// advances the snake one step, ending the game on a wall or self collision,
/// and otherwise eating the food under the new head, if any, which bumps the
/// score, arms growth, and restocks one food item somewhere free.
pub open spec fn tick_transition(
    pre: GameView,
    post: GameView,
    store: StoreRead,
    r: Result<Option<u32>, HighscoreError>,
) -> bool
    recommends
        view_wf(pre),
{
    match pre.state {
        GameState::ToBegin => post == pre && r == Ok::<Option<u32>, HighscoreError>(None),
        GameState::GameOver => if delay_completes(pre.delay_acc, pre.interval, pre.delay_threshold) {
            &&& post == (GameView {
                state: GameState::ToBegin,
                score: 0u32,
                delay_acc: None::<u64>,
                cache: register_cache(pre.cache, store, pre.score),
                ..pre
            })
            &&& r == register_result(pre.cache, store, pre.score)
        } else {
            &&& post == (GameView {
                delay_acc: Some((accumulated(pre.delay_acc) + pre.interval) as u64),
                ..pre
            })
            &&& r == Ok::<Option<u32>, HighscoreError>(None)
        },
        GameState::Playing => {
            let tx = target_x(pre.body[0], pre.dir);
            let ty = target_y(pre.body[0], pre.dir);
            let kept = kept_body(pre.body, pre.pending);
            &&& r == Ok::<Option<u32>, HighscoreError>(None)
            &&& if !pos_in_grid(tx, ty, pre.columns, pre.rows) || coords_in_body(tx, ty, kept) {
                post == (GameView { state: GameState::GameOver, ..pre })
            } else {
                let hd = GamePos(tx as i32, ty as i32);
                &&& post.body == seq![hd] + kept
                &&& if pre.foods.contains(hd) {
                    let fi = pre.foods.index_of(hd);
                    let remaining = pre.foods.remove(fi);
                    &&& post == (GameView {
                        body: post.body,
                        foods: post.foods,
                        score: (pre.score + 1) as u32,
                        pending: true,
                        ..pre
                    })
                    &&& if has_free_cell(post.body, remaining, pre.columns, pre.rows) {
                        &&& post.foods.len() == pre.foods.len()
                        &&& post.foods == remaining.push(post.foods.last())
                    } else {
                        post.foods == remaining
                    }
                } else {
                    post == (GameView { body: post.body, pending: false, ..pre })
                }
            }
        },
    }
}

/// What an input intent does: begin starts a fresh game from the waiting
/// screen (snake reset to the grid centre, food restocked, score cleared); a
/// turn request during play is subject to the snake's reversal rule; all
/// other combinations are ignored.
pub open spec fn input_transition(pre: GameView, post: GameView, input: GameInput) -> bool {
    match (pre.state, input) {
        (GameState::ToBegin, GameInput::Begin) => {
            &&& post == (GameView {
                state: GameState::Playing,
                score: 0u32,
                body: seq![GamePos((pre.columns / 2) as i32, (pre.rows / 2) as i32)],
                dir: Direction::Right,
                pending: false,
                foods: post.foods,
                ..pre
            })
            &&& post.foods.len() == pre.food_target
        },
        (GameState::Playing, GameInput::Turn(d)) => post == (GameView {
            dir: if pre.body.len() >= 2 && d == opposite(pre.dir) {
                pre.dir
            } else {
                d
            },
            ..pre
        }),
        _ => post == pre,
    }
}

/// Relies on rand::Rng::gen_range: a sample drawn from the non-empty range
/// `0..bound` lies within it; the call panics only on an empty range, which
/// `bound >= 1` rules out.
#[verifier::external_body]
fn rand_below(bound: i32) -> (r: i32)
    requires
        1 <= bound,
    ensures
        0 <= r < bound,
{
    rand::thread_rng().gen_range(0..bound)
}

/// The session: one snake, a stock of food, the score, the phase, the two
/// timers, and the highscore service, on a fixed grid.
pub struct Game {
    snake: Snake,
    food: Vec<Food>,
    score: u32,
    state: GameState,
    tick_yield: Yield,
    game_over_yield: Yield,
    highscorer: HighscoreService,
    columns: i32,
    rows: i32,
    micros_per_update: u64,
    food_count: usize,
}

impl View for Game {
    type V = GameView;

    closed spec fn view(&self) -> GameView {
        GameView {
            body: self.snake.body(),
            dir: self.snake.dir(),
            pending: self.snake.pending_growth(),
            foods: self.food@.map_values(|f: Food| f.position),
            score: self.score,
            state: self.state,
            tick_acc: self.tick_yield.elapsed(),
            delay_acc: self.game_over_yield.elapsed(),
            cache: self.highscorer.cache(),
            columns: self.columns as int,
            rows: self.rows as int,
            interval: self.tick_yield.threshold(),
            delay_threshold: self.game_over_yield.threshold(),
            food_target: self.food_count as int,
        }
    }
}

impl Game {
    /// The session invariant, plus the internal ties between the stored
    /// configuration and the timers.
    pub closed spec fn wf(&self) -> bool {
        &&& view_wf(self@)
        &&& self.snake.wf()
        &&& self.tick_yield.wf()
        &&& self.game_over_yield.wf()
        &&& self.micros_per_update == self.tick_yield.threshold()
    }

    /// A fresh session on a `col_and_row` grid, ticking `updates_per_second`
    /// times per second and stocking `food_count` food items per game: on the
    /// waiting screen, snake parked at the grid centre, nothing placed yet.
    pub fn new(col_and_row: (i32, i32), updates_per_second: u32, food_count: usize) -> (game:
        Game)
        requires
            1 <= col_and_row.0,
            1 <= col_and_row.1,
            (col_and_row.0 as int) * (col_and_row.1 as int) <= u32::MAX as int,
            food_count as int + 1 <= (col_and_row.0 as int) * (col_and_row.1 as int),
            1 <= updates_per_second <= 1_000_000,
        ensures
            game.wf(),
            game@ == (GameView {
                body: seq![GamePos((col_and_row.0 / 2) as i32, (col_and_row.1 / 2) as i32)],
                dir: Direction::Right,
                pending: false,
                foods: Seq::<GamePos>::empty(),
                score: 0u32,
                state: GameState::ToBegin,
                tick_acc: None::<u64>,
                delay_acc: None::<u64>,
                cache: None::<u32>,
                columns: col_and_row.0 as int,
                rows: col_and_row.1 as int,
                interval: MICROS_PER_SECOND / updates_per_second as u64,
                delay_threshold: GAME_OVER_DELAY_MICROS,
                food_target: food_count as int,
            }),
    {
        let interval: u64 = MICROS_PER_SECOND / updates_per_second as u64;
        proof {
            vstd::arithmetic::div_mod::lemma_div_is_ordered_by_denominator(
                MICROS_PER_SECOND as int,
                updates_per_second as int,
                MICROS_PER_SECOND as int,
            );
            assert(interval >= 1);
        }
        let game = Game {
            snake: Snake::new(GamePos(col_and_row.0 / 2, col_and_row.1 / 2)),
            food: Vec::new(),
            score: 0,
            state: GameState::ToBegin,
            tick_yield: Yield::new(interval),
            game_over_yield: Yield::new(GAME_OVER_DELAY_MICROS),
            highscorer: HighscoreService::start(),
            columns: col_and_row.0,
            rows: col_and_row.1,
            micros_per_update: interval,
            food_count,
        };
        proof {
            assert(game@.foods =~= Seq::<GamePos>::empty());
            assert(game@ =~= (GameView {
                body: seq![GamePos((col_and_row.0 / 2) as i32, (col_and_row.1 / 2) as i32)],
                dir: Direction::Right,
                pending: false,
                foods: Seq::<GamePos>::empty(),
                score: 0u32,
                state: GameState::ToBegin,
                tick_acc: None::<u64>,
                delay_acc: None::<u64>,
                cache: None::<u32>,
                columns: col_and_row.0 as int,
                rows: col_and_row.1 as int,
                interval: MICROS_PER_SECOND / updates_per_second as u64,
                delay_threshold: GAME_OVER_DELAY_MICROS,
                food_target: food_count as int,
            }));
        }
        game
    }

    /// Puts a food item on `pos` if that cell lies on the grid and is free of
    /// the snake and of other food; reports whether it was placed.
    #[verifier::loop_isolation(false)]
    pub fn place_food(&mut self, pos: GamePos) -> (added: bool)
        requires
            old(self).wf(),
        ensures
            final(self).wf(),
            added == (pos_in_grid(pos.0 as int, pos.1 as int, old(self)@.columns, old(self)@.rows)
                && !old(self)@.body.contains(pos) && !old(self)@.foods.contains(pos)),
            added ==> final(self)@ == (GameView {
                foods: old(self)@.foods.push(pos),
                ..old(self)@
            }),
            !added ==> final(self)@ == old(self)@,
    {
        if pos.0 < 0 || pos.1 < 0 || pos.0 >= self.columns || pos.1 >= self.rows {
            return false;
        }
        if self.snake.would_collide(pos) {
            return false;
        }
        let mut i: usize = 0;
        while i < self.food.len()
            invariant
                i <= self.food@.len(),
                forall|k: int| 0 <= k < i ==> (#[trigger] self.food@[k]).position != pos,
            decreases self.food@.len() - i,
        {
            let fp = self.food[i].position;
            proof {
                assert(fp == self.food@[i as int].position);
                assert(self@.foods[i as int] == fp);
            }
            if fp.0 == pos.0 && fp.1 == pos.1 {
                proof {
                    assert(old(self)@.foods[i as int] == pos);
                }
                return false;
            }
            i += 1;
        }
        proof {
            assert(!old(self)@.foods.contains(pos)) by {
                if old(self)@.foods.contains(pos) {
                    let k = choose|k: int|
                        0 <= k < old(self)@.foods.len() && old(self)@.foods[k] == pos;
                    assert(self.food@[k].position == pos);
                }
            }
        }
        let ghost pre = self@;
        self.food.push(Food { position: pos });
        proof {
            assert(self@.foods =~= pre.foods.push(pos));
            assert(self@ =~= (GameView { foods: pre.foods.push(pos), ..pre }));
            assert forall|k: int| 0 <= k < self@.foods.len() implies !self@.body.contains(
                #[trigger] self@.foods[k],
            ) by {
                if k < pre.foods.len() {
                    assert(self@.foods[k] == pre.foods[k]);
                }
            }
            assert(self@.foods.no_duplicates()) by {
                assert(forall|k: int|
                    0 <= k < pre.foods.len() ==> #[trigger] pre.foods[k] != pos);
            }
        }
        true
    }

    /// Places one new food item by rejection sampling: draws uniformly random
    /// cells until one is free of the snake and of existing food. Rejection
    /// degrades as the grid fills, so after a bounded number of draws the
    /// search falls back to scanning the grid for its first free cell; only
    /// on a grid with no free cell at all does it place nothing.
    #[verifier::loop_isolation(false)]
    pub fn add_new_food(&mut self)
        requires
            old(self).wf(),
        ensures
            final(self).wf(),
            has_free_cell(
                old(self)@.body,
                old(self)@.foods,
                old(self)@.columns,
                old(self)@.rows,
            ) ==> ({
                &&& final(self)@.foods.len() == old(self)@.foods.len() + 1
                &&& final(self)@ == (GameView {
                    foods: old(self)@.foods.push(final(self)@.foods.last()),
                    ..old(self)@
                })
                &&& pos_in_grid(
                    final(self)@.foods.last().0 as int,
                    final(self)@.foods.last().1 as int,
                    old(self)@.columns,
                    old(self)@.rows,
                )
                &&& !old(self)@.body.contains(final(self)@.foods.last())
                &&& !old(self)@.foods.contains(final(self)@.foods.last())
            }),
            !has_free_cell(
                old(self)@.body,
                old(self)@.foods,
                old(self)@.columns,
                old(self)@.rows,
            ) ==> final(self)@ == old(self)@,
    {
        let mut tries: u32 = 0;
        while tries < FOOD_SAMPLE_ATTEMPTS
            invariant
                self.wf(),
                self@ == old(self)@,
            decreases FOOD_SAMPLE_ATTEMPTS - tries,
        {
            let x = rand_below(self.columns);
            let y = rand_below(self.rows);
            if self.place_food(GamePos(x, y)) {
                proof {
                    assert(cell_free(
                        old(self)@.body,
                        old(self)@.foods,
                        old(self)@.columns,
                        old(self)@.rows,
                        x as int,
                        y as int,
                    ));
                }
                return ;
            }
            tries += 1;
        }
        let mut px: i32 = 0;
        while px < self.columns
            invariant
                0 <= px <= self@.columns,
                self.wf(),
                self@ == old(self)@,
                forall|a: int, b: int|
                    0 <= a < px && 0 <= b < self@.rows ==> !cell_free(
                        self@.body,
                        self@.foods,
                        self@.columns,
                        self@.rows,
                        a,
                        b,
                    ),
            decreases self@.columns - px,
        {
            let mut py: i32 = 0;
            while py < self.rows
                invariant
                    0 <= py <= self@.rows,
                    0 <= px < self@.columns,
                    self.wf(),
                    self@ == old(self)@,
                    forall|a: int, b: int|
                        0 <= a < px && 0 <= b < self@.rows ==> !cell_free(
                            self@.body,
                            self@.foods,
                            self@.columns,
                            self@.rows,
                            a,
                            b,
                        ),
                    forall|b: int|
                        0 <= b < py ==> !cell_free(
                            self@.body,
                            self@.foods,
                            self@.columns,
                            self@.rows,
                            px as int,
                            b,
                        ),
                decreases self@.rows - py,
            {
                if self.place_food(GamePos(px, py)) {
                    proof {
                        assert(cell_free(
                            old(self)@.body,
                            old(self)@.foods,
                            old(self)@.columns,
                            old(self)@.rows,
                            px as int,
                            py as int,
                        ));
                    }
                    return ;
                }
                py += 1;
            }
            px += 1;
        }
        proof {
            if has_free_cell(self@.body, self@.foods, self@.columns, self@.rows) {
                let (a, b) = choose|a: int, b: int|
                    cell_free(self@.body, self@.foods, self@.columns, self@.rows, a, b);
                assert(!cell_free(self@.body, self@.foods, self@.columns, self@.rows, a, b));
            }
        }
    }

    /// Consumes one released tick, as `tick_transition` describes. The store
    /// argument is what the caller's latest read of the highscore store
    /// produced; a successful answer carries the value the caller should now
    /// persist, if any.
    #[verifier::loop_isolation(false)]
    pub fn tick(&mut self, store: &StoreRead) -> (r: Result<Option<u32>, HighscoreError>)
        requires
            old(self).wf(),
        ensures
            final(self).wf(),
            tick_transition(old(self)@, final(self)@, *store, r),
    {
        let ghost pre = self@;
        match self.state {
            GameState::ToBegin => Ok(None),
            GameState::GameOver => {
                let d = self.micros_per_update;
                if self.game_over_yield.completed_yield(d) {
                    let res = self.highscorer.register_score(self.score, store);
                    self.score = 0;
                    self.state = GameState::ToBegin;
                    proof {
                        assert(self@ =~= (GameView {
                            state: GameState::ToBegin,
                            score: 0u32,
                            delay_acc: None::<u64>,
                            cache: register_cache(pre.cache, *store, pre.score),
                            ..pre
                        }));
                    }
                    res
                } else {
                    proof {
                        assert(self@ =~= (GameView {
                            delay_acc: Some((accumulated(pre.delay_acc) + pre.interval) as u64),
                            ..pre
                        }));
                    }
                    Ok(None)
                }
            },
            GameState::Playing => {
                let result = self.snake.move_snake((self.columns, self.rows));
                match result {
                    MoveSnakeResult::GameOver => {
                        self.state = GameState::GameOver;
                        proof {
                            assert(self@ =~= (GameView { state: GameState::GameOver, ..pre }));
                        }
                        Ok(None)
                    },
                    MoveSnakeResult::Moved => {
                        let hd = self.snake.head();
                        proof {
                            assert(hd == GamePos(
                                target_x(pre.body[0], pre.dir) as i32,
                                target_y(pre.body[0], pre.dir) as i32,
                            ));
                            assert(self@ =~= (GameView {
                                body: self@.body,
                                pending: false,
                                ..pre
                            }));
                        }
                        let ghost mid = self@;
                        let ghost kept = kept_body(pre.body, pre.pending);
                        proof {
                            assert(mid.body == seq![hd] + kept);
                            assert(forall|j: int|
                                0 <= j < kept.len() ==> #[trigger] kept[j] == pre.body[j]);
                        }
                        let mut i: usize = 0;
                        while i < self.food.len()
                            invariant
                                i <= self.food@.len(),
                                self@ == mid,
                                self.micros_per_update == self.tick_yield.threshold(),
                                self.snake.wf(),
                                self.tick_yield.wf(),
                                self.game_over_yield.wf(),
                                forall|k: int|
                                    0 <= k < i ==> (#[trigger] self.food@[k]).position != hd,
                            decreases self.food@.len() - i,
                        {
                            let fp = self.food[i].position;
                            proof {
                                assert(fp == self.food@[i as int].position);
                                assert(pre.foods[i as int] == fp);
                            }
                            if fp.0 == hd.0 && fp.1 == hd.1 {
                                let ghost fseq = self.food@;
                                proof {
                                    assert(pre.foods[i as int] == hd);
                                    assert(pre.foods.contains(hd));
                                    assert(pre.foods.index_of(hd) == i as int) by {
                                        let fi = pre.foods.index_of(hd);
                                        assert(0 <= fi < pre.foods.len() && pre.foods[fi] == hd);
                                        if fi != i as int {
                                            assert(pre.foods[fi] != pre.foods[i as int]);
                                        }
                                    }
                                    lemma_body_len_bounded(mid.body, pre.columns, pre.rows);
                                    assert(pre.score + 1 == mid.body.len());
                                }
                                self.snake.mark_pending_growth();
                                self.score = self.score + 1;
                                let _eaten = self.food.remove(i);
                                proof {
                                    let rem = fseq.remove(i as int);
                                    assert(self.food@ == rem);
                                    assert forall|k: int|
                                        0 <= k < rem.len() implies (#[trigger] rem[k]).position
                                        == pre.foods.remove(i as int)[k] by {
                                        if k < i as int {
                                            assert(rem[k] == fseq[k]);
                                            assert(pre.foods.remove(i as int)[k] == pre.foods[k]);
                                        } else {
                                            assert(rem[k] == fseq[k + 1]);
                                            assert(pre.foods.remove(i as int)[k] == pre.foods[k
                                                + 1]);
                                        }
                                    }
                                    assert(self@.foods =~= pre.foods.remove(i as int));
                                }
                                let ghost mid2 = self@;
                                proof {
                                    assert(mid2 =~= (GameView {
                                        body: mid.body,
                                        foods: pre.foods.remove(i as int),
                                        score: (pre.score + 1) as u32,
                                        pending: true,
                                        ..pre
                                    }));
                                    let rf = pre.foods.remove(i as int);
                                    assert forall|a: int, b: int|
                                        (0 <= a < rf.len() && 0 <= b < rf.len() && a
                                            != b) implies rf[a] != rf[b] by {
                                        let a2: int = if a < i as int {
                                            a
                                        } else {
                                            a + 1
                                        };
                                        let b2: int = if b < i as int {
                                            b
                                        } else {
                                            b + 1
                                        };
                                        assert(rf[a] == pre.foods[a2]);
                                        assert(rf[b] == pre.foods[b2]);
                                    }
                                    assert forall|k: int| 0 <= k < rf.len() implies (pos_in_grid(
                                        (#[trigger] rf[k]).0 as int,
                                        rf[k].1 as int,
                                        pre.columns,
                                        pre.rows,
                                    ) && !mid2.body.contains(rf[k])) by {
                                        let k2: int = if k < i as int {
                                            k
                                        } else {
                                            k + 1
                                        };
                                        assert(rf[k] == pre.foods[k2]);
                                        assert(!pre.body.contains(pre.foods[k2]));
                                        assert(pre.foods[k2] != hd);
                                        if mid2.body.contains(rf[k]) {
                                            let j = choose|j: int|
                                                0 <= j < mid2.body.len() && mid2.body[j] == rf[k];
                                            assert(j > 0);
                                            assert(mid2.body[j] == kept[j - 1]);
                                            assert(kept[j - 1] == pre.body[j - 1]);
                                            assert(pre.body.contains(pre.foods[k2]));
                                        }
                                    }
                                    assert(view_wf(mid2));
                                    assert(self.wf());
                                }
                                self.add_new_food();
                                proof {
                                    assert(self@ =~= (GameView {
                                        body: self@.body,
                                        foods: self@.foods,
                                        score: (pre.score + 1) as u32,
                                        pending: true,
                                        ..pre
                                    }));
                                    assert(self@.body == seq![hd] + kept);
                                    if has_free_cell(mid2.body, mid2.foods, pre.columns, pre.rows) {
                                        assert(self@.foods == mid2.foods.push(
                                            self@.foods.last(),
                                        ));
                                        assert(self@.foods.len() == pre.foods.len());
                                    } else {
                                        assert(self@.foods == mid2.foods);
                                    }
                                }
                                return Ok(None);
                            }
                            i += 1;
                        }
                        proof {
                            assert(!pre.foods.contains(hd)) by {
                                if pre.foods.contains(hd) {
                                    let k = choose|k: int|
                                        0 <= k < pre.foods.len() && pre.foods[k] == hd;
                                    assert(self.food@[k].position == hd);
                                }
                            }
                            assert forall|k: int| 0 <= k < mid.foods.len() implies !mid
                                .body.contains(#[trigger] mid.foods[k]) by {
                                assert(mid.foods[k] == pre.foods[k]);
                                assert(!pre.body.contains(pre.foods[k]));
                                assert(self.food@[k].position != hd);
                                assert(pre.foods[k] != hd);
                                if mid.body.contains(mid.foods[k]) {
                                    let j = choose|j: int|
                                        0 <= j < mid.body.len() && mid.body[j] == mid.foods[k];
                                    assert(j > 0);
                                    assert(mid.body[j] == kept[j - 1]);
                                    assert(kept[j - 1] == pre.body[j - 1]);
                                    assert(pre.body.contains(pre.foods[k]));
                                }
                            }
                            assert(view_wf(self@));
                        }
                        Ok(None)
                    },
                }
            },
        }
    }

    /// Feeds one frame's elapsed time (in microseconds) to the tick throttle
    /// and, when a tick is released, consumes it. The throttle clears its
    /// accumulator on release, so one call releases at most one tick: this is
    /// the documented single-release policy, and a caller that wants catch-up
    /// behaviour after a long frame calls again with the remaining time.
    pub fn update(&mut self, delta: u64, store: &StoreRead) -> (r: Result<
        Option<u32>,
        HighscoreError,
    >)
        requires
            old(self).wf(),
        ensures
            final(self).wf(),
            if tick_released(old(self)@.tick_acc, delta, old(self)@.interval) {
                tick_transition(
                    (GameView { tick_acc: Some(0u64), ..old(self)@ }),
                    final(self)@,
                    *store,
                    r,
                )
            } else {
                final(self)@ == (GameView {
                    tick_acc: Some((accumulated(old(self)@.tick_acc) + delta) as u64),
                    ..old(self)@
                }) && r == Ok::<Option<u32>, HighscoreError>(None)
            },
    {
        let released = self.tick_yield.accumulate(delta);
        proof {
            if released {
                assert(self@ =~= (GameView { tick_acc: Some(0u64), ..old(self)@ }));
            } else {
                assert(self@ =~= (GameView {
                    tick_acc: Some((accumulated(old(self)@.tick_acc) + delta) as u64),
                    ..old(self)@
                }));
            }
            assert(self.wf());
        }
        if released {
            self.tick(store)
        } else {
            Ok(None)
        }
    }

    /// Applies one decoded input intent, as `input_transition` describes.
    #[verifier::loop_isolation(false)]
    pub fn handle_input(&mut self, input: GameInput)
        requires
            old(self).wf(),
        ensures
            final(self).wf(),
            input_transition(old(self)@, final(self)@, input),
    {
        match self.state {
            GameState::ToBegin => {
                match input {
                    GameInput::Begin => {
                        self.snake = Snake::new(GamePos(self.columns / 2, self.rows / 2));
                        self.food = Vec::new();
                        self.score = 0;
                        self.state = GameState::Playing;
                        let ghost mid = self@;
                        proof {
                            assert(mid.foods =~= Seq::<GamePos>::empty());
                            assert(mid =~= (GameView {
                                state: GameState::Playing,
                                score: 0u32,
                                body: seq![GamePos(
                                    (old(self)@.columns / 2) as i32,
                                    (old(self)@.rows / 2) as i32,
                                )],
                                dir: Direction::Right,
                                pending: false,
                                foods: Seq::<GamePos>::empty(),
                                ..old(self)@
                            }));
                            assert(self.wf());
                        }
                        let mut i: usize = 0;
                        while i < self.food_count
                            invariant
                                self.wf(),
                                self@ == (GameView { foods: self@.foods, ..mid }),
                                self@.foods.len() == i as int,
                                i as int <= self@.food_target,
                            decreases self@.food_target - i,
                        {
                            proof {
                                lemma_free_cell_exists(
                                    self@.body,
                                    self@.foods,
                                    self@.columns,
                                    self@.rows,
                                );
                            }
                            self.add_new_food();
                            i += 1;
                        }
                    },
                    GameInput::Turn(_) => {},
                }
            },
            GameState::Playing => {
                match input {
                    GameInput::Turn(d) => {
                        self.snake.set_direction(d);
                        proof {
                            assert(self@ =~= (GameView { dir: self@.dir, ..old(self)@ }));
                        }
                    },
                    GameInput::Begin => {},
                }
            },
            GameState::GameOver => {},
        }
    }

    /// The phase the session is in.
    pub fn state(&self) -> (s: GameState)
        ensures
            s == self@.state,
    {
        self.state
    }

    /// The current score.
    pub fn score(&self) -> (s: u32)
        ensures
            s == self@.score,
    {
        self.score
    }

    /// The snake's body cells, head first, for rendering.
    pub fn snake_cells(&self) -> (r: &Vec<GamePos>)
        ensures
            r@ == self@.body,
    {
        self.snake.cells()
    }

    /// The snake's direction of travel.
    pub fn direction(&self) -> (d: Direction)
        ensures
            d == self@.dir,
    {
        self.snake.current_direction()
    }

    /// The food positions, for rendering.
    #[verifier::loop_isolation(false)]
    pub fn food_positions(&self) -> (r: Vec<GamePos>)
        ensures
            r@ == self@.foods,
    {
        let mut r: Vec<GamePos> = Vec::new();
        let mut i: usize = 0;
        while i < self.food.len()
            invariant
                i <= self.food@.len(),
                r@ == self@.foods.subrange(0, i as int),
            decreases self.food@.len() - i,
        {
            r.push(self.food[i].position);
            proof {
                assert(r@ =~= self@.foods.subrange(0, i as int + 1));
            }
            i += 1;
        }
        proof {
            assert(self@.foods.subrange(0, self.food@.len() as int) =~= self@.foods);
        }
        r
    }

    /// The current highscore, read through the session's service: the cached
    /// value if present, otherwise what the store read denotes. A successful
    /// answer is cached.
    pub fn highscore(&mut self, store: &StoreRead) -> (r: Result<u32, HighscoreError>)
        requires
            old(self).wf(),
        ensures
            final(self).wf(),
            r == current_high(old(self)@.cache, *store),
            final(self)@ == (GameView { cache: final(self)@.cache, ..old(self)@ }),
            final(self)@.cache == (match r {
                Ok(v) => Some(v),
                Err(_) => old(self)@.cache,
            }),
    {
        let r = self.highscorer.get_highscore(store);
        proof {
            assert(self@ =~= (GameView { cache: self@.cache, ..old(self)@ }));
        }
        r
    }

    /// Whether the session's current score strictly beats the highscore.
    pub fn is_new_highscore(&mut self, store: &StoreRead) -> (r: Result<bool, HighscoreError>)
        requires
            old(self).wf(),
        ensures
            final(self).wf(),
            r == (match current_high(old(self)@.cache, *store) {
                Ok(h) => Ok::<bool, HighscoreError>(old(self)@.score > h),
                Err(e) => Err::<bool, HighscoreError>(e),
            }),
            final(self)@ == (GameView { cache: final(self)@.cache, ..old(self)@ }),
    {
        let s = self.score;
        let r = self.highscorer.is_new_highscore(s, store);
        proof {
            assert(self@ =~= (GameView { cache: self@.cache, ..old(self)@ }));
        }
        r
    }
}


} // verus!
