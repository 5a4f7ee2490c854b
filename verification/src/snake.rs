use vstd::prelude::*;

use crate::game::{GameObject, GamePos};

verus! {

/// A compass direction of travel on the grid.
#[derive(Clone, Copy, PartialEq, Eq, Structural, Debug)]
pub enum Direction {
    Left,
    Right,
    Up,
    Down,
}

/// Observable outcome of one grid step.
#[derive(Clone, Copy, PartialEq, Eq, Structural, Debug)]
pub enum MoveSnakeResult {
    Moved,
    GameOver,
}

/// The direction exactly opposite to `d`.
pub open spec fn opposite(d: Direction) -> Direction {
    match d {
        Direction::Left => Direction::Right,
        Direction::Right => Direction::Left,
        Direction::Up => Direction::Down,
        Direction::Down => Direction::Up,
    }
}

/// Horizontal displacement of one step in direction `d`.
pub open spec fn dir_dx(d: Direction) -> int {
    match d {
        Direction::Left => -1,
        Direction::Right => 1,
        Direction::Up => 0,
        Direction::Down => 0,
    }
}

/// Vertical displacement of one step in direction `d`.
pub open spec fn dir_dy(d: Direction) -> int {
    match d {
        Direction::Left => 0,
        Direction::Right => 0,
        Direction::Up => -1,
        Direction::Down => 1,
    }
}

/// Column of the cell one step from `p` in direction `d`.
pub open spec fn target_x(p: GamePos, d: Direction) -> int {
    p.0 + dir_dx(d)
}

/// Row of the cell one step from `p` in direction `d`.
pub open spec fn target_y(p: GamePos, d: Direction) -> int {
    p.1 + dir_dy(d)
}

/// Whether the cell `(x, y)` lies on a grid of `cols` columns and `rows` rows.
pub open spec fn pos_in_grid(x: int, y: int, cols: int, rows: int) -> bool {
    0 <= x < cols && 0 <= y < rows
}

/// All cells of `body` lie on the grid.
pub open spec fn body_in_grid(body: Seq<GamePos>, cols: int, rows: int) -> bool {
    forall|i: int|
        0 <= i < body.len() ==> pos_in_grid(
            (#[trigger] body[i]).0 as int,
            body[i].1 as int,
            cols,
            rows,
        )
}

/// The cells a body keeps when it advances: the whole body while growth is
/// pending, otherwise everything but the tail.
pub open spec fn kept_body(body: Seq<GamePos>, pending: bool) -> Seq<GamePos> {
    if pending {
        body
    } else {
        body.drop_last()
    }
}

/// Whether the cell `(x, y)` equals some cell of `body`.
pub open spec fn coords_in_body(x: int, y: int, body: Seq<GamePos>) -> bool {
    exists|i: int|
        0 <= i < body.len() && (#[trigger] body[i]).0 as int == x && body[i].1 as int == y
}

/// The observable outcome of one step from the front of `body`: game over on
/// leaving the grid or on revisiting a kept cell, otherwise a move.
pub open spec fn step_outcome(
    body: Seq<GamePos>,
    d: Direction,
    pending: bool,
    cols: int,
    rows: int,
) -> MoveSnakeResult
    recommends
        body.len() >= 1,
{
    let x = target_x(body[0], d);
    let y = target_y(body[0], d);
    if !pos_in_grid(x, y, cols, rows) || coords_in_body(x, y, kept_body(body, pending)) {
        MoveSnakeResult::GameOver
    } else {
        MoveSnakeResult::Moved
    }
}

/// The snake: an ordered body of grid cells (front = head, back = tail), a
/// direction of travel, and a one-shot growth flag consumed by the next step.
pub struct Snake {
    parts: Vec<GamePos>,
    direction: Direction,
    just_ate: bool,
}

impl Snake {
    /// The body cells, front first.
    pub closed spec fn body(&self) -> Seq<GamePos> {
        self.parts@
    }

    /// The current direction of travel.
    pub closed spec fn dir(&self) -> Direction {
        self.direction
    }

    /// Whether the next step retains the tail.
    pub closed spec fn pending_growth(&self) -> bool {
        self.just_ate
    }

    /// A live snake is non-empty and never overlaps itself.
    pub open spec fn wf(&self) -> bool {
        self.body().len() >= 1 && self.body().no_duplicates()
    }

    /// A single-cell body at `first_part`, travelling right, no growth pending.
    pub fn new(first_part: GamePos) -> (snake: Snake)
        ensures
            snake.body() == seq![first_part],
            snake.dir() == Direction::Right,
            !snake.pending_growth(),
            snake.wf(),
    {
        let mut parts: Vec<GamePos> = Vec::new();
        parts.push(first_part);
        proof {
            assert(parts@ =~= seq![first_part]);
        }
        Snake { parts, direction: Direction::Right, just_ate: false }
    }

    /// Applies the reversal rule: with a body of two or more cells the exact
    /// opposite of the current direction is ignored; otherwise the request is
    /// taken and acts on the next step.
    pub fn set_direction(&mut self, requested: Direction)
        ensures
            final(self).body() == old(self).body(),
            final(self).pending_growth() == old(self).pending_growth(),
            final(self).dir() == (if old(self).body().len() >= 2 && requested == opposite(
                old(self).dir(),
            ) {
                old(self).dir()
            } else {
                requested
            }),
    {
        let denied = match self.direction {
            Direction::Right => Direction::Left,
            Direction::Left => Direction::Right,
            Direction::Up => Direction::Down,
            Direction::Down => Direction::Up,
        };
        if self.parts.len() < 2 || requested != denied {
            self.direction = requested;
        }
    }

    /// Sets the one-shot growth flag; the next step keeps the tail.
    pub fn mark_pending_growth(&mut self)
        ensures
            final(self).body() == old(self).body(),
            final(self).dir() == old(self).dir(),
            final(self).pending_growth(),
    {
        self.just_ate = true;
    }

    /// The head cell.
    pub fn head(&self) -> (h: GamePos)
        requires
            self.body().len() >= 1,
        ensures
            h == self.body()[0],
    {
        self.parts[0]
    }

    /// The body cells, front first.
    pub fn cells(&self) -> (r: &Vec<GamePos>)
        ensures
            r@ == self.body(),
    {
        &self.parts
    }

    /// The current direction of travel.
    pub fn current_direction(&self) -> (d: Direction)
        ensures
            d == self.dir(),
    {
        self.direction
    }

    /// Advances the body one cell in the current direction: drops the tail
    /// unless growth is pending, then either reports game over (off the grid,
    /// or onto a kept cell) leaving the body as it was, or pushes the new head.
    #[verifier::loop_isolation(false)]
    pub fn move_snake(&mut self, col_and_row: (i32, i32)) -> (result: MoveSnakeResult)
        requires
            old(self).wf(),
            1 <= col_and_row.0,
            1 <= col_and_row.1,
            body_in_grid(old(self).body(), col_and_row.0 as int, col_and_row.1 as int),
        ensures
            final(self).wf(),
            final(self).dir() == old(self).dir(),
            result == step_outcome(
                old(self).body(),
                old(self).dir(),
                old(self).pending_growth(),
                col_and_row.0 as int,
                col_and_row.1 as int,
            ),
            result == MoveSnakeResult::GameOver ==> final(self).body() == old(self).body()
                && final(self).pending_growth() == old(self).pending_growth(),
            result == MoveSnakeResult::Moved ==> ({
                &&& final(self).body() == seq![final(self).body()[0]] + kept_body(
                    old(self).body(),
                    old(self).pending_growth(),
                )
                &&& final(self).body()[0].0 as int == target_x(old(self).body()[0], old(self).dir())
                &&& final(self).body()[0].1 as int == target_y(old(self).body()[0], old(self).dir())
                &&& !final(self).pending_growth()
                &&& body_in_grid(final(self).body(), col_and_row.0 as int, col_and_row.1 as int)
            }),
    {
        let head = self.parts[0];
        let mut nx: i32 = head.0;
        let mut ny: i32 = head.1;
        match self.direction {
            Direction::Left => {
                nx = head.0 - 1;
            },
            Direction::Right => {
                nx = head.0 + 1;
            },
            Direction::Up => {
                ny = head.1 - 1;
            },
            Direction::Down => {
                ny = head.1 + 1;
            },
        }
        if nx < 0 || ny < 0 || nx >= col_and_row.0 || ny >= col_and_row.1 {
            return MoveSnakeResult::GameOver;
        }
        let target = GamePos(nx, ny);
        let ghost kept = kept_body(self.parts@, self.just_ate);
        let check_len: usize = if self.just_ate {
            self.parts.len()
        } else {
            self.parts.len() - 1
        };
        proof {
            assert(kept.len() == check_len);
            assert(forall|k: int| 0 <= k < kept.len() ==> kept[k] == self.parts@[k]);
        }
        let mut i: usize = 0;
        while i < check_len
            invariant
                i <= check_len,
                check_len <= self.parts@.len(),
                self == old(self),
                kept == kept_body(self.parts@, self.just_ate),
                kept.len() == check_len,
                forall|k: int| 0 <= k < kept.len() ==> kept[k] == self.parts@[k],
                forall|k: int| 0 <= k < i ==> kept[k] != target,
            decreases check_len - i,
        {
            let p = self.parts[i];
            proof {
                assert(p == self.parts@[i as int]);
                assert(kept[i as int] == self.parts@[i as int]);
            }
            if p.0 == nx && p.1 == ny {
                proof {
                    assert(coords_in_body(nx as int, ny as int, kept));
                }
                return MoveSnakeResult::GameOver;
            }
            proof {
                assert(target.0 == nx && target.1 == ny);
                assert(kept[i as int] != target);
            }
            i += 1;
        }
        proof {
            assert(forall|k: int| 0 <= k < kept.len() ==> kept[k] != target);
            assert(!coords_in_body(nx as int, ny as int, kept)) by {
                if coords_in_body(nx as int, ny as int, kept) {
                    let k = choose|k: int|
                        0 <= k < kept.len() && (#[trigger] kept[k]).0 as int == nx as int
                            && kept[k].1 as int == ny as int;
                    assert(kept[k] == target);
                }
            }
        }
        if self.just_ate {
            self.just_ate = false;
        } else {
            let _dropped = self.parts.pop();
        }
        proof {
            assert(self.parts@ =~= kept);
        }
        self.parts.insert(0, target);
        proof {
            assert(self.parts@ =~= seq![target] + kept);
            assert(self.parts@[0] == target);
            assert forall|a: int, b: int|
                (0 <= a < self.parts@.len() && 0 <= b < self.parts@.len() && a != b) implies self
                .parts@[a] != self.parts@[b] by {
                if a == 0 {
                    assert(self.parts@[b] == kept[b - 1]);
                } else if b == 0 {
                    assert(self.parts@[a] == kept[a - 1]);
                } else {
                    assert(self.parts@[a] == kept[a - 1]);
                    assert(self.parts@[b] == kept[b - 1]);
                    assert(kept[a - 1] == old(self).body()[a - 1]);
                    assert(kept[b - 1] == old(self).body()[b - 1]);
                }
            }
        }
        MoveSnakeResult::Moved
    }
}

impl GameObject for Snake {
    open spec fn occupied(&self, pos: GamePos) -> bool {
        self.body().contains(pos)
    }

    #[verifier::loop_isolation(false)]
    fn would_collide(&self, pos: GamePos) -> (hit: bool) {
        let mut i: usize = 0;
        while i < self.parts.len()
            invariant
                i <= self.parts@.len(),
                forall|k: int| 0 <= k < i ==> self.parts@[k] != pos,
            decreases self.parts@.len() - i,
        {
            if self.parts[i].0 == pos.0 && self.parts[i].1 == pos.1 {
                proof {
                    assert(self.parts@[i as int] == pos);
                }
                return true;
            }
            i += 1;
        }
        proof {
            assert(!self.body().contains(pos)) by {
                if self.body().contains(pos) {
                    let k = choose|k: int| 0 <= k < self.body().len() && self.body()[k] == pos;
                    assert(self.parts@[k] != pos);
                }
            }
        }
        false
    }
}

/// Stepping off any of the four grid edges always ends the game.
pub proof fn lemma_wall_hit_ends_game(
    body: Seq<GamePos>,
    d: Direction,
    pending: bool,
    cols: int,
    rows: int,
)
    requires
        body.len() >= 1,
        !pos_in_grid(target_x(body[0], d), target_y(body[0], d), cols, rows),
    ensures
        step_outcome(body, d, pending, cols, rows) == MoveSnakeResult::GameOver,
{
}

/// A step that would revisit a kept cell of the body ends the game; a step
/// onto an in-grid cell held by no kept cell is a move.
pub proof fn lemma_self_collision_rule(
    body: Seq<GamePos>,
    d: Direction,
    pending: bool,
    cols: int,
    rows: int,
)
    requires
        body.len() >= 1,
    ensures
        coords_in_body(
            target_x(body[0], d),
            target_y(body[0], d),
            kept_body(body, pending),
        ) ==> step_outcome(body, d, pending, cols, rows) == MoveSnakeResult::GameOver,
        (pos_in_grid(target_x(body[0], d), target_y(body[0], d), cols, rows)
            && !coords_in_body(
            target_x(body[0], d),
            target_y(body[0], d),
            kept_body(body, pending),
        )) ==> step_outcome(body, d, pending, cols, rows) == MoveSnakeResult::Moved,
{
}

/// After a move the body is the stepped-to cell followed by the kept cells:
/// its length is unchanged without pending growth, grows by exactly one with
/// it, and no cell outside those is occupied.
pub proof fn lemma_moved_body_shape(body: Seq<GamePos>, pending: bool, hd: GamePos)
    requires
        body.len() >= 1,
    ensures
        (seq![hd] + kept_body(body, pending)).len() == body.len() + (if pending {
            1int
        } else {
            0int
        }),
        forall|p: GamePos|
            (seq![hd] + kept_body(body, pending)).contains(p) <==> (p == hd || kept_body(
                body,
                pending,
            ).contains(p)),
{
    let kept = kept_body(body, pending);
    let nb = seq![hd] + kept;
    assert forall|p: GamePos| nb.contains(p) implies (p == hd || kept.contains(p)) by {
        let i = choose|i: int| 0 <= i < nb.len() && nb[i] == p;
        if i > 0 {
            assert(kept[i - 1] == p);
        }
    }
    assert forall|p: GamePos| (p == hd || kept.contains(p)) implies nb.contains(p) by {
        if p == hd {
            assert(nb[0] == p);
        } else {
            let i = choose|i: int| 0 <= i < kept.len() && kept[i] == p;
            assert(nb[i + 1] == p);
        }
    }
}

/// A self-avoiding body whose cells all lie on a `cols` by `rows` grid has at
/// most `cols * rows` cells.
pub proof fn lemma_body_len_bounded(body: Seq<GamePos>, cols: int, rows: int)
    requires
        body.no_duplicates(),
        body_in_grid(body, cols, rows),
        0 <= cols,
        0 <= rows,
    ensures
        body.len() <= cols * rows,
{
    broadcast use vstd::set::group_set_axioms;

    let enc = |p: GamePos| (p.0 as int) * rows + (p.1 as int);
    let mapped = body.map_values(enc);
    assert(mapped.len() == body.len());
    assert forall|i: int, j: int|
        (0 <= i < mapped.len() && 0 <= j < mapped.len() && i != j) implies mapped[i] != mapped[j] by {
        let p = body[i];
        let q = body[j];
        assert(p != q);
        assert(pos_in_grid(p.0 as int, p.1 as int, cols, rows));
        assert(pos_in_grid(q.0 as int, q.1 as int, cols, rows));
        let px = p.0 as int;
        let py = p.1 as int;
        let qx = q.0 as int;
        let qy = q.1 as int;
        assert(px * rows + py != qx * rows + qy) by (nonlinear_arith)
            requires
                0 <= py < rows,
                0 <= qy < rows,
                px != qx || py != qy,
        {}
        assert(mapped[i] == enc(p));
        assert(mapped[j] == enc(q));
    }
    assert(mapped.no_duplicates());
    mapped.unique_seq_to_set();
    let range = vstd::set_lib::set_int_range(0, cols * rows);
    vstd::set_lib::lemma_int_range(0, cols * rows);
    assert forall|x: int| mapped.to_set().contains(x) implies range.contains(x) by {
        assert(mapped.contains(x));
        let i = choose|i: int| 0 <= i < mapped.len() && mapped[i] == x;
        let p = body[i];
        assert(pos_in_grid(p.0 as int, p.1 as int, cols, rows));
        let px = p.0 as int;
        let py = p.1 as int;
        assert(0 <= px * rows + py < cols * rows) by (nonlinear_arith)
            requires
                0 <= px < cols,
                0 <= py < rows,
        {}
        assert(mapped[i] == enc(p));
    }
    assert(mapped.to_set().subset_of(range));
    vstd::set_lib::lemma_len_subset(mapped.to_set(), range);
}

} // verus!
