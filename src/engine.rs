//! The game as a tick-driven state machine: direction commands are buffered,
//! and each call of `advance` moves the snake, ends the game on a
//! self-collision or on leaving the playfield, and grows the snake on food.

use vstd::prelude::*;
use crate::board::{
    Board, Direction, Position, abs, lemma_drawable_inside, lemma_snap_same,
    lemma_step_from_inside, opposite, snap_up,
};
use vstd::arithmetic::div_mod::lemma_mod_multiples_basic;
use crate::snake::{Snake, collides, occupied, shifted};

verus! {

/// How many random cells are tried for new food before one under the snake
/// is accepted.
pub const FOOD_ATTEMPTS: u32 = 64;

#[derive(Clone, Copy, Debug, PartialEq, Eq, Structural)]
pub enum GameStatus {
    Running,
    Over,
}

/// The abstract state of a game.
pub struct EngineState {
    pub board: Board,
    /// Segments, head first.
    pub segments: Seq<Position>,
    /// The direction of the last move.
    pub direction: Direction,
    /// The direction that the next move takes.
    pub pending: Direction,
    pub food: Position,
    pub over: bool,
}

impl EngineState {
    /// The invariant of every reachable state: a non-empty body on the grid,
    /// never more than one cell outside the playfield; while running, every
    /// segment but the last inside it; food on the grid inside it.
    pub open spec fn wf(self) -> bool {
        &&& self.board.valid()
        &&& self.segments.len() >= 1
        &&& forall|i: int|
            0 <= i < self.segments.len() ==> #[trigger] self.board.on_grid(self.segments[i])
                && self.board.near(self.segments[i])
        &&& !self.over ==> self.board.contains_spec(self.segments[0])
        &&& !self.over ==> forall|i: int|
            0 <= i < self.segments.len() - 1 ==> #[trigger] self.board.contains_spec(
                self.segments[i],
            )
        &&& self.board.on_grid(self.food)
        &&& self.board.contains_spec(self.food)
    }

    /// A direction command is taken unless the game is over or it would
    /// reverse a snake of more than one segment.
    pub open spec fn accepts_turn(self, d: Direction) -> bool {
        !self.over && !(self.segments.len() > 1 && d == opposite(self.direction))
    }

    /// Where the head goes on the next move.
    pub open spec fn moved_head(self) -> Position {
        self.board.step_spec(self.segments[0], self.pending)
    }

    /// The body after the next move, before any growth.
    pub open spec fn moved_body(self) -> Seq<Position> {
        shifted(self.segments, self.moved_head())
    }

    /// The next move runs the head into the body or out of the playfield.
    pub open spec fn ends_game(self) -> bool {
        collides(self.moved_body()) || !self.board.contains_spec(self.moved_head())
    }

    /// The next move brings the head onto the food, and the game goes on.
    pub open spec fn eats(self) -> bool {
        !self.ends_game() && self.moved_head() == self.food
    }

    /// The body after a move onto food: one more segment, one cell past the
    /// tail along the direction of travel.
    pub open spec fn grown_body(self) -> Seq<Position> {
        self.moved_body().push(self.board.step_spec(self.moved_body().last(), self.pending))
    }
}

/// Some position that a food draw can produce lies off `body`.
pub open spec fn has_free_cell(b: Board, body: Seq<Position>) -> bool {
    exists|q: Position| #[trigger] b.drawable(b.spec_cell_size(), q) && !occupied(body, q)
}

/// `post` is `pre` after a direction command `d`.
pub open spec fn turned(pre: EngineState, post: EngineState, d: Direction) -> bool {
    post == (if pre.accepts_turn(d) {
        EngineState { pending: d, ..pre }
    } else {
        pre
    })
}

/// `post` is `pre` after one tick. Over is terminal; otherwise the pending
/// direction is committed, the snake moves, the game ends on a collision or
/// on leaving the playfield, and on food the snake grows and new food is
/// drawn with a margin of one cell, off the snake whenever such a cell exists.
pub open spec fn advanced(pre: EngineState, post: EngineState) -> bool {
    if pre.over {
        post == pre
    } else {
        &&& post.board == pre.board
        &&& post.direction == pre.pending
        &&& post.pending == pre.pending
        &&& post.over == pre.ends_game()
        &&& post.segments == (if pre.eats() {
            pre.grown_body()
        } else {
            pre.moved_body()
        })
        &&& if pre.eats() {
            &&& pre.board.drawable(pre.board.spec_cell_size(), post.food)
            &&& has_free_cell(pre.board, post.segments) ==> !occupied(post.segments, post.food)
        } else {
            post.food == pre.food
        }
    }
}

pub struct GameEngine {
    board: Board,
    snake: Snake,
    pending: Direction,
    food: Position,
    over: bool,
}

impl View for GameEngine {
    type V = EngineState;

    closed spec fn view(&self) -> EngineState {
        EngineState {
            board: self.board,
            segments: self.snake.body(),
            direction: self.snake.heading(),
            pending: self.pending,
            food: self.food,
            over: self.over,
        }
    }
}

/// After a move from a running state every segment is on the grid, at most
/// one cell outside the playfield, and all but the head are inside it.
proof fn lemma_moved_body(pre: EngineState)
    requires
        pre.wf(),
        !pre.over,
    ensures
        pre.moved_body().len() == pre.segments.len(),
        forall|i: int|
            0 <= i < pre.segments.len() ==> #[trigger] pre.board.on_grid(pre.moved_body()[i])
                && pre.board.near(pre.moved_body()[i]),
        forall|i: int|
            1 <= i < pre.segments.len() ==> #[trigger] pre.board.contains_spec(
                pre.moved_body()[i],
            ),
{
    let b = pre.board;
    let n = pre.segments.len();
    let mb = pre.moved_body();
    lemma_step_from_inside(b, pre.segments[0], pre.pending);
    assert forall|i: int| 1 <= i < n implies #[trigger] mb[i] == pre.segments[i - 1] by {}
    assert forall|i: int| 0 <= i < n implies #[trigger] b.on_grid(mb[i]) && b.near(mb[i]) by {
        if i > 0 {
            assert(mb[i] == pre.segments[i - 1]);
        }
    }
    assert forall|i: int| 1 <= i < n implies #[trigger] b.contains_spec(mb[i]) by {
        assert(mb[i] == pre.segments[i - 1]);
    }
}

/// Every tick keeps the invariant of reachable states.
pub proof fn lemma_advance_keeps_wf(pre: EngineState, post: EngineState)
    requires
        pre.wf(),
        advanced(pre, post),
    ensures
        post.wf(),
{
    if !pre.over {
        let b = pre.board;
        let n = pre.segments.len();
        let mb = pre.moved_body();
        lemma_moved_body(pre);
        if pre.eats() {
            let g = pre.grown_body();
            assert(b.contains_spec(mb[n - 1]));
            lemma_step_from_inside(b, mb[n - 1], pre.pending);
            assert forall|i: int| 0 <= i < n + 1 implies #[trigger] b.on_grid(g[i]) && b.near(g[i]) by {
                if i < n {
                    assert(g[i] == mb[i]);
                }
            }
            assert forall|i: int| 0 <= i < n implies #[trigger] b.contains_spec(g[i]) by {
                assert(g[i] == mb[i]);
            }
            lemma_drawable_inside(b, b.spec_cell_size(), post.food);
        }
    }
}

/// A direction command keeps the invariant of reachable states.
pub proof fn lemma_turn_keeps_wf(pre: EngineState, post: EngineState, d: Direction)
    requires
        pre.wf(),
        turned(pre, post, d),
    ensures
        post.wf(),
{
}

/// `post` follows `pre` by one tick or by one direction command.
pub open spec fn follows(pre: EngineState, post: EngineState) -> bool {
    advanced(pre, post) || exists|d: Direction| #[trigger] turned(pre, post, d)
}

/// A tick never shortens the snake: it keeps its length or gains one segment.
pub proof fn lemma_tick_never_shrinks(pre: EngineState, post: EngineState)
    requires
        pre.wf(),
        advanced(pre, post),
    ensures
        post.segments.len() == pre.segments.len() || post.segments.len() == pre.segments.len() + 1,
{
}

/// Every segment of a reachable state lies on the grid.
pub proof fn lemma_segments_on_grid(s: EngineState)
    requires
        s.wf(),
    ensures
        forall|i: int| 0 <= i < s.segments.len() ==> #[trigger] s.board.on_grid(s.segments[i]),
{
}

/// Along any run of ticks and direction commands from a reachable state,
/// every state is reachable, every segment lies on the grid, and the snake
/// never gets shorter.
pub proof fn lemma_run(run: Seq<EngineState>)
    requires
        run.len() >= 1,
        run[0].wf(),
        forall|k: int| 0 <= k < run.len() - 1 ==> #[trigger] follows(run[k], run[k + 1]),
    ensures
        forall|k: int| 0 <= k < run.len() ==> #[trigger] run[k].wf(),
        forall|k: int, i: int|
            0 <= k < run.len() && 0 <= i < run[k].segments.len() ==> run[k].board.on_grid(
                #[trigger] run[k].segments[i],
            ),
        forall|k: int, m: int|
            0 <= k <= m < run.len() ==> #[trigger] run[k].segments.len()
                <= #[trigger] run[m].segments.len(),
    decreases run.len(),
{
    if run.len() > 1 {
        let init = run.drop_last();
        assert forall|k: int| 0 <= k < init.len() - 1 implies #[trigger] follows(init[k], init[k + 1]) by {
            assert(follows(run[k], run[k + 1]));
        }
        lemma_run(init);
        let n = run.len() - 1;
        let prev = run[n - 1];
        let last = run[n];
        assert(init[n - 1] == prev);
        assert(prev.wf());
        assert(follows(run[n - 1], run[(n - 1) + 1]));
        if advanced(prev, last) {
            lemma_advance_keeps_wf(prev, last);
            lemma_tick_never_shrinks(prev, last);
        } else {
            let d = choose|d: Direction| #[trigger] turned(prev, last, d);
            lemma_turn_keeps_wf(prev, last, d);
        }
        assert forall|k: int| 0 <= k < run.len() implies #[trigger] run[k].wf() by {
            if k < n {
                assert(init[k] == run[k]);
            }
        }
        assert forall|k: int, m: int|
            0 <= k <= m < run.len() implies #[trigger] run[k].segments.len()
                <= #[trigger] run[m].segments.len() by {
            if m < n {
                assert(init[k] == run[k]);
                assert(init[m] == run[m]);
            } else if k < n {
                assert(init[k] == run[k]);
                assert(init[n - 1].segments.len() >= init[k].segments.len());
            }
        }
    }
    assert forall|k: int, i: int|
        0 <= k < run.len() && 0 <= i < run[k].segments.len() implies run[k].board.on_grid(
            #[trigger] run[k].segments[i],
        ) by {
        assert(run[k].wf());
    }
}

/// A move that brings the head onto another segment ends the game, and the
/// snake stays where the move put it.
pub proof fn lemma_collision_ends_game(pre: EngineState, post: EngineState)
    requires
        pre.wf(),
        !pre.over,
        advanced(pre, post),
        collides(pre.moved_body()),
    ensures
        post.over,
        post.segments == pre.moved_body(),
{
}

/// A move that takes the head to the edge of the playfield or beyond, on
/// either axis, ends the game.
pub proof fn lemma_leaving_ends_game(pre: EngineState, post: EngineState)
    requires
        pre.wf(),
        !pre.over,
        advanced(pre, post),
        abs(pre.moved_head().x as int) >= pre.board.spec_half_width() || abs(
            pre.moved_head().y as int,
        ) >= pre.board.spec_half_height(),
    ensures
        post.over,
{
}

/// A tick that leaves the game running with the head on the food grows the
/// snake by exactly one segment and puts new food on the grid inside the
/// playfield, off the snake whenever a food draw could land off it.
pub proof fn lemma_eating_grows(pre: EngineState, post: EngineState)
    requires
        pre.wf(),
        !pre.over,
        advanced(pre, post),
        !post.over,
        post.segments[0] == pre.food,
    ensures
        post.segments.len() == pre.segments.len() + 1,
        post.board.on_grid(post.food),
        post.board.contains_spec(post.food),
        has_free_cell(post.board, post.segments) ==> !occupied(post.segments, post.food),
{
    assert(pre.moved_body()[0] == pre.moved_head());
    assert(pre.grown_body()[0] == pre.moved_head());
    lemma_advance_keeps_wf(pre, post);
}

/// A snake of two or more segments heading right ignores a command to
/// turn left: the next tick still moves it right.
pub proof fn lemma_reversal_ignored(
    pre: EngineState,
    mid: EngineState,
    post: EngineState,
)
    requires
        pre.wf(),
        pre.segments.len() >= 2,
        pre.direction == Direction::Right,
        pre.pending == Direction::Right,
        turned(pre, mid, Direction::Left),
        advanced(mid, post),
    ensures
        post.direction == Direction::Right,
        !pre.over ==> post.segments[0] == pre.board.step_spec(pre.segments[0], Direction::Right),
{
    assert(mid == pre);
    if !pre.over {
        assert(pre.moved_body()[0] == pre.moved_head());
        assert(pre.grown_body()[0] == pre.moved_head());
    }
}

/// The direction reached by a quarter turn anticlockwise.
pub open spec fn quarter_turn(d: Direction) -> Direction {
    match d {
        Direction::Right => Direction::Up,
        Direction::Up => Direction::Left,
        Direction::Left => Direction::Down,
        Direction::Down => Direction::Right,
    }
}

/// `p` and `q` lie on one line along direction `d`.
pub open spec fn in_line(p: Position, q: Position, d: Direction) -> bool {
    match d {
        Direction::Left | Direction::Right => p.y == q.y,
        Direction::Up | Direction::Down => p.x == q.x,
    }
}

/// Three quarter turns in one sense drive a snake of five or more
/// segments, lying on the line of its travel with its second segment right
/// behind the head, into its own body: the game still runs after the first
/// two moves and ends on the third, whatever food is eaten on the way.
pub proof fn lemma_three_turns_end_game(
    s0: EngineState,
    a1: EngineState,
    s1: EngineState,
    a2: EngineState,
    s2: EngineState,
    a3: EngineState,
    s3: EngineState,
)
    requires
        s0.wf(),
        !s0.over,
        s0.segments.len() >= 5,
        forall|i: int|
            0 <= i < s0.segments.len() ==> in_line(
                #[trigger] s0.segments[i],
                s0.segments[0],
                s0.direction,
            ),
        s0.segments[1] == s0.board.step_spec(s0.segments[0], opposite(s0.direction)),
        s0.board.contains_spec(s0.board.step_spec(s0.segments[0], quarter_turn(s0.direction))),
        s0.board.contains_spec(
            s0.board.step_spec(
                s0.board.step_spec(s0.segments[0], quarter_turn(s0.direction)),
                opposite(s0.direction),
            ),
        ),
        turned(s0, a1, quarter_turn(s0.direction)),
        advanced(a1, s1),
        turned(s1, a2, quarter_turn(quarter_turn(s0.direction))),
        advanced(a2, s2),
        turned(s2, a3, quarter_turn(quarter_turn(quarter_turn(s0.direction)))),
        advanced(a3, s3),
    ensures
        !s1.over,
        !s2.over,
        s3.over,
{
    let b = s0.board;
    let d = s0.direction;
    let n = s0.segments.len();
    let h = s0.segments[0];
    let t1 = quarter_turn(d);
    let t2 = quarter_turn(t1);
    let t3 = quarter_turn(t2);
    assert(t2 == opposite(d));
    let h1 = b.step_spec(h, t1);
    let h2 = b.step_spec(h1, t2);
    // First move: sideways, off the line of the body.
    assert(a1 == EngineState { pending: t1, ..s0 });
    assert(a1.moved_head() == h1);
    let m1 = a1.moved_body();
    assert forall|i: int| 1 <= i < n implies #[trigger] m1[i] != m1[0] by {
        assert(m1[i] == s0.segments[i - 1]);
        assert(in_line(s0.segments[i - 1], h, d));
    }
    assert(!collides(m1));
    assert(!s1.over);
    lemma_advance_keeps_wf(a1, s1);
    assert(s1.segments[0] == h1);
    assert(s1.segments[1] == h);
    assert(s1.segments[2] == s0.segments[1]);
    assert(s1.segments.len() >= n);
    assert(forall|j: int| 1 <= j < n ==> #[trigger] s1.segments[j] == s0.segments[j - 1]);
    // Second move: back along the body's line, one cell to the side of it.
    assert(a2 == EngineState { pending: t2, ..s1 });
    assert(a2.moved_head() == h2);
    let m2 = a2.moved_body();
    assert forall|i: int| 1 <= i < m2.len() implies #[trigger] m2[i] != m2[0] by {
        if i >= 2 {
            assert(m2[i] == s1.segments[i - 1]);
            assert(s1.segments[i - 1] == s0.segments[i - 2]);
            assert(in_line(s0.segments[i - 2], h, d));
        } else {
            assert(m2[1] == h1);
        }
    }
    assert(!collides(m2));
    assert(!s2.over);
    assert(s2.segments[3] == s0.segments[1]);
    // Third move: onto the old second segment.
    assert(a3 == EngineState { pending: t3, ..s2 });
    let m3 = a3.moved_body();
    assert(m3[4] == s2.segments[3]);
    assert(a3.moved_head() == s0.segments[1]);
    assert(collides(m3));
}

impl GameEngine {
    pub open spec fn wf(&self) -> bool {
        self@.wf()
    }

    /// A fresh game: a single segment at the centre heading right, and food
    /// four cells right and two cells up when that cell is inside the
    /// playfield, drawn at random off the snake otherwise.
    pub fn new(board: Board) -> (r: GameEngine)
        requires
            board.valid(),
        ensures
            r.wf(),
            r@.board == board,
            r@.segments == seq![Position { x: 0, y: 0 }],
            r@.direction == Direction::Right,
            r@.pending == Direction::Right,
            !r@.over,
            4 * board.spec_cell_size() < board.spec_half_width() && 2 * board.spec_cell_size()
                < board.spec_half_height() ==> r@.food == (Position {
                x: (4 * board.spec_cell_size()) as i64,
                y: (2 * board.spec_cell_size()) as i64,
            }),
            !(4 * board.spec_cell_size() < board.spec_half_width() && 2 * board.spec_cell_size()
                < board.spec_half_height()) ==> board.drawable(board.spec_cell_size(), r@.food)
                && (has_free_cell(board, r@.segments) ==> !occupied(r@.segments, r@.food)),
    {
        let snake = Snake::new(Position { x: 0, y: 0 }, Direction::Right);
        let c = board.cell_size() as i64;
        let food = if 4 * c < board.half_width() as i64 && 2 * c < board.half_height() as i64 {
            proof {
                lemma_mod_multiples_basic(4, c as int);
                lemma_mod_multiples_basic(2, c as int);
            }
            Position { x: 4 * c, y: 2 * c }
        } else {
            Self::draw_food(&board, &snake)
        };
        let r = GameEngine { board, snake, pending: Direction::Right, food, over: false };
        proof {
            lemma_mod_multiples_basic(0, board.spec_cell_size());
        }
        r
    }

    /// Draws a position for food with a margin of one cell, drawing again
    /// while it falls under the snake, at most `FOOD_ATTEMPTS` times in all;
    /// if every draw fell under the snake, takes the first free cell in a
    /// scan of the drawable cells, or the last draw when there is none.
    fn draw_food(board: &Board, snake: &Snake) -> (p: Position)
        requires
            board.valid(),
        ensures
            board.drawable(board.spec_cell_size(), p),
            board.on_grid(p),
            board.contains_spec(p),
            has_free_cell(*board, snake.body()) ==> !occupied(snake.body(), p),
    {
        let margin = board.cell_size();
        let mut p = board.random_grid_position(margin);
        let mut tries: u32 = 1;
        while tries < FOOD_ATTEMPTS && snake.occupies(p)
            invariant
                board.valid(),
                margin == board.spec_cell_size(),
                board.drawable(board.spec_cell_size(), p),
                board.on_grid(p),
                board.contains_spec(p),
            decreases FOOD_ATTEMPTS - tries,
        {
            p = board.random_grid_position(margin);
            tries += 1;
        }
        if snake.occupies(p) {
            match Self::first_free_cell(board, snake) {
                Some(q) => {
                    proof {
                        lemma_drawable_inside(*board, board.spec_cell_size(), q);
                    }
                    q
                },
                None => p,
            }
        } else {
            p
        }
    }

    /// The first cell off the snake among those a food draw can produce,
    /// scanning by column from the left, each column from the bottom.
    fn first_free_cell(board: &Board, snake: &Snake) -> (r: Option<Position>)
        requires
            board.valid(),
        ensures
            r is Some ==> board.drawable(board.spec_cell_size(), r->0) && !occupied(
                snake.body(),
                r->0,
            ),
            r is None ==> !has_free_cell(*board, snake.body()),
    {
        let c = board.cell_size() as i64;
        let hw = board.half_width() as i64;
        let hh = board.half_height() as i64;
        let ghost body = snake.body();
        let mut rx: i64 = c - hw;
        while rx < hw - c
            invariant
                board.valid(),
                body == snake.body(),
                c == board.spec_cell_size(),
                hw == board.spec_half_width(),
                hh == board.spec_half_height(),
                c - hw <= rx <= hw,
                forall|r1: int, r2: int|
                    c - hw <= r1 < rx && c - hh <= r2 < hh - c ==> occupied(
                        body,
                        #[trigger] board.cell_at(r1, r2),
                    ),
            decreases hw - rx,
        {
            let mut ry: i64 = c - hh;
            while ry < hh - c
                invariant
                    board.valid(),
                    body == snake.body(),
                    c == board.spec_cell_size(),
                    hw == board.spec_half_width(),
                    hh == board.spec_half_height(),
                    c - hw <= rx < hw - c,
                    c - hh <= ry <= hh,
                    forall|r1: int, r2: int|
                        c - hw <= r1 < rx && c - hh <= r2 < hh - c ==> occupied(
                            body,
                            #[trigger] board.cell_at(r1, r2),
                        ),
                    forall|r2: int|
                        c - hh <= r2 < ry ==> occupied(body, #[trigger] board.cell_at(rx as int, r2)),
                decreases hh - ry,
            {
                let p = board.grid_position(rx, ry);
                assert(p == board.cell_at(rx as int, ry as int));
                if !snake.occupies(p) {
                    assert(board.drawable(c as int, p));
                    return Some(p);
                }
                let next = board.snap_to_grid(ry) + 1;
                assert forall|r2: int| c - hh <= r2 < next implies occupied(
                    body,
                    #[trigger] board.cell_at(rx as int, r2),
                ) by {
                    if r2 >= ry {
                        lemma_snap_same(ry as int, r2, c as int);
                        assert(board.cell_at(rx as int, r2) == p);
                    }
                }
                ry = next;
            }
            let next = board.snap_to_grid(rx) + 1;
            assert forall|r1: int, r2: int|
                c - hw <= r1 < next && c - hh <= r2 < hh - c implies occupied(
                    body,
                    #[trigger] board.cell_at(r1, r2),
                ) by {
                if r1 >= rx {
                    lemma_snap_same(rx as int, r1, c as int);
                    assert(board.cell_at(r1, r2) == board.cell_at(rx as int, r2));
                }
            }
            rx = next;
        }
        assert forall|q: Position| #[trigger]
            board.drawable(c as int, q) implies occupied(body, q) by {
            let (r1, r2) = choose|r1: int, r2: int|
                c - hw <= r1 < hw - c && c - hh <= r2 < hh - c
                && q.x as int == snap_up(r1, c as int) && q.y as int == snap_up(r2, c as int);
            assert(q == board.cell_at(r1, r2));
        }
        None
    }

    /// Buffers `d` as the direction of the next move, unless the game is over
    /// or `d` reverses a snake of more than one segment; the last accepted
    /// command before a tick wins.
    pub fn set_direction(&mut self, d: Direction)
        requires
            old(self).wf(),
        ensures
            final(self).wf(),
            turned(old(self)@, final(self)@, d),
    {
        if self.over {
            return;
        }
        if self.snake.len() > 1 && d == self.snake.direction().opposite() {
            return;
        }
        self.pending = d;
    }

    /// One logic tick.
    pub fn advance(&mut self) -> (r: GameStatus)
        requires
            old(self).wf(),
        ensures
            final(self).wf(),
            advanced(old(self)@, final(self)@),
            r == (if final(self)@.over { GameStatus::Over } else { GameStatus::Running }),
    {
        if self.over {
            return GameStatus::Over;
        }
        let ghost pre = self@;
        self.snake.turn(self.pending);
        self.snake.update_position(&self.board);
        assert(self.snake.body() == pre.moved_body());
        if self.snake.is_self_collision() || !self.snake.is_head_in(&self.board) {
            self.over = true;
            proof {
                lemma_advance_keeps_wf(pre, self@);
            }
            return GameStatus::Over;
        }
        if self.snake.is_head_on_pos(self.food) {
            proof {
                lemma_moved_body(pre);
                assert(pre.board.on_grid(pre.moved_body()[pre.segments.len() - 1]));
            }
            self.snake.add_segment(&self.board);
            self.food = Self::draw_food(&self.board, &self.snake);
        }
        proof {
            lemma_advance_keeps_wf(pre, self@);
        }
        GameStatus::Running
    }

    /// Puts the food at `p` when `p` lies on the grid, inside the playfield
    /// and off the snake; otherwise leaves the game as it is.
    pub fn place_food(&mut self, p: Position) -> (accepted: bool)
        requires
            old(self).wf(),
        ensures
            final(self).wf(),
            accepted == (old(self)@.board.on_grid(p) && old(self)@.board.contains_spec(p)
                && !occupied(old(self)@.segments, p)),
            final(self)@ == (if accepted {
                EngineState { food: p, ..old(self)@ }
            } else {
                old(self)@
            }),
    {
        if self.board.is_on_grid(p) && self.board.contains(p) && !self.snake.occupies(p) {
            self.food = p;
            true
        } else {
            false
        }
    }

    /// Whether the game is still running.
    pub fn status(&self) -> (r: GameStatus)
        ensures
            r == (if self@.over { GameStatus::Over } else { GameStatus::Running }),
    {
        if self.over {
            GameStatus::Over
        } else {
            GameStatus::Running
        }
    }

    /// A snapshot for rendering: the segments head first, the food, and the status.
    pub fn state(&self) -> (r: (Vec<Position>, Position, GameStatus))
        ensures
            r.0@ == self@.segments,
            r.1 == self@.food,
            r.2 == (if self@.over { GameStatus::Over } else { GameStatus::Running }),
    {
        let body = self.snake.segments();
        let mut segments: Vec<Position> = Vec::new();
        let mut i: usize = 0;
        while i < body.len()
            invariant
                body@ == self@.segments,
                i <= body.len(),
                segments@ == body@.subrange(0, i as int),
            decreases body.len() - i,
        {
            segments.push(body[i]);
            i += 1;
            assert(segments@ =~= body@.subrange(0, i as int));
        }
        assert(segments@ =~= body@);
        (segments, self.food, self.status())
    }

    pub fn segments(&self) -> (r: &Vec<Position>)
        ensures
            r@ == self@.segments,
    {
        self.snake.segments()
    }

    pub fn food(&self) -> (r: Position)
        ensures
            r == self@.food,
    {
        self.food
    }

    pub fn direction(&self) -> (r: Direction)
        ensures
            r == self@.direction,
    {
        self.snake.direction()
    }

    pub fn pending_direction(&self) -> (r: Direction)
        ensures
            r == self@.pending,
    {
        self.pending
    }

    pub fn board(&self) -> (r: Board)
        ensures
            r == self@.board,
    {
        self.board
    }
}

} // verus!
