//! The snake: an ordered body of grid cells, head first, and a direction of travel.

use vstd::prelude::*;
use crate::board::{Board, Direction, Position, lemma_step_on_grid};

verus! {

/// `body` after every segment took its predecessor's place and the head moved to `head`.
pub open spec fn shifted(body: Seq<Position>, head: Position) -> Seq<Position> {
    seq![head] + body.drop_last()
}

/// The head shares its cell with some other segment.
pub open spec fn collides(body: Seq<Position>) -> bool {
    exists|i: int| 1 <= i < body.len() && #[trigger] body[i] == body[0]
}

/// Some segment of `body` lies at `p`.
pub open spec fn occupied(body: Seq<Position>, p: Position) -> bool {
    exists|i: int| 0 <= i < body.len() && body[i] == p
}

/// A move keeps a body on the grid: when every segment lies on the grid, so
/// does every segment after the head steps and the rest follow.
pub proof fn lemma_move_keeps_grid(board: Board, body: Seq<Position>, d: Direction)
    requires
        board.valid(),
        body.len() >= 1,
        board.steppable(body[0]),
        forall|i: int| 0 <= i < body.len() ==> #[trigger] board.on_grid(body[i]),
    ensures
        forall|i: int|
            0 <= i < body.len() ==> #[trigger] board.on_grid(
                shifted(body, board.step_spec(body[0], d))[i],
            ),
{
    lemma_step_on_grid(board, body[0], d);
    let m = shifted(body, board.step_spec(body[0], d));
    assert forall|i: int| 0 <= i < body.len() implies #[trigger] board.on_grid(m[i]) by {
        if i > 0 {
            assert(m[i] == body[i - 1]);
        }
    }
}

/// Growth keeps a body on the grid: the new tail lies on the grid when the
/// old tail does.
pub proof fn lemma_growth_keeps_grid(board: Board, body: Seq<Position>, d: Direction)
    requires
        board.valid(),
        body.len() >= 1,
        board.steppable(body.last()),
        forall|i: int| 0 <= i < body.len() ==> #[trigger] board.on_grid(body[i]),
    ensures
        forall|i: int|
            0 <= i <= body.len() ==> #[trigger] board.on_grid(
                body.push(board.step_spec(body.last(), d))[i],
            ),
{
    lemma_step_on_grid(board, body.last(), d);
    let g = body.push(board.step_spec(body.last(), d));
    assert forall|i: int| 0 <= i <= body.len() implies #[trigger] board.on_grid(g[i]) by {
        if i < body.len() {
            assert(g[i] == body[i]);
        }
    }
}

pub struct Snake {
    segments: Vec<Position>,
    direction: Direction,
}

impl Snake {
    /// The segments, head first.
    pub closed spec fn body(&self) -> Seq<Position> {
        self.segments@
    }

    /// The direction of travel.
    pub closed spec fn heading(&self) -> Direction {
        self.direction
    }

    /// A snake of one segment at `head`.
    pub fn new(head: Position, direction: Direction) -> (r: Snake)
        ensures
            r.body() == seq![head],
            r.heading() == direction,
    {
        let mut segments: Vec<Position> = Vec::new();
        segments.push(head);
        Snake { segments, direction }
    }

    pub fn segments(&self) -> (r: &Vec<Position>)
        ensures
            r@ == self.body(),
    {
        &self.segments
    }

    pub fn direction(&self) -> (r: Direction)
        ensures
            r == self.heading(),
    {
        self.direction
    }

    pub fn len(&self) -> (r: usize)
        ensures
            r == self.body().len(),
    {
        self.segments.len()
    }

    pub fn head(&self) -> (r: Position)
        requires
            self.body().len() >= 1,
        ensures
            r == self.body()[0],
    {
        self.segments[0]
    }

    /// Sets the direction of travel; the body is left as it is.
    pub fn turn(&mut self, d: Direction)
        ensures
            final(self).heading() == d,
            final(self).body() == old(self).body(),
    {
        self.direction = d;
    }

    /// Whether the head shares its cell with another segment.
    pub fn is_self_collision(&self) -> (r: bool)
        ensures
            r == collides(self.body()),
    {
        let n = self.segments.len();
        let mut i: usize = 1;
        while i < n
            invariant
                1 <= i,
                n == self.body().len(),
                forall|j: int| 1 <= j < i && j < n ==> #[trigger] self.body()[j] != self.body()[0],
            decreases n - i,
        {
            if self.segments[i] == self.segments[0] {
                return true;
            }
            i += 1;
        }
        false
    }

    /// Whether some segment lies at `p`.
    pub fn occupies(&self, p: Position) -> (r: bool)
        ensures
            r == occupied(self.body(), p),
    {
        let n = self.segments.len();
        let mut i: usize = 0;
        while i < n
            invariant
                n == self.body().len(),
                forall|j: int| 0 <= j < i ==> self.body()[j] != p,
            decreases n - i,
        {
            if self.segments[i] == p {
                return true;
            }
            i += 1;
        }
        false
    }

    /// Moves the snake one cell: each segment, from the tail forward, takes
    /// the place of the one before it, then the head steps along the
    /// direction of travel.
    pub fn update_position(&mut self, board: &Board)
        requires
            old(self).body().len() >= 1,
            board.steppable(old(self).body()[0]),
        ensures
            final(self).body() == shifted(
                old(self).body(),
                board.step_spec(old(self).body()[0], old(self).heading()),
            ),
            final(self).heading() == old(self).heading(),
    {
        let ghost before = self.segments@;
        let head = self.segments[0];
        let mut i: usize = self.segments.len() - 1;
        while i > 0
            invariant
                i < before.len(),
                self.segments@.len() == before.len(),
                self.direction == old(self).direction,
                forall|j: int| 0 <= j <= i ==> self.segments@[j] == before[j],
                forall|j: int| i < j < before.len() ==> self.segments@[j] == before[j - 1],
            decreases i,
        {
            let prev = self.segments[i - 1];
            self.segments.set(i, prev);
            i -= 1;
        }
        let moved = board.step(head, self.direction);
        self.segments.set(0, moved);
        assert(self.segments@ =~= shifted(before, board.step_spec(before[0], self.direction)));
    }

    /// Whether the head lies inside the playfield.
    pub fn is_head_in(&self, board: &Board) -> (r: bool)
        requires
            self.body().len() >= 1,
        ensures
            r == board.contains_spec(self.body()[0]),
    {
        board.contains(self.segments[0])
    }

    /// Whether the head lies at `pos`.
    pub fn is_head_on_pos(&self, pos: Position) -> (r: bool)
        ensures
            r == (self.body().len() > 0 && self.body()[0] == pos),
    {
        self.segments.len() > 0 && self.segments[0] == pos
    }

    /// Appends a segment one cell past the tail, along the direction of travel.
    pub fn add_segment(&mut self, board: &Board)
        requires
            old(self).body().len() >= 1,
            board.steppable(old(self).body().last()),
        ensures
            final(self).body() == old(self).body().push(
                board.step_spec(old(self).body().last(), old(self).heading()),
            ),
            final(self).heading() == old(self).heading(),
    {
        let last = self.segments[self.segments.len() - 1];
        let grown = board.step(last, self.direction);
        self.segments.push(grown);
    }
}

} // verus!
