//! Playfield geometry: positions, directions, containment and grid alignment.

use vstd::prelude::*;
use vstd::arithmetic::div_mod::{
    lemma_fundamental_div_mod, lemma_mod_add_multiples_vanish, lemma_mod_multiples_basic,
    lemma_mod_sub_multiples_vanish,
};
use rand::Rng;

verus! {

/// A point of the playfield, measured from its centre; `y` grows upwards.
#[derive(Clone, Copy, Debug, PartialEq, Eq, Structural)]
pub struct Position {
    pub x: i64,
    pub y: i64,
}

impl Position {
    pub fn new(x: i64, y: i64) -> (r: Position)
        ensures
            r.x == x,
            r.y == y,
    {
        Position { x, y }
    }
}

/// The four directions of travel on the grid.
#[derive(Clone, Copy, Debug, PartialEq, Eq, Structural)]
pub enum Direction {
    Up,
    Down,
    Left,
    Right,
}

/// The direction that exactly reverses `d`.
pub open spec fn opposite(d: Direction) -> Direction {
    match d {
        Direction::Up => Direction::Down,
        Direction::Down => Direction::Up,
        Direction::Left => Direction::Right,
        Direction::Right => Direction::Left,
    }
}

impl Direction {
    pub fn opposite(self) -> (r: Direction)
        ensures
            r == opposite(self),
    {
        match self {
            Direction::Up => Direction::Down,
            Direction::Down => Direction::Up,
            Direction::Left => Direction::Right,
            Direction::Right => Direction::Left,
        }
    }
}

pub open spec fn abs(v: int) -> int {
    if v < 0 { -v } else { v }
}

/// `p` moved by `dist` in direction `d`.
pub open spec fn stepped(p: Position, d: Direction, dist: int) -> Position {
    match d {
        Direction::Up => Position { x: p.x, y: (p.y + dist) as i64 },
        Direction::Down => Position { x: p.x, y: (p.y - dist) as i64 },
        Direction::Left => Position { x: (p.x - dist) as i64, y: p.y },
        Direction::Right => Position { x: (p.x + dist) as i64, y: p.y },
    }
}

/// The smallest multiple of `cell` that is not below `v`.
pub open spec fn snap_up(v: int, cell: int) -> int {
    if v % cell == 0 { v } else { v + (cell - v % cell) }
}

/// The playfield: the rectangle `[-half_width, half_width] x [-half_height, half_height]`
/// around the origin, divided into square cells of side `cell_size`.
#[derive(Clone, Copy, Debug, PartialEq, Eq, Structural)]
pub struct Board {
    half_width: u32,
    half_height: u32,
    cell_size: u32,
}

impl Board {
    pub closed spec fn spec_half_width(self) -> int {
        self.half_width as int
    }

    pub closed spec fn spec_half_height(self) -> int {
        self.half_height as int
    }

    pub closed spec fn spec_cell_size(self) -> int {
        self.cell_size as int
    }

    /// A board is usable when a cell fits strictly inside each half-extent,
    /// so that the snake can take at least one step from the centre.
    pub open spec fn valid(self) -> bool {
        &&& 0 < self.spec_cell_size()
        &&& self.spec_cell_size() < self.spec_half_width() <= u32::MAX
        &&& self.spec_cell_size() < self.spec_half_height() <= u32::MAX
    }

    /// The one boundary test of the game: strictly inside on both axes.
    pub open spec fn contains_spec(self, p: Position) -> bool {
        abs(p.x as int) < self.spec_half_width() && abs(p.y as int) < self.spec_half_height()
    }

    /// Both coordinates are multiples of the cell size.
    pub open spec fn on_grid(self, p: Position) -> bool {
        (p.x as int) % self.spec_cell_size() == 0 && (p.y as int) % self.spec_cell_size() == 0
    }

    /// At most one step outside the playfield on each axis.
    pub open spec fn near(self, p: Position) -> bool {
        &&& abs(p.x as int) <= self.spec_half_width() + self.spec_cell_size()
        &&& abs(p.y as int) <= self.spec_half_height() + self.spec_cell_size()
    }

    /// A step of one cell from `p` stays within the range of `i64`.
    pub open spec fn steppable(self, p: Position) -> bool {
        &&& abs(p.x as int) + self.spec_cell_size() <= i64::MAX
        &&& abs(p.y as int) + self.spec_cell_size() <= i64::MAX
    }

    /// `p` moved one cell in direction `d`.
    pub open spec fn step_spec(self, p: Position, d: Direction) -> Position {
        stepped(p, d, self.spec_cell_size())
    }

    /// The grid position reached by rounding the raw coordinates up to the grid.
    pub open spec fn cell_at(self, rx: int, ry: int) -> Position {
        Position {
            x: snap_up(rx, self.spec_cell_size()) as i64,
            y: snap_up(ry, self.spec_cell_size()) as i64,
        }
    }

    /// The positions that a draw with the given margin can produce: a raw
    /// coordinate in `[margin - half, half - margin)` on each axis, rounded up
    /// to the grid.
    pub open spec fn drawable(self, margin: int, p: Position) -> bool {
        exists|rx: int, ry: int|
            margin - self.spec_half_width() <= rx < self.spec_half_width() - margin
            && margin - self.spec_half_height() <= ry < self.spec_half_height() - margin
            && p.x as int == snap_up(rx, self.spec_cell_size())
            && p.y as int == snap_up(ry, self.spec_cell_size())
    }

    /// Builds a board; refuses a zero cell size and a half-extent that does
    /// not exceed the cell size.
    pub fn new(half_width: u32, half_height: u32, cell_size: u32) -> (r: Option<Board>)
        ensures
            r is Some <==> (0 < cell_size && cell_size < half_width && cell_size < half_height),
            r is Some ==> r->0.valid(),
            r is Some ==> r->0.spec_half_width() == half_width,
            r is Some ==> r->0.spec_half_height() == half_height,
            r is Some ==> r->0.spec_cell_size() == cell_size,
    {
        if 0 < cell_size && cell_size < half_width && cell_size < half_height {
            Some(Board { half_width, half_height, cell_size })
        } else {
            None
        }
    }

    /// Builds a board from the full playfield size, halving each extent.
    pub fn from_size(width: u32, height: u32, cell_size: u32) -> (r: Option<Board>)
        ensures
            r is Some <==> (0 < cell_size && cell_size < width / 2 && cell_size < height / 2),
            r is Some ==> r->0.valid(),
            r is Some ==> r->0.spec_half_width() == width / 2,
            r is Some ==> r->0.spec_half_height() == height / 2,
            r is Some ==> r->0.spec_cell_size() == cell_size,
    {
        Board::new(width / 2, height / 2, cell_size)
    }

    pub fn half_width(&self) -> (r: u32)
        ensures
            r == self.spec_half_width(),
    {
        self.half_width
    }

    pub fn half_height(&self) -> (r: u32)
        ensures
            r == self.spec_half_height(),
    {
        self.half_height
    }

    pub fn cell_size(&self) -> (r: u32)
        ensures
            r == self.spec_cell_size(),
    {
        self.cell_size
    }

    /// Whether `p` lies strictly inside the playfield on both axes.
    pub fn contains(&self, p: Position) -> (r: bool)
        ensures
            r == self.contains_spec(p),
    {
        let hw = self.half_width as i64;
        let hh = self.half_height as i64;
        -hw < p.x && p.x < hw && -hh < p.y && p.y < hh
    }

    /// Whether both coordinates of `p` are multiples of the cell size.
    pub fn is_on_grid(&self, p: Position) -> (r: bool)
        requires
            self.valid(),
        ensures
            r == self.on_grid(p),
    {
        let c = self.cell_size as i64;
        let rx = p.x.checked_rem_euclid(c);
        let ry = p.y.checked_rem_euclid(c);
        rx == Some(0i64) && ry == Some(0i64)
    }

    /// `p` moved one cell in direction `d`.
    pub fn step(&self, p: Position, d: Direction) -> (r: Position)
        requires
            self.steppable(p),
        ensures
            r == self.step_spec(p, d),
    {
        let c = self.cell_size as i64;
        match d {
            Direction::Up => Position { x: p.x, y: p.y + c },
            Direction::Down => Position { x: p.x, y: p.y - c },
            Direction::Left => Position { x: p.x - c, y: p.y },
            Direction::Right => Position { x: p.x + c, y: p.y },
        }
    }

    /// Rounds `v` up to the nearest multiple of the cell size.
    pub fn snap_to_grid(&self, v: i64) -> (r: i64)
        requires
            self.valid(),
            v + self.spec_cell_size() <= i64::MAX,
        ensures
            r == snap_up(v as int, self.spec_cell_size()),
            (r as int) % self.spec_cell_size() == 0,
            v <= r < v + self.spec_cell_size(),
    {
        let c = self.cell_size as i64;
        proof {
            lemma_snap_up(v as int, c as int);
        }
        match v.checked_rem_euclid(c) {
            Some(rem) => {
                if rem == 0 {
                    v
                } else {
                    v + (c - rem)
                }
            },
            None => v,
        }
    }

    /// The grid position reached by rounding the raw coordinates up to the grid.
    pub fn grid_position(&self, rx: i64, ry: i64) -> (r: Position)
        requires
            self.valid(),
            rx + self.spec_cell_size() <= i64::MAX,
            ry + self.spec_cell_size() <= i64::MAX,
        ensures
            r.x == snap_up(rx as int, self.spec_cell_size()),
            r.y == snap_up(ry as int, self.spec_cell_size()),
            self.on_grid(r),
    {
        Position { x: self.snap_to_grid(rx), y: self.snap_to_grid(ry) }
    }

    /// A random grid position: each raw coordinate is drawn uniformly from
    /// the playfield shrunk by `margin` on each side, then rounded up to the
    /// grid. Nothing keeps it off occupied cells.
    pub fn random_grid_position(&self, margin: u32) -> (r: Position)
        requires
            self.valid(),
            margin < self.spec_half_width(),
            margin < self.spec_half_height(),
        ensures
            self.drawable(margin as int, r),
            self.on_grid(r),
            margin >= self.spec_cell_size() ==> self.contains_spec(r),
    {
        let hw = self.half_width as i64;
        let hh = self.half_height as i64;
        let m = margin as i64;
        let rx = draw_between(m - hw, hw - m);
        let ry = draw_between(m - hh, hh - m);
        let r = self.grid_position(rx, ry);
        assert(self.drawable(margin as int, r)) by {
            assert(margin - self.spec_half_width() <= rx < self.spec_half_width() - margin);
            assert(margin - self.spec_half_height() <= ry < self.spec_half_height() - margin);
        }
        proof {
            lemma_snap_up(rx as int, self.spec_cell_size());
            lemma_snap_up(ry as int, self.spec_cell_size());
        }
        r
    }
}

/// Rounding up to a positive cell size gives a multiple of it, less than one
/// cell above the input.
pub proof fn lemma_snap_up(v: int, cell: int)
    requires
        cell > 0,
    ensures
        snap_up(v, cell) % cell == 0,
        v <= snap_up(v, cell) < v + cell,
{
    lemma_fundamental_div_mod(v, cell);
    if v % cell != 0 {
        assert(v + (cell - v % cell) == cell * (v / cell + 1)) by (nonlinear_arith)
            requires
                v == cell * (v / cell) + v % cell,
        ;
        lemma_mod_multiples_basic(v / cell + 1, cell);
        assert((v / cell + 1) * cell == cell * (v / cell + 1)) by (nonlinear_arith);
    }
}

/// Every raw value from `v` up to its rounded value rounds to the same
/// multiple of the cell.
pub proof fn lemma_snap_same(v: int, r: int, cell: int)
    requires
        cell > 0,
        v <= r <= snap_up(v, cell),
    ensures
        snap_up(r, cell) == snap_up(v, cell),
{
    lemma_snap_up(v, cell);
    lemma_snap_up(r, cell);
    let s = snap_up(v, cell);
    let t = snap_up(r, cell);
    lemma_fundamental_div_mod(s, cell);
    lemma_fundamental_div_mod(t, cell);
    let a = s / cell;
    let b = t / cell;
    if a < b {
        assert(cell * b - cell * a >= cell) by (nonlinear_arith)
            requires
                a < b,
                cell > 0,
        ;
    } else if b < a {
        assert(cell * a - cell * b >= cell) by (nonlinear_arith)
            requires
                b < a,
                cell > 0,
        ;
    }
}

/// One step from a cell inside the playfield lands on the grid again, at
/// most one cell outside the playfield.
pub proof fn lemma_step_from_inside(b: Board, p: Position, d: Direction)
    requires
        b.valid(),
        b.on_grid(p),
        b.contains_spec(p),
    ensures
        b.on_grid(b.step_spec(p, d)),
        b.near(b.step_spec(p, d)),
{
    let c = b.spec_cell_size();
    lemma_mod_add_multiples_vanish(p.x as int, c);
    lemma_mod_add_multiples_vanish(p.y as int, c);
    lemma_mod_sub_multiples_vanish(p.x as int, c);
    lemma_mod_sub_multiples_vanish(p.y as int, c);
}

/// A step from a cell on the grid lands on the grid again.
pub proof fn lemma_step_on_grid(b: Board, p: Position, d: Direction)
    requires
        b.valid(),
        b.on_grid(p),
        b.steppable(p),
    ensures
        b.on_grid(b.step_spec(p, d)),
{
    let c = b.spec_cell_size();
    lemma_mod_add_multiples_vanish(p.x as int, c);
    lemma_mod_add_multiples_vanish(p.y as int, c);
    lemma_mod_sub_multiples_vanish(p.x as int, c);
    lemma_mod_sub_multiples_vanish(p.y as int, c);
}

/// A position drawn with a margin of at least one cell lies on the grid,
/// inside the playfield.
pub proof fn lemma_drawable_inside(b: Board, margin: int, p: Position)
    requires
        b.valid(),
        b.spec_cell_size() <= margin,
        b.drawable(margin, p),
    ensures
        b.on_grid(p),
        b.contains_spec(p),
{
    let (rx, ry) = choose|rx: int, ry: int|
        margin - b.spec_half_width() <= rx < b.spec_half_width() - margin
        && margin - b.spec_half_height() <= ry < b.spec_half_height() - margin
        && p.x as int == snap_up(rx, b.spec_cell_size())
        && p.y as int == snap_up(ry, b.spec_cell_size());
    lemma_snap_up(rx, b.spec_cell_size());
    lemma_snap_up(ry, b.spec_cell_size());
}

/// Relies on rand's `thread_rng` and `Rng::gen_range`: a value drawn from the
/// half-open range `[lo, hi)`; `gen_range` panics on an empty range.
#[verifier::external_body]
fn draw_between(lo: i64, hi: i64) -> (r: i64)
    requires
        lo < hi,
    ensures
        lo <= r < hi,
{
    rand::thread_rng().gen_range(lo..hi)
}

} // verus!
