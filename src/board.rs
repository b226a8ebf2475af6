use vstd::prelude::*;

verus! {

/// Number of columns of the board.
pub const COL: u8 = 6;

/// Number of rows of the board.
pub const ROW: u8 = 6;

/// Number of cells of the board.
pub const CELLS: usize = 36;

/// What a cell of the board holds.
#[derive(Clone, Copy, Debug, PartialEq, Eq, Structural)]
pub enum Element {
    Monster,
    Target,
    Footprint,
    Empty,
}

/// A single step the monster may take.
#[derive(Clone, Copy, Debug, PartialEq, Eq, Structural)]
pub enum Direction {
    Up,
    Down,
    Left,
    Right,
}

/// A cell of the board: `y` is the row, `x` the column.
#[derive(Clone, Copy, Debug, PartialEq, Eq, Structural)]
pub struct Coordinate {
    pub x: u8,
    pub y: u8,
}

/// The glyph shown for each kind of cell.
pub open spec fn icon_of(e: Element) -> Seq<char> {
    match e {
        Element::Monster => "🐸"@,
        Element::Target => "🍎"@,
        Element::Footprint => "🐾"@,
        Element::Empty => "⚪"@,
    }
}

impl Element {
    pub fn get_icon(&self) -> (r: &'static str)
        ensures
            r@ == icon_of(*self),
    {
        match self {
            Element::Monster => "🐸",
            Element::Target => "🍎",
            Element::Footprint => "🐾",
            Element::Empty => "⚪",
        }
    }
}

/// The direction a key stands for, if any.
pub open spec fn key_direction(c: char) -> Option<Direction> {
    if c == 'w' {
        Some(Direction::Up)
    } else if c == 's' {
        Some(Direction::Down)
    } else if c == 'a' {
        Some(Direction::Left)
    } else if c == 'd' {
        Some(Direction::Right)
    } else {
        None
    }
}

impl Direction {
    /// Maps `w`, `s`, `a`, `d` to up, down, left and right.
    pub fn from_key(c: char) -> (r: Option<Direction>)
        ensures
            r == key_direction(c),
    {
        if c == 'w' {
            Some(Direction::Up)
        } else if c == 's' {
            Some(Direction::Down)
        } else if c == 'a' {
            Some(Direction::Left)
        } else if c == 'd' {
            Some(Direction::Right)
        } else {
            None
        }
    }
}

pub open spec fn in_bounds(c: Coordinate) -> bool {
    c.y < ROW && c.x < COL
}

/// Position of a cell in the row-major layout of the board.
pub open spec fn index_of(c: Coordinate) -> int {
    c.y as int * COL as int + c.x as int
}

/// The cell at a row-major position.
pub open spec fn coord_of(i: int) -> Coordinate {
    Coordinate { x: (i % COL as int) as u8, y: (i / COL as int) as u8 }
}

pub proof fn lemma_index_in_range(c: Coordinate)
    requires
        in_bounds(c),
    ensures
        0 <= index_of(c) < CELLS,
        coord_of(index_of(c)) == c,
{
    assert(0 <= index_of(c) < CELLS) by (nonlinear_arith)
        requires
            c.y < 6,
            c.x < 6,
            index_of(c) == c.y * 6 + c.x,
    ;
    let i = index_of(c);
    assert(i % 6 == c.x as int && i / 6 == c.y as int) by (nonlinear_arith)
        requires
            c.y < 6,
            c.x < 6,
            i == c.y * 6 + c.x,
    ;
}

pub proof fn lemma_coord_of(i: int)
    requires
        0 <= i < CELLS,
    ensures
        in_bounds(coord_of(i)),
        index_of(coord_of(i)) == i,
{
    let q = i / 6;
    let r = i % 6;
    assert(0 <= q < 6 && 0 <= r < 6 && q * 6 + r == i) by (nonlinear_arith)
        requires
            0 <= i < 36,
            q == i / 6,
            r == i % 6,
    ;
}

/// Two cells inside the board are the same exactly when their positions are.
pub proof fn lemma_index_injective(a: Coordinate, b: Coordinate)
    requires
        in_bounds(a),
        in_bounds(b),
    ensures
        (index_of(a) == index_of(b)) == (a == b),
{
    lemma_index_in_range(a);
    lemma_index_in_range(b);
}

/// Whether the monster at `m` may step in direction `d` without leaving the board.
pub open spec fn can_move(m: Coordinate, d: Direction) -> bool {
    match d {
        Direction::Up => m.y > 0,
        Direction::Down => m.y < ROW - 1,
        Direction::Left => m.x > 0,
        Direction::Right => m.x < COL - 1,
    }
}

/// Where a step in direction `d` takes the monster at `m`; a blocked step keeps it in place.
pub open spec fn step(m: Coordinate, d: Direction) -> Coordinate {
    if !can_move(m, d) {
        m
    } else {
        match d {
            Direction::Up => Coordinate { y: (m.y - 1) as u8, ..m },
            Direction::Down => Coordinate { y: (m.y + 1) as u8, ..m },
            Direction::Left => Coordinate { x: (m.x - 1) as u8, ..m },
            Direction::Right => Coordinate { x: (m.x + 1) as u8, ..m },
        }
    }
}

/// Where the keys of `path`, taken in order, lead the monster from `m`.
pub open spec fn run_path(m: Coordinate, path: Seq<char>) -> Coordinate
    decreases path.len(),
{
    if path.len() == 0 {
        m
    } else {
        let before = run_path(m, path.drop_last());
        match key_direction(path.last()) {
            Some(d) => step(before, d),
            None => before,
        }
    }
}

/// The keys of `path` that stand for no direction, in order.
pub open spec fn unrecognized_keys(path: Seq<char>) -> Seq<char>
    decreases path.len(),
{
    if path.len() == 0 {
        Seq::empty()
    } else {
        let before = unrecognized_keys(path.drop_last());
        if key_direction(path.last()) is None {
            before.push(path.last())
        } else {
            before
        }
    }
}

/// A path of keys none of which stands for a direction leaves the monster where it was.
pub proof fn lemma_unrecognized_path_stays(m: Coordinate, path: Seq<char>)
    requires
        forall|i: int| 0 <= i < path.len() ==> key_direction(#[trigger] path[i]) is None,
    ensures
        run_path(m, path) == m,
    decreases path.len(),
{
    if path.len() > 0 {
        lemma_unrecognized_path_stays(m, path.drop_last());
    }
}

/// Whatever keys are applied, the monster stays on the board.
pub proof fn lemma_run_path_in_bounds(m: Coordinate, path: Seq<char>)
    requires
        in_bounds(m),
    ensures
        in_bounds(run_path(m, path)),
    decreases path.len(),
{
    if path.len() > 0 {
        lemma_run_path_in_bounds(m, path.drop_last());
    }
}

} // verus!
