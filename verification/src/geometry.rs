//! Geometry primitives: grid positions, move directions, and moves.
use vstd::prelude::*;
use crate::player::PlayerID;

verus! {

/// Number of rows of the grid.
pub const BOARD_HEIGHT: usize = 6;
/// Number of columns of the grid.
pub const BOARD_WIDTH: usize = 6;

/// True when `0 <= n < max`.
pub(crate) fn check(n: i8, max: usize) -> (r: bool)
    ensures
        r == (0 <= n && n < max),
{
    if n < 0 {
        return false;
    }
    (n as usize) < max
}

/// A grid coordinate. Valid positions have both coordinates in `[0, 6)`;
/// out-of-range values represent off-board targets.
#[derive(Clone, Copy, Debug, PartialEq, Eq, Structural, Hash)]
pub struct Position {
    pub x: i8,
    pub y: i8,
}

impl Position {
    /// The index returned by `to_index` for a position with a negative
    /// coordinate; one past the last cell index.
    pub open spec fn invalid_index() -> int {
        36
    }

    pub open spec fn valid(self) -> bool {
        0 <= self.x < 6 && 0 <= self.y < 6
    }

    /// Row-major cell index of this position, or 36 for a position with a
    /// negative coordinate.
    pub open spec fn index_spec(self) -> int {
        if self.x < 0 || self.y < 0 {
            Self::invalid_index()
        } else {
            self.x + self.y * 6
        }
    }

    /// The player whose starting rows contain this position, if any:
    /// columns 1..=4, rows 0..2 belong to the first player, rows 4..6 to
    /// the second.
    pub open spec fn init_area_spec(self) -> Option<PlayerID> {
        if !(1 <= self.x < 5) {
            None
        } else if 0 <= self.y < 2 {
            Some(PlayerID::P1)
        } else if 4 <= self.y < 6 {
            Some(PlayerID::P2)
        } else {
            None
        }
    }

    /// An escape cell sits on the left or right edge column, on the row
    /// through which `player`'s pieces may leave the board.
    pub open spec fn escape_spec(self, player: PlayerID) -> bool {
        (self.x == 0 || self.x == 5) && self.y == (match player {
            PlayerID::P1 => 5int,
            PlayerID::P2 => 0int,
        })
    }

    pub fn new(x: i8, y: i8) -> (r: Self)
        ensures
            r == (Position { x, y }),
    {
        Position { x, y }
    }

    pub fn in_init_area(&self) -> (r: Option<PlayerID>)
        ensures
            r == self.init_area_spec(),
    {
        let Position { x, y } = *self;
        if !(1 <= x && x < BOARD_WIDTH as i8 - 1) {
            return None;
        }
        if 0 <= y && y < 2 {
            Some(PlayerID::P1)
        } else if BOARD_HEIGHT as i8 - 2 <= y && y < BOARD_HEIGHT as i8 {
            Some(PlayerID::P2)
        } else {
            None
        }
    }

    pub fn is_valid(self) -> (r: bool)
        ensures
            r == self.valid(),
    {
        check(self.x, BOARD_WIDTH) && check(self.y, BOARD_HEIGHT)
    }

    pub fn to_index(self) -> (r: usize)
        ensures
            r == self.index_spec(),
    {
        let Position { x, y } = self;
        if x < 0 || y < 0 {
            return BOARD_HEIGHT * BOARD_WIDTH;
        }
        x as usize + y as usize * BOARD_WIDTH
    }

    pub fn is_escape(&self, player: PlayerID) -> (r: bool)
        ensures
            r == self.escape_spec(player),
    {
        let Position { x, y } = *self;
        if x != 0 && x != BOARD_WIDTH as i8 - 1 {
            return false;
        }
        match player {
            PlayerID::P1 => y == BOARD_HEIGHT as i8 - 1,
            PlayerID::P2 => y == 0,
        }
    }
}

/// A valid position's index addresses one of the 36 cells, and the map
/// from valid positions to indices is injective.
pub proof fn lemma_index_bijective(a: Position, b: Position)
    requires
        a.valid(),
        b.valid(),
    ensures
        0 <= a.index_spec() < 36,
        a.index_spec() == b.index_spec() ==> a == b,
{
}

/// One of the four move directions.
#[derive(Clone, Copy, Debug, Hash, PartialEq, Eq, Structural, PartialOrd, Ord)]
pub enum Direction {
    Up,
    Down,
    Left,
    Right,
}

impl Direction {
    /// The unit offset this direction adds to a position.
    pub open spec fn offset_spec(self) -> (int, int) {
        match self {
            Direction::Up => (0int, -1int),
            Direction::Down => (0int, 1int),
            Direction::Left => (-1int, 0int),
            Direction::Right => (1int, 0int),
        }
    }

    /// Lateral directions are the only ones through which a piece may
    /// leave the board.
    pub open spec fn ordinal_spec(self) -> bool {
        self == Direction::Left || self == Direction::Right
    }

    pub fn to_pos(self) -> (r: Position)
        ensures
            r.x as int == self.offset_spec().0,
            r.y as int == self.offset_spec().1,
    {
        match self {
            Direction::Up => Position::new(0, -1),
            Direction::Down => Position::new(0, 1),
            Direction::Left => Position::new(-1, 0),
            Direction::Right => Position::new(1, 0),
        }
    }

    /// All four directions, in a fixed order.
    pub fn iter() -> (r: Vec<Direction>)
        ensures
            r@ =~= seq![Direction::Up, Direction::Down, Direction::Left, Direction::Right],
    {
        let mut v: Vec<Direction> = Vec::new();
        v.push(Direction::Up);
        v.push(Direction::Down);
        v.push(Direction::Left);
        v.push(Direction::Right);
        v
    }

    pub fn is_ordinal(&self) -> (r: bool)
        ensures
            r == self.ordinal_spec(),
    {
        match self {
            Direction::Up | Direction::Down => false,
            _ => true,
        }
    }
}

/// An origin position together with a direction; the target cell may lie
/// off the board, which represents an exit attempt.
#[derive(Clone, Copy, Debug, PartialEq, Eq, Structural)]
pub struct Move {
    pub pos: Position,
    pub direction: Direction,
}

impl Move {
    /// The target position of this move.
    pub open spec fn to_spec(self) -> Position {
        Position {
            x: (self.pos.x + self.direction.offset_spec().0) as i8,
            y: (self.pos.y + self.direction.offset_spec().1) as i8,
        }
    }

    /// An escape move starts on an escape cell of `player` and goes
    /// sideways.
    pub open spec fn escape_spec(self, player: PlayerID) -> bool {
        self.pos.escape_spec(player) && self.direction.ordinal_spec()
    }

    pub fn to(self) -> (r: Position)
        requires
            self.pos.valid(),
        ensures
            r == self.to_spec(),
            -1 <= r.x <= 6 && -1 <= r.y <= 6,
    {
        let Move { pos, direction } = self;
        let o = direction.to_pos();
        Position::new(pos.x + o.x, pos.y + o.y)
    }

    pub fn to_indices(self) -> (r: (usize, usize))
        requires
            self.pos.valid(),
        ensures
            r.0 == self.pos.index_spec(),
            r.1 == self.to_spec().index_spec(),
    {
        (self.pos.to_index(), self.to().to_index())
    }

    pub fn can_escape(&self, player: PlayerID) -> (r: bool)
        ensures
            r == self.escape_spec(player),
    {
        self.pos.is_escape(player) && self.direction.is_ordinal()
    }
}

} // verus!
