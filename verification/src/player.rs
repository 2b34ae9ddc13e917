//! Player identifiers, each player's starting area, and the capability
//! interface that agents implement.
use vstd::prelude::*;
use crate::geometry::{Move, Position};
use crate::cell::GhostID;

verus! {

/// One of the two players.
#[derive(Clone, Copy, Debug, Eq, PartialEq, Structural, Hash)]
pub enum PlayerID {
    P1,
    P2,
}

impl PlayerID {
    /// The other player.
    pub open spec fn rev_spec(self) -> PlayerID {
        match self {
            PlayerID::P1 => PlayerID::P2,
            PlayerID::P2 => PlayerID::P1,
        }
    }

    /// Lowest row of this player's two starting rows.
    pub open spec fn home_y0(self) -> int {
        match self {
            PlayerID::P1 => 0,
            PlayerID::P2 => 4,
        }
    }

    /// The `k`-th cell of this player's starting area, for `k` in
    /// `[0, 8)`: columns 1..=4 walked left to right, the two home rows
    /// walked top to bottom within each column.
    pub open spec fn home_pos(self, k: int) -> Position {
        Position { x: (1 + k / 2) as i8, y: (self.home_y0() + k % 2) as i8 }
    }

    /// The piece identity assigned to the `k`-th starting cell: the two
    /// players number their pieces in opposite directions.
    pub open spec fn home_id_code(self, k: int) -> int {
        match self {
            PlayerID::P1 => 7 - k,
            PlayerID::P2 => k,
        }
    }

    /// The starting-cell number of a position of this player's area:
    /// the inverse of `home_pos`.
    pub open spec fn home_index(self, pos: Position) -> int {
        (pos.x - 1) * 2 + (pos.y - self.home_y0())
    }

    pub fn rev(&self) -> (r: PlayerID)
        ensures
            r == self.rev_spec(),
    {
        match self {
            PlayerID::P1 => PlayerID::P2,
            PlayerID::P2 => PlayerID::P1,
        }
    }

    /// The eight starting cells of this player, in their fixed order.
    pub fn init_pos(&self) -> (r: Vec<Position>)
        ensures
            r@.len() == 8,
            forall|k: int| 0 <= k < 8 ==> r@[k] == self.home_pos(k),
    {
        let y0: i8 = match self {
            PlayerID::P1 => 0,
            PlayerID::P2 => 4,
        };
        let mut v: Vec<Position> = Vec::new();
        let mut x: i8 = 1;
        while x <= 4
            invariant
                1 <= x <= 5,
                y0 as int == self.home_y0(),
                v@.len() == 2 * (x - 1),
                forall|k: int| 0 <= k < v@.len() ==> v@[k] == self.home_pos(k),
            decreases 5 - x,
        {
            v.push(Position { x, y: y0 });
            v.push(Position { x, y: y0 + 1 });
            x = x + 1;
        }
        v
    }

    /// The eight starting cells of this player paired with the identity
    /// each receives at initialization.
    pub fn init(&self) -> (r: Vec<(Position, GhostID)>)
        ensures
            r@.len() == 8,
            forall|k: int| 0 <= k < 8 ==> (#[trigger] r@[k]).0 == self.home_pos(k),
            forall|k: int| 0 <= k < 8 ==> GhostID::code_spec((#[trigger] r@[k]).1)
                == self.home_id_code(k),
    {
        let pos = self.init_pos();
        let mut v: Vec<(Position, GhostID)> = Vec::new();
        let mut k: usize = 0;
        while k < 8
            invariant
                0 <= k <= 8,
                pos@.len() == 8,
                forall|j: int| 0 <= j < 8 ==> pos@[j] == self.home_pos(j),
                v@.len() == k,
                forall|j: int| 0 <= j < k ==> (#[trigger] v@[j]).0 == self.home_pos(j),
                forall|j: int| 0 <= j < k ==> GhostID::code_spec((#[trigger] v@[j]).1)
                    == self.home_id_code(j),
            decreases 8 - k,
        {
            let code: u8 = match self {
                PlayerID::P1 => 7 - (k as u8),
                PlayerID::P2 => k as u8,
            };
            let id = GhostID::from_code(code);
            v.push((pos[k], id));
            k = k + 1;
        }
        v
    }
}

/// Distinct starting-cell numbers name distinct cells.
pub proof fn lemma_home_pos_injective(p: PlayerID, j: int, k: int)
    requires
        0 <= j < 8,
        0 <= k < 8,
        j != k,
    ensures
        p.home_pos(j) != p.home_pos(k),
{
}

/// A position lies in `p`'s starting area exactly when it is one of the
/// eight starting cells, and `home_index` recovers its number there.
pub proof fn lemma_home_area(p: PlayerID, pos: Position)
    ensures
        pos.init_area_spec() == Some(p) <==> (0 <= p.home_index(pos) < 8 && pos == p.home_pos(
            p.home_index(pos),
        )),
        forall|k: int| 0 <= k < 8 ==> (#[trigger] p.home_pos(k)).init_area_spec() == Some(p)
            && p.home_index(p.home_pos(k)) == k && p.home_pos(k).valid(),
{
    assert forall|k: int| 0 <= k < 8 implies (#[trigger] p.home_pos(k)).init_area_spec() == Some(p)
        && p.home_index(p.home_pos(k)) == k && p.home_pos(k).valid() by {
        assert(0 <= k / 2 < 4 && k % 2 == k - 2 * (k / 2) && 0 <= k % 2 < 2);
    }
    if pos.init_area_spec() == Some(p) {
        let k = p.home_index(pos);
        assert(0 <= k < 8);
        assert(k / 2 == pos.x - 1 && k % 2 == pos.y - p.home_y0()) by (nonlinear_arith)
            requires
                k == (pos.x - 1) * 2 + (pos.y - p.home_y0()),
                1 <= pos.x < 5,
                0 <= pos.y - p.home_y0() < 2,
        ;
    }
}

/// The capability interface consumed by the transport layer: an agent
/// names itself, chooses its starting placement, keeps a board snapshot,
/// and produces moves.
pub trait Player: Sized {
    type Error;

    fn id(&self) -> PlayerID;

    fn init(&mut self, id: PlayerID) -> Result<[Position; 4], Self::Error>;

    fn board(&self) -> &crate::board::Board;

    fn step(&mut self, board: crate::board::Board) -> Result<Move, Self::Error>;

    fn close(&mut self, _victory: bool) {
    }
}

} // verus!
