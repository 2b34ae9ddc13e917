//! The board: a fixed grid of 36 cells in row-major order, with
//! initialization, move legality, move application and state diffing.
use vstd::prelude::*;
use crate::cell::{Cell, GhostID, GhostKind, OwnedCell};
use crate::geometry::{Move, Position, BOARD_HEIGHT, BOARD_WIDTH};
use crate::player::PlayerID;
use crate::error::ErrorKind;

verus! {

/// The answer of a legality check: the move is legal, wins the game
/// outright, or is rejected.
#[derive(Clone, Copy, Debug, PartialEq, Eq, Structural)]
pub enum MoveResult {
    Valid,
    Win,
    Invalid,
}

/// What applying or inferring a move produced: an opponent piece was
/// captured and left play, a blue piece escaped and its owner won, or
/// nothing notable happened.
#[derive(Clone, Copy, Debug, PartialEq, Eq, Structural)]
pub enum Transition {
    Lost(OwnedCell),
    End(PlayerID),
    Nothing,
}

/// A per-position record of how one cell changed between two snapshots.
#[derive(Clone, Copy, Debug, PartialEq, Eq, Structural)]
pub struct Diff {
    pub pos: Position,
    pub before: Cell,
    pub after: Cell,
}

impl Diff {
    /// The transition this single-cell change suggests.
    pub open spec fn transition_spec(self) -> Transition {
        match self.before {
            Cell::Owned(b) => match self.after {
                Cell::Owned(_) => Transition::Lost(b),
                Cell::Empty => {
                    if b.ghost_spec() == GhostKind::Blue && self.pos.escape_spec(b.owner_spec()) {
                        Transition::End(b.owner_spec())
                    } else {
                        Transition::Nothing
                    }
                },
            },
            Cell::Empty => Transition::Nothing,
        }
    }

    /// Translate this change into a probable transition: a replaced owned
    /// cell means its occupant was lost; a blue piece vanishing from an
    /// escape cell means its owner won; anything else means nothing.
    pub fn into_transition(self) -> (r: Transition)
        requires
            self.before.wf(),
        ensures
            r == self.transition_spec(),
    {
        let Diff { pos, before, after } = self;
        match before {
            Cell::Owned(before) => match after {
                Cell::Owned(_) => Transition::Lost(before),
                Cell::Empty => {
                    let owner = before.owner();
                    if before.ghost() == GhostKind::Blue && pos.is_escape(owner) {
                        Transition::End(owner)
                    } else {
                        Transition::Nothing
                    }
                },
            },
            Cell::Empty => Transition::Nothing,
        }
    }
}

/// The 6x6 grid. Cell `(x, y)` lives at index `x + y * 6`.
#[derive(Clone, Debug)]
pub struct Board {
    cells: Vec<Cell>,
}

impl Default for Board {
    /// An empty board.
    fn default() -> (r: Self)
        ensures
            r.inv(),
            forall|i: int| 0 <= i < 36 ==> #[trigger] r@[i] == Cell::Empty,
    {
        let mut cells: Vec<Cell> = Vec::new();
        let mut i: usize = 0;
        while i < 36
            invariant
                cells@.len() == i,
                i <= 36,
                forall|j: int| 0 <= j < i ==> #[trigger] cells@[j] == Cell::Empty,
            decreases 36 - i,
        {
            cells.push(Cell::Empty);
            i = i + 1;
        }
        Board { cells }
    }
}

impl Board {
    /// The cells, in row-major order.
    pub closed spec fn view(&self) -> Seq<Cell> {
        self.cells@
    }

    /// A board always holds 36 well-formed cells.
    pub open spec fn inv(&self) -> bool {
        &&& self@.len() == 36
        &&& forall|i: int| 0 <= i < 36 ==> (#[trigger] self@[i]).wf()
    }

    /// The cell at a valid position.
    pub open spec fn at(&self, pos: Position) -> Cell
        recommends
            pos.valid(),
    {
        self@[pos.index_spec()]
    }

    /// Read the cell at a valid position.
    pub fn cell_at(&self, pos: Position) -> (r: Cell)
        requires
            self.inv(),
            pos.valid(),
        ensures
            r == self.at(pos),
    {
        self.cells[pos.to_index()]
    }

    /// Replace the cell at a valid position.
    pub fn set_cell(&mut self, pos: Position, cell: Cell)
        requires
            old(self).inv(),
            pos.valid(),
            cell.wf(),
        ensures
            final(self).inv(),
            final(self)@ == old(self)@.update(pos.index_spec(), cell),
    {
        let idx = pos.to_index();
        self.cells[idx] = cell;
    }

    /// All 36 positions, column by column, each column top to bottom.
    pub fn iter() -> (r: Vec<Position>)
        ensures
            r@.len() == 36,
            forall|s: int| 0 <= s < 36 ==> #[trigger] r@[s] == (Position {
                x: (s / 6) as i8,
                y: (s % 6) as i8,
            }),
            forall|s: int| 0 <= s < 36 ==> (#[trigger] r@[s]).valid(),
    {
        let mut v: Vec<Position> = Vec::new();
        let mut x: i8 = 0;
        while x < 6
            invariant
                0 <= x <= 6,
                v@.len() == 6 * x,
                forall|s: int| 0 <= s < v@.len() ==> #[trigger] v@[s] == (Position {
                    x: (s / 6) as i8,
                    y: (s % 6) as i8,
                }),
            decreases 6 - x,
        {
            let mut y: i8 = 0;
            while y < 6
                invariant
                    0 <= x < 6,
                    0 <= y <= 6,
                    v@.len() == 6 * x + y,
                    forall|s: int| 0 <= s < v@.len() ==> #[trigger] v@[s] == (Position {
                        x: (s / 6) as i8,
                        y: (s % 6) as i8,
                    }),
                decreases 6 - y,
            {
                v.push(Position { x, y });
                y = y + 1;
            }
            x = x + 1;
        }
        assert(forall|s: int| 0 <= s < 36 ==> (#[trigger] v@[s]).valid());
        v
    }
}

/// The legality of `mov` on the cells `b`: rejected when the origin is
/// off-board or empty or the on-board target holds the mover's own
/// piece; an outright win when a blue piece leaves the board through an
/// escape move of its owner; legal otherwise.
pub open spec fn can_move_spec(b: Seq<Cell>, mov: Move) -> MoveResult {
    if !mov.pos.valid() {
        MoveResult::Invalid
    } else {
        match b[mov.pos.index_spec()] {
            Cell::Empty => MoveResult::Invalid,
            Cell::Owned(o) => {
                let to = mov.to_spec();
                if to.valid() {
                    match b[to.index_spec()] {
                        Cell::Empty => MoveResult::Valid,
                        Cell::Owned(d) => if d.owner_spec() != o.owner_spec() {
                            MoveResult::Valid
                        } else {
                            MoveResult::Invalid
                        },
                    }
                } else {
                    if mov.escape_spec(o.owner_spec()) && o.ghost_spec() == GhostKind::Blue {
                        MoveResult::Win
                    } else {
                        MoveResult::Invalid
                    }
                }
            },
        }
    }
}

impl Board {
    /// Runtime validation that this value is a well-formed grid, for
    /// boards received from unverified surroundings.
    pub fn check_inv(&self) -> (r: bool)
        ensures
            r == self.inv(),
    {
        if self.cells.len() != 36 {
            return false;
        }
        let mut i: usize = 0;
        while i < 36
            invariant
                self@.len() == 36,
                0 <= i <= 36,
                forall|j: int| 0 <= j < i ==> (#[trigger] self@[j]).wf(),
            decreases 36 - i,
        {
            if !self.cells[i].check_wf() {
                return false;
            }
            i = i + 1;
        }
        true
    }

    /// Check whether `mov` may be applied to this board.
    pub fn can_move(&self, mov: Move) -> (r: MoveResult)
        requires
            self.inv(),
        ensures
            r == can_move_spec(self@, mov),
    {
        if !mov.pos.is_valid() {
            return MoveResult::Invalid;
        }
        let to_p = mov.to();
        let (owner, ghost) = match self.cell_at(mov.pos) {
            Cell::Owned(o) => (o.owner(), o.ghost()),
            Cell::Empty => return MoveResult::Invalid,
        };
        if to_p.is_valid() {
            match self.cell_at(to_p) {
                Cell::Empty => MoveResult::Valid,
                Cell::Owned(o) => if o.owner() != owner {
                    MoveResult::Valid
                } else {
                    MoveResult::Invalid
                },
            }
        } else {
            if mov.can_escape(owner) && ghost == GhostKind::Blue {
                MoveResult::Win
            } else {
                MoveResult::Invalid
            }
        }
    }

    /// Apply `mov`. Exactly the moves that `can_move` accepts succeed: a
    /// legal move empties the origin and puts the mover on the target,
    /// reporting a capture when the target was occupied; a winning escape
    /// empties the origin and reports the winner; a rejected move fails
    /// with a typed error and leaves the board unchanged.
    pub fn transit(&mut self, mov: Move) -> (r: Result<Transition, ErrorKind>)
        requires
            old(self).inv(),
        ensures
            final(self).inv(),
            r is Err <==> can_move_spec(old(self)@, mov) == MoveResult::Invalid,
            can_move_spec(old(self)@, mov) == MoveResult::Invalid ==> {
                &&& r == Err::<Transition, ErrorKind>(ErrorKind::InvalidMove(mov))
                &&& final(self)@ == old(self)@
            },
            can_move_spec(old(self)@, mov) == MoveResult::Win ==> {
                let o = old(self)@[mov.pos.index_spec()]->Owned_0;
                &&& r == Ok::<Transition, ErrorKind>(Transition::End(o.owner_spec()))
                &&& final(self)@ == old(self)@.update(mov.pos.index_spec(), Cell::Empty)
            },
            can_move_spec(old(self)@, mov) == MoveResult::Valid ==> {
                let from = mov.pos.index_spec();
                let to = mov.to_spec().index_spec();
                &&& final(self)@ == old(self)@.update(from, Cell::Empty).update(
                    to,
                    old(self)@[from],
                )
                &&& r == Ok::<Transition, ErrorKind>(match old(self)@[to] {
                    Cell::Owned(d) => Transition::Lost(d),
                    Cell::Empty => Transition::Nothing,
                })
            },
    {
        if !mov.pos.is_valid() {
            return Err(ErrorKind::InvalidMove(mov));
        }
        let from_pos = mov.pos;
        let o = match self.cell_at(from_pos) {
            Cell::Owned(o) => o,
            Cell::Empty => {
                return Err(ErrorKind::InvalidMove(mov));
            },
        };
        let to_p = mov.to();
        if to_p.is_valid() {
            let before = self.cell_at(to_p);
            if let Cell::Owned(d) = before {
                if d.owner() == o.owner() {
                    return Err(ErrorKind::InvalidMove(mov));
                }
            }
            self.set_cell(from_pos, Cell::Empty);
            self.set_cell(to_p, Cell::Owned(o));
            match before {
                Cell::Owned(d) => Ok(Transition::Lost(d)),
                Cell::Empty => Ok(Transition::Nothing),
            }
        } else {
            if mov.can_escape(o.owner()) && o.ghost() == GhostKind::Blue {
                self.set_cell(from_pos, Cell::Empty);
                Ok(Transition::End(o.owner()))
            } else {
                Err(ErrorKind::InvalidMove(mov))
            }
        }
    }
}

/// The position visited at step `s` of a board scan: column by column,
/// each column top to bottom.
pub open spec fn scan_pos(s: int) -> Position {
    Position { x: (s / 6) as i8, y: (s % 6) as i8 }
}

/// The diff records produced by the first `n` scan steps.
pub open spec fn diff_up_to(a: Seq<Cell>, b: Seq<Cell>, n: int) -> Seq<Diff>
    decreases n,
{
    if n <= 0 {
        Seq::empty()
    } else {
        let prev = diff_up_to(a, b, n - 1);
        let p = scan_pos(n - 1);
        if a[p.index_spec()] != b[p.index_spec()] {
            prev.push(Diff { pos: p, before: a[p.index_spec()], after: b[p.index_spec()] })
        } else {
            prev
        }
    }
}

/// All records of positions where `a` and `b` differ, in scan order.
pub open spec fn diff_spec(a: Seq<Cell>, b: Seq<Cell>) -> Seq<Diff> {
    diff_up_to(a, b, 36)
}

/// The two snapshots disagree at `p`.
pub open spec fn changed_at(a: Seq<Cell>, b: Seq<Cell>, p: Position) -> bool {
    a[p.index_spec()] != b[p.index_spec()]
}

/// The scan visits the valid position `p` at step `6 * p.x + p.y`, and
/// no other step visits it.
pub proof fn lemma_scan_pos_inverse(p: Position, s: int)
    requires
        p.valid(),
        0 <= s < 36,
    ensures
        scan_pos(s) == p <==> s == 6 * p.x + p.y,
{
    assert(scan_pos(6 * p.x + p.y) == p) by {
        assert((6 * p.x + p.y) / 6 == p.x && (6 * p.x + p.y) % 6 == p.y) by (nonlinear_arith)
            requires
                0 <= p.x < 6,
                0 <= p.y < 6,
        ;
    }
    assert(s == 6 * (s / 6) + s % 6 && 0 <= s % 6 < 6) by (nonlinear_arith)
        requires
            0 <= s < 36,
    ;
}

/// Every diff record up to step `n` comes from a changed valid position,
/// holds that position's two cells, and appears exactly when its
/// position changed within the first `n` steps.
proof fn lemma_diff_up_to_characterizes(a: Seq<Cell>, b: Seq<Cell>, n: int)
    requires
        0 <= n <= 36,
    ensures
        forall|i: int| 0 <= i < diff_up_to(a, b, n).len() ==> {
            let d = #[trigger] diff_up_to(a, b, n)[i];
            &&& d.pos.valid()
            &&& changed_at(a, b, d.pos)
            &&& d.before == a[d.pos.index_spec()]
            &&& d.after == b[d.pos.index_spec()]
        },
        forall|p: Position| #[trigger] p.valid() ==> ((exists|i: int|
            0 <= i < diff_up_to(a, b, n).len() && (#[trigger] diff_up_to(a, b, n)[i]).pos == p)
            <==> (changed_at(a, b, p) && 6 * p.x + p.y < n)),
    decreases n,
{
    if n > 0 {
        lemma_diff_up_to_characterizes(a, b, n - 1);
        let p0 = scan_pos(n - 1);
        assert(p0.valid() && 6 * p0.x + p0.y == n - 1) by {
            assert(0 <= (n - 1) / 6 < 6 && 0 <= (n - 1) % 6 < 6 && n - 1 == 6 * ((n - 1) / 6) + (n
                - 1) % 6) by (nonlinear_arith)
                requires
                    0 < n <= 36,
            ;
        }
        let prev = diff_up_to(a, b, n - 1);
        let cur = diff_up_to(a, b, n);
        assert forall|p: Position| #[trigger] p.valid() implies ((exists|i: int|
            0 <= i < cur.len() && (#[trigger] cur[i]).pos == p) <==> (changed_at(a, b, p) && 6
            * p.x + p.y < n)) by {
            lemma_scan_pos_inverse(p, n - 1);
            if changed_at(a, b, p) && 6 * p.x + p.y < n {
                if 6 * p.x + p.y < n - 1 {
                    let i = choose|i: int| 0 <= i < prev.len() && (#[trigger] prev[i]).pos == p;
                    assert(cur[i].pos == p);
                } else {
                    assert(p == p0);
                    assert(cur[cur.len() - 1].pos == p);
                }
            }
            if exists|i: int| 0 <= i < cur.len() && (#[trigger] cur[i]).pos == p {
                let i = choose|i: int| 0 <= i < cur.len() && (#[trigger] cur[i]).pos == p;
                if i < prev.len() {
                    assert(prev[i].pos == p);
                } else {
                    assert(changed_at(a, b, p0));
                }
            }
        }
    }
}

/// A board differs nowhere from itself.
pub proof fn lemma_diff_self_empty(a: Seq<Cell>)
    ensures
        diff_spec(a, a).len() == 0,
{
    lemma_diff_self_up_to(a, 36);
}

proof fn lemma_diff_self_up_to(a: Seq<Cell>, n: int)
    ensures
        diff_up_to(a, a, n).len() == 0,
    decreases n,
{
    if n > 0 {
        lemma_diff_self_up_to(a, n - 1);
    }
}

/// Diffing in either order reports the same set of changed positions.
pub proof fn lemma_diff_symmetric(a: Seq<Cell>, b: Seq<Cell>)
    ensures
        forall|p: Position| #[trigger] p.valid() ==> ((exists|i: int|
            0 <= i < diff_spec(a, b).len() && (#[trigger] diff_spec(a, b)[i]).pos == p) <==> (
        exists|i: int|
            0 <= i < diff_spec(b, a).len() && (#[trigger] diff_spec(b, a)[i]).pos == p)),
{
    lemma_diff_up_to_characterizes(a, b, 36);
    lemma_diff_up_to_characterizes(b, a, 36);
}

/// Every record of a full diff describes one changed valid position, and
/// every changed valid position has exactly its record there.
pub proof fn lemma_diff_characterizes(a: Seq<Cell>, b: Seq<Cell>)
    ensures
        forall|i: int| 0 <= i < diff_spec(a, b).len() ==> {
            let d = #[trigger] diff_spec(a, b)[i];
            &&& d.pos.valid()
            &&& changed_at(a, b, d.pos)
            &&& d.before == a[d.pos.index_spec()]
            &&& d.after == b[d.pos.index_spec()]
        },
        forall|p: Position| #[trigger] p.valid() ==> ((exists|i: int|
            0 <= i < diff_spec(a, b).len() && (#[trigger] diff_spec(a, b)[i]).pos == p) <==>
        changed_at(a, b, p)),
{
    lemma_diff_up_to_characterizes(a, b, 36);
}

impl Board {
    /// Record every position where this snapshot and `other` disagree,
    /// in scan order, with both cells.
    pub fn diff(&self, other: &Self) -> (r: Vec<Diff>)
        requires
            self.inv(),
            other.inv(),
        ensures
            r@ == diff_spec(self@, other@),
    {
        let mut out: Vec<Diff> = Vec::new();
        let mut x: usize = 0;
        while x < BOARD_WIDTH
            invariant
                self.inv(),
                other.inv(),
                0 <= x <= 6,
                out@ == diff_up_to(self@, other@, 6 * x),
            decreases 6 - x,
        {
            let mut y: usize = 0;
            while y < BOARD_HEIGHT
                invariant
                    self.inv(),
                    other.inv(),
                    0 <= x < 6,
                    0 <= y <= 6,
                    out@ == diff_up_to(self@, other@, 6 * x + y),
                decreases 6 - y,
            {
                let idx = x + y * BOARD_WIDTH;
                proof {
                    assert((6 * x + y) / 6 == x && (6 * x + y) % 6 == y) by (nonlinear_arith)
                        requires
                            0 <= x < 6,
                            0 <= y < 6,
                    ;
                    assert(scan_pos(6 * x + y) == (Position { x: x as i8, y: y as i8 }));
                }
                let pos = Position { x: x as i8, y: y as i8 };
                let self_c = self.cells[idx];
                let other_c = other.cells[idx];
                if !cell_eq(self_c, other_c) {
                    out.push(Diff { pos, before: self_c, after: other_c });
                }
                y = y + 1;
            }
            x = x + 1;
        }
        out
    }
}

/// Exactly four positions were given, each a distinct cell of `player`'s
/// starting area.
pub open spec fn valid_init(rp: Seq<Position>, player: PlayerID) -> bool {
    &&& rp.len() == 4
    &&& forall|i: int| 0 <= i < 4 ==> (#[trigger] rp[i]).init_area_spec() == Some(player)
    &&& forall|i: int, j: int|
        0 <= i < 4 && 0 <= j < 4 && i != j ==> #[trigger] rp[i] != #[trigger] rp[j]
}

/// The starting layout built for `player` from the red placement `rp`:
/// `player`'s starting cells hold a red piece where named in `rp` and a
/// blue piece elsewhere, the opponent's starting cells hold unknown
/// pieces, every other cell is empty, and each starting cell carries the
/// identity its number assigns.
pub open spec fn init_board_ok(b: Seq<Cell>, rp: Seq<Position>, player: PlayerID) -> bool {
    forall|pos: Position| #[trigger] pos.valid() ==> {
        let c = b[pos.index_spec()];
        if pos.init_area_spec() == Some(player) {
            &&& c is Owned
            &&& c->Owned_0.ghost_spec() == (if rp.contains(pos) {
                GhostKind::Red
            } else {
                GhostKind::Blue
            })
            &&& c->Owned_0.owner_spec() == player
            &&& c->Owned_0.id_spec() == GhostID::from_code_spec(
                player.home_id_code(player.home_index(pos)),
            )
        } else if pos.init_area_spec() == Some(player.rev_spec()) {
            &&& c is Owned
            &&& c->Owned_0.ghost_spec() == GhostKind::Unknown
            &&& c->Owned_0.owner_spec() == player.rev_spec()
            &&& c->Owned_0.id_spec() == GhostID::from_code_spec(
                player.rev_spec().home_id_code(player.rev_spec().home_index(pos)),
            )
        } else {
            c is Empty
        }
    }
}

/// True when `arr` names `p`.
fn contains_pos(arr: &[Position; 4], p: Position) -> (r: bool)
    ensures
        r == arr@.contains(p),
{
    let mut i: usize = 0;
    while i < 4
        invariant
            0 <= i <= 4,
            forall|j: int| 0 <= j < i ==> arr@[j] != p,
        decreases 4 - i,
    {
        if arr[i] == p {
            assert(arr@[i as int] == p);
            return true;
        }
        i = i + 1;
    }
    false
}

/// True when the four positions are a valid red placement for `player`.
fn placement_valid(red_pos: &[Position; 4], player: PlayerID) -> (r: bool)
    ensures
        r == valid_init(red_pos@, player),
{
    let mut i: usize = 0;
    while i < 4
        invariant
            0 <= i <= 4,
            forall|j: int| 0 <= j < i ==> (#[trigger] red_pos@[j]).init_area_spec() == Some(
                player,
            ),
            forall|j: int, k: int|
                0 <= j < i && 0 <= k < i && j != k ==> #[trigger] red_pos@[j]
                    != #[trigger] red_pos@[k],
        decreases 4 - i,
    {
        let good = match red_pos[i].in_init_area() {
            Some(p) => p == player,
            None => false,
        };
        if !good {
            return false;
        }
        let mut j: usize = 0;
        while j < i
            invariant
                0 <= j <= i < 4,
                forall|k: int| 0 <= k < j ==> red_pos@[k] != red_pos@[i as int],
            decreases i - j,
        {
            if red_pos[j] == red_pos[i] {
                return false;
            }
            j = j + 1;
        }
        i = i + 1;
    }
    true
}

impl Board {
    /// Build the starting layout for `player`, placing red pieces on the
    /// four given cells of its starting area. Succeeds exactly when the
    /// four positions are distinct cells of that area; on failure no
    /// board is produced.
    pub fn init_for_player(red_pos: [Position; 4], player: PlayerID) -> (r: Option<Board>)
        ensures
            r is Some <==> valid_init(red_pos@, player),
            r is Some ==> {
                &&& r->0.inv()
                &&& init_board_ok(r->0@, red_pos@, player)
            },
    {
        if !placement_valid(&red_pos, player) {
            return None;
        }
        let mut board = Board::default();
        let own_cells = player.init();
        let ghost rp = red_pos@;
        let mut k: usize = 0;
        while k < 8
            invariant
                0 <= k <= 8,
                board.inv(),
                own_cells@.len() == 8,
                forall|j: int| 0 <= j < 8 ==> (#[trigger] own_cells@[j]).0 == player.home_pos(j),
                forall|j: int| 0 <= j < 8 ==> GhostID::code_spec((#[trigger] own_cells@[j]).1)
                    == player.home_id_code(j),
                rp == red_pos@,
                forall|pos: Position| #[trigger] pos.valid() ==> {
                    let c = board@[pos.index_spec()];
                    if pos.init_area_spec() == Some(player) && player.home_index(pos) < k {
                        &&& c is Owned
                        &&& c->Owned_0.ghost_spec() == (if rp.contains(pos) {
                            GhostKind::Red
                        } else {
                            GhostKind::Blue
                        })
                        &&& c->Owned_0.owner_spec() == player
                        &&& c->Owned_0.id_spec() == GhostID::from_code_spec(
                            player.home_id_code(player.home_index(pos)),
                        )
                    } else {
                        c is Empty
                    }
                },
            decreases 8 - k,
        {
            let (pos, id) = own_cells[k];
            proof {
                crate::player::lemma_home_area(player, pos);
                crate::cell::lemma_ghost_id_code_roundtrip(id);
            }
            let kind = if contains_pos(&red_pos, pos) {
                GhostKind::Red
            } else {
                GhostKind::Blue
            };
            let cell = Cell::owned(kind, player, id);
            board.set_cell(pos, cell);
            proof {
                assert forall|q: Position| #[trigger] q.valid() && q != pos implies q.index_spec()
                    != pos.index_spec() by {
                    crate::geometry::lemma_index_bijective(q, pos);
                }
                assert forall|q: Position|
                    #[trigger] q.valid() && q.init_area_spec() == Some(player)
                        && player.home_index(q) < k + 1 && q != pos implies player.home_index(q)
                    < k by {
                    crate::player::lemma_home_area(player, q);
                }
            }
            k = k + 1;
        }
        let opp = player.rev();
        let opp_cells = opp.init();
        let mut k: usize = 0;
        while k < 8
            invariant
                0 <= k <= 8,
                board.inv(),
                opp == player.rev_spec(),
                opp_cells@.len() == 8,
                forall|j: int| 0 <= j < 8 ==> (#[trigger] opp_cells@[j]).0 == opp.home_pos(j),
                forall|j: int| 0 <= j < 8 ==> GhostID::code_spec((#[trigger] opp_cells@[j]).1)
                    == opp.home_id_code(j),
                rp == red_pos@,
                forall|pos: Position| #[trigger] pos.valid() ==> {
                    let c = board@[pos.index_spec()];
                    if pos.init_area_spec() == Some(player) {
                        &&& c is Owned
                        &&& c->Owned_0.ghost_spec() == (if rp.contains(pos) {
                            GhostKind::Red
                        } else {
                            GhostKind::Blue
                        })
                        &&& c->Owned_0.owner_spec() == player
                        &&& c->Owned_0.id_spec() == GhostID::from_code_spec(
                            player.home_id_code(player.home_index(pos)),
                        )
                    } else if pos.init_area_spec() == Some(opp) && opp.home_index(pos) < k {
                        &&& c is Owned
                        &&& c->Owned_0.ghost_spec() == GhostKind::Unknown
                        &&& c->Owned_0.owner_spec() == opp
                        &&& c->Owned_0.id_spec() == GhostID::from_code_spec(
                            opp.home_id_code(opp.home_index(pos)),
                        )
                    } else {
                        c is Empty
                    }
                },
            decreases 8 - k,
        {
            let (pos, id) = opp_cells[k];
            proof {
                crate::player::lemma_home_area(opp, pos);
                crate::cell::lemma_ghost_id_code_roundtrip(id);
            }
            let cell = Cell::owned(GhostKind::Unknown, opp, id);
            board.set_cell(pos, cell);
            proof {
                assert forall|q: Position| #[trigger] q.valid() && q != pos implies q.index_spec()
                    != pos.index_spec() by {
                    crate::geometry::lemma_index_bijective(q, pos);
                }
                assert forall|q: Position| #[trigger] q.valid() && q.init_area_spec() == Some(opp)
                    && opp.home_index(q) < k + 1 && q != pos implies opp.home_index(q) < k by {
                    crate::player::lemma_home_area(opp, q);
                }
            }
            k = k + 1;
        }
        Some(board)
    }
}

/// The positions of `b` holding a piece of this owner and kind.
pub open spec fn pieces_of(b: Seq<Cell>, owner: PlayerID, kind: GhostKind) -> Set<Position> {
    Set::new(
        |pos: Position|
            pos.valid() && b[pos.index_spec()] is Owned && b[pos.index_spec()]->Owned_0.owner_spec()
                == owner && b[pos.index_spec()]->Owned_0.ghost_spec() == kind,
    )
}

/// The positions of `p`'s starting area.
pub open spec fn home_set(p: PlayerID) -> Set<Position> {
    Set::new(|pos: Position| pos.init_area_spec() == Some(p))
}

/// A disjoint union is as large as its two parts together.
proof fn lemma_disjoint_union_len<A>(a: Set<A>, b: Set<A>)
    requires
        a.finite(),
        b.finite(),
        a.disjoint(b),
    ensures
        a.union(b).len() == a.len() + b.len(),
    decreases a.len(),
{
    broadcast use vstd::set::group_set_axioms;

    if a.len() == 0 {
        assert(a.union(b) =~= b);
    } else {
        let x = a.choose();
        assert(a.remove(x).union(b) =~= a.union(b).remove(x));
        lemma_disjoint_union_len(a.remove(x), b);
    }
}

/// A player's starting area holds exactly its eight starting cells.
proof fn lemma_home_set_len(p: PlayerID)
    ensures
        home_set(p).finite(),
        home_set(p).len() == 8,
{
    broadcast use vstd::set::group_set_axioms;

    let hs = Seq::new(8, |k: int| p.home_pos(k));
    assert forall|i: int, j: int|
        0 <= i < hs.len() && 0 <= j < hs.len() && i != j implies hs[i] != hs[j] by {
        crate::player::lemma_home_pos_injective(p, i, j);
    }
    assert(hs.no_duplicates());
    hs.unique_seq_to_set();
    assert forall|pos: Position| #[trigger] home_set(p).contains(pos) implies hs.to_set().contains(
        pos,
    ) by {
        crate::player::lemma_home_area(p, pos);
        assert(hs[p.home_index(pos)] == pos);
    }
    assert forall|pos: Position| #[trigger] hs.to_set().contains(pos) implies home_set(p).contains(
        pos,
    ) by {
        crate::player::lemma_home_area(p, pos);
    }
    assert(home_set(p) =~= hs.to_set());
}

/// The starting layout for `player` holds exactly four red and four blue
/// pieces of `player` — the red ones on the chosen cells — and eight
/// unknown pieces of the opponent.
pub proof fn lemma_init_piece_counts(b: Seq<Cell>, rp: Seq<Position>, player: PlayerID)
    requires
        valid_init(rp, player),
        init_board_ok(b, rp, player),
    ensures
        pieces_of(b, player, GhostKind::Red) =~= rp.to_set(),
        pieces_of(b, player, GhostKind::Red).len() == 4,
        pieces_of(b, player, GhostKind::Blue).len() == 4,
        pieces_of(b, player.rev_spec(), GhostKind::Unknown).len() == 8,
{
    broadcast use vstd::set::group_set_axioms;

    let rev = player.rev_spec();
    let red = pieces_of(b, player, GhostKind::Red);
    let blue = pieces_of(b, player, GhostKind::Blue);
    let unknown = pieces_of(b, rev, GhostKind::Unknown);

    // Red cells sit exactly on the chosen placement.
    assert forall|pos: Position| #[trigger] red.contains(pos) implies rp.to_set().contains(
        pos,
    ) by {
        assert(pos.valid());
    }
    assert forall|pos: Position| #[trigger] rp.to_set().contains(pos) implies red.contains(
        pos,
    ) by {
        let i = choose|i: int| 0 <= i < rp.len() && rp[i] == pos;
        assert(rp[i].init_area_spec() == Some(player));
        crate::player::lemma_home_area(player, pos);
    }
    assert(red =~= rp.to_set());
    assert(rp.no_duplicates());
    rp.unique_seq_to_set();

    // Blue cells are the rest of the player's starting area.
    lemma_home_set_len(player);
    assert forall|pos: Position| #[trigger] blue.contains(pos) implies home_set(player).contains(
        pos,
    ) && !red.contains(pos) by {
        assert(pos.valid());
    }
    assert forall|pos: Position|
        home_set(player).contains(pos) && !red.contains(pos) implies #[trigger] blue.contains(
        pos,
    ) by {
        crate::player::lemma_home_area(player, pos);
    }
    assert(blue =~= home_set(player).difference(red));
    assert(blue.disjoint(red));
    assert(blue.union(red) =~= home_set(player));
    lemma_disjoint_union_len(blue, red);

    // The opponent's starting area is exactly the unknown pieces.
    lemma_home_set_len(rev);
    assert forall|pos: Position| #[trigger] unknown.contains(pos) implies home_set(rev).contains(
        pos,
    ) by {
        assert(pos.valid());
        if pos.init_area_spec() == Some(player) {
            assert(b[pos.index_spec()]->Owned_0.owner_spec() == player);
        }
    }
    assert forall|pos: Position| #[trigger] home_set(rev).contains(pos) implies unknown.contains(
        pos,
    ) by {
        crate::player::lemma_home_area(rev, pos);
    }
    assert(unknown =~= home_set(rev));
}

/// Structural equality of two cells.
pub fn cell_eq(a: Cell, b: Cell) -> (r: bool)
    ensures
        r == (a == b),
{
    match (a, b) {
        (Cell::Empty, Cell::Empty) => true,
        (Cell::Owned(x), Cell::Owned(y)) => x.0 == y.0,
        _ => false,
    }
}

} // verus!
