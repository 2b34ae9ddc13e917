//! The random agent: fair random placement and uniformly random choice
//! among the legal moves.
use vstd::prelude::*;
use crate::board::{self, Board, MoveResult};
use crate::cell::Cell;
use crate::geometry::{Direction, Move, Position};
use crate::player::{Player, PlayerID};
use crate::rng::RngHandle;

verus! {

/// The cell at `mov`'s origin holds a piece of `id`.
pub open spec fn mover_owns(b: Seq<Cell>, id: PlayerID, mov: Move) -> bool {
    &&& mov.pos.valid()
    &&& b[mov.pos.index_spec()] is Owned
    &&& b[mov.pos.index_spec()]->Owned_0.owner_spec() == id
}

/// Some piece of `id` has a move the board does not reject.
pub open spec fn has_any_move(b: Seq<Cell>, id: PlayerID) -> bool {
    exists|mov: Move|
        mover_owns(b, id, mov) && #[trigger] board::can_move_spec(b, mov) != MoveResult::Invalid
}

/// The position of each direction in the fixed scan order.
pub open spec fn dir_index(d: Direction) -> int {
    match d {
        Direction::Up => 0,
        Direction::Down => 1,
        Direction::Left => 2,
        Direction::Right => 3,
    }
}

/// Four distinct cells of `id`'s starting area, drawn uniformly at
/// random without replacement: always a valid red placement.
pub fn random_init(id: PlayerID, rng: &mut RngHandle) -> (r: [Position; 4])
    ensures
        board::valid_init(r@, id),
{
    let init_pos = id.init_pos();
    let mut sel = rng.select(0, 8);
    let i0 = next_index(&mut sel, rng);
    let i1 = next_index(&mut sel, rng);
    let i2 = next_index(&mut sel, rng);
    let i3 = next_index(&mut sel, rng);
    proof {
        crate::player::lemma_home_area(id, id.home_pos(i0 as int));
        crate::player::lemma_home_area(id, id.home_pos(i1 as int));
        crate::player::lemma_home_area(id, id.home_pos(i2 as int));
        crate::player::lemma_home_area(id, id.home_pos(i3 as int));
    }
    let r = [init_pos[i0], init_pos[i1], init_pos[i2], init_pos[i3]];
    proof {
        assert(r@ =~= seq![
            id.home_pos(i0 as int),
            id.home_pos(i1 as int),
            id.home_pos(i2 as int),
            id.home_pos(i3 as int),
        ]);
    }
    r
}

/// One draw from a nonempty selecter; the drawn window index.
fn next_index(sel: &mut crate::rng::RandomSelecter, rng: &mut RngHandle) -> (r: usize)
    requires
        old(sel).inv(),
        old(sel).offset_spec() == 0,
        old(sel).remaining() > 0,
        forall|z: int| old(sel).sel().has(z) ==> 0 <= z < 8,
    ensures
        final(sel).inv(),
        final(sel).offset_spec() == 0,
        final(sel).remaining() == old(sel).remaining() - 1,
        r < 8,
        old(sel).sel().has(r as int),
        !final(sel).sel().has(r as int),
        forall|z: int| final(sel).sel().has(z) == (old(sel).sel().has(z) && z != r as int),
    {
    match sel.next(rng) {
        Some(x) => x,
        None => vstd::pervasive::unreached(),
    }
}

/// An agent that places its red pieces at random and answers each turn
/// with a uniformly random legal move, taking a winning escape at once
/// when one exists.
pub struct RandomAi {
    id: PlayerID,
    board: Board,
    rng: RngHandle,
}

impl RandomAi {
    /// Which player this agent plays as.
    pub closed spec fn id_spec(&self) -> PlayerID {
        self.id
    }

    /// An agent seeded from process entropy.
    pub fn new(id: PlayerID) -> (r: Self)
        ensures
            r.id_spec() == id,
    {
        RandomAi { id, board: Board::default(), rng: RngHandle::new() }
    }

    /// An agent with a fixed seed, for reproducible runs.
    pub fn from_seed(id: PlayerID, seed: u128) -> (r: Self)
        ensures
            r.id_spec() == id,
    {
        RandomAi { id, board: Board::default(), rng: RngHandle::from_seed(seed) }
    }

    /// Adopt the snapshot and choose a move: a winning escape when one
    /// was found, otherwise one of the legal moves uniformly at random,
    /// and a failure exactly when no piece of this agent has a legal
    /// move (or the snapshot is malformed).
    #[verifier::rlimit(60)]
    pub fn step_checked(&mut self, board: Board) -> (r: Result<Move, ()>)
        ensures
            final(self).id_spec() == old(self).id_spec(),
            !board.inv() ==> r is Err,
            board.inv() ==> match r {
                Ok(mov) => mover_owns(board@, old(self).id_spec(), mov) && board::can_move_spec(
                    board@,
                    mov,
                ) != MoveResult::Invalid,
                Err(_) => !has_any_move(board@, old(self).id_spec()),
            },
    {
        if !board.check_inv() {
            return Err(());
        }
        let ghost bv = board@;
        let id = self.id;
        self.board = board;
        let positions = Board::iter();
        let mut cand: Vec<Move> = Vec::new();
        let mut s: usize = 0;
        #[verifier::loop_isolation(false)]
        while s < 36
            invariant
                self.board@ == bv,
                self.board.inv(),
                id == self.id_spec(),
                0 <= s <= 36,
                positions@.len() == 36,
                forall|j: int| 0 <= j < 36 ==> #[trigger] positions@[j] == (Position {
                    x: (j / 6) as i8,
                    y: (j % 6) as i8,
                }),
                forall|j: int| 0 <= j < 36 ==> (#[trigger] positions@[j]).valid(),
                forall|i: int| 0 <= i < cand@.len() ==> mover_owns(bv, id, #[trigger] cand@[i])
                    && board::can_move_spec(bv, cand@[i]) == MoveResult::Valid,
                forall|m: Move|
                    mover_owns(bv, id, m) && 6 * m.pos.x + m.pos.y < s ==> board::can_move_spec(
                        bv,
                        m,
                    ) != MoveResult::Win && (board::can_move_spec(bv, m) == MoveResult::Valid
                        ==> cand@.contains(m)),
            decreases 36 - s,
        {
            let pos = positions[s];
            let owned_by_me = match self.board.cell_at(pos) {
                Cell::Owned(o) => {
                    let po = o.owner();
                    po == id
                },
                Cell::Empty => false,
            };
            proof {
                assert forall|m: Move| mover_owns(bv, id, m) && 6 * m.pos.x + m.pos.y == s implies
                    m.pos == pos by {
                    board::lemma_scan_pos_inverse(m.pos, s as int);
                }
            }
            if owned_by_me {
                let dirs = Direction::iter();
                let mut t: usize = 0;
                #[verifier::loop_isolation(false)]
                while t < 4
                    invariant
                        self.board@ == bv,
                        self.board.inv(),
                        id == self.id_spec(),
                        0 <= s < 36,
                        0 <= t <= 4,
                        pos == (Position { x: (s as int / 6) as i8, y: (s as int % 6) as i8 }),
                        pos.valid(),
                        dirs@ =~= seq![
                            Direction::Up,
                            Direction::Down,
                            Direction::Left,
                            Direction::Right,
                        ],
                        forall|m: Move|
                            mover_owns(bv, id, m) && 6 * m.pos.x + m.pos.y == s ==> m.pos == pos,
                        forall|i: int|
                            0 <= i < cand@.len() ==> mover_owns(bv, id, #[trigger] cand@[i])
                                && board::can_move_spec(bv, cand@[i]) == MoveResult::Valid,
                        forall|m: Move|
                            mover_owns(bv, id, m) && (6 * m.pos.x + m.pos.y < s || (6 * m.pos.x
                                + m.pos.y == s && dir_index(m.direction) < t))
                                ==> board::can_move_spec(bv, m) != MoveResult::Win && (
                            board::can_move_spec(bv, m) == MoveResult::Valid ==> cand@.contains(
                                m,
                            )),
                    decreases 4 - t,
                {
                    let mov = Move { pos, direction: dirs[t] };
                    match self.board.can_move(mov) {
                        MoveResult::Invalid => {},
                        MoveResult::Valid => {
                            let ghost pre = cand@;
                            cand.push(mov);
                            proof {
                                assert(cand@[pre.len() as int] == mov);
                                assert forall|m: Move|
                                    mover_owns(bv, id, m) && (6 * m.pos.x + m.pos.y < s || (6
                                        * m.pos.x + m.pos.y == s && dir_index(m.direction) < t
                                        + 1)) && board::can_move_spec(bv, m)
                                        == MoveResult::Valid implies cand@.contains(m) by {
                                    if !(m == mov) {
                                        assert(pre.contains(m));
                                        let i = choose|i: int|
                                            0 <= i < pre.len() && pre[i] == m;
                                        assert(cand@[i] == m);
                                    }
                                }
                            }
                        },
                        MoveResult::Win => {
                            return Ok(mov);
                        },
                    }
                    t = t + 1;
                }
            }
            s = s + 1;
        }
        let n = cand.len();
        if n == 0 {
            proof {
                assert forall|m: Move|
                    mover_owns(bv, id, m) implies #[trigger] board::can_move_spec(bv, m)
                    == MoveResult::Invalid by {
                    assert(0 <= 6 * m.pos.x + m.pos.y < 36);
                }
            }
            return Err(());
        }
        let idx = self.rng.range(0, n);
        Ok(cand[idx])
    }
}

impl Player for RandomAi {
    type Error = ();

    fn id(&self) -> PlayerID {
        self.id
    }

    fn init(&mut self, id: PlayerID) -> Result<[Position; 4], ()> {
        self.id = id;
        Ok(random_init(id, &mut self.rng))
    }

    fn board(&self) -> &Board {
        &self.board
    }

    fn step(&mut self, board: Board) -> Result<Move, ()> {
        self.step_checked(board)
    }
}

} // verus!
