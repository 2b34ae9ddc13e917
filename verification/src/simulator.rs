//! Reconstructing transitions from raw snapshots: when no move is
//! supplied, the engine diffs two boards and infers what happened.
use vstd::prelude::*;
use crate::board::{self, Board, Diff};
use crate::cell::{Cell, OwnedCell};
use crate::error::ErrorKind;
use crate::player::PlayerID;

verus! {

/// What a snapshot change was inferred to mean. Mirrors the board's own
/// transition result for moves applied directly.
#[derive(Clone, Copy, Debug, PartialEq, Eq, Structural)]
pub enum Transition {
    Lost(OwnedCell),
    End(PlayerID),
    Nothing,
}

/// The transition suggested by the first diff record whose single-cell
/// change means anything; nothing when no record does.
pub open spec fn first_transition(diffs: Seq<Diff>) -> Transition
    decreases diffs.len(),
{
    if diffs.len() == 0 {
        Transition::Nothing
    } else {
        match diffs[0].transition_spec() {
            board::Transition::Lost(c) => Transition::Lost(c),
            board::Transition::End(p) => Transition::End(p),
            board::Transition::Nothing => first_transition(diffs.drop_first()),
        }
    }
}

proof fn lemma_first_transition_skip(s: Seq<Diff>, i: int)
    requires
        0 <= i <= s.len(),
        forall|j: int| 0 <= j < i ==> (#[trigger] s[j]).transition_spec()
            == board::Transition::Nothing,
    ensures
        first_transition(s) == first_transition(s.skip(i)),
    decreases i,
{
    if i > 0 {
        assert(s.skip(0) =~= s);
        assert(s.drop_first().skip(i - 1) =~= s.skip(i));
        lemma_first_transition_skip(s.drop_first(), i - 1);
    } else {
        assert(s.skip(0) =~= s);
    }
}

/// Holds an authoritative board and the player to move, and infers the
/// transition behind each raw snapshot it is handed.
#[derive(Clone)]
pub struct Simulator {
    board: Board,
    next: PlayerID,
}

impl Simulator {
    /// The held snapshot's cells.
    pub closed spec fn board_view(&self) -> Seq<Cell> {
        self.board@
    }

    /// The player expected to act next.
    pub closed spec fn next_spec(&self) -> PlayerID {
        self.next
    }

    /// The held board is a well-formed grid.
    pub closed spec fn inv(&self) -> bool {
        self.board.inv()
    }

    pub fn new(board: Board, next: PlayerID) -> (r: Self)
        requires
            board.inv(),
        ensures
            r.inv(),
            r.board_view() == board@,
            r.next_spec() == next,
    {
        Simulator { board, next }
    }

    /// Adopt the snapshot `next`, hand the turn to the other player, and
    /// report the transition inferred from the first meaningful cell
    /// change between the old and new snapshots.
    pub fn transit(&mut self, next: Board) -> (r: Transition)
        requires
            old(self).inv(),
            next.inv(),
        ensures
            final(self).inv(),
            final(self).board_view() == next@,
            final(self).next_spec() == old(self).next_spec().rev_spec(),
            r == first_transition(board::diff_spec(old(self).board_view(), next@)),
    {
        let ghost before = self.board@;
        let ghost after = next@;
        let diffs = self.board.diff(&next);
        proof {
            board::lemma_diff_characterizes(before, after);
        }
        self.board = next;
        let turn = self.next;
        self.next = turn.rev();
        let mut i: usize = 0;
        #[verifier::loop_isolation(false)]
        while i < diffs.len()
            invariant
                0 <= i <= diffs@.len(),
                diffs@ == board::diff_spec(before, after),
                forall|j: int| 0 <= j < diffs@.len() ==> (#[trigger] diffs@[j]).before.wf(),
                forall|j: int| 0 <= j < i ==> (#[trigger] diffs@[j]).transition_spec()
                    == board::Transition::Nothing,
            decreases diffs@.len() - i,
        {
            let d = diffs[i];
            proof {
                lemma_first_transition_skip(diffs@, i as int);
                assert(diffs@.skip(i as int)[0] == diffs@[i as int]);
            }
            match d.into_transition() {
                board::Transition::Lost(c) => {
                    return Transition::Lost(c);
                },
                board::Transition::End(p) => {
                    return Transition::End(p);
                },
                board::Transition::Nothing => {},
            }
            i = i + 1;
        }
        proof {
            lemma_first_transition_skip(diffs@, diffs@.len() as int);
        }
        Transition::Nothing
    }

    /// A playout that has not begun reports the starting player.
    pub fn playout(start: PlayerID) -> (r: Result<PlayerID, ErrorKind>)
        ensures
            r == Ok::<PlayerID, ErrorKind>(start),
    {
        Ok(start)
    }
}

} // verus!
