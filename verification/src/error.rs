//! The closed failure taxonomy of board operations.
use vstd::prelude::*;
use crate::geometry::Move;

verus! {

/// Why a board operation was rejected. A failed operation never mutates
/// board state.
#[derive(Clone, Copy, Debug, Eq, PartialEq, Structural)]
pub enum ErrorKind {
    InvalidMove(Move),
}

} // verus!
