//! The one wire-format mapping the core provides itself: naming a
//! starting cell by its single-byte code. The rest of the text protocol
//! belongs to the transport layer outside this crate.
use vstd::prelude::*;
use crate::geometry::Position;

verus! {

/// Positions that can name themselves as a starting-cell byte on the
/// wire.
pub trait GpwPosition {
    /// The byte this position is named by, if it is a starting cell.
    spec fn init_code_spec(&self) -> Option<u8>;

    fn init_pos(&self) -> (r: Option<u8>)
        ensures
            r == self.init_code_spec(),
    ;
}

impl GpwPosition for Position {
    /// Starting cells occupy columns 1..=4 of rows 0, 1, 4 and 5; each
    /// row has its own letter range, the two upper rows running
    /// backwards.
    open spec fn init_code_spec(&self) -> Option<u8> {
        if !(1 <= self.x <= 4) {
            None
        } else {
            let offset = self.x - 1;
            if self.y == 0 {
                Some((104 - offset) as u8)
            } else if self.y == 1 {
                Some((100 - offset) as u8)
            } else if self.y == 4 {
                Some((65 + offset) as u8)
            } else if self.y == 5 {
                Some((69 + offset) as u8)
            } else {
                None
            }
        }
    }

    fn init_pos(&self) -> (r: Option<u8>)
        ensures
            r == self.init_code_spec(),
    {
        let Position { x, y } = *self;
        let offset: u8 = if 1 <= x && x <= 4 {
            (x - 1) as u8
        } else {
            return None;
        };
        match y {
            0 => Some(104 - offset),
            1 => Some(100 - offset),
            4 => Some(65 + offset),
            5 => Some(69 + offset),
            _ => None,
        }
    }
}

} // verus!
