//! Per-piece bookkeeping an agent may keep across turns.
use vstd::prelude::*;
use crate::cell::GhostID;
use crate::player::PlayerID;

verus! {

/// What an agent has observed of one piece.
#[derive(Clone, Copy, Debug)]
pub struct MetaData {
    escape: u8,
    noescape: u8,
    noout: bool,
}

impl MetaData {
    /// Nothing observed yet.
    pub closed spec fn is_clear(&self) -> bool {
        self.escape == 0 && self.noescape == 0 && !self.noout
    }

    pub fn new() -> (r: Self)
        ensures
            r.is_clear(),
    {
        MetaData { escape: 0, noescape: 0, noout: false }
    }
}

/// One record per piece: eight of the first player's, then eight of the
/// second player's.
#[derive(Clone, Debug)]
pub struct MetaDataList(Vec<MetaData>);

impl MetaDataList {
    pub closed spec fn view(&self) -> Seq<MetaData> {
        self.0@
    }

    pub open spec fn inv(&self) -> bool {
        self@.len() == 16
    }

    /// The record index of a piece.
    pub open spec fn index_spec(g: GhostID, owner: PlayerID) -> int {
        g.code_spec() + if owner == PlayerID::P1 {
            0int
        } else {
            8int
        }
    }

    /// Sixteen clear records.
    pub fn new() -> (r: Self)
        ensures
            r.inv(),
            forall|i: int| 0 <= i < 16 ==> (#[trigger] r@[i]).is_clear(),
    {
        let mut v: Vec<MetaData> = Vec::new();
        let mut i: usize = 0;
        while i < 16
            invariant
                v@.len() == i,
                i <= 16,
                forall|j: int| 0 <= j < i ==> (#[trigger] v@[j]).is_clear(),
            decreases 16 - i,
        {
            v.push(MetaData::new());
            i = i + 1;
        }
        MetaDataList(v)
    }

    /// The record of the piece `g` of `owner`.
    pub fn get(&self, g: GhostID, owner: PlayerID) -> (r: &MetaData)
        requires
            self.inv(),
        ensures
            *r == self@[Self::index_spec(g, owner)],
    {
        let idx = g.as_u8() + if owner == PlayerID::P1 {
            0
        } else {
            8
        };
        &self.0[idx as usize]
    }
}

} // verus!
