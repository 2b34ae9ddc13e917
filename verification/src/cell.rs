//! Pieces and the packed single-byte cell encoding.
//!
//! An owned cell stores its piece kind, owner and piece identity in three
//! disjoint bit fields of one byte. Cells are immutable values: a changed
//! grid slot is a freshly constructed cell, never an in-place field edit.
use vstd::prelude::*;
use crate::player::PlayerID;

verus! {

/// A piece identity: one of eight discrete names per player.
#[derive(Clone, Copy, Debug, Eq, PartialEq, Structural)]
pub enum GhostID {
    A,
    B,
    C,
    D,
    E,
    F,
    G,
    H,
}

impl GhostID {
    /// The numeric code of this identity, in `[0, 8)`.
    pub open spec fn code_spec(self) -> int {
        match self {
            GhostID::A => 0,
            GhostID::B => 1,
            GhostID::C => 2,
            GhostID::D => 3,
            GhostID::E => 4,
            GhostID::F => 5,
            GhostID::G => 6,
            GhostID::H => 7,
        }
    }

    /// The identity named by a code in `[0, 8)`.
    pub open spec fn from_code_spec(u: int) -> GhostID {
        if u == 0 {
            GhostID::A
        } else if u == 1 {
            GhostID::B
        } else if u == 2 {
            GhostID::C
        } else if u == 3 {
            GhostID::D
        } else if u == 4 {
            GhostID::E
        } else if u == 5 {
            GhostID::F
        } else if u == 6 {
            GhostID::G
        } else {
            GhostID::H
        }
    }

    /// Identity for an in-range code.
    pub(crate) fn from_code(u: u8) -> (r: Self)
        requires
            u < 8,
        ensures
            r == Self::from_code_spec(u as int),
            r.code_spec() == u,
    {
        match u {
            0 => GhostID::A,
            1 => GhostID::B,
            2 => GhostID::C,
            3 => GhostID::D,
            4 => GhostID::E,
            5 => GhostID::F,
            6 => GhostID::G,
            _ => GhostID::H,
        }
    }

    pub fn from_u8(u: u8) -> (r: Option<Self>)
        ensures
            r is Some <==> u < 8,
            u < 8 ==> r == Some(Self::from_code_spec(u as int)),
    {
        if u < 8 {
            Some(Self::from_code(u))
        } else {
            None
        }
    }

    pub fn as_u8(&self) -> (r: u8)
        ensures
            r == self.code_spec(),
    {
        match self {
            GhostID::A => 0,
            GhostID::B => 1,
            GhostID::C => 2,
            GhostID::D => 3,
            GhostID::E => 4,
            GhostID::F => 5,
            GhostID::G => 6,
            GhostID::H => 7,
        }
    }
}

/// Identity codes and identities name each other uniquely.
pub proof fn lemma_ghost_id_code_roundtrip(g: GhostID)
    ensures
        GhostID::from_code_spec(g.code_spec()) == g,
        0 <= g.code_spec() < 8,
{
}

/// The kind of a piece. A piece of the opponent shows as `Unknown` until
/// revealed by play.
#[derive(Clone, Copy, Debug, Eq, PartialEq, Structural)]
pub enum GhostKind {
    Unknown,
    Red,
    Blue,
}

impl GhostKind {
    /// The two-bit code of this kind; code 3 is never produced.
    pub open spec fn code_spec(self) -> u8 {
        match self {
            GhostKind::Unknown => 0,
            GhostKind::Red => 1,
            GhostKind::Blue => 2,
        }
    }
}

impl PlayerID {
    /// The one-bit code of this player.
    pub open spec fn code_spec(self) -> u8 {
        match self {
            PlayerID::P1 => 0,
            PlayerID::P2 => 1,
        }
    }
}

/// An occupied cell, packed into one byte: kind in bits 0..2 (code 3
/// invalid), owner in bit 2, identity in bits 3..6. The byte is written
/// once, by `Cell::owned`; treat it as an implementation detail.
#[derive(Clone, Copy, Debug, Eq, PartialEq, Structural)]
pub struct OwnedCell(pub u8);

impl OwnedCell {
    /// A well-formed encoding uses only the low six bits and never kind
    /// code 3.
    pub open spec fn wf(self) -> bool {
        self.0 < 64 && self.0 & 0b11 != 3
    }

    /// The kind field, decoded.
    pub open spec fn ghost_spec(self) -> GhostKind {
        if self.0 & 0b11 == 1 {
            GhostKind::Red
        } else if self.0 & 0b11 == 2 {
            GhostKind::Blue
        } else {
            GhostKind::Unknown
        }
    }

    /// The owner field, decoded.
    pub open spec fn owner_spec(self) -> PlayerID {
        if (self.0 & 0b100) >> 2 == 1 {
            PlayerID::P2
        } else {
            PlayerID::P1
        }
    }

    /// The identity field, decoded.
    pub open spec fn id_spec(self) -> GhostID {
        GhostID::from_code_spec(((self.0 & 0b111000) >> 3) as int)
    }

    #[verifier::inline]
    pub(crate) open spec fn mask_spec(self, mask: u8, offset: u8) -> u8 {
        (self.0 & mask) >> offset
    }

    #[inline(always)]
    fn get_mask(&self, mask: u8, offset: u8) -> (r: u8)
        requires
            offset < 8,
        ensures
            r == self.mask_spec(mask, offset),
    {
        (self.0 & mask) >> offset
    }

    /// Write the kind code into the byte's kind bits.
    pub(crate) fn set_ghost(&mut self, ghost: GhostKind)
        ensures
            final(self).0 == old(self).0 | ghost.code_spec(),
    {
        let offset: u8 = match ghost {
            GhostKind::Unknown => 0,
            GhostKind::Red => 1,
            GhostKind::Blue => 2,
        };
        self.0 = self.0 | offset;
    }

    /// Write the owner code into the byte's owner bit.
    pub(crate) fn set_owner(&mut self, owner: PlayerID)
        ensures
            final(self).0 == old(self).0 | (owner.code_spec() << 2),
    {
        let offset: u8 = match owner {
            PlayerID::P1 => 0,
            PlayerID::P2 => 1,
        };
        self.0 = self.0 | (offset << 2u8);
    }

    /// Write the identity code into the byte's identity bits.
    pub(crate) fn set_id(&mut self, id: GhostID)
        ensures
            final(self).0 == old(self).0 | ((id.code_spec() as u8) << 3),
    {
        let offset = id.as_u8();
        self.0 = self.0 | (offset << 3u8);
    }

    pub fn ghost(&self) -> (r: GhostKind)
        requires
            self.wf(),
        ensures
            r == self.ghost_spec(),
    {
        let m = self.get_mask(0b11, 0);
        proof {
            let v = self.0;
            assert(m == (v & 0b11u8) && m < 3) by (bit_vector)
                requires
                    m == (v & 0b11u8) >> 0u8,
                    v & 0b11u8 != 3,
            ;
        }
        if m == 1 {
            GhostKind::Red
        } else if m == 2 {
            GhostKind::Blue
        } else {
            GhostKind::Unknown
        }
    }

    pub fn owner(&self) -> (r: PlayerID)
        ensures
            r == self.owner_spec(),
    {
        let m = self.get_mask(0b100, 2);
        proof {
            let v = self.0;
            assert(m < 2) by (bit_vector)
                requires
                    m == (v & 0b100u8) >> 2u8,
            ;
        }
        if m == 1 {
            PlayerID::P2
        } else {
            PlayerID::P1
        }
    }

    pub fn id(&self) -> (r: GhostID)
        ensures
            r == self.id_spec(),
    {
        let m = self.get_mask(0b111000, 3);
        proof {
            let v = self.0;
            assert(m < 8) by (bit_vector)
                requires
                    m == (v & 0b111000u8) >> 3u8,
            ;
        }
        GhostID::from_code(m)
    }
}

/// Encoding writes the three fields into disjoint bits, and decoding
/// recovers each field exactly.
proof fn lemma_pack_fields(g: u8, o: u8, i: u8)
    by (bit_vector)
    requires
        g < 3,
        o < 2,
        i < 8,
    ensures
        (((0u8 | g) | (o << 2)) | (i << 3)) & 0b11 == g,
        ((((0u8 | g) | (o << 2)) | (i << 3)) & 0b100) >> 2 == o,
        ((((0u8 | g) | (o << 2)) | (i << 3)) & 0b111000) >> 3 == i,
        ((0u8 | g) | (o << 2)) | (i << 3) < 64,
{
}

/// One grid slot: empty, or an owned cell.
#[derive(Clone, Copy, Debug, Eq, PartialEq, Structural)]
pub enum Cell {
    Owned(OwnedCell),
    Empty,
}

impl Cell {
    /// Every owned cell held by the board is a well-formed encoding.
    pub open spec fn wf(self) -> bool {
        match self {
            Cell::Owned(o) => o.wf(),
            Cell::Empty => true,
        }
    }

    /// The owner of the piece here, if any.
    pub open spec fn owner_opt_spec(self) -> Option<PlayerID> {
        match self {
            Cell::Owned(o) => Some(o.owner_spec()),
            Cell::Empty => None,
        }
    }

    /// Runtime validation of the packed encoding.
    pub fn check_wf(&self) -> (r: bool)
        ensures
            r == self.wf(),
    {
        match self {
            Cell::Empty => true,
            Cell::Owned(o) => o.0 < 64 && (o.0 & 0b11) != 3,
        }
    }

    pub fn is_owned(&self) -> (r: bool)
        ensures
            r == (self is Owned),
    {
        match self {
            Cell::Owned(_) => true,
            Cell::Empty => false,
        }
    }

    pub fn is_empty(&self) -> (r: bool)
        ensures
            r == (self is Empty),
    {
        !self.is_owned()
    }

    /// Construct an owned cell; decoding the packed byte yields the given
    /// triple exactly.
    pub fn owned(kind: GhostKind, owner: PlayerID, id: GhostID) -> (r: Self)
        ensures
            r is Owned,
            r.wf(),
            r->Owned_0.ghost_spec() == kind,
            r->Owned_0.owner_spec() == owner,
            r->Owned_0.id_spec() == id,
    {
        let mut cell = OwnedCell(0);
        cell.set_ghost(kind);
        cell.set_owner(owner);
        cell.set_id(id);
        proof {
            lemma_pack_fields(kind.code_spec(), owner.code_spec(), id.code_spec() as u8);
        }
        Cell::Owned(cell)
    }

    pub fn owner(&self) -> (r: Option<PlayerID>)
        ensures
            r == self.owner_opt_spec(),
    {
        match self {
            Cell::Owned(o) => Some(o.owner()),
            Cell::Empty => None,
        }
    }
}

impl Default for Cell {
    fn default() -> (r: Self)
        ensures
            r == Cell::Empty,
    {
        Cell::Empty
    }
}

/// Round trip: decoding an encoded cell returns the original triple, for
/// every valid (kind, owner, identity) combination.
pub proof fn lemma_encode_decode_roundtrip(kind: GhostKind, owner: PlayerID, id: GhostID)
    ensures
        ({
            let v = ((0u8 | kind.code_spec()) | (owner.code_spec() << 2))
                | ((id.code_spec() as u8) << 3);
            &&& OwnedCell(v).wf()
            &&& OwnedCell(v).ghost_spec() == kind
            &&& OwnedCell(v).owner_spec() == owner
            &&& OwnedCell(v).id_spec() == id
        }),
{
    lemma_pack_fields(kind.code_spec(), owner.code_spec(), id.code_spec() as u8);
}

} // verus!
