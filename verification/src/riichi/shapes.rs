//! Declared melds.

use vstd::prelude::*;
use crate::riichi::tile::Tile;

verus! {

/// The three kinds of meld.
#[derive(Clone, Copy, Debug, PartialEq, Eq, Structural)]
pub enum MeldKind {
    /// A run of three.
    Chi,
    /// A triplet.
    Pon,
    /// A quad.
    Kan,
}

/// A meld as it was declared: its kind and the tiles it names. The tiles
/// are values of their own, not slots of a hand.
#[derive(Clone, Copy, Debug)]
pub enum OpenShape {
    Chi([Tile; 3]),
    Pon([Tile; 3]),
    Kan([Tile; 4]),
}

impl OpenShape {
    /// The tiles that the meld names, in the order given.
    pub open spec fn tiles(self) -> Seq<Tile> {
        match self {
            OpenShape::Chi(t) => t@,
            OpenShape::Pon(t) => t@,
            OpenShape::Kan(t) => t@,
        }
    }

    /// The kind of the meld.
    pub open spec fn kind(self) -> MeldKind {
        match self {
            OpenShape::Chi(_) => MeldKind::Chi,
            OpenShape::Pon(_) => MeldKind::Pon,
            OpenShape::Kan(_) => MeldKind::Kan,
        }
    }

    /// The kind of the meld.
    pub fn meld_kind(&self) -> (k: MeldKind)
        ensures
            k == self.kind(),
    {
        match self {
            OpenShape::Chi(_) => MeldKind::Chi,
            OpenShape::Pon(_) => MeldKind::Pon,
            OpenShape::Kan(_) => MeldKind::Kan,
        }
    }

    /// The tiles that the meld names, in the order given.
    pub fn to_vec(&self) -> (v: Vec<Tile>)
        ensures
            v@ == self.tiles(),
    {
        let mut v: Vec<Tile> = Vec::new();
        match self {
            OpenShape::Chi(t) => {
                v.push(t[0]);
                v.push(t[1]);
                v.push(t[2]);
                assert(v@ =~= t@);
            },
            OpenShape::Pon(t) => {
                v.push(t[0]);
                v.push(t[1]);
                v.push(t[2]);
                assert(v@ =~= t@);
            },
            OpenShape::Kan(t) => {
                v.push(t[0]);
                v.push(t[1]);
                v.push(t[2]);
                v.push(t[3]);
                assert(v@ =~= t@);
            },
        }
        v
    }
}

} // verus!
