//! The piece catalog: the seven piece kinds, their display colors, and the
//! table of rotation masks that the engine consumes.

use vstd::prelude::*;

verus! {

/// One of the seven classic piece kinds.
#[derive(Copy, Clone, PartialEq, Eq, Structural, Debug, Hash)]
pub enum PieceId {
    IBlock,
    JBlock,
    LBlock,
    OBlock,
    SBlock,
    TBlock,
    ZBlock,
}

/// An RGB display color carried by each piece kind.
#[derive(Copy, Clone, PartialEq, Eq, Structural, Debug)]
pub struct Rgb {
    pub r: u8,
    pub g: u8,
    pub b: u8,
}

impl PieceId {
    /// The position of this kind in the canonical order I, J, L, O, S, T, Z.
    pub open spec fn index_spec(self) -> int {
        match self {
            PieceId::IBlock => 0,
            PieceId::JBlock => 1,
            PieceId::LBlock => 2,
            PieceId::OBlock => 3,
            PieceId::SBlock => 4,
            PieceId::TBlock => 5,
            PieceId::ZBlock => 6,
        }
    }

    /// The index of this kind into a mask table, in the canonical order.
    pub fn index(self) -> (i: usize)
        ensures
            i == self.index_spec(),
            i < 7,
    {
        match self {
            PieceId::IBlock => 0,
            PieceId::JBlock => 1,
            PieceId::LBlock => 2,
            PieceId::OBlock => 3,
            PieceId::SBlock => 4,
            PieceId::TBlock => 5,
            PieceId::ZBlock => 6,
        }
    }

    /// The display color of this kind.
    pub fn color(self) -> (c: Rgb)
        ensures
            c == self.color_spec(),
    {
        match self {
            PieceId::IBlock => Rgb { r: 88, g: 176, b: 188 },
            PieceId::JBlock => Rgb { r: 22, g: 101, b: 167 },
            PieceId::LBlock => Rgb { r: 217, g: 133, b: 1 },
            PieceId::OBlock => Rgb { r: 235, g: 214, b: 1 },
            PieceId::SBlock => Rgb { r: 55, g: 154, b: 48 },
            PieceId::TBlock => Rgb { r: 137, g: 64, b: 135 },
            PieceId::ZBlock => Rgb { r: 205, g: 12, b: 17 },
        }
    }

    pub open spec fn color_spec(self) -> Rgb {
        match self {
            PieceId::IBlock => Rgb { r: 88, g: 176, b: 188 },
            PieceId::JBlock => Rgb { r: 22, g: 101, b: 167 },
            PieceId::LBlock => Rgb { r: 217, g: 133, b: 1 },
            PieceId::OBlock => Rgb { r: 235, g: 214, b: 1 },
            PieceId::SBlock => Rgb { r: 55, g: 154, b: 48 },
            PieceId::TBlock => Rgb { r: 137, g: 64, b: 135 },
            PieceId::ZBlock => Rgb { r: 205, g: 12, b: 17 },
        }
    }
}

/// All seven kinds, in the canonical order.
pub open spec fn all_kinds() -> Seq<PieceId> {
    seq![
        PieceId::IBlock,
        PieceId::JBlock,
        PieceId::LBlock,
        PieceId::OBlock,
        PieceId::SBlock,
        PieceId::TBlock,
        PieceId::ZBlock,
    ]
}

/// A 4x4 grid of occupied relative cells: one rotation of a piece.
/// `mask[row][column]` is true where the piece occupies that cell.
pub type Mask = [[bool; 4]; 4];

/// Whether the relative cell `(rx, ry)` of a mask is occupied
/// (`rx` is the column, `ry` the row).
pub open spec fn mask_cell(m: Mask, rx: int, ry: int) -> bool
    recommends
        0 <= rx < 4,
        0 <= ry < 4,
{
    m@[ry]@[rx]
}

/// Whether a mask occupies at least one cell.
pub open spec fn mask_nonempty(m: Mask) -> bool {
    exists|rx: int, ry: int| 0 <= rx < 4 && 0 <= ry < 4 && mask_cell(m, rx, ry)
}

/// The table of rotation masks: for each of the seven kinds, four masks in
/// clockwise order. The table is produced outside the engine (the mask
/// resource and its parsing are the driver's concern) and handed in as plain
/// values; a malformed table is rejected at startup.
#[derive(Copy, Clone)]
pub struct MaskMap {
    pub masks: [[Mask; 4]; 7],
}

impl MaskMap {
    /// The mask of `id` at rotation index `idx`.
    pub open spec fn mask_of(self, id: PieceId, idx: int) -> Mask
        recommends
            0 <= idx < 4,
    {
        self.masks@[id.index_spec()]@[idx]
    }

    /// A well-formed table: every rotation of every kind occupies at least
    /// one cell. (A piece that occupies no cell at all is a malformed entry.)
    pub open spec fn wf(self) -> bool {
        forall|id: PieceId, idx: int|
            0 <= idx < 4 ==> mask_nonempty(#[trigger] self.mask_of(id, idx))
    }

    /// Look up the mask of `id` at rotation index `idx`.
    pub fn get(&self, id: PieceId, idx: usize) -> (m: Mask)
        requires
            idx < 4,
        ensures
            m == self.mask_of(id, idx as int),
    {
        let i = id.index();
        self.masks[i][idx]
    }
}

} // verus!
