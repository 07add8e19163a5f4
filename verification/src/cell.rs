use vstd::prelude::*;

verus! {

/// The kind of matter held by one grid slot.
///
/// `Rock` is inert: no rule moves it, and nothing moves into it except a
/// paint stroke. `Empty` is the absence of matter.
#[derive(Clone, Copy, Debug, PartialEq, Eq, Structural)]
pub enum CellType {
    Empty,
    Sand,
    Water,
    Rock,
    Smoke,
}

impl CellType {
    /// True for the two kinds of cell that falling sand may displace.
    pub open spec fn displaceable(self) -> bool {
        self == CellType::Empty || self == CellType::Water
    }

    /// Position of this type in the fixed five-entry palette a renderer
    /// maps cells through.
    pub open spec fn spec_palette_index(self) -> int {
        match self {
            CellType::Empty => 0,
            CellType::Sand => 1,
            CellType::Water => 2,
            CellType::Rock => 3,
            CellType::Smoke => 4,
        }
    }

    /// The palette slot for this cell type, always below five.
    pub fn palette_index(self) -> (i: usize)
        ensures
            i == self.spec_palette_index(),
            i < 5,
    {
        match self {
            CellType::Empty => 0,
            CellType::Sand => 1,
            CellType::Water => 2,
            CellType::Rock => 3,
            CellType::Smoke => 4,
        }
    }

    /// The inverse of the palette mapping: defined exactly on `0..=4`.
    pub open spec fn spec_from_palette_index(i: int) -> Option<CellType> {
        if i == 0 {
            Some(CellType::Empty)
        } else if i == 1 {
            Some(CellType::Sand)
        } else if i == 2 {
            Some(CellType::Water)
        } else if i == 3 {
            Some(CellType::Rock)
        } else if i == 4 {
            Some(CellType::Smoke)
        } else {
            None
        }
    }

    /// Decodes a palette slot (or a selection event's code) back into a
    /// cell type; any value outside `0..=4` is refused.
    pub fn from_palette_index(i: usize) -> (t: Option<CellType>)
        ensures
            t == Self::spec_from_palette_index(i as int),
    {
        if i == 0 {
            Some(CellType::Empty)
        } else if i == 1 {
            Some(CellType::Sand)
        } else if i == 2 {
            Some(CellType::Water)
        } else if i == 3 {
            Some(CellType::Rock)
        } else if i == 4 {
            Some(CellType::Smoke)
        } else {
            None
        }
    }
}

} // verus!
