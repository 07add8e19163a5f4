use vstd::prelude::*;

use crate::cell::CellType;

verus! {

/// Holds the particle type the next paint stroke writes.
///
/// Discrete selection events overwrite it; painting reads it. Selecting
/// `Empty` is allowed and turns the brush into an eraser.
pub struct TypeSelector {
    current: CellType,
}

impl TypeSelector {
    /// The type the next paint stroke writes.
    pub closed spec fn selected(self) -> CellType {
        self.current
    }

    /// A fresh selector; sand starts out selected.
    pub fn new() -> (s: TypeSelector)
        ensures
            s.selected() == CellType::Sand,
    {
        TypeSelector { current: CellType::Sand }
    }

    /// Unconditionally overwrites the selection.
    pub fn select(&mut self, t: CellType)
        ensures
            final(self).selected() == t,
    {
        self.current = t;
    }

    /// Reads the current selection.
    pub fn current(&self) -> (t: CellType)
        ensures
            t == self.selected(),
    {
        self.current
    }
}

} // verus!
