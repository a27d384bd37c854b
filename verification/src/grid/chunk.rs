//! A square block of tiles whose side is fixed by its type.

use vstd::prelude::*;

verus! {

/// An `S` by `S` block of tiles.
pub struct GridChunk<const S: usize, T> {
    pub tile: [[T; S]; S],
}

impl<const S: usize, T> GridChunk<S, T> {
    /// The number of columns: `S`.
    pub fn get_width() -> (r: usize)
        ensures
            r == S,
    {
        S
    }

    /// The number of rows: `S`.
    pub fn get_height() -> (r: usize)
        ensures
            r == S,
    {
        S
    }
}

} // verus!
