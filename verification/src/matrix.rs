//! Indices into the axes of a matrix.
use vstd::prelude::*;

verus! {

/// An index along one axis of a matrix: a half-open range of positions,
/// or a single position.
#[derive(Clone, Copy, Debug, PartialEq, Eq, Structural)]
pub enum Index {
    Range(usize, usize),
    Index(usize),
}

impl Index {
    /// The number of positions the index selects along its axis.
    pub fn count(&self) -> (r: usize)
        ensures
            r == match *self {
                Index::Range(a, b) => if a <= b {
                    b - a
                } else {
                    0
                },
                Index::Index(_) => 1,
            },
    {
        match self {
            Index::Range(a, b) => if *a <= *b {
                *b - *a
            } else {
                0
            },
            Index::Index(_) => 1,
        }
    }
}

} // verus!
