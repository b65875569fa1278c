//! Which rows a rendering shows.

use vstd::prelude::*;

verus! {

/// Which rows a rendering shows.
#[derive(Clone, Copy, Debug, PartialEq, Eq, Structural)]
pub enum View {
    /// `bx plan` and `bx apply`: only what is not already converged.
    Plan,
    /// Bare `bx`: every row, unchanged ones included.
    Status,
}

} // verus!
