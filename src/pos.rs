use vstd::prelude::*;

verus! {

/// A location in an image: `Pos(column, row)`.
#[derive(Clone, Copy, Debug, PartialEq, Eq, Structural)]
pub struct Pos(pub u32, pub u32);

} // verus!
