//! The answer of encoding selection: a recipe and the bits it is used with.

use vstd::prelude::*;

verus! {

/// How to encode one instruction: the number of an encoding recipe, and the
/// bits that the recipe puts into the machine code.
#[derive(Clone, Copy, Debug, PartialEq, Eq, Structural)]
pub struct Encoding {
    pub recipe: u16,
    pub bits: u16,
}

impl Encoding {
    /// The encoding that uses recipe number `recipe` with `bits`.
    pub fn new(recipe: u16, bits: u16) -> (e: Self)
        ensures
            e == (Encoding { recipe, bits }),
    {
        Encoding { recipe, bits }
    }

    /// The number of the recipe.
    pub fn recipe(&self) -> (r: usize)
        ensures
            r == self.recipe,
    {
        self.recipe as usize
    }

    /// The bits that go with the recipe.
    pub fn bits(&self) -> (b: u16)
        ensures
            b == self.bits,
    {
        self.bits
    }
}

} // verus!
