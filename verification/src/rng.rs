use vstd::prelude::*;

verus! {

/// Draws an index below `n` from macroquad's global generator
/// (`macroquad::rand::gen_range(0, n)`). Its source scales a 32-bit draw
/// by `n / 2^32` and truncates, so for `n > 0` the result is below `n`;
/// which index comes out depends on the generator's state.
#[verifier::external_body]
pub(crate) fn random_index(n: usize) -> (i: usize)
    requires
        n > 0,
    ensures
        i < n,
{
    macroquad::rand::gen_range(0, n)
}

} // verus!
