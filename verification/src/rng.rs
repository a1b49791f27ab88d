//! The machine's random source for the `Cxkk` instruction.

use vstd::prelude::*;

verus! {

/// Relies on rand::random: draws one byte from the thread-local random
/// number generator. Nothing can be promised of a random value, so the
/// wrapper has no contract; every caller must hold for every byte that
/// could come back.
#[verifier::external_body]
pub(crate) fn random_byte() -> u8 {
    rand::random::<u8>()
}

} // verus!
