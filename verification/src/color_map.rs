use vstd::prelude::*;

verus! {

/// The level that a luma value is mapped to: white above the threshold, black otherwise.
pub open spec fn bilevel(luma: u8, threshold: u8) -> u8 {
    if luma > threshold {
        0xFFu8
    } else {
        0u8
    }
}

/// A bi-level colour map with a parameterised threshold.
///
/// The threshold is the level above which a luma value is considered light.
#[derive(Clone, Copy)]
pub struct DynamicBiLevel {
    pub threshold: u8,
}

impl DynamicBiLevel {
    /// The index of the level that `color` maps to: 1 for white, 0 for black.
    pub fn index_of(&self, color: u8) -> (idx: usize)
        ensures
            idx == (if color > self.threshold { 1usize } else { 0usize }),
    {
        if color > self.threshold {
            1
        } else {
            0
        }
    }

    /// Replaces `color` by the level it maps to.
    pub fn map_color(&self, color: &mut u8)
        ensures
            *final(color) == bilevel(*old(color), self.threshold),
    {
        let idx = self.index_of(*color);
        let new_color: u8 = 0xFFu8 * (idx as u8);
        *color = new_color;
    }
}

/// A colour map is monotone: a lighter input never maps to a darker level,
/// and every output is either black (0) or white (255).
pub proof fn lemma_bilevel_monotone(a: u8, b: u8, threshold: u8)
    requires
        a <= b,
    ensures
        bilevel(a, threshold) <= bilevel(b, threshold),
        bilevel(a, threshold) == 0 || bilevel(a, threshold) == 255,
{
}

/// Mapping twice with the same threshold changes nothing more.
pub proof fn lemma_bilevel_idempotent(luma: u8, threshold: u8)
    ensures
        bilevel(bilevel(luma, threshold), threshold) == bilevel(luma, threshold),
{
}

} // verus!
