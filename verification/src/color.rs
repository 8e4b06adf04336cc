//! Quantization of an RGB triple to the 216-color cube of the standard
//! 256-color terminal palette (indices 16 through 231).

use vstd::prelude::*;
use vstd::arithmetic::div_mod::lemma_div_is_ordered;

verus! {

/// The palette index of an RGB triple: each channel is cut to a level in
/// `[0, 5]` by integer division by 43, and the levels are combined in base 6
/// above the 16 fixed low colors.
pub open spec fn quantize_spec(r: u8, g: u8, b: u8) -> int {
    16 + 36 * ((r as int) / 43) + 6 * ((g as int) / 43) + ((b as int) / 43)
}

/// Maps an RGB triple to its 256-color palette index. Deterministic and
/// total: every triple lands in the color cube, indices 16 through 231.
pub fn quantize(r: u8, g: u8, b: u8) -> (idx: u32)
    ensures
        idx == quantize_spec(r, g, b),
        16 <= idx <= 231,
{
    let rl = (r as u32) / 43;
    let gl = (g as u32) / 43;
    let bl = (b as u32) / 43;
    16 + 36 * rl + 6 * gl + bl
}

/// The palette index is monotonic: raising any channel (the others not
/// lowered) never lowers the index. Fixing two channels gives monotonicity
/// in the third alone.
pub proof fn lemma_quantize_monotonic(r1: u8, g1: u8, b1: u8, r2: u8, g2: u8, b2: u8)
    requires
        r1 <= r2,
        g1 <= g2,
        b1 <= b2,
    ensures
        quantize_spec(r1, g1, b1) <= quantize_spec(r2, g2, b2),
{
    lemma_div_is_ordered(r1 as int, r2 as int, 43);
    lemma_div_is_ordered(g1 as int, g2 as int, 43);
    lemma_div_is_ordered(b1 as int, b2 as int, 43);
}

} // verus!
