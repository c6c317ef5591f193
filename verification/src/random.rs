//! The random draws behind a trail: how long a burst is, which characters it
//! shows, which of them are emphasised, and how wide the gap after it is.

use vstd::prelude::*;
use rand::Rng;

verus! {

/// Fewest synthetic characters in a burst.
pub const BURST_MIN: u8 = 2;

/// One more than the most synthetic characters in a burst.
pub const BURST_END: u8 = 10;

/// Lowest character code a synthetic character is drawn from.
pub const GLYPH_MIN: u8 = 31;

/// One more than the highest character code a synthetic character is drawn from.
pub const GLYPH_END: u8 = 126;

/// Fewest blank entries in the gap that follows a burst.
pub const GAP_MIN: u8 = 2;

/// One more than the most blank entries in the gap that follows a burst.
pub const GAP_END: u8 = 8;

/// A synthetic character is emphasised once in this many draws, on average.
pub const BOLD_ONE_IN: u32 = 5;

/// One synthetic character of a burst.
#[derive(Clone, Copy, Debug, PartialEq, Eq, Structural)]
pub struct Glyph {
    /// Character code.
    pub code: u8,
    /// Whether the character is emphasised.
    pub bold: bool,
}

/// Everything that is left to chance about the burst that follows one real
/// character: its synthetic characters and the width of the blank gap.
#[derive(Clone, Debug)]
pub struct Burst {
    pub glyphs: Vec<Glyph>,
    pub gap: u8,
}

/// Trusted: `rand::Rng::gen_range` on `rand::thread_rng()` returns a value
/// that is at least `low` and below `high`. It panics unless `low < high`,
/// which the precondition rules out. Nothing else is claimed: two calls may
/// differ.
#[verifier::external_body]
fn random_in_range(low: u8, high: u8) -> (n: u8)
    requires
        low < high,
    ensures
        low <= n < high,
{
    rand::thread_rng().gen_range(low, high)
}

/// Trusted: `rand::Rng::gen_ratio` on `rand::thread_rng()` returns a boolean.
/// It panics if the denominator is zero or smaller than the numerator, which
/// the precondition rules out. Nothing is claimed of the result.
#[verifier::external_body]
fn random_ratio(numerator: u32, denominator: u32) -> (hit: bool)
    requires
        0 < denominator,
        numerator <= denominator,
{
    rand::thread_rng().gen_ratio(numerator, denominator)
}

impl Burst {
    /// The lengths and character codes lie in the ranges bursts are drawn from.
    pub open spec fn valid(self) -> bool {
        &&& BURST_MIN <= self.glyphs@.len() < BURST_END
        &&& forall|i: int|
            0 <= i < self.glyphs@.len() ==> GLYPH_MIN <= (#[trigger] self.glyphs@[i]).code
                < GLYPH_END
        &&& GAP_MIN <= self.gap < GAP_END
    }

    /// A burst with no character and no gap, for a cell that gets none.
    pub fn none() -> (burst: Burst)
        ensures
            burst.glyphs@.len() == 0,
            burst.gap == 0,
    {
        Burst { glyphs: Vec::new(), gap: 0 }
    }

    /// Whether the burst is one that `draw` could have returned.
    pub fn is_valid(&self) -> (b: bool)
        ensures
            b == self.valid(),
    {
        let n = self.glyphs.len();
        if n < BURST_MIN as usize || n >= BURST_END as usize || self.gap < GAP_MIN || self.gap
            >= GAP_END {
            return false;
        }
        let mut i: usize = 0;
        while i < n
            invariant
                n == self.glyphs@.len(),
                i <= n,
                forall|j: int|
                    0 <= j < i ==> GLYPH_MIN <= (#[trigger] self.glyphs@[j]).code < GLYPH_END,
            decreases n - i,
        {
            if self.glyphs[i].code < GLYPH_MIN || self.glyphs[i].code >= GLYPH_END {
                return false;
            }
            i += 1;
        }
        true
    }

    /// Draws a burst at random. Whatever the generator returns, the burst is
    /// valid; which valid burst comes back is left open.
    pub fn draw() -> (burst: Burst)
        ensures
            burst.valid(),
    {
        let ran_char_count = random_in_range(BURST_MIN, BURST_END);
        let mut glyphs: Vec<Glyph> = Vec::new();
        let mut i: u8 = 0;
        while i < ran_char_count
            invariant
                i <= ran_char_count,
                glyphs@.len() == i,
                forall|j: int|
                    0 <= j < i ==> GLYPH_MIN <= (#[trigger] glyphs@[j]).code < GLYPH_END,
            decreases ran_char_count - i,
        {
            let code = random_in_range(GLYPH_MIN, GLYPH_END);
            let bold = random_ratio(1, BOLD_ONE_IN);
            glyphs.push(Glyph { code, bold });
            i += 1;
        }
        let gap = random_in_range(GAP_MIN, GAP_END);
        Burst { glyphs, gap }
    }
}

} // verus!
