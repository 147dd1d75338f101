//! The fixed 8×8 glyph set.
use font8x8::UnicodeFonts;
use vstd::prelude::*;
use vstd::string::StrSliceExecFns;

verus! {

/// The eight rows of the basic-font glyph of `c`, one bit per pixel, bit `k` of a
/// row being column `k`.
pub uninterp spec fn basic_glyph(c: char) -> Seq<u8>;

/// The basic font covers exactly the characters U+0000 to U+007F.
pub open spec fn in_basic_font(c: char) -> bool {
    (c as u32) < 128
}

/// Relies on `font8x8::BASIC_FONTS.get`: the table holds one glyph of eight rows for
/// each of the 128 code points U+0000..=U+007F, found by binary search, and nothing else.
#[verifier::external_body]
fn basic_font_get(c: char) -> (r: Option<[u8; 8]>)
    ensures
        in_basic_font(c) ==> r is Some && r->0@ == basic_glyph(c),
        !in_basic_font(c) ==> r is None,
{
    font8x8::BASIC_FONTS.get(c)
}

/// The glyph of a character of the basic font.
pub fn glyph(c: char) -> (r: [u8; 8])
    requires
        in_basic_font(c),
    ensures
        r@ == basic_glyph(c),
{
    match basic_font_get(c) {
        Some(g) => g,
        None => [0u8; 8],
    }
}

/// Whether the console can draw `c`.
pub fn is_renderable(c: char) -> (r: bool)
    ensures
        r == in_basic_font(c),
{
    basic_font_get(c).is_some()
}

/// Every character of `cs` can be drawn.
pub open spec fn all_in_basic_font(cs: Seq<char>) -> bool {
    forall|i: int| 0 <= i < cs.len() ==> in_basic_font(#[trigger] cs[i])
}

/// Whether the console can draw every character of `s`.
pub fn is_renderable_str(s: &str) -> (r: bool)
    ensures
        r == all_in_basic_font(s@),
{
    let n = s.unicode_len();
    let mut i: usize = 0;
    while i < n
        invariant
            i <= n,
            n == s@.len(),
            forall|j: int| 0 <= j < i ==> in_basic_font(#[trigger] s@[j]),
        decreases n - i,
    {
        if !is_renderable(s.get_char(i)) {
            return false;
        }
        i += 1;
    }
    true
}

} // verus!
