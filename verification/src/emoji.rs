//! Emoji detection: pages with emoji need the COLRv1 colour emoji font.
use vstd::prelude::*;

verus! {

/// A character in one of the emoji blocks: U+1F300–U+1FAFF,
/// U+2600–U+27BF or U+2300–U+23FF.
pub open spec fn is_emoji(c: char) -> bool {
    let u = c as u32;
    (0x1f300 <= u <= 0x1faff) || (0x2600 <= u <= 0x27bf) || (0x2300 <= u <= 0x23ff)
}

/// CSS to inject when the COLR font is loaded: the emoji family goes into
/// the font stack right after the CJK family.
pub fn colr_font_face_css() -> (r: &'static str)
    ensures
        r@ == "* { font-family: 'Noto Sans SC', 'Noto Color Emoji', sans-serif !important; }"@,
{
    "* { font-family: 'Noto Sans SC', 'Noto Color Emoji', sans-serif !important; }"
}

pub fn is_emoji_char(c: char) -> (r: bool)
    ensures
        r == is_emoji(c),
{
    let u = c as u32;
    (0x1f300 <= u && u <= 0x1faff) || (0x2600 <= u && u <= 0x27bf) || (0x2300 <= u && u <= 0x23ff)
}

/// Check if HTML contains emoji characters that need COLR rendering.
pub fn has_emoji(html: &str) -> (r: bool)
    ensures
        r == exists|i: int| 0 <= i < html@.len() && is_emoji(#[trigger] html@[i]),
{
    let v = crate::text::chars_of(html);
    let mut i: usize = 0;
    while i < v.len()
        invariant
            v@ == html@,
            i <= v.len(),
            forall|j: int| 0 <= j < i ==> !is_emoji(#[trigger] v@[j]),
        decreases v.len() - i,
    {
        if is_emoji_char(v[i]) {
            return true;
        }
        i = i + 1;
    }
    false
}

} // verus!
