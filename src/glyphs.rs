use ab_glyph::{Font, FontArc, InvalidFont};
use vstd::prelude::*;

verus! {

#[verifier::external_type_specification]
#[verifier::external_body]
pub struct ExFontArc(FontArc);

#[verifier::external_type_specification]
#[verifier::external_body]
pub struct ExInvalidFont(InvalidFont);

/// The font that `data` parses to, if it is TrueType/OpenType font data.
pub uninterp spec fn parsed_font(data: Seq<u8>) -> Option<FontArc>;

/// Horizontal advance, in font units, of the glyph that `font` maps `c` to.
pub uninterp spec fn advance_of(font: FontArc, c: char) -> u16;

/// Height of `font` (ascent minus descent) in font units, 0 where negative.
pub uninterp spec fn height_of(font: FontArc) -> u32;

/// Relies on `FontArc::try_from_vec`: parses font data; the result depends on
/// the bytes alone.
#[verifier::external_body]
pub(crate) fn parse_font(data: Vec<u8>) -> (r: Result<FontArc, InvalidFont>)
    ensures
        r is Ok <==> parsed_font(data@) is Some,
        r matches Ok(f) ==> parsed_font(data@) == Some(f),
{
    FontArc::try_from_vec(data)
}

/// Relies on `Font::glyph_id` and `Font::h_advance_unscaled`: the advance of
/// the glyph for `c` (glyph 0 where the font has none), read from the font's
/// 16-bit metrics table.
#[verifier::external_body]
pub(crate) fn char_advance(font: &FontArc, c: char) -> (r: u16)
    ensures
        r == advance_of(*font, c),
{
    font.h_advance_unscaled(font.glyph_id(c)) as u16
}

/// Relies on `Font::height_unscaled`: ascent minus descent, in font units.
#[verifier::external_body]
pub(crate) fn height_units(font: &FontArc) -> (r: u32)
    ensures
        r == height_of(*font),
{
    font.height_unscaled() as u32
}

/// Width of `s` in `font`, in font units: the sum of its glyph advances.
pub open spec fn text_units(font: FontArc, s: Seq<char>) -> nat
    decreases s.len(),
{
    if s.len() == 0 {
        0
    } else {
        (text_units(font, s.drop_last()) + advance_of(font, s.last())) as nat
    }
}

/// The advance of each character of `chars`, in font units.
pub fn advances_of(font: &FontArc, chars: &Vec<char>) -> (r: Vec<u16>)
    ensures
        r.len() == chars.len(),
        forall|i: int| 0 <= i < r.len() ==> #[trigger] r@[i] == advance_of(*font, chars@[i]),
{
    let mut r: Vec<u16> = Vec::new();
    let mut i: usize = 0;
    while i < chars.len()
        invariant
            i <= chars.len(),
            r.len() == i,
            forall|k: int| 0 <= k < i ==> #[trigger] r@[k] == advance_of(*font, chars@[k]),
        decreases chars.len() - i,
    {
        r.push(char_advance(font, chars[i]));
        i = i + 1;
    }
    r
}

} // verus!
