//! The font that text is set in: finding one, and which glyph stands for
//! which character.

use crate::parse::chars_of;
use crate::runner::texts;
use vstd::prelude::*;

verus! {

/// `ab_glyph::FontVec`, a parsed font that owns its data.
#[verifier::external_type_specification]
#[verifier::external_body]
pub struct ExFontVec(ab_glyph::FontVec);

/// `ab_glyph::InvalidFont`, why data is no font.
#[verifier::external_type_specification]
#[verifier::external_body]
pub struct ExInvalidFont(ab_glyph::InvalidFont);

/// What a font was made from: the file's bytes, and which of the faces in
/// it.
pub uninterp spec fn face_of(font: ab_glyph::FontVec) -> (Seq<u8>, u32);

/// Whether bytes hold a face at that index.
pub uninterp spec fn has_face(data: Seq<u8>, index: u32) -> bool;

/// The number of the glyph that a face has for a character.
pub uninterp spec fn glyph_number(face: (Seq<u8>, u32), c: char) -> u16;

/// Whether a character has Unicode's `White_Space` property.
pub open spec fn is_white(c: char) -> bool {
    let n = c as int;
    ||| 0x9 <= n <= 0xd
    ||| n == 0x20 || n == 0x85 || n == 0xa0 || n == 0x1680
    ||| 0x2000 <= n <= 0x200a
    ||| n == 0x2028 || n == 0x2029 || n == 0x202f || n == 0x205f || n == 0x3000
}

/// `ab_glyph::FontVec::try_from_vec_and_index`: whether it succeeds depends
/// on the bytes and the index alone, and the font keeps both.
#[verifier::external_body]
fn parse_font(data: Vec<u8>, index: u32) -> (r: Result<ab_glyph::FontVec, ab_glyph::InvalidFont>)
    ensures
        r is Ok == has_face(data@, index),
        r matches Ok(f) ==> face_of(f) == (data@, index),
{
    ab_glyph::FontVec::try_from_vec_and_index(data, index)
}

/// `ab_glyph::Font::glyph_id` of a font: a function of the face and the
/// character.
#[verifier::external_body]
fn glyph_id(font: &ab_glyph::FontVec, c: char) -> (r: u16)
    ensures
        r == glyph_number(face_of(*font), c),
{
    ab_glyph::Font::glyph_id(font, c).0
}

/// `char::is_whitespace`: whether the character has the `White_Space`
/// property.
pub assume_specification[ char::is_whitespace ](c: char) -> (r: bool)
    ensures
        r == is_white(c),
;

/// Where a monospace font may be found, the one wanted most first.
pub open spec fn candidates() -> Seq<Seq<char>> {
    seq![
        "/System/Library/Fonts/SFNSMono.ttf"@,
        "/System/Library/Fonts/Menlo.ttc"@,
        "/System/Library/Fonts/Monaco.ttf"@,
        "/System/Library/Fonts/Supplemental/Courier New.ttf"@,
        "/usr/share/fonts/truetype/dejavu/DejaVuSansMono.ttf"@,
    ]
}

/// `candidates`. The first that can be read and parsed is used.
pub fn font_candidates() -> (r: Vec<String>)
    ensures
        texts(r@) == candidates(),
{
    let mut r: Vec<String> = Vec::new();
    r.push("/System/Library/Fonts/SFNSMono.ttf".to_owned());
    r.push("/System/Library/Fonts/Menlo.ttc".to_owned());
    r.push("/System/Library/Fonts/Monaco.ttf".to_owned());
    r.push("/System/Library/Fonts/Supplemental/Courier New.ttf".to_owned());
    r.push("/usr/share/fonts/truetype/dejavu/DejaVuSansMono.ttf".to_owned());
    assert(texts(r@) =~= candidates());
    r
}

/// The font in a file, be it one font or a collection: the first face.
pub fn open_font(data: Vec<u8>) -> (r: Option<ab_glyph::FontVec>)
    ensures
        match r {
            Some(f) => has_face(data@, 0) && face_of(f) == (data@, 0u32),
            None => !has_face(data@, 0),
        },
{
    match parse_font(data, 0) {
        Ok(f) => Some(f),
        Err(_) => None,
    }
}

/// A character of a text: its glyph, and whether it draws nothing.
#[derive(Debug, Clone, Copy, PartialEq, Eq, Structural)]
pub struct Spelled {
    pub id: u16,
    pub space: bool,
}

/// A text's glyphs in a face.
pub open spec fn spelling(face: (Seq<u8>, u32), text: Seq<char>) -> Seq<Spelled> {
    Seq::new(
        text.len(),
        |i: int| Spelled { id: glyph_number(face, text[i]), space: is_white(text[i]) },
    )
}

/// `spelling`.
pub fn spell(font: &ab_glyph::FontVec, text: &str) -> (r: Vec<Spelled>)
    ensures
        r@ == spelling(face_of(*font), text@),
{
    let all = chars_of(text);
    let mut out: Vec<Spelled> = Vec::new();
    let mut i: usize = 0;
    while i < all.len()
        invariant
            i <= all@.len(),
            all@ == text@,
            out@ == spelling(face_of(*font), text@).take(i as int),
        decreases all@.len() - i,
    {
        let c = all[i];
        out.push(Spelled { id: glyph_id(font, c), space: c.is_whitespace() });
        i = i + 1;
        assert(out@ =~= spelling(face_of(*font), text@).take(i as int));
    }
    assert(out@ =~= spelling(face_of(*font), text@));
    out
}

} // verus!
