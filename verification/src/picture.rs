//! Images that arrive as text.

use vstd::prelude::*;

verus! {

/// What the standard Base64 engine makes of a text: the bytes that it encodes,
/// or nothing where it encodes none.
pub uninterp spec fn base64_decoded(text: Seq<char>) -> Option<Seq<u8>>;

/// Decodes a text with `base64::engine::general_purpose::STANDARD`: the standard
/// alphabet, padded. The contract names the outcome and says nothing more of it:
/// the same text always gives the same bytes, or always fails.
#[verifier::external_body]
fn decode_base64(text: &String) -> (r: Option<Vec<u8>>)
    ensures
        match r {
            Some(bytes) => base64_decoded(text@) == Some(bytes@),
            None => base64_decoded(text@) is None,
        },
{
    base64::Engine::decode(&base64::engine::general_purpose::STANDARD, text).ok()
}

/// What decoding an image file gives: its pixels row by row, four bytes to a
/// pixel, or nothing where the bytes hold no image.
pub uninterp spec fn image_pixels(file: Seq<u8>) -> Option<Seq<u8>>;

/// Decodes an image file with `image::load_from_memory` and hands its pixels
/// over as red, green, blue and opacity. The contract names the outcome and says
/// nothing more of it: the same file always gives the same pixels, or always
/// fails. That rests on nothing in the process having registered a decoder of its
/// own with the `image` crate, and nothing here does.
#[verifier::external_body]
fn decode_image(file: &[u8]) -> (r: Option<Vec<u8>>)
    ensures
        match r {
            Some(pixels) => image_pixels(file@) == Some(pixels@),
            None => image_pixels(file@) is None,
        },
{
    match image::load_from_memory(file) {
        Ok(decoded) => Some(decoded.to_rgba8().into_raw()),
        Err(_) => None,
    }
}

/// The pixels of an image file in a Base64 text, if it is one.
pub open spec fn pixels_in(text: Seq<char>) -> Option<Seq<u8>> {
    match base64_decoded(text) {
        Some(file) => image_pixels(file),
        None => None,
    }
}

/// Decodes the image file in a Base64 text.
pub fn decode_picture(text: &String) -> (r: Option<Vec<u8>>)
    ensures
        match r {
            Some(pixels) => pixels_in(text@) == Some(pixels@),
            None => pixels_in(text@) is None,
        },
{
    match decode_base64(text) {
        Some(file) => decode_image(file.as_slice()),
        None => None,
    }
}

} // verus!
