//! Perceptual-hash codec: encodes a decoded image's pixels into a short
//! hash string with its aspect ratio, and decodes a hash back into a
//! small pixel buffer rendered as an inline base64 bitmap.

use vstd::prelude::*;

use crate::bitmap::{base64_of, bmp_bytes, encode_bmp_from_rgb_or_rgba, rgb_of_rgba};
use crate::text::{dec_str, u64_to_string};

verus! {

/// What the perceptual-hash encoder yields for an RGBA buffer of the
/// given dimensions, with 4 horizontal and 3 vertical components. A
/// function of the pixels and dimensions alone.
pub uninterp spec fn blurhash_of(width: u32, height: u32, rgba: Seq<u8>) -> Seq<char>;

/// What the perceptual-hash decoder yields for a hash string and target
/// dimensions: the RGBA pixels of the reconstruction, or nothing when
/// the string is structurally invalid. A function of its arguments
/// alone.
pub uninterp spec fn blurhash_pixels_of(hash: Seq<char>, width: u32, height: u32) -> Option<
    Seq<u8>,
>;

/// Relies on blurhash's `encode` with components 4 and 3: the hash
/// string of the RGBA buffer, a function of buffer and dimensions alone.
/// Its only error is components out of the range 1 to 9, which the
/// fixed 4 and 3 never are.
#[verifier::external_body]
fn blurhash_encode(width: u32, height: u32, rgba: &Vec<u8>) -> (r: String)
    requires
        rgba@.len() == 4 * width * height,
        4 * (width as nat) * (height as nat) <= u32::MAX,
        4 * (width as nat) <= u32::MAX,
    ensures
        r@ == blurhash_of(width, height, rgba@),
{
    blurhash::encode(4, 3, width, height, rgba.as_slice()).unwrap()
}

/// Relies on blurhash's `decode` with punch 1: the RGBA reconstruction
/// of the hash at the requested size, 4 bytes per pixel; it fails
/// exactly when the hash string is structurally invalid.
#[verifier::external_body]
fn blurhash_decode(hash: &str, width: u32, height: u32) -> (r: Option<Vec<u8>>)
    requires
        4 * (width as nat) * (height as nat) <= u32::MAX,
        4 * (width as nat) <= u32::MAX,
    ensures
        match r {
            Some(buf) => blurhash_pixels_of(hash@, width, height) == Some(buf@) && buf@.len() == 4
                * width * height,
            None => blurhash_pixels_of(hash@, width, height) is None,
        },
{
    match blurhash::decode(hash, width, height, 1u8.into()) {
        Ok(buf) => Some(buf),
        Err(_) => None,
    }
}

/// Encodes a decoded image into its perceptual-hash string and its
/// aspect ratio rendered as `"W/H"`. Fails when the height is zero.
pub fn encode_blurhash_and_aspect(width: u32, height: u32, rgba: &Vec<u8>) -> (r: Option<
    (String, String),
>)
    requires
        rgba@.len() == 4 * width * height,
        4 * (width as nat) * (height as nat) <= u32::MAX,
        4 * (width as nat) <= u32::MAX,
    ensures
        height == 0 ==> r is None,
        height != 0 ==> (r matches Some(pair) && pair.0@ == blurhash_of(width, height, rgba@)
            && pair.1@ == dec_str(width as nat) + "/"@ + dec_str(height as nat)),
{
    if height == 0 {
        return None;
    }
    let hash = blurhash_encode(width, height, rgba);
    let mut aspect = u64_to_string(width as u64);
    aspect.append("/");
    let den = u64_to_string(height as u64);
    aspect.append(den.as_str());
    let ghost expect = dec_str(width as nat) + "/"@ + dec_str(height as nat);
    proof {
        assert(aspect@ =~= expect);
    }
    Some((hash, aspect))
}

/// Decodes a perceptual-hash string into a 64 by 64 preview and renders
/// it as the base64 of an exact bitmap file; an invalid hash yields an
/// empty string.
pub fn get_base64_from_blurhash(hash: &str) -> (r: String)
    ensures
        match blurhash_pixels_of(hash@, 64, 64) {
            Some(pixels) => r@ == base64_of(bmp_bytes(rgb_of_rgba(pixels), 64, 64)),
            None => r@.len() == 0,
        },
{
    match blurhash_decode(hash, 64, 64) {
        Some(buf) => {
            proof {
                assert(buf@.len() == 4 * 64 * 64);
                assert(buf@.len() != 3 * 64 * 64);
            }
            encode_bmp_from_rgb_or_rgba(&buf, 64, 64)
        },
        None => String::new(),
    }
}

} // verus!
