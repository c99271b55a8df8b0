//! The decoded image representation held by the memory tier, and the
//! decoding of raw cached bytes into it.
//!
//! Decoding is done by the `image` crate; the library only fixes what a
//! successful decode must look like: an RGBA buffer matching the reported
//! dimensions.

use vstd::prelude::*;

verus! {

/// A decoded image: RGBA samples, four bytes per pixel, row by row.
#[derive(Clone)]
pub struct CachedImage {
    pub width: u32,
    pub height: u32,
    pub pixels: Vec<u8>,
}

impl View for CachedImage {
    type V = (nat, nat, Seq<u8>);

    open spec fn view(&self) -> (nat, nat, Seq<u8>) {
        (self.width as nat, self.height as nat, self.pixels@)
    }
}

impl CachedImage {
    /// The pixel buffer holds exactly four bytes per pixel.
    pub open spec fn wf(&self) -> bool {
        self.pixels@.len() == 4 * (self.width as nat) * (self.height as nat)
    }
}

/// What decoding a byte blob yields, if the bytes are a valid encoded
/// image: the width, height and raw RGBA bytes.  The outcome depends on
/// the bytes alone.
pub uninterp spec fn decode_of(bytes: Seq<u8>) -> Option<(u32, u32, Seq<u8>)>;

/// Relies on `image::load_from_memory` and `DynamicImage::to_rgba8`:
/// decoding a byte blob either fails or yields an RGBA buffer of exactly
/// `width * height * 4` bytes, and the outcome is a function of the bytes
/// alone.
#[verifier::external_body]
fn decode_rgba(bytes: &[u8]) -> (r: Option<(u32, u32, Vec<u8>)>)
    ensures
        match r {
            Some(t) => decode_of(bytes@) == Some((t.0, t.1, t.2@)) && t.2@.len() == 4 * (
            t.0 as nat) * (t.1 as nat),
            None => decode_of(bytes@) is None,
        },
{
    match image::load_from_memory(bytes) {
        Ok(img) => {
            let rgba = img.to_rgba8();
            let width = rgba.width();
            let height = rgba.height();
            Some((width, height, rgba.into_raw()))
        },
        Err(_) => None,
    }
}

/// Builds an image value from decoded parts, rejecting parts whose buffer
/// does not match the dimensions.
pub fn image_from_parts(width: u32, height: u32, pixels: Vec<u8>) -> (r: Option<CachedImage>)
    ensures
        match r {
            Some(img) => img@ == (width as nat, height as nat, pixels@) && img.wf(),
            None => pixels@.len() != 4 * (width as nat) * (height as nat),
        },
{
    let w128: u128 = width as u128;
    let h128: u128 = height as u128;
    proof {
        assert(w128 * h128 <= 0xffff_ffff_ffff_ffff) by (nonlinear_arith)
            requires
                w128 <= 0xffff_ffff,
                h128 <= 0xffff_ffff,
        ;
    }
    let expected: u128 = 4u128 * (w128 * h128);
    proof {
        assert(expected as nat == 4 * ((width as nat) * (height as nat)));
        assert(4 * ((width as nat) * (height as nat)) == 4 * (width as nat) * (
        height as nat)) by (nonlinear_arith);
    }
    if (pixels.len() as u128) == expected {
        Some(CachedImage { width, height, pixels })
    } else {
        None
    }
}

/// Decodes raw cached bytes into an image value.
///
/// Bytes that are not a valid encoded image yield `None`, never an error.
pub fn decode_image(bytes: &[u8]) -> (r: Option<CachedImage>)
    ensures
        match r {
            Some(img) => decode_of(bytes@) matches Some(t) && img@ == (
                t.0 as nat,
                t.1 as nat,
                t.2,
            ) && img.wf(),
            None => decode_of(bytes@) is None,
        },
{
    match decode_rgba(bytes) {
        Some((width, height, pixels)) => image_from_parts(width, height, pixels),
        None => None,
    }
}

} // verus!
