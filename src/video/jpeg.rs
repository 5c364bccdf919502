//! JPEG decoding through the `image` crate.

use vstd::prelude::*;

verus! {

/// The 8-bit luma pixels, row by row, of a JPEG image resized to `width` by
/// `height` with the nearest-neighbour filter; `None` when the bytes do not
/// decode.
pub uninterp spec fn jpeg_luma(jpeg: Seq<u8>, width: u32, height: u32) -> Option<Seq<u8>>;

/// Relies on `image::load_from_memory_with_format` with the JPEG format, then
/// `DynamicImage::resize_exact` with the nearest-neighbour filter and
/// `DynamicImage::to_luma8`: the decoded image as `width * height` luma
/// bytes, or `None` where the decoder reports an error. The result depends
/// on the bytes and the dimensions alone.
#[verifier::external_body]
pub(crate) fn decode_jpeg_luma(jpeg: &[u8], width: u32, height: u32) -> (r: Option<Vec<u8>>)
    ensures
        r is Some == jpeg_luma(jpeg@, width, height) is Some,
        r matches Some(v) ==> v@ == jpeg_luma(jpeg@, width, height)->0 && v@.len() == width
            * height,
{
    match image::load_from_memory_with_format(jpeg, image::ImageFormat::Jpeg) {
        Ok(img) => Some(
            img.resize_exact(width, height, image::imageops::FilterType::Nearest).to_luma8().into_raw(),
        ),
        Err(_) => None,
    }
}

} // verus!
