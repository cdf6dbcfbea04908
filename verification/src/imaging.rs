//! Trusted boundary to the `image` crate: decoding raster bytes into raw
//! RGB8 samples and encoding sample buffers as PNG or JPEG bytes. Everything
//! around these calls — the elevation decoding, the normalization, the
//! package layout — is verified against the names given to their results.

use vstd::prelude::*;
use crate::heightmap::Heightmap;
use crate::heightmap::spec_terrarium_rows;
use crate::heightmap::heightmap_from_rgb;

verus! {

/// Whether a byte sequence decodes as a supported raster image: decoding
/// recognizes the format from the bytes alone, so success is a function of
/// the bytes alone.
pub uninterp spec fn rgb8_decodable(data: Seq<u8>) -> bool;

/// Dimensions and raw row-major RGB8 samples (three bytes per pixel) that an
/// encoded raster decodes to, as a function of the encoded bytes alone.
pub uninterp spec fn rgb8_of(data: Seq<u8>) -> (nat, nat, Seq<u8>);

/// The PNG encoding of a grayscale sample buffer with the given dimensions,
/// as a function of dimensions and samples alone.
pub uninterp spec fn gray_png_of(w: nat, h: nat, pix: Seq<u8>) -> Seq<u8>;

/// The JPEG encoding of an RGB8 sample buffer with the given dimensions, as
/// a function of dimensions and samples alone.
pub uninterp spec fn rgb_jpeg_of(w: nat, h: nat, pix: Seq<u8>) -> Seq<u8>;

/// Relies on `image::load_from_memory` and `DynamicImage::to_rgb8`: the
/// format is guessed and decoded from the bytes alone, so both the outcome
/// and the result are functions of the bytes; the raw RGB8 container holds
/// width * height pixels of three samples each, row-major.
#[verifier::external_body]
fn decode_rgb8(data: &Vec<u8>) -> (r: Result<(u32, u32, Vec<u8>), String>)
    ensures
        r is Ok <==> rgb8_decodable(data@),
        r matches Ok(t) ==> ({
            &&& t.0 as nat == rgb8_of(data@).0
            &&& t.1 as nat == rgb8_of(data@).1
            &&& t.2@ == rgb8_of(data@).2
            &&& t.2@.len() == 3 * t.0 * t.1
        }),
{
    match image::load_from_memory(data) {
        Ok(img) => {
            let rgb = img.to_rgb8();
            let (w, h) = rgb.dimensions();
            Ok((w, h, rgb.into_raw()))
        },
        Err(e) => Err(e.to_string()),
    }
}

/// Relies on `image::GrayImage::from_raw` (which accepts any buffer holding
/// width * height samples) and `ImageBuffer::write_to` with the PNG format:
/// the encoded bytes are a function of dimensions and samples alone, and
/// encoding into memory succeeds — the PNG encoder rejects only zero
/// dimensions, and an in-memory writer cannot fail.
#[verifier::external_body]
pub(crate) fn encode_gray_png(w: u32, h: u32, pix: Vec<u8>) -> (r: Result<Vec<u8>, String>)
    requires
        pix@.len() == w * h,
        w > 0,
        h > 0,
    ensures
        r is Ok,
        r matches Ok(b) ==> b@ == gray_png_of(w as nat, h as nat, pix@),
{
    let img = match image::GrayImage::from_raw(w, h, pix) {
        Some(i) => i,
        None => return Err("sample buffer does not match dimensions".to_string()),
    };
    let mut cur = std::io::Cursor::new(Vec::new());
    match img.write_to(&mut cur, image::ImageOutputFormat::Png) {
        Ok(()) => Ok(cur.into_inner()),
        Err(e) => Err(e.to_string()),
    }
}

/// Relies on `image::RgbImage::from_raw` (which accepts any buffer holding
/// width * height * 3 samples) and `ImageBuffer::write_to` with the JPEG
/// format at quality 75: the encoded bytes are a function of dimensions and
/// samples alone, and encoding into memory succeeds — the JPEG encoder
/// rejects only dimensions above 65535, and an in-memory writer cannot
/// fail.
#[verifier::external_body]
pub(crate) fn encode_rgb_jpeg(w: u32, h: u32, pix: Vec<u8>) -> (r: Result<Vec<u8>, String>)
    requires
        pix@.len() == 3 * w * h,
        0 < w <= 65535,
        0 < h <= 65535,
    ensures
        r is Ok,
        r matches Ok(b) ==> b@ == rgb_jpeg_of(w as nat, h as nat, pix@),
{
    let img = match image::RgbImage::from_raw(w, h, pix) {
        Some(i) => i,
        None => return Err("sample buffer does not match dimensions".to_string()),
    };
    let mut cur = std::io::Cursor::new(Vec::new());
    match img.write_to(&mut cur, image::ImageOutputFormat::Jpeg(75)) {
        Ok(()) => Ok(cur.into_inner()),
        Err(e) => Err(e.to_string()),
    }
}

/// Decodes the raw bytes of an elevation raster into a heightmap sized to
/// the raster's pixel dimensions. Fails exactly when the bytes are not
/// decodable as a supported raster — a fatal error for the tile, reporting
/// the decoder's message; no partial heightmap is produced.
pub fn process_terrain_data(data: &Vec<u8>) -> (r: Result<Heightmap, String>)
    ensures
        r is Ok <==> rgb8_decodable(data@),
        r matches Ok(hm) ==> ({
            &&& hm.wf()
            &&& hm.in_range()
            &&& hm.spec_height() == rgb8_of(data@).1
            &&& hm.spec_height() > 0 ==> hm.spec_width() == rgb8_of(data@).0
            &&& hm.view_rows() == spec_terrarium_rows(
                rgb8_of(data@).0,
                rgb8_of(data@).1,
                rgb8_of(data@).2,
            )
        }),
{
    match decode_rgb8(data) {
        Ok((w, h, bytes)) => Ok(heightmap_from_rgb(w, h, &bytes)),
        Err(e) => Err(e),
    }
}

} // verus!
