//! The thumbnail pipeline's computing half: decide the target size,
//! scale through the image library, re-encode as PNG, and build the
//! month-partitioned archive path for the original bytes.  Reading and
//! writing files stays with the caller.

use vstd::prelude::*;
use vstd::string::StringExecFns;
use crate::text::{ascii_chars_of, ascii_string};

verus! {

/// Thumbnail max width in pixels.
pub const THUMBNAIL_WIDTH: u32 = 400;

/// The pixel dimensions an image decoder reads out of these bytes, if
/// they decode at all; a function of the bytes alone.
pub uninterp spec fn decoded_dims(data: Seq<u8>) -> Option<(u32, u32)>;

/// The dimensions of the image these bytes decode to, scaled to fit the
/// given bounds with its aspect ratio kept; a function of the bytes and
/// the bounds alone.
pub uninterp spec fn resized_dims(data: Seq<u8>, bw: u32, bh: u32) -> (u32, u32);

/// Whether scaling the image these bytes decode to and writing it back
/// as PNG succeeds; a function of the bytes and the bounds alone.  The
/// encoder can refuse an image whose sample format PNG has no encoding
/// for, so decoding alone does not settle it.
pub uninterp spec fn png_encode_ok(data: Seq<u8>, bw: u32, bh: u32) -> bool;

/// Whether re-encoding the image these bytes decode to as PNG succeeds;
/// a function of the bytes alone.
pub uninterp spec fn png_reencode_ok(data: Seq<u8>) -> bool;

/// Relies on `image::load_from_memory`: whether bytes decode, and to
/// which dimensions, depends on the bytes alone.
#[verifier::external_body]
fn probe_dims(data: &[u8]) -> (r: Result<(u32, u32), String>)
    ensures
        r is Ok <==> decoded_dims(data@) is Some,
        r is Ok ==> Some((r->Ok_0.0, r->Ok_0.1)) == decoded_dims(data@),
{
    match image::load_from_memory(data) {
        Ok(img) => Ok((img.width(), img.height())),
        Err(e) => Err(format!("Failed to load image: {}", e)),
    }
}

/// Relies on `image::load_from_memory`, `DynamicImage::resize` and the
/// PNG encoder: `resize` scales to the largest size fitting the bounds
/// with the aspect ratio kept (never below one pixel a side, for bounds
/// of at least one), and the encoder writes a PNG carrying the scaled
/// image's dimensions.  Decode, scale and encode are each deterministic
/// in the bytes and the bounds, so whether the whole pipeline succeeds
/// is the named `png_encode_ok`.
#[verifier::external_body]
fn resize_encode_png(data: &[u8], bw: u32, bh: u32) -> (r: Result<Vec<u8>, String>)
    requires
        decoded_dims(data@) is Some,
    ensures
        r is Ok <==> png_encode_ok(data@, bw, bh),
        r is Ok ==> decoded_dims(r->Ok_0@) == Some(resized_dims(data@, bw, bh)),
        r is Ok && bw >= 1 && bh >= 1 ==> {
            let d = resized_dims(data@, bw, bh);
            1 <= d.0 <= bw && 1 <= d.1 <= bh
        },
{
    let img = image::load_from_memory(data).map_err(|e| format!("Failed to load image: {}", e))?;
    let thumb = img.resize(bw, bh, image::imageops::FilterType::Lanczos3);
    let mut buf = Vec::new();
    thumb.write_to(&mut std::io::Cursor::new(&mut buf), image::ImageFormat::Png).map_err(
        |e| format!("Failed to encode thumbnail: {}", e),
    )?;
    Ok(buf)
}

/// Relies on `image::load_from_memory` and the PNG encoder: re-encoding
/// keeps the image's dimensions, and whether it succeeds is a function
/// of the bytes alone, the named `png_reencode_ok`.
#[verifier::external_body]
fn reencode_png(data: &[u8]) -> (r: Result<Vec<u8>, String>)
    requires
        decoded_dims(data@) is Some,
    ensures
        r is Ok <==> png_reencode_ok(data@),
        r is Ok ==> decoded_dims(r->Ok_0@) == decoded_dims(data@),
{
    let img = image::load_from_memory(data).map_err(|e| format!("Failed to load image: {}", e))?;
    let mut buf = Vec::new();
    img.write_to(&mut std::io::Cursor::new(&mut buf), image::ImageFormat::Png).map_err(
        |e| format!("Failed to encode thumbnail: {}", e),
    )?;
    Ok(buf)
}

/// The dimensions a generated thumbnail has: an image wider than the
/// thumbnail width is scaled to that width with its aspect ratio kept;
/// a narrower one keeps its dimensions.
pub open spec fn thumbnail_dims(data: Seq<u8>) -> (u32, u32)
    recommends
        decoded_dims(data) is Some,
{
    let d = decoded_dims(data)->0;
    if d.0 > THUMBNAIL_WIDTH {
        resized_dims(
            data,
            THUMBNAIL_WIDTH,
            ((THUMBNAIL_WIDTH as int * d.1 as int) / d.0 as int) as u32,
        )
    } else {
        d
    }
}

/// Whether generating a thumbnail from these bytes succeeds: the bytes
/// decode, and the branch the decoded width selects encodes back to PNG.
pub open spec fn thumbnail_ok(data: Seq<u8>) -> bool {
    &&& decoded_dims(data) is Some
    &&& {
        let d = decoded_dims(data)->0;
        if d.0 > THUMBNAIL_WIDTH {
            png_encode_ok(
                data,
                THUMBNAIL_WIDTH,
                ((THUMBNAIL_WIDTH as int * d.1 as int) / d.0 as int) as u32,
            )
        } else {
            png_reencode_ok(data)
        }
    }
}

/// Generate a PNG thumbnail from image bytes: scaled to the thumbnail
/// width when wider, re-encoded unchanged otherwise.  Succeeds exactly
/// when the bytes decode as an image and the encoder takes it back;
/// bytes that do not decode fail.
pub fn generate_thumbnail(image_data: &[u8]) -> (r: Result<Vec<u8>, String>)
    ensures
        r is Ok <==> thumbnail_ok(image_data@),
        decoded_dims(image_data@) is None ==> r is Err,
        r is Ok ==> decoded_dims(r->Ok_0@) == Some(thumbnail_dims(image_data@)),
{
    let dims = match probe_dims(image_data) {
        Err(e) => {
            return Err(e);
        },
        Ok(d) => d,
    };
    let w = dims.0;
    let h = dims.1;
    if w > THUMBNAIL_WIDTH {
        let wide: u64 = (THUMBNAIL_WIDTH as u64) * (h as u64);
        let nh64: u64 = wide / (w as u64);
        proof {
            assert(nh64 <= h as u64) by (nonlinear_arith)
                requires
                    w > 400,
                    wide == 400 * (h as u64),
                    nh64 == wide / (w as u64),
            ;
        }
        let nh: u32 = nh64 as u32;
        resize_encode_png(image_data, THUMBNAIL_WIDTH, nh)
    } else {
        reencode_png(image_data)
    }
}

// ---------- archive paths ----------

/// The ASCII digits of a number, most significant first, no leading
/// zeros.
pub open spec fn dec_digits(n: int) -> Seq<u8>
    decreases n,
{
    if n < 10 {
        seq![(48 + if n >= 0 {
            n
        } else {
            0
        }) as u8]
    } else {
        dec_digits(n / 10).push((48 + n % 10) as u8)
    }
}

/// The ASCII digits of a number, zero-padded to two places.
pub open spec fn dec_digits_2(n: int) -> Seq<u8> {
    if n < 10 {
        seq![48u8, (48 + if n >= 0 {
            n
        } else {
            0
        }) as u8]
    } else {
        dec_digits(n)
    }
}

/// Render a number as decimal ASCII digits.
fn dec_ascii(n: u32) -> (r: Vec<u8>)
    ensures
        r@ == dec_digits(n as int),
    decreases n,
{
    if n < 10 {
        let mut r: Vec<u8> = Vec::new();
        r.push(48 + (n as u8));
        proof {
            assert(r@ =~= dec_digits(n as int));
        }
        r
    } else {
        let mut r = dec_ascii(n / 10);
        r.push(48 + ((n % 10) as u8));
        r
    }
}

proof fn lemma_dec_digits_ascii(n: int)
    requires
        n >= 0,
    ensures
        forall|i: int| 0 <= i < dec_digits(n).len() ==> dec_digits(n)[i] < 128,
    decreases n,
{
    if n >= 10 {
        lemma_dec_digits_ascii(n / 10);
        assert forall|i: int| 0 <= i < dec_digits(n).len() implies dec_digits(n)[i] < 128 by {
            if i < dec_digits(n / 10).len() {
                assert(dec_digits(n)[i] == dec_digits(n / 10)[i]);
            } else {
                assert(dec_digits(n)[i] == (48 + n % 10) as u8);
            }
        }
    }
}

/// The relative path an original image is archived under: a directory
/// partitioned by creation month, then the file's stem and extension.
pub open spec fn archive_rel_path_spec(
    year: u32,
    month: u32,
    stem: Seq<char>,
    ext: Seq<char>,
) -> Seq<char> {
    "images/"@ + ascii_chars_of(dec_digits(year as int)) + "-"@ + ascii_chars_of(
        dec_digits_2(month as int),
    ) + "/"@ + stem + "."@ + ext
}

/// Build the month-partitioned relative path `images/<year>-<month>/`
/// followed by the file's stem and extension.
pub fn archive_rel_path(year: u32, month: u32, stem: &str, ext: &str) -> (r: String)
    ensures
        r@ == archive_rel_path_spec(year, month, stem@, ext@),
{
    let y = dec_ascii(year);
    let m = dec_ascii(month);
    let mut m2: Vec<u8> = Vec::new();
    if month < 10 {
        m2.push(48u8);
        m2.push(48 + (month as u8));
        proof {
            assert(m2@ =~= dec_digits_2(month as int));
        }
    } else {
        m2 = m;
        proof {
            assert(m2@ =~= dec_digits_2(month as int));
        }
    }
    proof {
        lemma_dec_digits_ascii(year as int);
        lemma_dec_digits_ascii(month as int);
        assert(forall|i: int| 0 <= i < y@.len() ==> y@[i] < 128);
        assert(forall|i: int| 0 <= i < m2@.len() ==> m2@[i] < 128);
    }
    let ystr = ascii_string(y);
    let mstr = ascii_string(m2);
    let mut out: String = "images/".to_owned();
    out.append(ystr.as_str());
    out.append("-");
    out.append(mstr.as_str());
    out.append("/");
    out.append(stem);
    out.append(".");
    out.append(ext);
    out
}

} // verus!
