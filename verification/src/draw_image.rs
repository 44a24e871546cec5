//! Rasters: 8-bit pixels, the raster of a picture, and its encoding as a
//! PNG file in base64 text.

use vstd::prelude::*;
use vstd::string::StringExecFns;
use image::ImageEncoder;
use crate::data::{DrawMode, Status, C};
use crate::draw_func::{aa_subpixels, get_color_spec, pixel_color, subpixel_coords};
use crate::draw_term::{quantize, quantize_at};
use crate::fixed::{CF, CU};

verus! {

/// The error of the `image` crate, carried through unopened.
#[verifier::external_type_specification]
#[verifier::external_body]
pub struct ExImageError(image::ImageError);

/// The PNG file that the `image` crate writes for an 8-bit RGBA raster of
/// the given width and height, or `None` where it refuses to.
pub uninterp spec fn png_bytes(raw: Seq<u8>, width: u32, height: u32) -> Option<Seq<u8>>;

/// The base64 text of a sequence of bytes, as the `base64` crate writes it.
pub uninterp spec fn base64_text(bytes: Seq<u8>) -> Seq<char>;

/// `image::codecs::png::PngEncoder::write_image` with the colour type
/// `Rgba8`, writing into a fresh vector: gives the bytes of the PNG file or
/// the error of the encoder. The encoder panics unless the raster holds four
/// bytes for each pixel, so that is required. The result depends on the
/// raster and the dimensions alone.
#[verifier::external_body]
fn png_encode(raw: &Vec<u8>, width: u32, height: u32) -> (res: Result<Vec<u8>, image::ImageError>)
    requires
        raw@.len() == 4 * width * height,
    ensures
        match res {
            Ok(png) => png_bytes(raw@, width, height) == Some(png@),
            Err(_) => png_bytes(raw@, width, height) is None,
        },
{
    let mut png: Vec<u8> = Vec::new();
    let encoder = image::codecs::png::PngEncoder::new(&mut png);
    match encoder.write_image(raw, width, height, image::ColorType::Rgba8) {
        Ok(()) => Ok(png),
        Err(e) => Err(e),
    }
}

/// `base64::encode`: the text of the bytes in the standard alphabet with
/// padding. The result depends on the bytes alone.
#[verifier::external_body]
fn base64_encode(bytes: &Vec<u8>) -> (res: String)
    ensures
        res@ == base64_text(bytes@),
{
    base64::encode(bytes)
}

/// Why a picture cannot be turned into an image.
#[derive(Clone, Copy, Debug, PartialEq, Eq, Structural)]
pub enum ImageOutputError {
    /// The capability pattern exists on a terminal only.
    Ansi,
    /// The encoder refused the raster.
    Encoding,
}

/// What to tell the operator about a picture that cannot become an image.
pub fn image_error_message(e: ImageOutputError) -> (res: String)
    ensures
        res@ == match e {
            ImageOutputError::Ansi => "ANSIカラー表示の出力には対応していません"@,
            ImageOutputError::Encoding => "画像を書き出せませんでした"@,
        },
{
    match e {
        ImageOutputError::Ansi => String::from_str("ANSIカラー表示の出力には対応していません"),
        ImageOutputError::Encoding => String::from_str("画像を書き出せませんでした"),
    }
}

/// The red, green, blue and alpha bytes of a colour in a raster: continuous
/// channels are rounded to the nearest of 256 levels, a grey fills the three
/// colour channels alike, 8-bit channels stay as they are, and reverse video
/// and the absence of colour are transparent black. A named colour has no
/// place in a raster.
pub open spec fn image_pixel_spec(c: C) -> (u8, u8, u8, u8) {
    match c {
        C::Float { r, g, b, a } => (
            quantize(r as int, 255) as u8,
            quantize(g as int, 255) as u8,
            quantize(b as int, 255) as u8,
            quantize(a as int, 255) as u8,
        ),
        C::Int { r, g, b, a } => (r, g, b, a),
        C::GFloat { v, a } => (
            quantize(v as int, 255) as u8,
            quantize(v as int, 255) as u8,
            quantize(v as int, 255) as u8,
            quantize(a as int, 255) as u8,
        ),
        _ => (0, 0, 0, 0),
    }
}

/// The red, green, blue and alpha bytes of a colour in a raster.
pub fn image_pixel(c: C) -> (res: (u8, u8, u8, u8))
    requires
        !c.named(),
    ensures
        res == image_pixel_spec(c),
{
    match c {
        C::Float { r, g, b, a } => (
            quantize_at(r, 255),
            quantize_at(g, 255),
            quantize_at(b, 255),
            quantize_at(a, 255),
        ),
        C::Int { r, g, b, a } => (r, g, b, a),
        C::GFloat { v, a } => {
            let u: u8 = quantize_at(v, 255);
            (u, u, u, quantize_at(a, 255))
        },
        _ => (0, 0, 0, 0),
    }
}

/// One of the four bytes of a pixel.
pub open spec fn pixel_byte(p: (u8, u8, u8, u8), k: int) -> u8 {
    if k == 0 {
        p.0
    } else if k == 1 {
        p.1
    } else if k == 2 {
        p.2
    } else {
        p.3
    }
}

/// The pixel `(x, y)` of the raster of the given size.
pub open spec fn raster_pixel(x: u16, y: u16, s: Status, size: CU) -> (u8, u8, u8, u8) {
    image_pixel_spec(get_color_spec(x, y, size, s, subpixel_coords(s.aa, size, false)))
}

/// The raster of the picture at the given size: four bytes to a pixel, the
/// pixels row by row from the top and from left to right in each row.
pub open spec fn frame_spec(s: Status, size: CU) -> Seq<u8> {
    Seq::new(
        (4 * (size.1 * size.0)) as nat,
        |i: int|
            pixel_byte(
                raster_pixel(
                    ((i / 4) % (size.0 as int)) as u16,
                    ((i / 4) / (size.0 as int)) as u16,
                    s,
                    size,
                ),
                i % 4,
            ),
    )
}

/// The bytes of pixel `(x, y)` of the raster of the given size, sampled with
/// the given offsets, which are those of the raster.
pub fn raster_pixel_at(x: u16, y: u16, s: &Status, size: &CU, subpixels: &[CF]) -> (res: (
    u8,
    u8,
    u8,
    u8,
))
    requires
        size.0 >= 1,
        size.1 >= 1,
        x < size.0,
        y < size.1,
        s.draw_mode.wf(),
        s.aa > 0 ==> s.draw_mode.supports_aa(),
        !(s.draw_mode is Ansi),
        subpixels@ == subpixel_coords(s.aa, *size, false),
    ensures
        res == raster_pixel(x, y, *s, *size),
{
    image_pixel(pixel_color(x, y, s, size, subpixels))
}

/// The raster of the picture at the given size, as 8-bit RGBA. The
/// capability pattern has no raster.
pub fn frame(s: &Status, size: &CU) -> (res: Result<Vec<u8>, ImageOutputError>)
    requires
        size.0 >= 1,
        size.1 >= 1,
        s.draw_mode.wf(),
        s.aa > 0 ==> s.draw_mode.supports_aa(),
    ensures
        s.draw_mode is Ansi ==> res == Err::<Vec<u8>, ImageOutputError>(ImageOutputError::Ansi),
        !(s.draw_mode is Ansi) ==> res is Ok && res->Ok_0@ == frame_spec(*s, *size),
{
    match s.draw_mode {
        DrawMode::Ansi => {
            return Err(ImageOutputError::Ansi);
        },
        _ => {},
    }
    let w: u16 = size.0;
    let h: u16 = size.1;
    let subpixels: Vec<CF> = aa_subpixels(s.aa, size, false);
    let mut raw: Vec<u8> = Vec::new();
    let mut y: u16 = 0;
    while y < h
        invariant
            w == size.0,
            h == size.1,
            w >= 1,
            y <= h,
            s.draw_mode.wf(),
            s.aa > 0 ==> s.draw_mode.supports_aa(),
            !(s.draw_mode is Ansi),
            subpixels@ == subpixel_coords(s.aa, *size, false),
            raw@.len() == 4 * (y * w),
            forall|i: int| 0 <= i < raw@.len() ==> raw@[i] == frame_spec(*s, *size)[i],
        decreases h - y,
    {
        let mut x: u16 = 0;
        while x < w
            invariant
                w == size.0,
                h == size.1,
                w >= 1,
                y < h,
                x <= w,
                s.draw_mode.wf(),
                s.aa > 0 ==> s.draw_mode.supports_aa(),
                !(s.draw_mode is Ansi),
                subpixels@ == subpixel_coords(s.aa, *size, false),
                raw@.len() == 4 * (y * w + x),
                forall|i: int| 0 <= i < raw@.len() ==> raw@[i] == frame_spec(*s, *size)[i],
            decreases w - x,
        {
            let p: (u8, u8, u8, u8) = raster_pixel_at(x, y, s, size, subpixels.as_slice());
            proof {
                let n = y * w + x;
                vstd::arithmetic::div_mod::lemma_fundamental_div_mod_converse(
                    n as int,
                    w as int,
                    y as int,
                    x as int,
                );
                assert(w * y + x == y * w + x) by (nonlinear_arith);
                assert(y * w + x < h * w) by (nonlinear_arith)
                    requires
                        y < h,
                        x < w,
                ;
                assert(h * w == size.1 * size.0);
                assert((4 * n) / 4 == n && (4 * n + 1) / 4 == n && (4 * n + 2) / 4 == n && (4 * n
                    + 3) / 4 == n);
            }
            raw.push(p.0);
            raw.push(p.1);
            raw.push(p.2);
            raw.push(p.3);
            x = x + 1;
        }
        proof {
            assert(y * w + w == (y + 1) * w) by (nonlinear_arith);
        }
        y = y + 1;
    }
    assert(raw@ =~= frame_spec(*s, *size));
    Ok(raw)
}

/// The size of the inline image of a text session: four pixels each way for
/// every pixel of the grid.
pub open spec fn inline_size(size: CU) -> CU {
    ((4 * size.0) as u16, (4 * size.1) as u16)
}

/// The inline image of the picture, as the base64 text of a PNG file.
pub open spec fn base64_image_spec(s: Status) -> Result<Seq<char>, ImageOutputError> {
    let size = inline_size(s.size);
    if s.draw_mode is Ansi {
        Err(ImageOutputError::Ansi)
    } else {
        match png_bytes(frame_spec(s, size), size.0 as u32, size.1 as u32) {
            Some(png) => Ok(base64_text(png)),
            None => Err(ImageOutputError::Encoding),
        }
    }
}

/// The picture as an inline image for the terminal: rendered at four times
/// the size of the grid, written as a PNG file and that as base64 text. The
/// enlarged size has to fit the range of a grid dimension.
pub fn base64_image(s: &Status) -> (res: Result<String, ImageOutputError>)
    requires
        s.wf(),
        4 * s.size.0 <= 0xffff,
        4 * s.size.1 <= 0xffff,
    ensures
        match res {
            Ok(text) => base64_image_spec(*s) == Ok::<Seq<char>, ImageOutputError>(text@),
            Err(e) => base64_image_spec(*s) == Err::<Seq<char>, ImageOutputError>(e),
        },
{
    let size: CU = (s.size.0 * 4, s.size.1 * 4);
    match frame(s, &size) {
        Err(e) => Err(e),
        Ok(raw) => {
            proof {
                assert(4 * (size.1 * size.0) == 4 * (size.0 as u32) * (size.1 as u32))
                    by (nonlinear_arith);
            }
            match png_encode(&raw, size.0 as u32, size.1 as u32) {
                Ok(png) => Ok(base64_encode(&png)),
                Err(_) => Err(ImageOutputError::Encoding),
            }
        },
    }
}

} // verus!
