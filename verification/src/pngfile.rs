//! PNG files: what a mask or a crop is saved as, and what the wordmark is
//! read from.

use crate::readout::{digits, push_number};
use vstd::prelude::*;
use vstd::string::StringExecFns;

verus! {

/// `png::EncodingError`, why a picture could not be written.
#[verifier::external_type_specification]
#[verifier::external_body]
pub struct ExEncodingError(png::EncodingError);

/// `png::DecodingError`, why a file could not be read.
#[verifier::external_type_specification]
#[verifier::external_body]
pub struct ExDecodingError(png::DecodingError);

/// What a pixel is made of.
#[derive(Debug, Clone, Copy, PartialEq, Eq, Structural)]
pub enum PngColor {
    Gray,
    GrayAlpha,
    Rgb,
    Rgba,
    Indexed,
}

/// A decoded picture: rows of samples, tightly packed.
pub struct PngImage {
    pub width: u32,
    pub height: u32,
    pub color: PngColor,
    /// Bits per sample.
    pub depth: u8,
    pub pixels: Vec<u8>,
}

/// A picture's content.
pub struct PngState {
    pub width: u32,
    pub height: u32,
    pub color: PngColor,
    pub depth: u8,
    pub pixels: Seq<u8>,
}

impl View for PngImage {
    type V = PngState;

    open spec fn view(&self) -> PngState {
        PngState {
            width: self.width,
            height: self.height,
            color: self.color,
            depth: self.depth,
            pixels: self.pixels@,
        }
    }
}

/// What kind of picture is saved: a mask is gray, a crop has colour.
#[derive(Debug, Clone, Copy, PartialEq, Eq, Structural)]
pub enum Plane {
    Gray,
    Rgba,
}

impl Plane {
    /// Bytes per pixel.
    pub open spec fn channels(self) -> int {
        match self {
            Plane::Gray => 1,
            Plane::Rgba => 4,
        }
    }

    pub open spec fn color(self) -> PngColor {
        match self {
            Plane::Gray => PngColor::Gray,
            Plane::Rgba => PngColor::Rgba,
        }
    }
}

/// The bytes a picture of these dimensions has.
pub open spec fn picture_size(width: u32, height: u32, plane: Plane) -> int {
    width * plane.channels() * height
}

/// What encoding a picture yields.
pub uninterp spec fn png_written(width: u32, height: u32, plane: Plane, pixels: Seq<u8>) -> Seq<u8>;

/// What decoding a file yields, or nothing where it is no picture.
pub uninterp spec fn png_read(file: Seq<u8>) -> Option<PngState>;

/// `png::Encoder` with an 8-bit depth and the plane's colour type, its header
/// and image data written and finished. It fails exactly where a side is 0 or
/// the pixels are not as many as the dimensions call for; where it succeeds,
/// `png::Decoder` reads the same picture back, unless a row of it is longer
/// than the decoder is ready to hold.
#[verifier::external_body]
fn encode_png(width: u32, height: u32, plane: Plane, pixels: &[u8]) -> (r: Result<
    Vec<u8>,
    png::EncodingError,
>)
    requires
        encodable(width, height, plane, pixels@.len() as int),
    ensures
        match r {
            Ok(file) => {
                &&& width > 0 && height > 0
                &&& pixels@.len() == picture_size(width, height, plane)
                &&& file@ == png_written(width, height, plane, pixels@)
                &&& width * plane.channels() < ROW_LIMIT ==> png_read(file@) == Some(
                    PngState { width, height, color: plane.color(), depth: 8, pixels: pixels@ },
                )
            },
            Err(_) => width == 0 || height == 0 || pixels@.len() != picture_size(
                width,
                height,
                plane,
            ),
        },
{
    let mut file = Vec::new();
    let mut encoder = png::Encoder::new(&mut file, width, height);
    encoder.set_color(match plane {
        Plane::Gray => png::ColorType::Grayscale,
        Plane::Rgba => png::ColorType::Rgba,
    });
    encoder.set_depth(png::BitDepth::Eight);
    let mut writer = encoder.write_header()?;
    writer.write_image_data(pixels)?;
    writer.finish()?;
    Ok(file)
}

/// `png::Decoder` over the file, its first frame read without
/// transformations. Whether it succeeds and what it hands out depend on the
/// bytes alone, but for a picture of more bytes than the machine can address,
/// which it refuses.
#[verifier::external_body]
fn decode_png(file: &[u8]) -> (r: Result<PngImage, png::DecodingError>)
    ensures
        match r {
            Ok(image) => png_read(file@) == Some(image@),
            Err(_) => png_read(file@) matches Some(p) ==> p.pixels.len() > isize::MAX,
        },
{
    let mut reader = png::Decoder::new(std::io::Cursor::new(file)).read_info()?;
    let mut pixels = vec![0; reader.output_buffer_size().unwrap_or(0)];
    let frame = reader.next_frame(&mut pixels)?;
    pixels.truncate(frame.buffer_size());
    let color = match frame.color_type {
        png::ColorType::Grayscale => PngColor::Gray,
        png::ColorType::GrayscaleAlpha => PngColor::GrayAlpha,
        png::ColorType::Rgb => PngColor::Rgb,
        png::ColorType::Rgba => PngColor::Rgba,
        png::ColorType::Indexed => PngColor::Indexed,
    };
    let depth = frame.bit_depth as u8;
    Ok(PngImage { width: frame.width, height: frame.height, color, depth, pixels })
}

/// Why a picture could not be encoded.
#[derive(Debug, Clone, Copy, PartialEq, Eq, Structural)]
pub enum EncodeError {
    ZeroWidth,
    ZeroHeight,
    /// The machine cannot count the picture's bytes.
    TooLarge,
    WrongSize { expected: u64, actual: u64 },
}

impl EncodeError {
    pub open spec fn text(self) -> Seq<char> {
        match self {
            EncodeError::ZeroWidth => "Zero width not allowed"@,
            EncodeError::ZeroHeight => "Zero height not allowed"@,
            EncodeError::TooLarge => "picture too large"@,
            EncodeError::WrongSize { expected, actual } => "wrong data size, expected "@ + digits(
                expected as nat,
            ) + " got "@ + digits(actual as nat),
        }
    }

    pub fn message(self) -> (r: String)
        ensures
            r@ == self.text(),
    {
        match self {
            EncodeError::ZeroWidth => "Zero width not allowed".to_owned(),
            EncodeError::ZeroHeight => "Zero height not allowed".to_owned(),
            EncodeError::TooLarge => "picture too large".to_owned(),
            EncodeError::WrongSize { expected, actual } => {
                let mut s = "wrong data size, expected ".to_owned();
                push_number(&mut s, expected);
                s.append(" got ");
                push_number(&mut s, actual);
                assert(s@ =~= self.text());
                s
            },
        }
    }
}

/// The bytes of a row that a decoder no longer holds.
pub const ROW_LIMIT: u64 = 0x400_0000;

/// Whether the numbers of a picture with `len` bytes of pixels, the byte
/// before each row counted, fit the machine.
pub open spec fn encodable(width: u32, height: u32, plane: Plane, len: int) -> bool {
    let size = picture_size(width, height, plane);
    &&& width * plane.channels() < usize::MAX
    &&& size <= usize::MAX
    &&& len == size ==> size + height <= usize::MAX
}

/// What is wrong with a picture to be encoded, if anything.
pub open spec fn encode_fault(width: u32, height: u32, plane: Plane, len: int) -> Option<
    EncodeError,
> {
    if width == 0 {
        Some(EncodeError::ZeroWidth)
    } else if height == 0 {
        Some(EncodeError::ZeroHeight)
    } else if !encodable(width, height, plane, len) {
        Some(EncodeError::TooLarge)
    } else if len != picture_size(width, height, plane) {
        Some(
            EncodeError::WrongSize {
                expected: picture_size(width, height, plane) as u64,
                actual: len as u64,
            },
        )
    } else {
        None
    }
}

/// Encodes a picture as an 8-bit PNG.
pub fn encode(width: u32, height: u32, plane: Plane, pixels: &[u8]) -> (r: Result<
    Vec<u8>,
    EncodeError,
>)
    ensures
        match r {
            Ok(file) => {
                &&& encode_fault(width, height, plane, pixels@.len() as int) is None
                &&& file@ == png_written(width, height, plane, pixels@)
                &&& width * plane.channels() < ROW_LIMIT ==> png_read(file@) == Some(
                    PngState { width, height, color: plane.color(), depth: 8, pixels: pixels@ },
                )
            },
            Err(e) => encode_fault(width, height, plane, pixels@.len() as int) == Some(e),
        },
{
    if width == 0 {
        return Err(EncodeError::ZeroWidth);
    }
    if height == 0 {
        return Err(EncodeError::ZeroHeight);
    }
    let channels: u128 = match plane {
        Plane::Gray => 1,
        Plane::Rgba => 4,
    };
    proof {
        lemma_size(width as int, channels as int, height as int);
    }
    let row: u128 = width as u128 * channels;
    let size: u128 = row * height as u128;
    let len: usize = pixels.len();
    let most: u128 = usize::MAX as u128;
    if row >= most || size > most || (len as u128 == size && size + height as u128 > most) {
        return Err(EncodeError::TooLarge);
    }
    match encode_png(width, height, plane, pixels) {
        Ok(file) => Ok(file),
        Err(_) => Err(EncodeError::WrongSize { expected: size as u64, actual: len as u64 }),
    }
}

proof fn lemma_size(w: int, c: int, h: int)
    requires
        0 <= w <= u32::MAX,
        1 <= c <= 4,
        0 <= h <= u32::MAX,
    ensures
        0 <= w * c <= 0x4_0000_0000,
        0 <= w * c * h <= 0x4_0000_0000_0000_0000,
{
    assert(0 <= w * c <= 0x4_0000_0000) by (nonlinear_arith)
        requires
            0 <= w <= 0xffff_ffff,
            1 <= c <= 4,
    ;
    let p = w * c;
    assert(0 <= p * h <= 0x4_0000_0000_0000_0000) by (nonlinear_arith)
        requires
            0 <= p <= 0x4_0000_0000,
            0 <= h <= 0xffff_ffff,
    ;
}

/// Reads a PNG file. One that `encode` wrote reads back as the picture it
/// was written from, where a row of it is short of 64 MiB.
pub fn decode(file: &[u8]) -> (r: Option<PngImage>)
    ensures
        match r {
            Some(image) => png_read(file@) == Some(image@),
            None => png_read(file@) matches Some(p) ==> p.pixels.len() > isize::MAX,
        },
{
    match decode_png(file) {
        Ok(image) => Some(image),
        Err(_) => None,
    }
}

/// A mask is never refused for its shape: it has as many pixels as its
/// dimensions call for.
pub proof fn every_mask_can_be_encoded(mask: crate::mask::MaskState)
    requires
        mask.wf(),
        0 < mask.width,
        0 < mask.height,
        mask.pixels.len() + mask.height <= isize::MAX,
    ensures
        encode_fault(mask.width, mask.height, Plane::Gray, mask.pixels.len() as int) is None,
{
    assert(mask.width * 1 == mask.width);
    assert(mask.width <= mask.width * mask.height) by (nonlinear_arith)
        requires
            mask.height > 0,
            mask.width > 0,
    ;
}

/// A picture is refused for what is wrong with it, and for nothing else: a side
/// of 0, bytes missing or to spare, or more of them than the machine can count.
pub proof fn a_picture_is_refused_for_its_fault(width: u32, height: u32, plane: Plane, len: int)
    requires
        0 <= len,
    ensures
        ({
            let bytes = match plane {
                Plane::Gray => 1int,
                Plane::Rgba => 4,
            };
            let size = width * bytes * height;
            let fault = encode_fault(width, height, plane, len);
            &&& width == 0 ==> fault == Some(EncodeError::ZeroWidth)
            &&& width > 0 && height == 0 ==> fault == Some(EncodeError::ZeroHeight)
            &&& width > 0 && height > 0 && size + height <= isize::MAX ==> {
                &&& fault is None <==> len == size
                &&& len != size && len <= u64::MAX ==> fault == Some(
                    EncodeError::WrongSize { expected: size as u64, actual: len as u64 },
                )
            }
        }),
{
    let bytes = plane.channels();
    let row = width * bytes;
    if width > 0 && height > 0 {
        assert(row <= row * height) by (nonlinear_arith)
            requires
                row >= 0,
                height >= 1,
        ;
    }
}

} // verus!
