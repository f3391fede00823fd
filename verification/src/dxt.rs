//! Block-compressed raw surfaces. The DXT block decompression itself is the
//! work of the `image` crate; this module states what is relied on of it and
//! decides everything around the call.

use vstd::prelude::*;
use std::io::Cursor;
use image::codecs::dxt::{DXTVariant, DxtDecoder};
use image::{DynamicImage, ImageError};
use crate::bitmap::{Image, ImageView};
use crate::cursor::{ByteCursor, le_i32};
use crate::error::{AceParseError, FormatViolation, ParseFailure};
use crate::header::AceHeader;
use crate::surface::AceSurfaceFormat;

verus! {

/// The error type of the `image` crate, carried through as an opaque value.
#[verifier::external_type_specification]
#[verifier::external_body]
pub struct ExImageError(ImageError);

/// The three DXT block encodings.
#[derive(Debug, Copy, Clone, PartialEq, Eq, Structural)]
pub enum DxtVariant {
    Dxt1,
    Dxt3,
    Dxt5,
}

impl DxtVariant {
    /// The number in the variant's name.
    pub open spec fn number(self) -> int {
        match self {
            DxtVariant::Dxt1 => 1,
            DxtVariant::Dxt3 => 3,
            DxtVariant::Dxt5 => 5,
        }
    }
}

impl AceSurfaceFormat {
    /// The block encoding of a block-compressed format.
    pub open spec fn dxt_variant(self) -> Option<DxtVariant> {
        match self {
            AceSurfaceFormat::DXT_1 => Some(DxtVariant::Dxt1),
            AceSurfaceFormat::DXT_3 => Some(DxtVariant::Dxt3),
            AceSurfaceFormat::DXT_5 => Some(DxtVariant::Dxt5),
            _ => None,
        }
    }

    /// The block encoding of a block-compressed format, `None` for the others.
    pub fn block_encoding(&self) -> (v: Option<DxtVariant>)
        ensures
            v == self.dxt_variant(),
    {
        match self {
            AceSurfaceFormat::DXT_1 => Some(DxtVariant::Dxt1),
            AceSurfaceFormat::DXT_3 => Some(DxtVariant::Dxt3),
            AceSurfaceFormat::DXT_5 => Some(DxtVariant::Dxt5),
            _ => None,
        }
    }
}

/// The RGBA8 pixels that the `image` crate decodes from a DXT block stream
/// for an image of the given dimensions and variant (1, 3 or 5), or `None`
/// where it reports an error.
pub uninterp spec fn dxt_decoded(blocks: Seq<u8>, width: int, height: int, variant: int) -> Option<
    Seq<u8>,
>;

/// Runs `image::codecs::dxt::DxtDecoder` over `blocks` through
/// `DynamicImage::from_decoder` and takes the pixels of `to_rgba8`.
///
/// Nothing is proved of this function. Its contract claims of the `image`
/// crate that the outcome depends on the arguments alone, and that a
/// successful decode yields four bytes for each pixel. The decoder refuses
/// dimensions that are no multiples of four with an error; of those it
/// accepts, the ones ruled out here are those on which it may not return:
/// a zero width or height, where it may be asked for chunks of no length,
/// and a pixel buffer beyond the largest allocation.
#[verifier::external_body]
fn decode_dxt(blocks: &[u8], width: u32, height: u32, variant: DxtVariant) -> (r: Result<
    Vec<u8>,
    ImageError,
>)
    requires
        width % 4 == 0 && height % 4 == 0 ==> width > 0 && height > 0 && 4 * (width * height)
            <= isize::MAX,
    ensures
        match r {
            Ok(pixels) => {
                &&& dxt_decoded(blocks@, width as int, height as int, variant.number()) == Some(
                    pixels@,
                )
                &&& pixels@.len() == 4 * (width * height)
            },
            Err(_) => dxt_decoded(blocks@, width as int, height as int, variant.number()) is None,
        },
{
    let variant = match variant {
        DxtVariant::Dxt1 => DXTVariant::DXT1,
        DxtVariant::Dxt3 => DXTVariant::DXT3,
        DxtVariant::Dxt5 => DXTVariant::DXT5,
    };
    let decoder = DxtDecoder::new(Cursor::new(blocks), width, height, variant)?;
    Ok(DynamicImage::from_decoder(decoder)?.to_rgba8().into_raw())
}

/// Turns the outcome of a block decompression into the outcome of the
/// decode: the pixels become the image, a failure is passed on with its cause.
pub fn image_from_decoded(width: u32, height: u32, decoded: Result<Vec<u8>, ImageError>) -> (r:
    Result<Image, AceParseError>)
    requires
        decoded matches Ok(pixels) ==> pixels@.len() == 4 * (width * height),
    ensures
        match decoded {
            Ok(pixels) => r matches Ok(img) && img@ == (ImageView {
                width,
                height,
                pixels: pixels@,
            }),
            Err(cause) => r matches Err(AceParseError::DecodeError(passed)) && passed == cause,
        },
{
    match decoded {
        Ok(pixels) => Ok(Image::from_raw(width, height, pixels).unwrap()),
        Err(cause) => Err(AceParseError::from(cause)),
    }
}

/// What a block stream of the given format comes to. Only the DXT formats
/// are decoded. An image too large to hold is rejected before the decoder is
/// asked; an image on the block grid that has no width or no height has no
/// blocks and no pixels.
pub open spec fn surface_from_blocks(
    format: AceSurfaceFormat,
    blocks: Seq<u8>,
    width: u32,
    height: u32,
) -> Result<ImageView, ParseFailure> {
    match format.dxt_variant() {
        None => Err(ParseFailure::Unsupported(format)),
        Some(variant) => if 4 * (width * height) > isize::MAX {
            Err(ParseFailure::InvalidFormat(FormatViolation::TooLarge { width, height }))
        } else if width % 4 == 0 && height % 4 == 0 && (width == 0 || height == 0) {
            Ok(ImageView { width, height, pixels: Seq::empty() })
        } else {
            match dxt_decoded(blocks, width as int, height as int, variant.number()) {
                Some(pixels) => Ok(ImageView { width, height, pixels }),
                None => Err(ParseFailure::DecodeError),
            }
        },
    }
}

/// Decodes a block stream of the given format into an image.
pub fn decode_blocks(format: AceSurfaceFormat, blocks: &[u8], width: u32, height: u32) -> (r:
    Result<Image, AceParseError>)
    ensures
        match r {
            Ok(img) => surface_from_blocks(format, blocks@, width, height) == Ok::<
                ImageView,
                ParseFailure,
            >(img@) && img@.well_formed(),
            Err(e) => surface_from_blocks(format, blocks@, width, height) == Err::<
                ImageView,
                ParseFailure,
            >(e@),
        },
{
    let variant = match format.block_encoding() {
        Some(variant) => variant,
        None => {
            return Err(AceParseError::Unsupported(format));
        },
    };
    assert(width * height <= 0xFFFF_FFFF * 0xFFFF_FFFF) by (nonlinear_arith)
        requires
            width <= 0xFFFF_FFFF,
            height <= 0xFFFF_FFFF,
    ;
    let area: u64 = width as u64 * height as u64;
    if area > (isize::MAX as u64) / 4 {
        return Err(AceParseError::InvalidFormat(FormatViolation::TooLarge { width, height }));
    }
    if width % 4 == 0 && height % 4 == 0 && (width == 0 || height == 0) {
        assert(width * height == 0) by (nonlinear_arith)
            requires
                width == 0 || height == 0,
        ;
        return Ok(Image::from_raw(width, height, Vec::new()).unwrap());
    }
    image_from_decoded(width, height, decode_dxt(blocks, width, height, variant))
}

/// What decoding the raw-data surface that starts at `at` comes to: behind
/// a table of one 32-bit entry per mip level stands the length of the block
/// stream of the base level, then the stream itself. The format is looked at
/// once the stream is read.
pub open spec fn raw_surface_spec(bytes: Seq<u8>, at: int, header: AceHeader) -> Result<
    ImageView,
    ParseFailure,
> {
    let length_at = at + 4 * header.mip_levels();
    let blocks_at = length_at + 4;
    if blocks_at > bytes.len() {
        Err(ParseFailure::UnexpectedEnd)
    } else if le_i32(bytes, length_at) < 0 || blocks_at + le_i32(bytes, length_at) > bytes.len() {
        Err(ParseFailure::UnexpectedEnd)
    } else {
        match header.surface_format() {
            None => Err(
                ParseFailure::InvalidFormat(
                    FormatViolation::UnknownSurfaceFormat { code: header.surface_format_code },
                ),
            ),
            Some(format) => surface_from_blocks(
                format,
                bytes.subrange(blocks_at, blocks_at + le_i32(bytes, length_at)),
                header.width,
                header.height,
            ),
        }
    }
}

/// Decodes the raw-data surface at the cursor.
pub fn decode_raw_surface(cursor: &mut ByteCursor, header: &AceHeader) -> (r: Result<
    Image,
    AceParseError,
>)
    ensures
        final(cursor).bytes() == old(cursor).bytes(),
        match r {
            Ok(img) => raw_surface_spec(
                old(cursor).bytes(),
                old(cursor).offset() as int,
                *header,
            ) == Ok::<ImageView, ParseFailure>(img@) && img@.well_formed(),
            Err(e) => raw_surface_spec(
                old(cursor).bytes(),
                old(cursor).offset() as int,
                *header,
            ) == Err::<ImageView, ParseFailure>(e@),
        },
{
    let table_len: usize = 4 * (header.mip_count() as usize);
    let _table = cursor.read_bytes(table_len)?;
    let length = cursor.read_i32()?;
    if length < 0 {
        return Err(AceParseError::UnexpectedEnd);
    }
    let blocks = cursor.read_bytes(length as usize)?;
    match header.format() {
        Some(format) => decode_blocks(format, blocks, header.width, header.height),
        None => Err(
            AceParseError::InvalidFormat(
                FormatViolation::UnknownSurfaceFormat { code: header.surface_format_code },
            ),
        ),
    }
}

} // verus!
