use image::error::{ParameterError, ParameterErrorKind};
use image::ImageError;
use msts_ace::dxt::{decode_blocks, decode_raw_surface, image_from_decoded};
use msts_ace::{
    AceFormatOptions, AceHeader, AceParseError, AceSurfaceFormat, AceTexture, ByteCursor,
    FormatViolation, ParseFailure,
};

const RAW_DATA: u32 = 0x10;
const MIP_MAPS: u32 = 0x01;

/// Colour part of a block whose sixteen pixels are all pure red.
const RED_BLOCK: [u8; 8] = [0x00, 0xF8, 0x00, 0x00, 0x00, 0x00, 0x00, 0x00];

/// A raw-data buffer: header, no channels, mip table, length-prefixed blocks.
fn raw_buffer(options: u32, width: u32, height: u32, format: u32, levels: usize, blocks: &[u8]) -> Vec<u8> {
    let mut buf = vec![0x01, 0x00, 0x00, 0x00];
    buf.extend_from_slice(&options.to_le_bytes());
    buf.extend_from_slice(&width.to_le_bytes());
    buf.extend_from_slice(&height.to_le_bytes());
    buf.extend_from_slice(&format.to_le_bytes());
    buf.extend_from_slice(&0u32.to_le_bytes());
    buf.extend_from_slice(&[0u8; 128]);
    buf.extend(std::iter::repeat(0x55).take(4 * levels));
    buf.extend_from_slice(&(blocks.len() as u32).to_le_bytes());
    buf.extend_from_slice(blocks);
    buf
}

fn pixels_of(colour: [u8; 4], count: usize) -> Vec<u8> {
    colour.iter().copied().cycle().take(4 * count).collect()
}

#[test]
fn dxt1_block_decodes_to_opaque_pixels() {
    let buf = raw_buffer(RAW_DATA, 4, 4, 0x12, 1, &RED_BLOCK);
    let img = AceTexture::from_data(&buf).unwrap();
    assert_eq!((img.width(), img.height()), (4, 4));
    assert_eq!(img.into_raw(), pixels_of([255, 0, 0, 255], 16));
}

#[test]
fn dxt1_picks_colours_by_index() {
    // colour0 is white, colour1 is black; the first pixel takes colour1.
    let block = [0xFF, 0xFF, 0x00, 0x00, 0x01, 0x00, 0x00, 0x00];
    let img = decode_blocks(AceSurfaceFormat::DXT_1, &block, 4, 4).unwrap();
    assert_eq!(img.get_pixel(0, 0), [0, 0, 0, 255]);
    assert_eq!(img.get_pixel(1, 0), [255, 255, 255, 255]);
    assert_eq!(img.get_pixel(3, 3), [255, 255, 255, 255]);
}

#[test]
fn dxt3_block_carries_explicit_alpha() {
    let mut block = vec![0x88; 8];
    block.extend_from_slice(&RED_BLOCK);
    let buf = raw_buffer(RAW_DATA, 4, 4, 0x14, 1, &block);
    let img = AceTexture::from_data(&buf).unwrap();
    assert_eq!(img.into_raw(), pixels_of([255, 0, 0, 0x88], 16));
}

#[test]
fn dxt5_block_carries_interpolated_alpha() {
    let mut block = vec![200, 100, 0, 0, 0, 0, 0, 0];
    block.extend_from_slice(&RED_BLOCK);
    let buf = raw_buffer(RAW_DATA, 4, 4, 0x16, 1, &block);
    let img = AceTexture::from_data(&buf).unwrap();
    assert_eq!(img.into_raw(), pixels_of([255, 0, 0, 200], 16));
}

#[test]
fn blocks_are_laid_out_row_by_row() {
    let green_block = [0xE0, 0x07, 0x00, 0x00, 0x00, 0x00, 0x00, 0x00];
    let mut blocks = RED_BLOCK.to_vec();
    blocks.extend_from_slice(&green_block);
    let img = decode_blocks(AceSurfaceFormat::DXT_1, &blocks, 8, 4).unwrap();
    for y in 0..4 {
        for x in 0..8 {
            let expected = if x < 4 { [255, 0, 0, 255] } else { [0, 255, 0, 255] };
            assert_eq!(img.get_pixel(x, y), expected);
        }
    }
}

#[test]
fn mip_mapped_raw_surface_skips_one_entry_per_level() {
    // A 4x4 image has three levels.
    let buf = raw_buffer(RAW_DATA | MIP_MAPS, 4, 4, 0x12, 3, &RED_BLOCK);
    let img = AceTexture::from_data(&buf).unwrap();
    assert_eq!(img.into_raw(), pixels_of([255, 0, 0, 255], 16));
    let short = raw_buffer(RAW_DATA | MIP_MAPS, 4, 4, 0x12, 2, &RED_BLOCK);
    assert!(AceTexture::from_data(&short).is_err());
}

#[test]
fn blocks_behind_the_stream_are_not_needed() {
    let mut blocks = RED_BLOCK.to_vec();
    blocks.extend_from_slice(&[1, 2, 3]);
    let img = decode_blocks(AceSurfaceFormat::DXT_1, &blocks, 4, 4).unwrap();
    assert_eq!(img.into_raw(), pixels_of([255, 0, 0, 255], 16));
}

#[test]
fn short_block_stream_is_a_decode_error() {
    let buf = raw_buffer(RAW_DATA, 4, 4, 0x12, 1, &RED_BLOCK[..7]);
    let err = AceTexture::from_data(&buf).unwrap_err();
    assert!(matches!(err, AceParseError::DecodeError(ImageError::IoError(_))));
    assert_eq!(err.failure(), ParseFailure::DecodeError);
}

#[test]
fn dimensions_off_the_block_grid_are_a_decode_error() {
    let buf = raw_buffer(RAW_DATA, 5, 4, 0x12, 1, &[0; 64]);
    let err = AceTexture::from_data(&buf).unwrap_err();
    assert!(matches!(err, AceParseError::DecodeError(ImageError::Parameter(_))));
    let err = decode_blocks(AceSurfaceFormat::DXT_5, &[0; 64], 0, 6).unwrap_err();
    assert_eq!(err.failure(), ParseFailure::DecodeError);
}

#[test]
fn image_without_width_has_no_blocks() {
    let buf = raw_buffer(RAW_DATA, 0, 8, 0x14, 1, &[]);
    let img = AceTexture::from_data(&buf).unwrap();
    assert_eq!((img.width(), img.height()), (0, 8));
    assert!(img.as_raw().is_empty());
}

#[test]
fn image_without_height_has_no_blocks() {
    let img = decode_blocks(AceSurfaceFormat::DXT_1, &[], 8, 0).unwrap();
    assert_eq!((img.width(), img.height()), (8, 0));
    assert!(img.as_raw().is_empty());
    let img = decode_blocks(AceSurfaceFormat::DXT_3, &[1, 2, 3], 0x1000_0000, 0).unwrap();
    assert_eq!((img.width(), img.height()), (0x1000_0000, 0));
    assert!(img.as_raw().is_empty());
    let img = decode_blocks(AceSurfaceFormat::DXT_1, &[], 0x4000_0000, 0).unwrap();
    assert_eq!((img.width(), img.height()), (0x4000_0000, 0));
    let img = decode_blocks(AceSurfaceFormat::DXT_5, &[], 0, 0).unwrap();
    assert_eq!((img.width(), img.height()), (0, 0));
    let buf = raw_buffer(RAW_DATA, 16, 0, 0x16, 1, &[]);
    let img = AceTexture::from_data(&buf).unwrap();
    assert_eq!((img.width(), img.height()), (16, 0));
    assert!(img.as_raw().is_empty());
}

#[test]
fn empty_image_off_the_block_grid_is_a_decode_error() {
    for (width, height) in [(6, 0), (0, 6), (0, 1), (3, 0)] {
        let err = decode_blocks(AceSurfaceFormat::DXT_1, &[], width, height).unwrap_err();
        assert!(matches!(err, AceParseError::DecodeError(ImageError::Parameter(_))));
    }
}

#[test]
fn image_too_large_to_hold_is_invalid() {
    let buf = raw_buffer(RAW_DATA, 0x8000_0000, 0x8000_0000, 0x12, 1, &[]);
    let err = AceTexture::from_data(&buf).unwrap_err();
    assert_eq!(
        err.failure(),
        ParseFailure::InvalidFormat(FormatViolation::TooLarge {
            width: 0x8000_0000,
            height: 0x8000_0000
        })
    );
}

#[test]
fn other_raw_formats_are_unsupported() {
    for (code, format) in [
        (0x00, AceSurfaceFormat::ARGB_8888),
        (0x0E, AceSurfaceFormat::BGR_565),
        (0x10, AceSurfaceFormat::BGRA_5551),
        (0x11, AceSurfaceFormat::BGRA_4444),
    ] {
        let buf = raw_buffer(RAW_DATA, 4, 4, code, 1, &[0; 32]);
        let err = AceTexture::from_data(&buf).unwrap_err();
        assert!(matches!(err, AceParseError::Unsupported(f) if f == format));
        assert_eq!(err.failure(), ParseFailure::Unsupported(format));
    }
    let err = decode_blocks(AceSurfaceFormat::ARGB_8888, &[0; 64], 4, 4).unwrap_err();
    assert_eq!(err.failure(), ParseFailure::Unsupported(AceSurfaceFormat::ARGB_8888));
}

#[test]
fn unsupported_format_is_found_after_the_stream_is_read() {
    let buf = raw_buffer(RAW_DATA, 4, 4, 0x0E, 1, &[0; 32]);
    let err = AceTexture::from_data(&buf[..buf.len() - 1]).unwrap_err();
    assert_eq!(err.failure(), ParseFailure::UnexpectedEnd);
}

#[test]
fn unknown_surface_format_is_invalid() {
    for code in [0xFFu32, 0x01, 0x13, 0xFFFF_FFFF] {
        let buf = raw_buffer(RAW_DATA, 4, 4, code, 1, &RED_BLOCK);
        let err = AceTexture::from_data(&buf).unwrap_err();
        assert_eq!(
            err.failure(),
            ParseFailure::InvalidFormat(FormatViolation::UnknownSurfaceFormat {
                code: code as i32
            })
        );
    }
    let buf = raw_buffer(RAW_DATA, 4, 4, 0xFF, 1, &RED_BLOCK);
    match AceTexture::from_data(&buf).unwrap_err() {
        AceParseError::InvalidFormat(v) => {
            assert_eq!(v.message(), "unsupported surface format 0x000000FF")
        }
        other => panic!("{:?}", other),
    }
}

#[test]
fn surface_format_code_is_not_read_without_the_raw_flag() {
    let mut buf = raw_buffer(0, 1, 1, 0xFF, 1, &[]);
    buf.truncate(152);
    buf.extend_from_slice(&[0; 4]);
    let img = AceTexture::from_data(&buf).unwrap();
    assert_eq!(img.as_raw(), &[255, 255, 255, 255]);
}

#[test]
fn negative_stream_length_ends_unexpectedly() {
    let mut buf = raw_buffer(RAW_DATA, 4, 4, 0x12, 1, &RED_BLOCK);
    buf[156..160].copy_from_slice(&(-1i32).to_le_bytes());
    let err = AceTexture::from_data(&buf).unwrap_err();
    assert_eq!(err.failure(), ParseFailure::UnexpectedEnd);
}

#[test]
fn every_truncation_of_a_raw_surface_ends_unexpectedly() {
    let buf = raw_buffer(RAW_DATA, 4, 4, 0x12, 1, &RED_BLOCK);
    for cut in 0..buf.len() {
        let err = AceTexture::from_data(&buf[..cut]).unwrap_err();
        assert_eq!(err.failure(), ParseFailure::UnexpectedEnd, "cut at {}", cut);
    }
}

#[test]
fn raw_surface_is_decoded_at_the_cursor() {
    let mut data = vec![9, 9, 9];
    data.extend_from_slice(&[0; 4]);
    data.extend_from_slice(&8u32.to_le_bytes());
    data.extend_from_slice(&RED_BLOCK);
    let header = AceHeader {
        options: AceFormatOptions { bits: 0x10 },
        width: 4,
        height: 4,
        surface_format_code: 0x12,
        channel_count: 0,
    };
    let mut cursor = ByteCursor::new(&data);
    cursor.read_bytes(3).unwrap();
    let img = decode_raw_surface(&mut cursor, &header).unwrap();
    assert_eq!(img.into_raw(), pixels_of([255, 0, 0, 255], 16));
    assert_eq!(cursor.remaining(), 0);
}

#[test]
fn decoded_pixels_become_the_image() {
    let img = image_from_decoded(1, 2, Ok(vec![1, 2, 3, 4, 5, 6, 7, 8])).unwrap();
    assert_eq!((img.width(), img.height()), (1, 2));
    assert_eq!(img.get_pixel(0, 1), [5, 6, 7, 8]);
}

#[test]
fn failed_decompression_is_passed_on_with_its_cause() {
    let cause = ImageError::Parameter(ParameterError::from_kind(
        ParameterErrorKind::DimensionMismatch,
    ));
    let err = image_from_decoded(4, 4, Err(cause)).unwrap_err();
    match err {
        AceParseError::DecodeError(ImageError::Parameter(p)) => {
            assert!(matches!(p.kind(), ParameterErrorKind::DimensionMismatch))
        }
        other => panic!("{:?}", other),
    }
}

#[test]
fn decode_cause_converts_into_a_decode_error() {
    let cause = ImageError::Parameter(ParameterError::from_kind(
        ParameterErrorKind::DimensionMismatch,
    ));
    let err: AceParseError = cause.into();
    assert!(matches!(err, AceParseError::DecodeError(ImageError::Parameter(_))));
    assert_eq!(err.failure(), ParseFailure::DecodeError);
}

#[test]
fn raw_surface_of_unknown_format_is_invalid() {
    let mut data = vec![0; 4];
    data.extend_from_slice(&8u32.to_le_bytes());
    data.extend_from_slice(&RED_BLOCK);
    let header = AceHeader {
        options: AceFormatOptions { bits: 0x10 },
        width: 4,
        height: 4,
        surface_format_code: 0x13,
        channel_count: 0,
    };
    let mut cursor = ByteCursor::new(&data);
    let err = decode_raw_surface(&mut cursor, &header).unwrap_err();
    assert_eq!(
        err.failure(),
        ParseFailure::InvalidFormat(FormatViolation::UnknownSurfaceFormat { code: 0x13 })
    );
}
