use msts_ace::channel::{parse_channel, parse_channels};
use msts_ace::header::{is_power_of_two, parse_header};
use msts_ace::{
    AceChannel, AceChannelId, AceFormatOptions, AceHeader, AceSurfaceFormat, ByteCursor,
    FormatViolation, ParseFailure,
};

fn header_bytes(options: i32, width: u32, height: u32, format: i32, channels: i32) -> Vec<u8> {
    let mut buf = vec![0xAA; 4];
    buf.extend_from_slice(&options.to_le_bytes());
    buf.extend_from_slice(&width.to_le_bytes());
    buf.extend_from_slice(&height.to_le_bytes());
    buf.extend_from_slice(&format.to_le_bytes());
    buf.extend_from_slice(&channels.to_le_bytes());
    buf.extend_from_slice(&[0xBB; 128]);
    buf
}

fn header(bits: i32, width: u32, height: u32, code: i32) -> AceHeader {
    AceHeader {
        options: AceFormatOptions { bits },
        width,
        height,
        surface_format_code: code,
        channel_count: 0,
    }
}

#[test]
fn channel_ids_resolve_from_their_codes() {
    assert_eq!(AceChannelId::from_raw(2), Some(AceChannelId::Mask));
    assert_eq!(AceChannelId::from_raw(3), Some(AceChannelId::Red));
    assert_eq!(AceChannelId::from_raw(4), Some(AceChannelId::Green));
    assert_eq!(AceChannelId::from_raw(5), Some(AceChannelId::Blue));
    assert_eq!(AceChannelId::from_raw(6), Some(AceChannelId::Alpha));
    for code in [i32::MIN, -1, 0, 1, 7, 99, i32::MAX] {
        assert_eq!(AceChannelId::from_raw(code), None);
    }
}

#[test]
fn channel_ids_map_to_fixed_components() {
    assert_eq!(AceChannelId::Red.get_pixel_idx(), 0);
    assert_eq!(AceChannelId::Green.get_pixel_idx(), 1);
    assert_eq!(AceChannelId::Blue.get_pixel_idx(), 2);
    assert_eq!(AceChannelId::Mask.get_pixel_idx(), 3);
    assert_eq!(AceChannelId::Alpha.get_pixel_idx(), 3);
}

#[test]
fn surface_formats_resolve_from_their_codes() {
    assert_eq!(AceSurfaceFormat::from_raw(0x00), Some(AceSurfaceFormat::ARGB_8888));
    assert_eq!(AceSurfaceFormat::from_raw(0x0E), Some(AceSurfaceFormat::BGR_565));
    assert_eq!(AceSurfaceFormat::from_raw(0x10), Some(AceSurfaceFormat::BGRA_5551));
    assert_eq!(AceSurfaceFormat::from_raw(0x11), Some(AceSurfaceFormat::BGRA_4444));
    assert_eq!(AceSurfaceFormat::from_raw(0x12), Some(AceSurfaceFormat::DXT_1));
    assert_eq!(AceSurfaceFormat::from_raw(0x14), Some(AceSurfaceFormat::DXT_3));
    assert_eq!(AceSurfaceFormat::from_raw(0x16), Some(AceSurfaceFormat::DXT_5));
    for code in [i32::MIN, -1, 1, 0x0D, 0x0F, 0x13, 0x15, 0x17, 0xFF, i32::MAX] {
        assert_eq!(AceSurfaceFormat::from_raw(code), None);
    }
}

#[test]
fn option_flags_are_single_bits() {
    let none = AceFormatOptions { bits: 0 };
    assert!(!none.has_mip_maps() && !none.has_raw_data());
    let mips = AceFormatOptions { bits: 0x01 };
    assert!(mips.has_mip_maps() && !mips.has_raw_data());
    let raw = AceFormatOptions { bits: 0x10 };
    assert!(!raw.has_mip_maps() && raw.has_raw_data());
    let both = AceFormatOptions { bits: 0x11 };
    assert!(both.has_mip_maps() && both.has_raw_data());
    let others = AceFormatOptions { bits: !0x11 };
    assert!(!others.has_mip_maps() && !others.has_raw_data());
    let all = AceFormatOptions { bits: -1 };
    assert!(all.has_mip_maps() && all.has_raw_data());
}

#[test]
fn powers_of_two_are_told_apart() {
    for e in 0..32 {
        assert!(is_power_of_two(1u32 << e));
    }
    for n in [0u32, 3, 5, 6, 7, 9, 100, 0x8000_0001, 0xFFFF_FFFF] {
        assert!(!is_power_of_two(n));
    }
}

#[test]
fn mip_count_is_one_more_than_the_logarithm() {
    assert_eq!(header(0x01, 1, 1, 0).mip_count(), 1);
    assert_eq!(header(0x01, 2, 2, 0).mip_count(), 2);
    assert_eq!(header(0x01, 4, 4, 0).mip_count(), 3);
    assert_eq!(header(0x01, 256, 256, 0).mip_count(), 9);
    assert_eq!(header(0x01, 0x4000_0000, 0x4000_0000, 0).mip_count(), 31);
    assert_eq!(header(0x11, 1024, 1024, 0x12).mip_count(), 11);
}

#[test]
fn mip_count_is_one_without_mip_maps() {
    assert_eq!(header(0, 256, 256, 0).mip_count(), 1);
    assert_eq!(header(0x10, 1024, 8, 0x12).mip_count(), 1);
}

#[test]
fn header_check_names_the_first_violation() {
    assert_eq!(header(0, 3, 5, 0xFF).check(), None);
    assert_eq!(
        header(0x01, 3, 5, 0).check(),
        Some(FormatViolation::NotSquare { width: 3, height: 5 })
    );
    assert_eq!(
        header(0x01, 6, 6, 0).check(),
        Some(FormatViolation::NotPowerOfTwo { side: 6 })
    );
    assert_eq!(
        header(0x10, 3, 5, 0xFF).check(),
        Some(FormatViolation::UnknownSurfaceFormat { code: 0xFF })
    );
    assert_eq!(
        header(0x11, 3, 5, 0xFF).check(),
        Some(FormatViolation::NotSquare { width: 3, height: 5 })
    );
    assert_eq!(header(0x11, 8, 8, 0x16).check(), None);
    assert_eq!(header(0x10, 3, 5, 0x00).check(), None);
    assert_eq!(header(0x01, 0x4000_0000, 0x4000_0000, 0).check(), None);
    assert_eq!(
        header(0x01, 0x8000_0000, 0x8000_0000, 0).check(),
        Some(FormatViolation::NotPowerOfTwo { side: 0x8000_0000 })
    );
    assert_eq!(header(0, 0x8000_0000, 0x8000_0000, 0).check(), None);
}

#[test]
fn header_format_is_implied_without_the_raw_flag() {
    assert_eq!(header(0, 4, 4, 0x12).format(), Some(AceSurfaceFormat::ARGB_8888));
    assert_eq!(header(0x10, 4, 4, 0x12).format(), Some(AceSurfaceFormat::DXT_1));
    assert_eq!(header(0x10, 4, 4, 0x11).format(), Some(AceSurfaceFormat::BGRA_4444));
    assert_eq!(header(0x10, 4, 4, 0xFF).format(), None);
    assert_eq!(header(0x10, 4, 4, 0x00).format(), Some(AceSurfaceFormat::ARGB_8888));
    assert_eq!(header(0, 4, 4, 0xFF).format(), Some(AceSurfaceFormat::ARGB_8888));
}

#[test]
fn header_parses_its_five_fields() {
    let buf = header_bytes(0x11, 64, 64, 0x14, 3);
    let mut cursor = ByteCursor::new(&buf);
    let h = parse_header(&mut cursor).unwrap();
    assert_eq!(
        h,
        AceHeader {
            options: AceFormatOptions { bits: 0x11 },
            width: 64,
            height: 64,
            surface_format_code: 0x14,
            channel_count: 3,
        }
    );
    assert_eq!(cursor.position(), 152);
}

#[test]
fn header_is_parsed_at_the_cursor() {
    let mut buf = vec![7, 7];
    buf.extend_from_slice(&header_bytes(0, 0xFFFF_FFFF, 2, -1, -1));
    let mut cursor = ByteCursor::new(&buf);
    cursor.read_bytes(2).unwrap();
    let h = parse_header(&mut cursor).unwrap();
    assert_eq!((h.width, h.height), (0xFFFF_FFFF, 2));
    assert_eq!((h.surface_format_code, h.channel_count), (-1, -1));
    assert_eq!(cursor.position(), 154);
}

#[test]
fn short_header_ends_unexpectedly() {
    let buf = header_bytes(0, 4, 4, 0, 0);
    for cut in 0..152 {
        let mut cursor = ByteCursor::new(&buf[..cut]);
        let err = parse_header(&mut cursor).unwrap_err();
        assert_eq!(err.failure(), ParseFailure::UnexpectedEnd);
    }
}

#[test]
fn channel_entry_parses_size_and_type() {
    let mut buf = 1u64.to_le_bytes().to_vec();
    buf.extend_from_slice(&6u64.to_le_bytes());
    let mut cursor = ByteCursor::new(&buf);
    let channel = parse_channel(&mut cursor).unwrap();
    assert_eq!(channel, AceChannel { size: 1, id: AceChannelId::Alpha });
    assert!(channel.is_packed());
    assert_eq!(cursor.position(), 16);
}

#[test]
fn channel_entry_rejects_other_sizes() {
    for size in [0u64, 2, 3, 7, 9, 16, 0x1_0000_0001, u64::MAX] {
        let mut buf = size.to_le_bytes().to_vec();
        buf.extend_from_slice(&3u64.to_le_bytes());
        let mut cursor = ByteCursor::new(&buf);
        let err = parse_channel(&mut cursor).unwrap_err();
        assert_eq!(
            err.failure(),
            ParseFailure::InvalidFormat(FormatViolation::ChannelSize { bits: size })
        );
    }
}

#[test]
fn channel_entry_rejects_other_types() {
    for type_code in [0u64, 1, 7, 99, 0x1_0000_0003, u64::MAX] {
        let mut buf = 8u64.to_le_bytes().to_vec();
        buf.extend_from_slice(&type_code.to_le_bytes());
        let mut cursor = ByteCursor::new(&buf);
        let err = parse_channel(&mut cursor).unwrap_err();
        assert_eq!(
            err.failure(),
            ParseFailure::InvalidFormat(FormatViolation::ChannelType { type_code })
        );
    }
}

#[test]
fn channel_table_keeps_file_order() {
    let mut buf = Vec::new();
    for (size, type_code) in [(8u64, 5u64), (1, 2), (8, 3), (8, 3)] {
        buf.extend_from_slice(&size.to_le_bytes());
        buf.extend_from_slice(&type_code.to_le_bytes());
    }
    let mut cursor = ByteCursor::new(&buf);
    let channels = parse_channels(&mut cursor, 4).unwrap();
    assert_eq!(
        channels,
        vec![
            AceChannel { size: 8, id: AceChannelId::Blue },
            AceChannel { size: 1, id: AceChannelId::Mask },
            AceChannel { size: 8, id: AceChannelId::Red },
            AceChannel { size: 8, id: AceChannelId::Red },
        ]
    );
    assert_eq!(cursor.position(), 64);

    let mut cursor = ByteCursor::new(&buf);
    assert_eq!(parse_channels(&mut cursor, 2).unwrap().len(), 2);
    assert_eq!(cursor.position(), 32);

    let mut cursor = ByteCursor::new(&buf);
    let err = parse_channels(&mut cursor, 5).unwrap_err();
    assert_eq!(err.failure(), ParseFailure::UnexpectedEnd);
}

#[test]
fn channel_table_of_no_entries_reads_nothing() {
    let buf = [0u8; 3];
    for count in [0, -1, i32::MIN] {
        let mut cursor = ByteCursor::new(&buf);
        assert!(parse_channels(&mut cursor, count).unwrap().is_empty());
        assert_eq!(cursor.position(), 0);
    }
}

#[test]
fn channel_table_fails_at_its_first_bad_entry() {
    let mut buf = Vec::new();
    for (size, type_code) in [(8u64, 5u64), (8, 42), (3, 3)] {
        buf.extend_from_slice(&size.to_le_bytes());
        buf.extend_from_slice(&type_code.to_le_bytes());
    }
    let mut cursor = ByteCursor::new(&buf);
    let err = parse_channels(&mut cursor, 3).unwrap_err();
    assert_eq!(
        err.failure(),
        ParseFailure::InvalidFormat(FormatViolation::ChannelType { type_code: 42 })
    );
}
