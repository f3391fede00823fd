//! What holds of every decode, proved from the contracts of the decoder.

use vstd::prelude::*;
use vstd::arithmetic::logarithm::lemma_log_nonnegative;
use vstd::arithmetic::power2::is_pow2;
use crate::bitmap::{lemma_pixel_in_bounds, ImageView};
use crate::channel::{
    channel_entry, channel_table, lemma_channel_table_failure, AceChannel, AceChannelId,
};
use crate::cursor::{le_i32, le_u32, le_u64};
use crate::dxt::raw_surface_spec;
use crate::error::{FormatViolation, ParseFailure};
use crate::header::{parse_header_spec, stored_dimension, AceHeader};
use crate::planes::{
    channel_surface_spec,    decoded_byte, decoded_component, lemma_byte_position, lemma_next_channel,
    lemma_scanline_len_prefix, lemma_scanline_tables_len_grows, plane_sample, scanline_len,
    scanline_tables_len, supplier,
};
use crate::surface::AceSurfaceFormat;
use crate::texture::ace_decode;

verus! {

/// The header fields of a buffer.
pub open spec fn header_of(bytes: Seq<u8>) -> AceHeader {
    AceHeader::read_at(bytes, 0)
}

/// The channels of a buffer whose header and channel table parse.
pub open spec fn channels_of(bytes: Seq<u8>) -> Seq<AceChannel> {
    channel_table(bytes, 152, header_of(bytes).channel_entries()).unwrap()
}

/// Where the surface of a buffer starts: behind the channel table.
pub open spec fn surface_start(bytes: Seq<u8>) -> int {
    152 + 16 * (header_of(bytes).channel_entries() as int)
}

/// Where the channel planes of a channel-plane surface start: behind the
/// scanline-offset tables.
pub open spec fn planes_start(bytes: Seq<u8>) -> int {
    surface_start(bytes) + scanline_tables_len(
        header_of(bytes).height as int,
        header_of(bytes).mip_levels() as nat,
    )
}

/// A table that parses has as many channels as entries, each 1 or 8 bits wide.
pub proof fn lemma_channel_table_parsed(bytes: Seq<u8>, at: int, count: nat)
    requires
        channel_table(bytes, at, count) is Ok,
    ensures
        channel_table(bytes, at, count).unwrap().len() == count,
        forall|k: int|
            0 <= k < count ==> (#[trigger] channel_table(bytes, at, count).unwrap()[k]).valid(),
        forall|k: int|
            0 <= k < count ==> channel_entry(bytes, at + 16 * k) == Ok::<
                AceChannel,
                ParseFailure,
            >(#[trigger] channel_table(bytes, at, count).unwrap()[k]),
    decreases count,
{
    if count > 0 {
        lemma_channel_table_parsed(bytes, at, (count - 1) as nat);
    }
}

/// A component that no channel of the table writes has no supplier.
pub proof fn lemma_no_supplier(channels: Seq<AceChannel>, c: int)
    requires
        forall|k: int| 0 <= k < channels.len() ==> (#[trigger] channels[k]).id.component() != c,
    ensures
        supplier(channels, c) is None,
    decreases channels.len(),
{
    if channels.len() > 0 {
        lemma_no_supplier(channels.drop_last(), c);
    }
}

/// The supplier of a component is a channel of the table that writes to it,
/// and no later channel does.
pub proof fn lemma_supplier_is_last(channels: Seq<AceChannel>, c: int)
    requires
        supplier(channels, c) is Some,
    ensures
        0 <= supplier(channels, c).unwrap() < channels.len(),
        channels[supplier(channels, c).unwrap()].id.component() == c,
        forall|k: int|
            supplier(channels, c).unwrap() < k < channels.len() ==> (
            #[trigger] channels[k]).id.component() != c,
    decreases channels.len(),
{
    if channels.len() > 0 && channels.last().id.component() != c {
        let front = channels.drop_last();
        lemma_supplier_is_last(front, c);
        assert forall|k: int| supplier(channels, c).unwrap() < k < channels.len() implies (
        #[trigger] channels[k]).id.component() != c by {
            if k < front.len() {
                assert(front[k] == channels[k]);
            }
        }
    }
}

/// A sample of a 1-bit plane is `0x00` or `0xFF`, never a value between.
pub proof fn lemma_packed_sample_is_binary(plane: Seq<u8>, x: int)
    ensures
        plane_sample(plane, true, x) == 0x00 || plane_sample(plane, true, x) == 0xFF,
{
}

/// Every component of every pixel of a decoded channel-plane surface is the
/// component that the planes hold for it.
pub proof fn lemma_decoded_component(bytes: Seq<u8>, x: int, y: int, c: int)
    requires
        ace_decode(bytes) is Ok,
        !header_of(bytes).options.raw_data(),
        0 <= x < header_of(bytes).width,
        0 <= y < header_of(bytes).height,
        0 <= c < 4,
    ensures
        ace_decode(bytes).unwrap().width == header_of(bytes).width,
        ace_decode(bytes).unwrap().height == header_of(bytes).height,
        ace_decode(bytes).unwrap().well_formed(),
        ace_decode(bytes).unwrap().component(x, y, c) == decoded_component(
            bytes,
            planes_start(bytes),
            channels_of(bytes),
            header_of(bytes).width as int,
            x,
            y,
            c,
        ),
{
    let header = header_of(bytes);
    let width = header.width as int;
    let height = header.height as int;
    lemma_channel_table_parsed(bytes, 152, header.channel_entries());
    lemma_pixel_in_bounds(width, height, x, y);
    let i = 4 * (y * width + x) + c;
    assert(width * y == y * width) by (nonlinear_arith);
    lemma_byte_position(width, y, i);
    assert(ace_decode(bytes).unwrap().pixels[i] == decoded_byte(
        bytes,
        planes_start(bytes),
        channels_of(bytes),
        width,
        i,
    ));
}

/// A channel after which no channel writes the same component supplies it.
pub proof fn lemma_last_writer_supplies(channels: Seq<AceChannel>, k: int)
    requires
        0 <= k < channels.len(),
        forall|j: int|
            k < j < channels.len() ==> (#[trigger] channels[j]).id.component()
                != channels[k].id.component(),
    ensures
        supplier(channels, channels[k].id.component()) == Some(k),
    decreases channels.len(),
{
    if k < channels.len() - 1 {
        let front = channels.drop_last();
        assert(front[k] == channels[k]);
        assert forall|j: int| k < j < front.len() implies (#[trigger] front[j]).id.component()
            != front[k].id.component() by {
            assert(front[j] == channels[j]);
        }
        lemma_last_writer_supplies(front, k);
    }
}

/// Where the table holds neither a Mask nor an Alpha channel, every pixel of
/// a decoded channel-plane surface is fully opaque.
pub proof fn lemma_opaque_without_fourth_channel(bytes: Seq<u8>, x: int, y: int)
    requires
        ace_decode(bytes) is Ok,
        !header_of(bytes).options.raw_data(),
        forall|k: int|
            0 <= k < channels_of(bytes).len() ==> {
                &&& (#[trigger] channels_of(bytes)[k]).id != AceChannelId::Mask
                &&& channels_of(bytes)[k].id != AceChannelId::Alpha
            },
        0 <= x < header_of(bytes).width,
        0 <= y < header_of(bytes).height,
    ensures
        ace_decode(bytes).unwrap().component(x, y, 3) == 0xFF,
{
    lemma_decoded_component(bytes, x, y, 3);
    lemma_no_supplier(channels_of(bytes), 3);
    assert(channels_of(bytes).take(channels_of(bytes).len() as int) =~= channels_of(bytes));
}

/// A component that a 1-bit channel supplies is `0x00` or `0xFF` in every
/// pixel of the decoded image.
pub proof fn lemma_one_bit_channel_is_binary(bytes: Seq<u8>, x: int, y: int, c: int)
    requires
        ace_decode(bytes) is Ok,
        !header_of(bytes).options.raw_data(),
        0 <= x < header_of(bytes).width,
        0 <= y < header_of(bytes).height,
        0 <= c < 4,
        supplier(channels_of(bytes), c) is Some,
        channels_of(bytes)[supplier(channels_of(bytes), c).unwrap()].packed(),
    ensures
        ace_decode(bytes).unwrap().component(x, y, c) == 0x00 || ace_decode(
            bytes,
        ).unwrap().component(x, y, c) == 0xFF,
{
    lemma_decoded_component(bytes, x, y, c);
    assert(channels_of(bytes).take(channels_of(bytes).len() as int) =~= channels_of(bytes));
}

/// A channel-plane surface decodes as soon as its header and channel table
/// parse, its image can be held and the buffer holds every plane.
pub proof fn lemma_complete_channel_surface_decodes(bytes: Seq<u8>)
    requires
        parse_header_spec(bytes, 0) is Ok,
        !header_of(bytes).options.raw_data(),
        channel_table(bytes, 152, header_of(bytes).channel_entries()) is Ok,
        4 * (header_of(bytes).width * header_of(bytes).height) <= isize::MAX,
        planes_start(bytes) + header_of(bytes).height * scanline_len(
            channels_of(bytes),
            header_of(bytes).width as int,
        ) <= bytes.len(),
    ensures
        ace_decode(bytes) is Ok,
{
    let header = header_of(bytes);
    let line_len = scanline_len(channels_of(bytes), header.width as int);
    lemma_channel_table_parsed(bytes, 152, header.channel_entries());
    lemma_scanline_len_prefix(
        channels_of(bytes),
        header.width as int,
        channels_of(bytes).len() as int,
    );
    assert(0 <= header.height * line_len) by (nonlinear_arith)
        requires
            0 <= header.height,
            0 <= line_len,
    ;
}

/// The planes of a decoded channel-plane surface lie inside the buffer, one
/// scanline for each row.
pub proof fn lemma_planes_in_buffer(bytes: Seq<u8>)
    requires
        ace_decode(bytes) is Ok,
        !header_of(bytes).options.raw_data(),
    ensures
        channel_table(bytes, 152, header_of(bytes).channel_entries()) is Ok,
        surface_start(bytes) <= planes_start(bytes),
        planes_start(bytes) + header_of(bytes).height * scanline_len(
            channels_of(bytes),
            header_of(bytes).width as int,
        ) <= bytes.len(),
{
    lemma_channel_table_parsed(bytes, 152, header_of(bytes).channel_entries());
    lemma_scanline_tables_len_grows(
        header_of(bytes).height as int,
        0,
        header_of(bytes).mip_levels() as nat,
    );
}

/// Offset in the buffer of the plane of channel `k` for scanline `y`.
pub open spec fn plane_start(bytes: Seq<u8>, y: int, k: int) -> int {
    planes_start(bytes) + y * scanline_len(channels_of(bytes), header_of(bytes).width as int)
        + scanline_len(channels_of(bytes).take(k), header_of(bytes).width as int)
}

/// The plane of every channel for every scanline of a decoded channel-plane
/// surface lies inside the buffer.
pub proof fn lemma_plane_in_buffer(bytes: Seq<u8>, y: int, k: int)
    requires
        ace_decode(bytes) is Ok,
        !header_of(bytes).options.raw_data(),
        0 <= y < header_of(bytes).height,
        0 <= k < channels_of(bytes).len(),
    ensures
        152 <= plane_start(bytes, y, k),
        0 <= channels_of(bytes)[k].plane_len(header_of(bytes).width as int),
        plane_start(bytes, y, k) + channels_of(bytes)[k].plane_len(header_of(bytes).width as int)
            <= bytes.len(),
{
    let channels = channels_of(bytes);
    let width = header_of(bytes).width as int;
    let height = header_of(bytes).height as int;
    let line_len = scanline_len(channels, width);
    let before = scanline_len(channels.take(k), width);
    let plane_len = channels[k].plane_len(width);
    lemma_planes_in_buffer(bytes);
    lemma_scanline_len_prefix(channels, width, k);
    lemma_scanline_len_prefix(channels, width, k + 1);
    lemma_next_channel(channels, width, k, 0);
    assert(0 <= before && before + plane_len <= line_len);
    assert(0 <= y * line_len && y * line_len + line_len <= height * line_len)
        by (nonlinear_arith)
        requires
            0 <= y < height,
            0 <= line_len,
    ;
}

/// Decoding reproduces what the planes store. Let channel `k` be the last
/// that writes to its component. Then in every pixel of the decoded image
/// that component is the sample which the plane of `k` holds for the pixel's
/// column in the pixel's scanline: the byte itself for an 8-bit channel, and
/// `0xFF` or `0x00` for a set or clear bit of a 1-bit channel.
pub proof fn lemma_decoding_reproduces_samples(bytes: Seq<u8>, x: int, y: int, k: int)
    requires
        ace_decode(bytes) is Ok,
        !header_of(bytes).options.raw_data(),
        0 <= x < header_of(bytes).width,
        0 <= y < header_of(bytes).height,
        0 <= k < channels_of(bytes).len(),
        forall|j: int|
            k < j < channels_of(bytes).len() ==> (#[trigger] channels_of(bytes)[j]).id.component()
                != channels_of(bytes)[k].id.component(),
    ensures
        ace_decode(bytes).unwrap().component(x, y, channels_of(bytes)[k].id.component()) == (
        if channels_of(bytes)[k].packed() {
            if (bytes[plane_start(bytes, y, k) + x / 8] >> ((7 - x % 8) as u8)) & 1 == 1 {
                0xFFu8
            } else {
                0x00u8
            }
        } else {
            bytes[plane_start(bytes, y, k) + x]
        }),
{
    let channels = channels_of(bytes);
    let width = header_of(bytes).width as int;
    let c = channels[k].id.component();
    let start = plane_start(bytes, y, k);
    let plane_len = channels[k].plane_len(width);
    let plane = bytes.subrange(start, start + plane_len);
    let value = ace_decode(bytes).unwrap().component(x, y, c);
    assert(value == plane_sample(plane, channels[k].packed(), x)) by {
        lemma_decoded_component(bytes, x, y, c);
        lemma_last_writer_supplies(channels, k);
        assert(channels.take(channels.len() as int) =~= channels);
    }
    lemma_plane_in_buffer(bytes, y, k);
    if channels[k].packed() {
        assert(plane[x / 8] == bytes[start + x / 8]);
    } else {
        assert(plane[x] == bytes[start + x]);
    }
}

/// A mip-mapped image is rejected unless it is square with a side that, as
/// the field stores it, is a power of two. The fields need only be present:
/// nothing behind them is looked at.
pub proof fn lemma_mip_maps_need_square_power_of_two(bytes: Seq<u8>)
    requires
        bytes.len() >= 24,
        header_of(bytes).options.mip_maps(),
        header_of(bytes).width != header_of(bytes).height || !is_pow2(
            stored_dimension(header_of(bytes).width),
        ),
    ensures
        ace_decode(bytes) == Err::<ImageView, ParseFailure>(
            ParseFailure::InvalidFormat(
                if header_of(bytes).width != header_of(bytes).height {
                    FormatViolation::NotSquare {
                        width: header_of(bytes).width,
                        height: header_of(bytes).height,
                    }
                } else {
                    FormatViolation::NotPowerOfTwo { side: header_of(bytes).width }
                },
            ),
        ),
{
}

/// A raw-data surface whose format code names no known format is rejected as
/// invalid, and the failure names the code unless the dimensions were found
/// wanting first.
pub proof fn lemma_unknown_surface_format_rejected(bytes: Seq<u8>)
    requires
        bytes.len() >= 24,
        header_of(bytes).options.raw_data(),
        AceSurfaceFormat::of_code(header_of(bytes).surface_format_code as int) is None,
    ensures
        ace_decode(bytes) matches Err(ParseFailure::InvalidFormat(_)),
        header_of(bytes).dimension_violation() is None ==> ace_decode(bytes) == Err::<
            ImageView,
            ParseFailure,
        >(
            ParseFailure::InvalidFormat(
                FormatViolation::UnknownSurfaceFormat {
                    code: header_of(bytes).surface_format_code,
                },
            ),
        ),
{
}

/// Offset of entry `k` of the channel table.
pub open spec fn channel_entry_start(k: nat) -> int {
    152 + 16 * (k as int)
}

/// A channel entry whose size is neither 1 nor 8 makes the buffer invalid,
/// provided the header and the entries before it parse. The failure names
/// the size.
pub proof fn lemma_channel_size_rejected(bytes: Seq<u8>, k: nat)
    requires
        parse_header_spec(bytes, 0) is Ok,
        k < header_of(bytes).channel_entries(),
        channel_table(bytes, 152, k) is Ok,
        channel_entry_start(k) + 8 <= bytes.len(),
        le_u64(bytes, channel_entry_start(k)) != 1,
        le_u64(bytes, channel_entry_start(k)) != 8,
    ensures
        ace_decode(bytes) == Err::<ImageView, ParseFailure>(
            ParseFailure::InvalidFormat(
                FormatViolation::ChannelSize {
                    bits: le_u64(bytes, channel_entry_start(k)) as u64,
                },
            ),
        ),
{
    lemma_channel_table_failure(bytes, 152, k + 1, header_of(bytes).channel_entries());
}

/// A channel entry whose type code names no channel makes the buffer
/// invalid, provided the header and the entries before it parse and its own
/// size is allowed. The failure names the type code.
pub proof fn lemma_channel_type_rejected(bytes: Seq<u8>, k: nat)
    requires
        parse_header_spec(bytes, 0) is Ok,
        k < header_of(bytes).channel_entries(),
        channel_table(bytes, 152, k) is Ok,
        channel_entry_start(k) + 16 <= bytes.len(),
        le_u64(bytes, channel_entry_start(k)) == 1 || le_u64(bytes, channel_entry_start(k)) == 8,
        AceChannelId::of_code(le_u64(bytes, channel_entry_start(k) + 8)) is None,
    ensures
        ace_decode(bytes) == Err::<ImageView, ParseFailure>(
            ParseFailure::InvalidFormat(
                FormatViolation::ChannelType {
                    type_code: le_u64(bytes, channel_entry_start(k) + 8) as u64,
                },
            ),
        ),
{
    lemma_channel_table_failure(bytes, 152, k + 1, header_of(bytes).channel_entries());
}

/// Number of bytes of a buffer that a successful decode has read: everything
/// up to the end of the block stream or of the last channel plane.
pub open spec fn consumed_len(bytes: Seq<u8>) -> int {
    if header_of(bytes).options.raw_data() {
        surface_start(bytes) + 4 * header_of(bytes).mip_levels() + 4 + le_i32(
            bytes,
            surface_start(bytes) + 4 * header_of(bytes).mip_levels(),
        )
    } else {
        planes_start(bytes) + header_of(bytes).height * scanline_len(
            channels_of(bytes),
            header_of(bytes).width as int,
        )
    }
}

/// A channel entry of a truncated buffer: the same as that of the whole
/// buffer where the cut lies behind the entry, and an unexpected end where it
/// lies inside.
pub proof fn lemma_channel_entry_of_prefix(bytes: Seq<u8>, cut: int, at: int)
    requires
        0 <= at,
        0 <= cut <= bytes.len(),
        channel_entry(bytes, at) is Ok,
    ensures
        channel_entry(bytes.take(cut), at) == if at + 16 <= cut {
            channel_entry(bytes, at)
        } else {
            Err(ParseFailure::UnexpectedEnd)
        },
{
    let short = bytes.take(cut);
    if at + 8 <= cut {
        assert(le_u64(short, at) == le_u64(bytes, at));
        if at + 16 <= cut {
            assert(le_u64(short, at + 8) == le_u64(bytes, at + 8));
        }
    }
}

/// The channel table of a truncated buffer: the same as that of the whole
/// buffer where the cut lies behind the table or the table is empty, and an
/// unexpected end where the cut lies inside.
pub proof fn lemma_channel_table_of_prefix(bytes: Seq<u8>, cut: int, at: int, count: nat)
    requires
        0 <= at,
        0 <= cut <= bytes.len(),
        channel_table(bytes, at, count) is Ok,
    ensures
        channel_table(bytes.take(cut), at, count) == if count == 0 || at + 16 * count <= cut {
            channel_table(bytes, at, count)
        } else {
            Err(ParseFailure::UnexpectedEnd)
        },
    decreases count,
{
    if count > 0 {
        let before = (count - 1) as nat;
        assert(channel_table(bytes, at, before) is Ok);
        assert(channel_entry(bytes, at + 16 * before) is Ok);
        lemma_channel_table_of_prefix(bytes, cut, at, before);
        lemma_channel_entry_of_prefix(bytes, cut, at + 16 * before);
    }
}

/// Cutting a buffer that decodes anywhere short of the end of what the
/// decode reads makes the decode end unexpectedly: a missing field or sample
/// is never made up.
pub proof fn lemma_truncation_ends_unexpectedly(bytes: Seq<u8>, cut: int)
    requires
        ace_decode(bytes) is Ok,
        0 <= cut < consumed_len(bytes),
    ensures
        consumed_len(bytes) <= bytes.len(),
        ace_decode(bytes.take(cut)) == Err::<ImageView, ParseFailure>(ParseFailure::UnexpectedEnd),
{
    let header = header_of(bytes);
    let short = bytes.take(cut);
    lemma_channel_table_parsed(bytes, 152, header.channel_entries());
    lemma_scanline_tables_len_grows(header.height as int, 0, header.mip_levels() as nat);
    assert(consumed_len(bytes) <= bytes.len());
    let unexpected_end = Err::<ImageView, ParseFailure>(ParseFailure::UnexpectedEnd);
    if cut < 24 {
        assert(ace_decode(short) == unexpected_end);
    } else {
        assert(le_i32(short, 4) == le_i32(bytes, 4));
        assert(le_u32(short, 8) == le_u32(bytes, 8));
        assert(le_u32(short, 12) == le_u32(bytes, 12));
        assert(le_i32(short, 16) == le_i32(bytes, 16));
        assert(le_i32(short, 20) == le_i32(bytes, 20));
        assert(header_of(short) == header);
        if cut < 152 {
            assert(ace_decode(short) == unexpected_end);
        } else {
            let entries = header.channel_entries();
            assert(parse_header_spec(short, 0) == parse_header_spec(bytes, 0));
            lemma_channel_table_of_prefix(bytes, cut, 152, entries);
            if entries > 0 && 152 + 16 * entries > cut {
                assert(ace_decode(short) == unexpected_end);
            } else {
                assert(channel_table(short, 152, entries) == channel_table(bytes, 152, entries));
                let start = surface_start(bytes);
                if header.options.raw_data() {
                    let length_at = start + 4 * header.mip_levels();
                    lemma_log_nonnegative(2, header.width as int);
                    if length_at + 4 <= cut {
                        assert(le_i32(short, length_at) == le_i32(bytes, length_at));
                    }
                    assert(raw_surface_spec(short, start, header) == unexpected_end);
                } else {
                    assert(channel_surface_spec(short, start, header, channels_of(bytes))
                        == unexpected_end);
                }
            }
        }
    }
}

} // verus!
