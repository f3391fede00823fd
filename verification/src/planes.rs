//! Raw surfaces stored as channel planes. Every scanline holds one plane per
//! channel, in the order of the channel table; a plane holds one sample per
//! column, either a byte or a single bit. The assembler interleaves the
//! planes into RGBA8 pixels.

use vstd::prelude::*;
use vstd::arithmetic::div_mod::{lemma_div_denominator, lemma_fundamental_div_mod_converse};
use vstd::arithmetic::power2::{pow2, lemma_pow2_pos, lemma_pow2_unfold, lemma2_to64};
use crate::bitmap::{Image, ImageView};
use crate::channel::AceChannel;
use crate::cursor::ByteCursor;
use crate::error::{AceParseError, FormatViolation, ParseFailure};
use crate::header::AceHeader;

verus! {

/// Value of a component that no channel supplies.
pub const DEFAULT_COMPONENT: u8 = 0xFF;

/// Sample `x` of a plane. A packed plane stores eight samples to a byte, the
/// most significant bit first; a set bit reads as `0xFF`, a clear one as `0x00`.
pub open spec fn plane_sample(plane: Seq<u8>, packed: bool, x: int) -> u8 {
    if packed {
        if (plane[x / 8] >> ((7 - x % 8) as u8)) & 1 == 1 {
            0xFF
        } else {
            0x00
        }
    } else {
        plane[x]
    }
}

/// Length in bytes of the planes of the given channels for one scanline.
pub open spec fn scanline_len(channels: Seq<AceChannel>, width: int) -> int
    decreases channels.len(),
{
    if channels.len() == 0 {
        0
    } else {
        scanline_len(channels.drop_last(), width) + channels.last().plane_len(width)
    }
}

/// The channel that supplies component `c`: the last one in file order that
/// writes to it, if any does.
pub open spec fn supplier(channels: Seq<AceChannel>, c: int) -> Option<int>
    decreases channels.len(),
{
    if channels.len() == 0 {
        None
    } else if channels.last().id.component() == c {
        Some(channels.len() - 1)
    } else {
        supplier(channels.drop_last(), c)
    }
}

/// The plane of channel `k` in the scanline that starts at `line`: it lies
/// behind the planes of the channels before it.
pub open spec fn plane_of(
    bytes: Seq<u8>,
    line: int,
    channels: Seq<AceChannel>,
    width: int,
    k: int,
) -> Seq<u8> {
    bytes.subrange(
        line + scanline_len(channels.take(k), width),
        line + scanline_len(channels.take(k), width) + channels[k].plane_len(width),
    )
}

/// Component `c` of the pixel in column `x`, as the first `upto` channels of
/// the scanline that starts at `line` leave it: the sample of the last of
/// them that supplies `c`, or the default where none does.
pub open spec fn scanline_component(
    bytes: Seq<u8>,
    line: int,
    channels: Seq<AceChannel>,
    width: int,
    x: int,
    c: int,
    upto: int,
) -> u8 {
    match supplier(channels.take(upto), c) {
        None => DEFAULT_COMPONENT,
        Some(k) => plane_sample(plane_of(bytes, line, channels, width, k), channels[k].packed(), x),
    }
}

/// Offset of scanline `y`, where the planes of the image start at `planes`.
pub open spec fn scanline_start(planes: int, channels: Seq<AceChannel>, width: int, y: int) -> int {
    planes + y * scanline_len(channels, width)
}

/// Component `c` of the decoded pixel in column `x` of row `y`.
pub open spec fn decoded_component(
    bytes: Seq<u8>,
    planes: int,
    channels: Seq<AceChannel>,
    width: int,
    x: int,
    y: int,
    c: int,
) -> u8 {
    scanline_component(
        bytes,
        scanline_start(planes, channels, width, y),
        channels,
        width,
        x,
        c,
        channels.len() as int,
    )
}

/// Byte `i` of the decoded pixel buffer.
pub open spec fn decoded_byte(
    bytes: Seq<u8>,
    planes: int,
    channels: Seq<AceChannel>,
    width: int,
    i: int,
) -> u8 {
    decoded_component(bytes, planes, channels, width, (i / 4) % width, (i / 4) / width, i % 4)
}

/// What assembling the planes that start at `planes` comes to.
pub open spec fn assemble_planes_spec(
    bytes: Seq<u8>,
    planes: int,
    channels: Seq<AceChannel>,
    width: u32,
    height: u32,
) -> Result<ImageView, ParseFailure> {
    if 4 * (width * height) > isize::MAX {
        Err(ParseFailure::InvalidFormat(FormatViolation::TooLarge { width, height }))
    } else if planes + height * scanline_len(channels, width as int) > bytes.len() {
        Err(ParseFailure::UnexpectedEnd)
    } else {
        Ok(
            ImageView {
                width,
                height,
                pixels: Seq::new(
                    (4 * (width * height)) as nat,
                    |i: int| decoded_byte(bytes, planes, channels, width as int, i),
                ),
            },
        )
    }
}

/// Writes the samples of one plane into one component of the pixels of one
/// row, whose first byte is at `row_start`. Nothing else changes.
fn write_plane(
    pixels: &mut Vec<u8>,
    row_start: usize,
    plane: &[u8],
    packed: bool,
    component: usize,
    width: u32,
)
    requires
        component < 4,
        row_start + 4 * width <= old(pixels)@.len(),
        plane@.len() == if packed {
            (width + 7) / 8
        } else {
            width as int
        },
    ensures
        final(pixels)@.len() == old(pixels)@.len(),
        forall|i: int|
            0 <= i < old(pixels)@.len() ==> #[trigger] final(pixels)@[i] == (if row_start <= i
                < row_start + 4 * width && (i - row_start) % 4 == component {
                plane_sample(plane@, packed, (i - row_start) / 4)
            } else {
                old(pixels)@[i]
            }),
{
    let len = pixels.len();
    let columns = width as usize;
    let mut x: usize = 0;
    while x < columns
        invariant
            x <= columns,
            columns == width,
            component < 4,
            pixels@.len() == len,
            len == old(pixels)@.len(),
            row_start + 4 * columns <= len,
            plane@.len() == if packed {
                (width + 7) / 8
            } else {
                width as int
            },
            forall|i: int|
                0 <= i < len ==> #[trigger] pixels@[i] == (if row_start <= i < row_start + 4 * x
                    && (i - row_start) % 4 == component {
                    plane_sample(plane@, packed, (i - row_start) / 4)
                } else {
                    old(pixels)@[i]
                }),
        decreases columns - x,
    {
        let value: u8 = if packed {
            let shift: u8 = (7 - x % 8) as u8;
            if (plane[x / 8] >> shift) & 1 == 1 {
                0xFF
            } else {
                0x00
            }
        } else {
            plane[x]
        };
        pixels.set(row_start + 4 * x + component, value);
        x = x + 1;
    }
}

/// The planes of a prefix of the table take no more room than those of the
/// whole table.
pub proof fn lemma_scanline_len_prefix(channels: Seq<AceChannel>, width: int, k: int)
    requires
        0 <= k <= channels.len(),
        0 <= width,
    ensures
        0 <= scanline_len(channels.take(k), width) <= scanline_len(channels, width),
    decreases channels.len(),
{
    if k == channels.len() {
        assert(channels.take(k) =~= channels);
        if k > 0 {
            lemma_scanline_len_prefix(channels.drop_last(), width, k - 1);
            assert(channels.drop_last().take(k - 1) =~= channels.drop_last());
        }
    } else {
        assert(channels.drop_last().take(k) =~= channels.take(k));
        lemma_scanline_len_prefix(channels.drop_last(), width, k);
    }
}

/// What one more channel adds to a prefix of the table: its plane to the
/// scanline, and itself as the supplier of its own component.
pub proof fn lemma_next_channel(channels: Seq<AceChannel>, width: int, k: int, c: int)
    requires
        0 <= k < channels.len(),
    ensures
        scanline_len(channels.take(k + 1), width) == scanline_len(channels.take(k), width)
            + channels[k].plane_len(width),
        supplier(channels.take(k + 1), c) == if channels[k].id.component() == c {
            Some(k)
        } else {
            supplier(channels.take(k), c)
        },
{
    assert(channels.take(k + 1).drop_last() =~= channels.take(k));
    assert(channels.take(k + 1).last() == channels[k]);
}

/// Reads the planes of one scanline at the cursor and writes them into the
/// pixels of the row whose first byte is at `row_start`. The row must still
/// hold the default in every component.
fn assemble_scanline(
    cursor: &mut ByteCursor,
    pixels: &mut Vec<u8>,
    row_start: usize,
    channels: &[AceChannel],
    width: u32,
) -> (r: Result<(), AceParseError>)
    requires
        row_start + 4 * width <= old(pixels)@.len(),
        forall|i: int|
            row_start <= i < row_start + 4 * width ==> old(pixels)@[i] == DEFAULT_COMPONENT,
    ensures
        final(cursor).bytes() == old(cursor).bytes(),
        final(pixels)@.len() == old(pixels)@.len(),
        match r {
            Ok(_) => {
                &&& final(cursor).offset() == old(cursor).offset() + scanline_len(
                    channels@,
                    width as int,
                )
                &&& forall|i: int|
                    0 <= i < old(pixels)@.len() ==> #[trigger] final(pixels)@[i] == (if row_start
                        <= i < row_start + 4 * width {
                        scanline_component(
                            old(cursor).bytes(),
                            old(cursor).offset() as int,
                            channels@,
                            width as int,
                            (i - row_start) / 4,
                            (i - row_start) % 4,
                            channels@.len() as int,
                        )
                    } else {
                        old(pixels)@[i]
                    })
            },
            Err(e) => {
                &&& e@ == ParseFailure::UnexpectedEnd
                &&& old(cursor).offset() + scanline_len(channels@, width as int) > old(
                    cursor,
                ).bytes().len()
            },
        },
{
    let ghost bytes = cursor.bytes();
    let ghost line: int = cursor.offset() as int;
    let ghost len = pixels@.len();
    let mut k: usize = 0;
    assert(channels@.take(0) =~= Seq::<AceChannel>::empty());
    while k < channels.len()
        invariant
            k <= channels@.len(),
            bytes == old(cursor).bytes(),
            line == old(cursor).offset() as int,
            len == old(pixels)@.len(),
            cursor.bytes() == bytes,
            cursor.offset() == line + scanline_len(channels@.take(k as int), width as int),
            pixels@.len() == len,
            row_start + 4 * width <= len,
            forall|i: int|
                0 <= i < len ==> #[trigger] pixels@[i] == (if row_start <= i < row_start + 4
                    * width {
                    scanline_component(
                        bytes,
                        line,
                        channels@,
                        width as int,
                        (i - row_start) / 4,
                        (i - row_start) % 4,
                        k as int,
                    )
                } else {
                    old(pixels)@[i]
                }),
        decreases channels@.len() - k,
    {
        let channel = channels[k];
        let packed = channel.is_packed();
        let component = channel.id.get_pixel_idx();
        let plane_len: usize = if packed {
            ((width as u64 + 7) / 8) as usize
        } else {
            width as usize
        };
        proof {
            lemma_scanline_len_prefix(channels@, width as int, k + 1);
            lemma_next_channel(channels@, width as int, k as int, component as int);
        }
        let plane = match cursor.read_bytes(plane_len) {
            Ok(plane) => plane,
            Err(e) => {
                return Err(e);
            },
        };
        let ghost before = pixels@;
        write_plane(pixels, row_start, plane, packed, component, width);
        proof {
            assert(plane@ == plane_of(bytes, line, channels@, width as int, k as int));
            assert forall|i: int| 0 <= i < len implies #[trigger] pixels@[i] == (if row_start <= i
                < row_start + 4 * width {
                scanline_component(
                    bytes,
                    line,
                    channels@,
                    width as int,
                    (i - row_start) / 4,
                    (i - row_start) % 4,
                    k + 1,
                )
            } else {
                old(pixels)@[i]
            }) by {
                assert(before[i] == (if row_start <= i < row_start + 4 * width {
                    scanline_component(
                        bytes,
                        line,
                        channels@,
                        width as int,
                        (i - row_start) / 4,
                        (i - row_start) % 4,
                        k as int,
                    )
                } else {
                    old(pixels)@[i]
                }));
                lemma_next_channel(channels@, width as int, k as int, (i - row_start) % 4);
            }
        }
        k = k + 1;
    }
    proof {
        assert(channels@.take(k as int) =~= channels@);
    }
    Ok(())
}

/// Byte `i` of the pixel buffer lies in row `y` of an image of the given
/// width, and this is its column and its component.
pub proof fn lemma_byte_position(width: int, y: int, i: int)
    requires
        0 < width,
        0 <= y,
        4 * (width * y) <= i < 4 * (width * y) + 4 * width,
    ensures
        (i / 4) / width == y,
        (i / 4) % width == (i - 4 * (width * y)) / 4,
        i % 4 == (i - 4 * (width * y)) % 4,
{
    let column = (i - 4 * (width * y)) / 4;
    assert(width * y == y * width) by (nonlinear_arith);
    assert(i / 4 == y * width + column);
    lemma_fundamental_div_mod_converse(i / 4, width, y, column);
}

/// Reads the channel planes of a `width` by `height` image at the cursor and
/// interleaves them into RGBA8 pixels. Every component starts out as the
/// default; each channel, in file order, then writes its samples into the
/// component it supplies, so that of two channels for one component the later
/// one stands. On success the cursor stands behind the last plane.
pub fn assemble_planes(
    cursor: &mut ByteCursor,
    channels: &[AceChannel],
    width: u32,
    height: u32,
) -> (r: Result<Image, AceParseError>)
    ensures
        final(cursor).bytes() == old(cursor).bytes(),
        match r {
            Ok(img) => {
                &&& assemble_planes_spec(
                    old(cursor).bytes(),
                    old(cursor).offset() as int,
                    channels@,
                    width,
                    height,
                ) == Ok::<ImageView, ParseFailure>(img@)
                &&& final(cursor).offset() == old(cursor).offset() + height * scanline_len(
                    channels@,
                    width as int,
                )
            },
            Err(e) => assemble_planes_spec(
                old(cursor).bytes(),
                old(cursor).offset() as int,
                channels@,
                width,
                height,
            ) == Err::<ImageView, ParseFailure>(e@),
        },
{
    let ghost bytes = cursor.bytes();
    let ghost planes: int = cursor.offset() as int;
    let ghost line_len = scanline_len(channels@, width as int);
    assert(width * height <= 0xFFFF_FFFF * 0xFFFF_FFFF) by (nonlinear_arith)
        requires
            width <= 0xFFFF_FFFF,
            height <= 0xFFFF_FFFF,
    ;
    let area: u64 = width as u64 * height as u64;
    if area > (isize::MAX as u64) / 4 {
        return Err(AceParseError::InvalidFormat(FormatViolation::TooLarge { width, height }));
    }
    let len: usize = (4 * area) as usize;
    let row_len: usize = if height == 0 {
        0
    } else {
        assert(4 * width <= 4 * (width * height)) by (nonlinear_arith)
            requires
                height >= 1,
                width >= 0,
        ;
        4 * (width as usize)
    };
    let mut pixels: Vec<u8> = vec![DEFAULT_COMPONENT; len];
    let mut y: u32 = 0;
    let mut row_start: usize = 0;
    proof {
        cursor.lemma_offset_in_bounds();
        assert(width * 0 == 0) by (nonlinear_arith);
        assert(0 * line_len == 0) by (nonlinear_arith);
        lemma_scanline_len_prefix(channels@, width as int, channels@.len() as int);
        assert(channels@.take(channels@.len() as int) =~= channels@);
    }
    while y < height
        invariant
            y <= height,
            bytes == old(cursor).bytes(),
            planes == old(cursor).offset(),
            line_len == scanline_len(channels@, width as int),
            0 <= line_len,
            4 * (width * height) <= isize::MAX,
            len == 4 * (width * height),
            height > 0 ==> row_len == 4 * width,
            row_start == 4 * (width * y),
            cursor.bytes() == bytes,
            cursor.offset() == planes + y * line_len,
            pixels@.len() == len,
            forall|i: int|
                0 <= i < row_start ==> #[trigger] pixels@[i] == decoded_byte(
                    bytes,
                    planes,
                    channels@,
                    width as int,
                    i,
                ),
            forall|i: int| row_start <= i < len ==> #[trigger] pixels@[i] == DEFAULT_COMPONENT,
        decreases height - y,
    {
        proof {
            assert(4 * (width * y) + 4 * width == 4 * (width * (y + 1)) && 4 * (width * (y + 1))
                <= 4 * (width * height) && (y + 1) * line_len == y * line_len + line_len && (y
                + 1) * line_len <= height * line_len) by (nonlinear_arith)
                requires
                    y < height,
                    0 <= width,
                    0 <= line_len,
            ;
        }
        let ghost before = pixels@;
        match assemble_scanline(cursor, &mut pixels, row_start, channels, width) {
            Ok(_) => {},
            Err(e) => {
                return Err(e);
            },
        }
        proof {
            assert forall|i: int| 0 <= i < row_start + row_len implies #[trigger] pixels@[i]
                == decoded_byte(bytes, planes, channels@, width as int, i) by {
                if i >= row_start {
                    lemma_byte_position(width as int, y as int, i);
                } else {
                    assert(pixels@[i] == before[i]);
                }
            }
            assert forall|i: int| row_start + row_len <= i < len implies #[trigger] pixels@[i]
                == DEFAULT_COMPONENT by {
                assert(pixels@[i] == before[i]);
            }
        }
        row_start = row_start + row_len;
        y = y + 1;
    }
    let image = Image::from_raw(width, height, pixels);
    proof {
        cursor.lemma_offset_in_bounds();
        assert(image.unwrap()@.pixels =~= Seq::new(
            (4 * (width * height)) as nat,
            |i: int| decoded_byte(bytes, planes, channels@, width as int, i),
        ));
    }
    Ok(image.unwrap())
}

/// Length in bytes of the scanline-offset table of one mip level: four bytes
/// for each scanline of the level, whose height halves from level to level.
pub open spec fn scanline_table_len(height: int, level: nat) -> int {
    (4 * height) / (pow2(level) as int)
}

/// Length in bytes of the scanline-offset tables of the first `levels` mip
/// levels together.
pub open spec fn scanline_tables_len(height: int, levels: nat) -> int
    decreases levels,
{
    if levels == 0 {
        0
    } else {
        scanline_tables_len(height, (levels - 1) as nat) + scanline_table_len(
            height,
            (levels - 1) as nat,
        )
    }
}

/// More levels have no shorter tables.
pub proof fn lemma_scanline_tables_len_grows(height: int, fewer: nat, more: nat)
    requires
        0 <= height,
        fewer <= more,
    ensures
        0 <= scanline_tables_len(height, fewer) <= scanline_tables_len(height, more),
    decreases more,
{
    if more > 0 {
        lemma_pow2_pos((more - 1) as nat);
        assert(0 <= (4 * height) / (pow2((more - 1) as nat) as int)) by (nonlinear_arith)
            requires
                0 <= height,
                pow2((more - 1) as nat) > 0,
        ;
        if fewer < more {
            lemma_scanline_tables_len_grows(height, fewer, (more - 1) as nat);
        } else {
            lemma_scanline_tables_len_grows(height, (fewer - 1) as nat, (more - 1) as nat);
        }
    }
}

/// Skips the scanline-offset tables of `levels` mip levels, one after the
/// other. Only the pixels of the base level are decoded, so the tables are
/// passed over unread.
pub fn skip_scanline_tables(cursor: &mut ByteCursor, height: u32, levels: u32) -> (r: Result<
    (),
    AceParseError,
>)
    ensures
        final(cursor).bytes() == old(cursor).bytes(),
        match r {
            Ok(_) => final(cursor).offset() == old(cursor).offset() + scanline_tables_len(
                height as int,
                levels as nat,
            ),
            Err(e) => {
                &&& e@ == ParseFailure::UnexpectedEnd
                &&& old(cursor).offset() + scanline_tables_len(height as int, levels as nat) > old(
                    cursor,
                ).bytes().len()
            },
        },
{
    let ghost bytes = cursor.bytes();
    let ghost start: int = cursor.offset() as int;
    let mut table: u64 = 4 * (height as u64);
    let mut level: u32 = 0;
    proof {
        lemma2_to64();
    }
    while level < levels
        invariant
            level <= levels,
            bytes == old(cursor).bytes(),
            start == old(cursor).offset(),
            cursor.bytes() == bytes,
            cursor.offset() == start + scanline_tables_len(height as int, level as nat),
            table == scanline_table_len(height as int, level as nat),
        decreases levels - level,
    {
        proof {
            lemma_scanline_tables_len_grows(height as int, (level + 1) as nat, levels as nat);
            lemma_pow2_pos(level as nat);
            lemma_pow2_unfold((level + 1) as nat);
            lemma_div_denominator(4 * height, pow2(level as nat) as int, 2);
            assert(pow2(level as nat) * 2 == 2 * pow2(level as nat)) by (nonlinear_arith);
        }
        if table > cursor.remaining() as u64 {
            return Err(AceParseError::UnexpectedEnd);
        }
        let _table = cursor.read_bytes(table as usize)?;
        table = table / 2;
        level = level + 1;
    }
    Ok(())
}

/// What decoding the channel-plane surface that starts at `at` comes to:
/// behind the scanline-offset tables of all mip levels stand the planes of
/// the base level.
pub open spec fn channel_surface_spec(
    bytes: Seq<u8>,
    at: int,
    header: AceHeader,
    channels: Seq<AceChannel>,
) -> Result<ImageView, ParseFailure> {
    let planes = at + scanline_tables_len(header.height as int, header.mip_levels() as nat);
    if planes > bytes.len() {
        Err(ParseFailure::UnexpectedEnd)
    } else {
        assemble_planes_spec(bytes, planes, channels, header.width, header.height)
    }
}

/// Decodes the channel-plane surface at the cursor.
pub fn decode_channel_surface(
    cursor: &mut ByteCursor,
    header: &AceHeader,
    channels: &[AceChannel],
) -> (r: Result<Image, AceParseError>)
    ensures
        final(cursor).bytes() == old(cursor).bytes(),
        match r {
            Ok(img) => channel_surface_spec(
                old(cursor).bytes(),
                old(cursor).offset() as int,
                *header,
                channels@,
            ) == Ok::<ImageView, ParseFailure>(img@),
            Err(e) => channel_surface_spec(
                old(cursor).bytes(),
                old(cursor).offset() as int,
                *header,
                channels@,
            ) == Err::<ImageView, ParseFailure>(e@),
        },
{
    skip_scanline_tables(cursor, header.height, header.mip_count())?;
    proof {
        cursor.lemma_offset_in_bounds();
    }
    assemble_planes(cursor, channels, header.width, header.height)
}

} // verus!
