//! The fixed-size header: five little-endian fields behind a four-byte tag,
//! followed by a reserved region. Parsing interprets the option mask, holds
//! mip-mapped images to square power-of-two dimensions and resolves the
//! surface format.

use vstd::prelude::*;
use vstd::arithmetic::logarithm::{log, lemma_log0, lemma_log_s, lemma_log_nonnegative};
use vstd::arithmetic::power2::{is_pow2, pow2, lemma_pow2_unfold, lemma2_to64};
use crate::cursor::{ByteCursor, le_i32, le_u32};
use crate::error::{AceParseError, FormatViolation, ParseFailure};
use crate::surface::{AceFormatOptions, AceSurfaceFormat};

verus! {

/// Length of the tag that opens the header. It is skipped unread.
pub const TAG_LEN: usize = 4;

/// Length of the tag and the five fields behind it.
pub const FIELDS_END: usize = 24;

/// Length of the reserved region that closes the header.
pub const RESERVED_LEN: usize = 128;

/// Length of the whole header; the channel table starts here.
pub const HEADER_LEN: usize = 152;

/// The number that a dimension field stores. The fields hold
/// two's-complement numbers, so a value beyond `i32::MAX` stands for a
/// negative one.
pub open spec fn stored_dimension(dimension: u32) -> int {
    if dimension > i32::MAX {
        dimension - 0x1_0000_0000
    } else {
        dimension as int
    }
}

/// The five fields of the header. Width and height are kept as the unsigned
/// numbers that an image has for its dimensions; what they store as signed
/// fields is [`stored_dimension`].
#[derive(Debug, Copy, Clone, PartialEq, Eq, Structural)]
pub struct AceHeader {
    pub options: AceFormatOptions,
    pub width: u32,
    pub height: u32,
    pub surface_format_code: i32,
    pub channel_count: i32,
}

impl AceHeader {
    /// The fields as they stand in a header that starts at `at`.
    pub open spec fn read_at(bytes: Seq<u8>, at: int) -> AceHeader {
        AceHeader {
            options: AceFormatOptions { bits: le_i32(bytes, at + 4) as i32 },
            width: le_u32(bytes, at + 8) as u32,
            height: le_u32(bytes, at + 12) as u32,
            surface_format_code: le_i32(bytes, at + 16) as i32,
            channel_count: le_i32(bytes, at + 20) as i32,
        }
    }

    /// What makes the dimensions unfit for a mip chain, if anything does: a
    /// chain needs a square base whose side, as the field stores it, is a
    /// power of two. A side beyond `i32::MAX` stores a negative number and is
    /// none.
    pub open spec fn dimension_violation(self) -> Option<FormatViolation> {
        if !self.options.mip_maps() {
            None
        } else if self.width != self.height {
            Some(FormatViolation::NotSquare { width: self.width, height: self.height })
        } else if !is_pow2(stored_dimension(self.width)) {
            Some(FormatViolation::NotPowerOfTwo { side: self.width })
        } else {
            None
        }
    }

    /// The surface format: the declared one for a raw-data surface, `None`
    /// where the declared code names no format; `ARGB_8888` by convention for
    /// a surface without the raw-data flag, whose code is not looked at.
    pub open spec fn surface_format(self) -> Option<AceSurfaceFormat> {
        if self.options.raw_data() {
            AceSurfaceFormat::of_code(self.surface_format_code as int)
        } else {
            Some(AceSurfaceFormat::ARGB_8888)
        }
    }

    /// The first rule the fields break, if they break any. Dimensions are
    /// judged before the surface format.
    pub open spec fn violation(self) -> Option<FormatViolation> {
        if self.dimension_violation() is Some {
            self.dimension_violation()
        } else if self.surface_format() is None {
            Some(FormatViolation::UnknownSurfaceFormat { code: self.surface_format_code })
        } else {
            None
        }
    }

    /// Number of mip levels whose bookkeeping follows the channel table:
    /// one more than the binary logarithm of the width for a mip-mapped
    /// image, else one.
    pub open spec fn mip_levels(self) -> int {
        if self.options.mip_maps() {
            1 + log(2, self.width as int)
        } else {
            1
        }
    }

    /// Number of entries in the channel table. A negative count announces none.
    pub open spec fn channel_entries(self) -> nat {
        if self.channel_count < 0 {
            0
        } else {
            self.channel_count as nat
        }
    }

    /// The first rule the fields break, if they break any.
    pub fn check(&self) -> (v: Option<FormatViolation>)
        ensures
            v == self.violation(),
    {
        if self.options.has_mip_maps() {
            if self.width != self.height {
                return Some(FormatViolation::NotSquare { width: self.width, height: self.height });
            }
            if self.width > 0x7FFF_FFFF || !is_power_of_two(self.width) {
                proof {
                    reveal(is_pow2);
                }
                return Some(FormatViolation::NotPowerOfTwo { side: self.width });
            }
        }
        if self.format().is_none() {
            return Some(FormatViolation::UnknownSurfaceFormat { code: self.surface_format_code });
        }
        None
    }

    /// The surface format, `None` where a raw-data surface declares a code
    /// that names no format.
    pub fn format(&self) -> (fmt: Option<AceSurfaceFormat>)
        ensures
            fmt == self.surface_format(),
    {
        if self.options.has_raw_data() {
            AceSurfaceFormat::from_raw(self.surface_format_code)
        } else {
            Some(AceSurfaceFormat::ARGB_8888)
        }
    }

    /// Number of mip levels whose bookkeeping follows the channel table.
    pub fn mip_count(&self) -> (n: u32)
        ensures
            n == self.mip_levels(),
            1 <= n <= 32,
    {
        if !self.options.has_mip_maps() {
            return 1;
        }
        let mut side: u32 = self.width;
        let mut levels: u32 = 1;
        proof {
            lemma2_to64();
            lemma_log2_below(self.width as int, 32);
        }
        while side > 1
            invariant
                levels + log(2, side as int) == 1 + log(2, self.width as int),
                log(2, side as int) >= 0,
                log(2, self.width as int) < 32,
                levels >= 1,
            decreases side,
        {
            proof {
                lemma_log_s(2, side as int);
                lemma_log_nonnegative(2, side as int / 2);
            }
            side = side / 2;
            levels = levels + 1;
        }
        proof {
            lemma_log0(2, side as int);
        }
        levels
    }
}

/// The binary logarithm of a number below `2^e` is below `e`.
pub proof fn lemma_log2_below(n: int, e: nat)
    requires
        0 <= n < pow2(e),
        e >= 1,
    ensures
        0 <= log(2, n) < e,
    decreases e,
{
    if n < 2 {
        lemma_log0(2, n);
    } else {
        lemma_log_s(2, n);
        lemma_pow2_unfold(e);
        if e == 1 {
            lemma2_to64();
        } else {
            lemma_log2_below(n / 2, (e - 1) as nat);
        }
    }
}

/// The powers of two that fit in 32 bits are exactly the 32 numbers with a
/// single bit set.
pub proof fn lemma_is_pow2_u32(n: int)
    requires
        0 <= n <= u32::MAX,
    ensures
        is_pow2(n) <==> single_bit_u32(n),
    decreases n,
{
    reveal(is_pow2);
    if n > 1 && n % 2 == 0 {
        lemma_is_pow2_u32(n / 2);
    }
}

/// `n` is one of `1, 2, 4, ..., 2^31`.
pub open spec fn single_bit_u32(n: int) -> bool {
    ||| n == 0x1
    ||| n == 0x2
    ||| n == 0x4
    ||| n == 0x8
    ||| n == 0x10
    ||| n == 0x20
    ||| n == 0x40
    ||| n == 0x80
    ||| n == 0x100
    ||| n == 0x200
    ||| n == 0x400
    ||| n == 0x800
    ||| n == 0x1000
    ||| n == 0x2000
    ||| n == 0x4000
    ||| n == 0x8000
    ||| n == 0x1_0000
    ||| n == 0x2_0000
    ||| n == 0x4_0000
    ||| n == 0x8_0000
    ||| n == 0x10_0000
    ||| n == 0x20_0000
    ||| n == 0x40_0000
    ||| n == 0x80_0000
    ||| n == 0x100_0000
    ||| n == 0x200_0000
    ||| n == 0x400_0000
    ||| n == 0x800_0000
    ||| n == 0x1000_0000
    ||| n == 0x2000_0000
    ||| n == 0x4000_0000
    ||| n == 0x8000_0000
}

/// Whether `n` is a power of two; zero is none.
pub fn is_power_of_two(n: u32) -> (b: bool)
    ensures
        b == is_pow2(n as int),
{
    proof {
        lemma_is_pow2_u32(n as int);
        assert((n != 0 && n & ((n - 1) as u32) == 0) <==> (n == 0x1 || n == 0x2 || n == 0x4 || n
            == 0x8 || n == 0x10 || n == 0x20 || n == 0x40 || n == 0x80 || n == 0x100 || n == 0x200
            || n == 0x400 || n == 0x800 || n == 0x1000 || n == 0x2000 || n == 0x4000 || n
            == 0x8000 || n == 0x1_0000 || n == 0x2_0000 || n == 0x4_0000 || n == 0x8_0000 || n
            == 0x10_0000 || n == 0x20_0000 || n == 0x40_0000 || n == 0x80_0000 || n == 0x100_0000
            || n == 0x200_0000 || n == 0x400_0000 || n == 0x800_0000 || n == 0x1000_0000 || n
            == 0x2000_0000 || n == 0x4000_0000 || n == 0x8000_0000)) by (bit_vector);
    }
    n != 0 && n & (n - 1) == 0
}

/// What parsing the header that starts at `at` comes to. The fields are judged
/// as soon as they are read, before the reserved region is skipped.
pub open spec fn parse_header_spec(bytes: Seq<u8>, at: int) -> Result<AceHeader, ParseFailure> {
    if at + FIELDS_END > bytes.len() {
        Err(ParseFailure::UnexpectedEnd)
    } else if AceHeader::read_at(bytes, at).violation() is Some {
        Err(ParseFailure::InvalidFormat(AceHeader::read_at(bytes, at).violation().unwrap()))
    } else if at + HEADER_LEN > bytes.len() {
        Err(ParseFailure::UnexpectedEnd)
    } else {
        Ok(AceHeader::read_at(bytes, at))
    }
}

/// Reads and validates the header at the cursor. On success the cursor stands
/// behind the reserved region, at the channel table.
pub fn parse_header(cursor: &mut ByteCursor) -> (r: Result<AceHeader, AceParseError>)
    ensures
        final(cursor).bytes() == old(cursor).bytes(),
        match r {
            Ok(h) => {
                &&& parse_header_spec(old(cursor).bytes(), old(cursor).offset() as int) == Ok::<
                    AceHeader,
                    ParseFailure,
                >(h)
                &&& final(cursor).offset() == old(cursor).offset() + HEADER_LEN
            },
            Err(e) => parse_header_spec(old(cursor).bytes(), old(cursor).offset() as int) == Err::<
                AceHeader,
                ParseFailure,
            >(e@),
        },
{
    let _tag = cursor.read_bytes(TAG_LEN)?;
    let bits = cursor.read_i32()?;
    let width = cursor.read_u32()?;
    let height = cursor.read_u32()?;
    let surface_format_code = cursor.read_i32()?;
    let channel_count = cursor.read_i32()?;
    let header = AceHeader {
        options: AceFormatOptions { bits },
        width,
        height,
        surface_format_code,
        channel_count,
    };
    if let Some(v) = header.check() {
        return Err(AceParseError::InvalidFormat(v));
    }
    let _reserved = cursor.read_bytes(RESERVED_LEN)?;
    Ok(header)
}

} // verus!
