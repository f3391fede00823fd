//! Failures of a decode. Every failure ends the decode: no partial image is
//! ever handed out.

use vstd::prelude::*;
use vstd::string::*;
use crate::surface::AceSurfaceFormat;

verus! {

/// Why a buffer whose fields could all be read was nevertheless rejected.
#[derive(Debug, Copy, Clone, PartialEq, Eq, Structural)]
pub enum FormatViolation {
    /// A mip-mapped image whose width and height differ.
    NotSquare { width: u32, height: u32 },
    /// A mip-mapped image whose side is zero or no power of two.
    NotPowerOfTwo { side: u32 },
    /// A raw-data surface whose format code names no known format.
    UnknownSurfaceFormat { code: i32 },
    /// A channel that is neither 1 nor 8 bits wide.
    ChannelSize { bits: u64 },
    /// A channel whose type code names no known channel.
    ChannelType { type_code: u64 },
    /// Dimensions whose RGBA8 pixel buffer cannot be held in memory.
    TooLarge { width: u32, height: u32 },
}

/// The text of digit `d` in a base of up to sixteen.
pub open spec fn digit_text(d: int) -> Seq<char> {
    "0123456789ABCDEF"@.subrange(d, d + 1)
}

/// The decimal numeral of `n`, without leading zeros.
pub open spec fn decimal_text(n: nat) -> Seq<char>
    decreases n,
{
    if n < 10 {
        digit_text(n as int)
    } else {
        decimal_text(n / 10) + digit_text((n % 10) as int)
    }
}

/// The last `digits` digits of the hexadecimal numeral of `n`, in upper case,
/// with leading zeros where the numeral is shorter.
pub open spec fn hex_text(n: nat, digits: nat) -> Seq<char>
    decreases digits,
{
    if digits == 0 {
        Seq::empty()
    } else {
        hex_text(n / 16, (digits - 1) as nat) + digit_text((n % 16) as int)
    }
}

/// The 32-bit pattern of a two's-complement number, as an unsigned number.
pub open spec fn bit_pattern(code: i32) -> nat {
    if code < 0 {
        (code + 0x1_0000_0000) as nat
    } else {
        code as nat
    }
}

fn digit(d: u8) -> (text: &'static str)
    requires
        d < 16,
    ensures
        text@ == digit_text(d as int),
{
    let digits = "0123456789ABCDEF";
    proof {
        reveal_strlit("0123456789ABCDEF");
    }
    digits.substring_ascii(d as usize, d as usize + 1)
}

fn append_decimal(text: &mut String, n: u64)
    ensures
        final(text)@ == old(text)@ + decimal_text(n as nat),
    decreases n,
{
    if n >= 10 {
        append_decimal(text, n / 10);
    }
    text.append(digit((n % 10) as u8));
    proof {
        if n >= 10 {
            assert(final(text)@ =~= old(text)@ + decimal_text(n as nat));
        }
    }
}

fn append_hex(text: &mut String, n: u32, digits: u32)
    ensures
        final(text)@ == old(text)@ + hex_text(n as nat, digits as nat),
    decreases digits,
{
    if digits > 0 {
        append_hex(text, n / 16, digits - 1);
        text.append(digit((n % 16) as u8));
    }
    proof {
        assert(final(text)@ =~= old(text)@ + hex_text(n as nat, digits as nat));
    }
}

impl FormatViolation {
    /// The wording of the violation. Dimensions are named in decimal, a
    /// surface-format code as the eight hexadecimal digits of its bit pattern.
    pub open spec fn message_text(self) -> Seq<char> {
        match self {
            FormatViolation::NotSquare { width, height } => {
                "mip-mapped image must be square, found "@ + decimal_text(width as nat) + "x"@
                    + decimal_text(height as nat)
            },
            FormatViolation::NotPowerOfTwo { side } => {
                "mip-mapped image side must be a power of two, found "@ + decimal_text(
                    side as nat,
                )
            },
            FormatViolation::UnknownSurfaceFormat { code } => {
                "unsupported surface format 0x"@ + hex_text(bit_pattern(code), 8)
            },
            FormatViolation::ChannelSize { bits } => "unsupported colour channel size"@,
            FormatViolation::ChannelType { type_code } => "unsupported colour channel type"@,
            FormatViolation::TooLarge { width, height } => {
                "image too large: "@ + decimal_text(width as nat) + "x"@ + decimal_text(
                    height as nat,
                )
            },
        }
    }

    /// The wording of the violation, for diagnostics.
    pub fn message(&self) -> (text: String)
        ensures
            text@ == self.message_text(),
    {
        match self {
            FormatViolation::NotSquare { width, height } => {
                let mut text = String::from_str("mip-mapped image must be square, found ");
                append_decimal(&mut text, *width as u64);
                text.append("x");
                append_decimal(&mut text, *height as u64);
                text
            },
            FormatViolation::NotPowerOfTwo { side } => {
                let mut text = String::from_str(
                    "mip-mapped image side must be a power of two, found ",
                );
                append_decimal(&mut text, *side as u64);
                text
            },
            FormatViolation::UnknownSurfaceFormat { code } => {
                let pattern: u32 = if *code < 0 {
                    (*code + 0x7FFF_FFFF + 1) as u32 + 0x8000_0000
                } else {
                    *code as u32
                };
                let mut text = String::from_str("unsupported surface format 0x");
                append_hex(&mut text, pattern, 8);
                text
            },
            FormatViolation::ChannelSize { .. } => String::from_str(
                "unsupported colour channel size",
            ),
            FormatViolation::ChannelType { .. } => String::from_str(
                "unsupported colour channel type",
            ),
            FormatViolation::TooLarge { width, height } => {
                let mut text = String::from_str("image too large: ");
                append_decimal(&mut text, *width as u64);
                text.append("x");
                append_decimal(&mut text, *height as u64);
                text
            },
        }
    }
}

/// What went wrong, without the cause that a failed block decompression
/// carries along. Contracts are stated over this type.
#[derive(Debug, Copy, Clone, PartialEq, Eq, Structural)]
pub enum ParseFailure {
    UnexpectedEnd,
    InvalidFormat(FormatViolation),
    Unsupported(AceSurfaceFormat),
    DecodeError,
}

/// The error of a decode.
#[derive(Debug)]
pub enum AceParseError {
    /// A read ran past the end of the buffer.
    UnexpectedEnd,
    /// The buffer is readable but describes no valid texture.
    InvalidFormat(FormatViolation),
    /// The surface format is known but its decoding is not provided.
    Unsupported(AceSurfaceFormat),
    /// Block decompression failed; the cause is carried along.
    DecodeError(image::ImageError),
}

impl View for AceParseError {
    type V = ParseFailure;

    open spec fn view(&self) -> ParseFailure {
        match self {
            AceParseError::UnexpectedEnd => ParseFailure::UnexpectedEnd,
            AceParseError::InvalidFormat(v) => ParseFailure::InvalidFormat(*v),
            AceParseError::Unsupported(f) => ParseFailure::Unsupported(*f),
            AceParseError::DecodeError(_) => ParseFailure::DecodeError,
        }
    }
}

impl From<image::ImageError> for AceParseError {
    /// A failed block decompression becomes a decode error that carries it.
    fn from(cause: image::ImageError) -> (e: Self) {
        AceParseError::DecodeError(cause)
    }
}

impl vstd::std_specs::convert::FromSpecImpl<image::ImageError> for AceParseError {
    open spec fn obeys_from_spec() -> bool {
        true
    }

    open spec fn from_spec(cause: image::ImageError) -> Self {
        AceParseError::DecodeError(cause)
    }
}

impl AceParseError {
    /// The failure without its cause.
    pub fn failure(&self) -> (f: ParseFailure)
        ensures
            f == self@,
    {
        match self {
            AceParseError::UnexpectedEnd => ParseFailure::UnexpectedEnd,
            AceParseError::InvalidFormat(v) => ParseFailure::InvalidFormat(*v),
            AceParseError::Unsupported(f) => ParseFailure::Unsupported(*f),
            AceParseError::DecodeError(_) => ParseFailure::DecodeError,
        }
    }
}

} // verus!
