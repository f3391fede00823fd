//! Colour channels of a raw ACE surface: their identities, their descriptors
//! and the channel table that lists them in on-disk plane order.

use vstd::prelude::*;
use crate::cursor::{ByteCursor, le_u64};
use crate::error::{AceParseError, FormatViolation, ParseFailure};

verus! {

/// Length of one entry of the channel table: two 64-bit fields.
pub const CHANNEL_ENTRY_LEN: usize = 16;

/// Identity of one channel plane.
#[derive(Debug, Copy, Clone, PartialEq, Eq, Structural)]
pub enum AceChannelId {
    Mask,
    Red,
    Green,
    Blue,
    Alpha,
}

impl AceChannelId {
    /// The channel identity that a type code stands for, if any.
    pub open spec fn of_code(code: int) -> Option<AceChannelId> {
        if code == 2 {
            Some(AceChannelId::Mask)
        } else if code == 3 {
            Some(AceChannelId::Red)
        } else if code == 4 {
            Some(AceChannelId::Green)
        } else if code == 5 {
            Some(AceChannelId::Blue)
        } else if code == 6 {
            Some(AceChannelId::Alpha)
        } else {
            None
        }
    }

    /// The type code under which this identity is stored.
    pub open spec fn code(self) -> int {
        match self {
            AceChannelId::Mask => 2,
            AceChannelId::Red => 3,
            AceChannelId::Green => 4,
            AceChannelId::Blue => 5,
            AceChannelId::Alpha => 6,
        }
    }

    /// Index of the RGBA output component that this channel supplies.
    /// Mask and Alpha both supply the opacity component.
    pub open spec fn component(self) -> int {
        match self {
            AceChannelId::Red => 0,
            AceChannelId::Green => 1,
            AceChannelId::Blue => 2,
            AceChannelId::Mask | AceChannelId::Alpha => 3,
        }
    }

    /// Resolves a raw type code.
    pub fn from_raw(r: i32) -> (id: Option<Self>)
        ensures
            id == Self::of_code(r as int),
    {
        match r {
            2 => Some(Self::Mask),
            3 => Some(Self::Red),
            4 => Some(Self::Green),
            5 => Some(Self::Blue),
            6 => Some(Self::Alpha),
            _ => None,
        }
    }

    /// Index, within an RGBA pixel, of the component this channel writes.
    pub fn get_pixel_idx(&self) -> (idx: usize)
        ensures
            idx == self.component(),
            idx < 4,
    {
        match self {
            Self::Mask | Self::Alpha => 3,
            Self::Blue => 2,
            Self::Green => 1,
            Self::Red => 0,
        }
    }
}

/// Every identity is found again from its own type code, and a code that
/// resolves is the code of the identity it resolves to.
pub proof fn lemma_channel_code_round_trip(id: AceChannelId, code: int)
    ensures
        AceChannelId::of_code(id.code()) == Some(id),
        AceChannelId::of_code(code) is Some ==> AceChannelId::of_code(code).unwrap().code() == code,
{
}

/// One entry of the channel table: how many bits each sample takes, and which
/// channel the samples belong to. A parsed channel is 1 or 8 bits wide.
#[derive(Debug, Copy, Clone, PartialEq, Eq, Structural)]
pub struct AceChannel {
    pub size: i32,
    pub id: AceChannelId,
}

impl AceChannel {
    /// The width is one the format allows.
    pub open spec fn valid(self) -> bool {
        self.size == 1 || self.size == 8
    }

    /// Samples are single bits, eight to a byte. Any other channel stores one
    /// byte per sample.
    pub open spec fn packed(self) -> bool {
        self.size == 1
    }

    /// Number of bytes that one scanline of this channel takes at the given
    /// image width: the width rounded up to whole bytes for a 1-bit channel,
    /// the width itself otherwise.
    pub open spec fn plane_len(self, width: int) -> int {
        if self.packed() {
            (width + 7) / 8
        } else {
            width
        }
    }

    /// Whether samples are single bits.
    pub fn is_packed(&self) -> (b: bool)
        ensures
            b == self.packed(),
    {
        self.size == 1
    }
}

/// What the table entry that starts at `at` comes to. The size is judged
/// before the type code is read.
pub open spec fn channel_entry(bytes: Seq<u8>, at: int) -> Result<AceChannel, ParseFailure> {
    if at + 8 > bytes.len() {
        Err(ParseFailure::UnexpectedEnd)
    } else if le_u64(bytes, at) != 1 && le_u64(bytes, at) != 8 {
        Err(
            ParseFailure::InvalidFormat(
                FormatViolation::ChannelSize { bits: le_u64(bytes, at) as u64 },
            ),
        )
    } else if at + 16 > bytes.len() {
        Err(ParseFailure::UnexpectedEnd)
    } else if AceChannelId::of_code(le_u64(bytes, at + 8)) is None {
        Err(
            ParseFailure::InvalidFormat(
                FormatViolation::ChannelType { type_code: le_u64(bytes, at + 8) as u64 },
            ),
        )
    } else {
        Ok(
            AceChannel {
                size: le_u64(bytes, at) as i32,
                id: AceChannelId::of_code(le_u64(bytes, at + 8)).unwrap(),
            },
        )
    }
}

/// What a table of `count` entries that starts at `at` comes to: the channels
/// in file order, or the failure of the first entry that has one.
pub open spec fn channel_table(bytes: Seq<u8>, at: int, count: nat) -> Result<
    Seq<AceChannel>,
    ParseFailure,
>
    decreases count,
{
    if count == 0 {
        Ok(Seq::empty())
    } else {
        match channel_table(bytes, at, (count - 1) as nat) {
            Err(f) => Err(f),
            Ok(channels) => match channel_entry(bytes, at + 16 * (count - 1)) {
                Err(f) => Err(f),
                Ok(channel) => Ok(channels.push(channel)),
            },
        }
    }
}

/// Reads one table entry at the cursor.
pub fn parse_channel(cursor: &mut ByteCursor) -> (r: Result<AceChannel, AceParseError>)
    ensures
        final(cursor).bytes() == old(cursor).bytes(),
        match r {
            Ok(c) => {
                &&& channel_entry(old(cursor).bytes(), old(cursor).offset() as int) == Ok::<
                    AceChannel,
                    ParseFailure,
                >(c)
                &&& c.valid()
                &&& final(cursor).offset() == old(cursor).offset() + 16
            },
            Err(e) => channel_entry(old(cursor).bytes(), old(cursor).offset() as int) == Err::<
                AceChannel,
                ParseFailure,
            >(e@),
        },
{
    let size = cursor.read_u64()?;
    if size != 1 && size != 8 {
        return Err(AceParseError::InvalidFormat(FormatViolation::ChannelSize { bits: size }));
    }
    let type_code = cursor.read_u64()?;
    let id = if type_code <= 6 {
        AceChannelId::from_raw(type_code as i32)
    } else {
        None
    };
    match id {
        Some(id) => Ok(AceChannel { size: size as i32, id }),
        None => Err(AceParseError::InvalidFormat(FormatViolation::ChannelType { type_code })),
    }
}

/// Reads a table of `count` entries at the cursor, keeping file order. A
/// negative count reads none. On success the cursor stands behind the table.
pub fn parse_channels(cursor: &mut ByteCursor, count: i32) -> (r: Result<
    Vec<AceChannel>,
    AceParseError,
>)
    ensures
        final(cursor).bytes() == old(cursor).bytes(),
        match r {
            Ok(channels) => {
                &&& channel_table(
                    old(cursor).bytes(),
                    old(cursor).offset() as int,
                    channels@.len(),
                ) == Ok::<Seq<AceChannel>, ParseFailure>(channels@)
                &&& channels@.len() == if count < 0 {
                    0
                } else {
                    count as int
                }
                &&& forall|k: int| 0 <= k < channels@.len() ==> (#[trigger] channels@[k]).valid()
                &&& final(cursor).offset() == old(cursor).offset() + 16 * channels@.len()
            },
            Err(e) => channel_table(
                old(cursor).bytes(),
                old(cursor).offset() as int,
                if count < 0 {
                    0
                } else {
                    count as nat
                },
            ) == Err::<Seq<AceChannel>, ParseFailure>(e@),
        },
{
    let ghost bytes = cursor.bytes();
    let ghost at: int = cursor.offset() as int;
    let total: i32 = if count < 0 {
        0
    } else {
        count
    };
    let mut channels: Vec<AceChannel> = Vec::new();
    let mut read: i32 = 0;
    assert(channels@ =~= Seq::<AceChannel>::empty());
    while read < total
        invariant
            0 <= read <= total,
            total == if count < 0 {
                0
            } else {
                count as int
            },
            bytes == old(cursor).bytes(),
            at == old(cursor).offset() as int,
            cursor.bytes() == bytes,
            cursor.offset() == at + 16 * read,
            channels@.len() == read,
            channel_table(bytes, at, read as nat) == Ok::<Seq<AceChannel>, ParseFailure>(
                channels@,
            ),
            forall|k: int| 0 <= k < channels@.len() ==> (#[trigger] channels@[k]).valid(),
        decreases total - read,
    {
        let ghost parsed = channels@;
        match parse_channel(cursor) {
            Ok(channel) => {
                channels.push(channel);
                read = read + 1;
                assert(channel_table(bytes, at, read as nat) == Ok::<
                    Seq<AceChannel>,
                    ParseFailure,
                >(parsed.push(channel)));
            },
            Err(e) => {
                assert(channel_table(bytes, at, (read + 1) as nat) == Err::<
                    Seq<AceChannel>,
                    ParseFailure,
                >(e@));
                proof {
                    lemma_channel_table_failure(bytes, at, (read + 1) as nat, total as nat);
                }
                return Err(e);
            },
        }
    }
    Ok(channels)
}

/// A table that fails at one length fails the same way at every greater one.
pub proof fn lemma_channel_table_failure(bytes: Seq<u8>, at: int, shorter: nat, longer: nat)
    requires
        shorter <= longer,
        channel_table(bytes, at, shorter) is Err,
    ensures
        channel_table(bytes, at, longer) == channel_table(bytes, at, shorter),
    decreases longer,
{
    if shorter < longer {
        lemma_channel_table_failure(bytes, at, shorter, (longer - 1) as nat);
    }
}

} // verus!
