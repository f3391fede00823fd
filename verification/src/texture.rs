//! The decoder's entry point: from a header-stripped, inflated ACE buffer to
//! an RGBA8 image of its base mip level.

use vstd::prelude::*;
use crate::bitmap::{Image, ImageView};
use crate::channel::{channel_table, parse_channels};
use crate::cursor::ByteCursor;
use crate::dxt::{decode_raw_surface, raw_surface_spec};
use crate::error::{AceParseError, ParseFailure};
use crate::header::{parse_header, parse_header_spec};
use crate::planes::{channel_surface_spec, decode_channel_surface};

verus! {

/// What decoding a buffer comes to. The header is parsed and judged first,
/// then the channel table behind it; the option mask then chooses between
/// the two surface decoders, which read what follows the table.
pub open spec fn ace_decode(bytes: Seq<u8>) -> Result<ImageView, ParseFailure> {
    match parse_header_spec(bytes, 0) {
        Err(failure) => Err(failure),
        Ok(header) => match channel_table(bytes, 152, header.channel_entries()) {
            Err(failure) => Err(failure),
            Ok(channels) => if header.options.raw_data() {
                raw_surface_spec(bytes, 152 + 16 * (channels.len() as int), header)
            } else {
                channel_surface_spec(
                    bytes,
                    152 + 16 * (channels.len() as int),
                    header,
                    channels,
                )
            },
        },
    }
}

/// An ACE texture.
#[derive(Debug, Copy, Clone)]
pub struct AceTexture;

impl AceTexture {
    /// Decodes the base mip level of the texture in `bytes`. The result is
    /// the image that [`ace_decode`] describes, or the first failure on the
    /// way to it; nothing of a failed decode is handed out.
    pub fn from_data(bytes: &[u8]) -> (r: Result<Image, AceParseError>)
        ensures
            match r {
                Ok(img) => ace_decode(bytes@) == Ok::<ImageView, ParseFailure>(img@)
                    && img@.well_formed(),
                Err(e) => ace_decode(bytes@) == Err::<ImageView, ParseFailure>(e@),
            },
    {
        let mut cursor = ByteCursor::new(bytes);
        let header = parse_header(&mut cursor)?;
        let channels = parse_channels(&mut cursor, header.channel_count)?;
        if header.options.has_raw_data() {
            decode_raw_surface(&mut cursor, &header)
        } else {
            decode_channel_surface(&mut cursor, &header, channels.as_slice())
        }
    }
}

} // verus!
