//! Decoder for ACE textures: a legacy game-texture container that stores either
//! a DXT block-compressed surface or a raw surface made of per-scanline channel
//! planes. The decoder turns a header-stripped, inflated ACE buffer into an
//! RGBA8 bitmap, and every step of it carries a machine-checked contract.
//!
//! [`AceTexture::from_data`] is the entry point and [`ace_decode`] says what it
//! returns. The modules follow the layout of a buffer: [`header`], [`channel`]
//! table, then either a block stream ([`dxt`]) or channel [`planes`].
//! [`guarantees`] holds what is proved of every decode, and [`container`]
//! reads the tag of the file that wraps a buffer on disk.

pub mod bitmap;
pub mod channel;
pub mod container;
pub mod cursor;
pub mod dxt;
pub mod error;
pub mod guarantees;
pub mod header;
pub mod planes;
pub mod surface;
pub mod texture;

pub use bitmap::{Image, ImageView};
pub use channel::{AceChannel, AceChannelId};
pub use container::{container_kind, container_payload, is_file_compressed, ContainerKind};
pub use cursor::ByteCursor;
pub use dxt::DxtVariant;
pub use error::{AceParseError, FormatViolation, ParseFailure};
pub use header::AceHeader;
pub use surface::{AceFormatOptions, AceSurfaceFormat};
pub use texture::{ace_decode, AceTexture};
