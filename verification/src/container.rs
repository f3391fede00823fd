//! The container that wraps an ACE buffer on disk: a 16-byte header whose
//! first eight bytes are a tag, then the payload, which the tag declares to
//! be stored as it is or deflated as a whole.

use vstd::prelude::*;

verus! {

/// Length of the container header; the payload starts here.
pub const CONTAINER_HEADER_LEN: usize = 16;

/// The seven bytes `SIMISA@` that open both tags.
pub open spec fn tag_stem() -> Seq<u8> {
    seq![0x53u8, 0x49u8, 0x4Du8, 0x49u8, 0x53u8, 0x41u8, 0x40u8]
}

/// The tag `SIMISA@F` of a container with a deflated payload.
pub open spec fn compressed_tag() -> Seq<u8> {
    tag_stem().push(0x46u8)
}

/// The tag `SIMISA@@` of a container whose payload is stored as it is.
pub open spec fn uncompressed_tag() -> Seq<u8> {
    tag_stem().push(0x40u8)
}

/// What the tag of a container says of its payload.
#[derive(Debug, Copy, Clone, PartialEq, Eq, Structural)]
pub enum ContainerKind {
    Compressed,
    Uncompressed,
    /// Neither tag; such a payload is taken as stored.
    Unknown,
}

/// What the first eight bytes say of the payload.
pub open spec fn kind_of(data: Seq<u8>) -> ContainerKind {
    if data.subrange(0, 8) == compressed_tag() {
        ContainerKind::Compressed
    } else if data.subrange(0, 8) == uncompressed_tag() {
        ContainerKind::Uncompressed
    } else {
        ContainerKind::Unknown
    }
}

/// Reads the tag of a container.
pub fn container_kind(data: &[u8]) -> (kind: ContainerKind)
    requires
        data@.len() >= 8,
    ensures
        kind == kind_of(data@),
{
    let stem = data[0] == 0x53 && data[1] == 0x49 && data[2] == 0x4D && data[3] == 0x49 && data[4]
        == 0x53 && data[5] == 0x41 && data[6] == 0x40;
    proof {
        let tag = data@.subrange(0, 8);
        assert(tag.len() == 8);
        assert(compressed_tag().len() == 8 && uncompressed_tag().len() == 8);
        if stem && data[7] == 0x46 {
            assert(tag =~= compressed_tag());
        }
        if stem && data[7] == 0x40 {
            assert(tag =~= uncompressed_tag());
        }
        if tag == compressed_tag() || tag == uncompressed_tag() {
            assert(tag[0] == data@[0] && tag[1] == data@[1] && tag[2] == data@[2] && tag[3]
                == data@[3] && tag[4] == data@[4] && tag[5] == data@[5] && tag[6] == data@[6]
                && tag[7] == data@[7]);
            assert(tag_stem()[0] == 0x53 && tag_stem()[6] == 0x40);
        }
    }
    if stem && data[7] == 0x46 {
        ContainerKind::Compressed
    } else if stem && data[7] == 0x40 {
        ContainerKind::Uncompressed
    } else {
        ContainerKind::Unknown
    }
}

/// Whether the container declares a deflated payload. A container with an
/// unknown tag counts as not compressed.
pub fn is_file_compressed(data: &[u8]) -> (compressed: bool)
    requires
        data@.len() >= 8,
    ensures
        compressed == (data@.subrange(0, 8) == compressed_tag()),
{
    match container_kind(data) {
        ContainerKind::Compressed => true,
        _ => false,
    }
}

/// The payload of a container: everything behind its header.
pub fn container_payload(data: &[u8]) -> (payload: &[u8])
    requires
        data@.len() >= CONTAINER_HEADER_LEN,
    ensures
        payload@ == data@.skip(16),
{
    let end = data.len();
    &data[CONTAINER_HEADER_LEN..end]
}

} // verus!
