//! The container format, stated over plain sequences of bytes.
//!
//! A file is a four-byte signature, a four-byte version and one root chunk.
//! A chunk is a twelve-byte header (a four-character tag, the length of its
//! payload, the declared length of its children) followed by the payload.
//! Only a `MAIN` chunk that declares children is followed by child chunks.
//!
//! Decoding has two halves. [`chunk_at`] walks the chunks and lists them in
//! the order in which they are met; [`absorb_all`] folds that list into a
//! [`Model`]. [`decode`] is the two together.

use crate::endian::{u32_be_at, u32_le_at};
use crate::error::DecodeError;
use crate::palette::{default_palette, PALETTE_LEN};
use crate::vox_loader::{Size, Voxel};
use vstd::prelude::*;

verus! {

/// Bytes in a chunk header: the tag and the two length fields.
pub const HEADER_LEN: usize = 12;

/// Bytes in the payload of a palette chunk: four for each of its colours.
pub const PALETTE_BYTES: u32 = 1024;

/// What a chunk means to the decoder.
#[derive(Clone, Copy, Debug, PartialEq, Eq, Structural)]
pub enum ChunkKind {
    /// A `MAIN` chunk that declares children: a container of chunks.
    Main,
    /// `SIZE`: the dimensions of the volume.
    Size,
    /// `XYZI`: one layer of voxels.
    VoxelData,
    /// `RGBA`: a palette.
    Palette,
    /// Anything else; its payload is skipped and its tag noted.
    Unknown,
}

/// The kind of a chunk with the given tag and declared children length.
/// A `MAIN` chunk without children has nothing to contain and counts as
/// unknown.
pub open spec fn kind_of(tag: Seq<char>, children_len: u32) -> ChunkKind {
    if tag == "MAIN"@ && children_len > 0 {
        ChunkKind::Main
    } else if tag == "SIZE"@ {
        ChunkKind::Size
    } else if tag == "XYZI"@ {
        ChunkKind::VoxelData
    } else if tag == "RGBA"@ {
        ChunkKind::Palette
    } else {
        ChunkKind::Unknown
    }
}

/// The three fields of a chunk header.
pub struct ChunkHeader {
    pub tag: Seq<char>,
    pub content_len: u32,
    pub children_len: u32,
}

impl ChunkHeader {
    /// What the chunk means to the decoder.
    pub open spec fn kind(self) -> ChunkKind {
        kind_of(self.tag, self.children_len)
    }

    /// What the chunk takes from its parent's budget of child bytes: its
    /// header and its declared payload.
    pub open spec fn cost(self) -> int {
        self.content_len + HEADER_LEN
    }
}

/// A chunk met during a walk: its header and where that header starts.
pub struct ChunkRecord {
    pub at: int,
    pub head: ChunkHeader,
}

impl ChunkRecord {
    /// Where the chunk's payload starts.
    pub open spec fn payload(self) -> int {
        self.at + HEADER_LEN
    }
}

/// The outcome of walking over chunks: the chunks met, in order, and the
/// position after the last byte read.
pub struct Walk {
    pub end: int,
    pub records: Seq<ChunkRecord>,
}

impl Walk {
    /// The walk that meets `first` and then goes on as `self` did.
    pub open spec fn after(self, first: Seq<ChunkRecord>) -> Walk {
        Walk { end: self.end, records: first + self.records }
    }
}

/// Four bytes as a tag: each byte is the code point of one character.
pub open spec fn tag_at(data: Seq<u8>, at: int) -> Seq<char> {
    Seq::new(4, |i: int| data[at + i] as char)
}

/// The header whose first byte is at `at`.
pub open spec fn header_at(data: Seq<u8>, at: int) -> ChunkHeader {
    ChunkHeader {
        tag: tag_at(data, at),
        content_len: u32_le_at(data, at + 4),
        children_len: u32_le_at(data, at + 8),
    }
}

/// Three little-endian dimensions, in the order x, y, z.
pub open spec fn size_at(data: Seq<u8>, at: int) -> Size {
    Size { x: u32_le_at(data, at), y: u32_le_at(data, at + 4), z: u32_le_at(data, at + 8) }
}

/// One voxel: four bytes in the order x, y, z, colour index.
pub open spec fn voxel_at(data: Seq<u8>, at: int) -> Voxel {
    Voxel { x: data[at], y: data[at + 1], z: data[at + 2], c: data[at + 3] }
}

/// `count` voxels laid end to end from `at` on.
pub open spec fn voxels_at(data: Seq<u8>, at: int, count: nat) -> Seq<Voxel> {
    Seq::new(count, |i: int| voxel_at(data, at + 4 * i))
}

/// `count` big-endian colours laid end to end from `at` on.
pub open spec fn colors_at(data: Seq<u8>, at: int, count: nat) -> Seq<u32> {
    Seq::new(count, |i: int| u32_be_at(data, at + 4 * i))
}

/// The voxel count that opens the payload of a voxel-data chunk.
pub open spec fn voxel_count(data: Seq<u8>, r: ChunkRecord) -> nat {
    u32_le_at(data, r.payload()) as nat
}

/// Where the cursor stands once the payload of the chunk `r` has been read,
/// or why it cannot be read. A container has no payload of its own to read.
pub open spec fn payload_end(data: Seq<u8>, r: ChunkRecord) -> Result<int, DecodeError> {
    let p = r.payload();
    match r.head.kind() {
        ChunkKind::Main => Ok(p),
        ChunkKind::Size => if p + 12 <= data.len() {
            Ok(p + 12)
        } else {
            Err(DecodeError::TruncatedInput)
        },
        ChunkKind::VoxelData => if p + 4 <= data.len() && p + 4 + 4 * voxel_count(data, r)
            <= data.len() {
            Ok(p + 4 + 4 * voxel_count(data, r))
        } else {
            Err(DecodeError::TruncatedInput)
        },
        ChunkKind::Palette => if r.head.content_len != PALETTE_BYTES {
            Err(DecodeError::MalformedChunkTree)
        } else if p + PALETTE_BYTES <= data.len() {
            Ok(p + PALETTE_BYTES)
        } else {
            Err(DecodeError::TruncatedInput)
        },
        ChunkKind::Unknown => if p + r.head.content_len <= data.len() {
            Ok(p + r.head.content_len)
        } else {
            Err(DecodeError::TruncatedInput)
        },
    }
}

/// The walk over the chunk whose header starts at `pos`: the chunk itself
/// first, then, for a container, everything met among its children.
pub open spec fn chunk_at(data: Seq<u8>, pos: int) -> Result<Walk, DecodeError>
    decreases data.len() - pos, 0int,
{
    if pos < 0 || pos + HEADER_LEN > data.len() {
        Err(DecodeError::TruncatedInput)
    } else {
        let r = ChunkRecord { at: pos, head: header_at(data, pos) };
        match payload_end(data, r) {
            Err(e) => Err(e),
            Ok(end) => if r.head.kind() == ChunkKind::Main {
                match children_at(data, end, r.head.children_len as nat) {
                    Err(e) => Err(e),
                    Ok(w) => Ok(w.after(seq![r])),
                }
            } else {
                Ok(Walk { end, records: seq![r] })
            },
        }
    }
}

/// The walk over the children of a container, from `pos` on, while
/// `remaining` of the declared children bytes are unaccounted for.
///
/// Each child takes its [`ChunkHeader::cost`] from `remaining`, whatever it
/// read; the walk ends when nothing remains, and a child that costs more
/// than remains is a fault.
///
/// A chunk always ends beyond its own header
/// ([`crate::laws::lemma_chunk_at_bounds`]), so the test on `child.end` never
/// fails. It is there to make the recursion well-founded.
pub open spec fn children_at(data: Seq<u8>, pos: int, remaining: nat) -> Result<
    Walk,
    DecodeError,
>
    decreases data.len() - pos, 1int,
{
    if remaining == 0 {
        Ok(Walk { end: pos, records: Seq::empty() })
    } else {
        match chunk_at(data, pos) {
            Err(e) => Err(e),
            Ok(child) => {
                let cost = child.records[0].head.cost();
                if cost > remaining {
                    Err(DecodeError::MalformedChunkTree)
                } else if !(pos < child.end <= data.len()) {
                    Err(DecodeError::TruncatedInput)
                } else {
                    match children_at(data, child.end, (remaining - cost) as nat) {
                        Err(e) => Err(e),
                        Ok(rest) => Ok(rest.after(child.records)),
                    }
                }
            },
        }
    }
}

/// The walk over a whole file that starts at `pos`: signature, version, root
/// chunk. The version is read and not looked at.
pub open spec fn file_at(data: Seq<u8>, pos: int) -> Result<Walk, DecodeError> {
    if pos < 0 || pos + 4 > data.len() {
        Err(DecodeError::TruncatedInput)
    } else if tag_at(data, pos) != "VOX "@ {
        Err(DecodeError::BadSignature)
    } else if pos + 8 > data.len() {
        Err(DecodeError::TruncatedInput)
    } else {
        chunk_at(data, pos + 8)
    }
}

/// What a decode yields: the size of the volume, the voxel layers, the
/// palette, and the tags of the chunks that were passed over as unknown.
pub struct Model {
    pub size: Size,
    pub layers: Seq<Seq<Voxel>>,
    pub palette: Seq<u32>,
    pub skipped: Seq<Seq<char>>,
}

impl Model {
    /// The model before any chunk is read.
    pub open spec fn empty() -> Model {
        Model {
            size: Size { x: 0, y: 0, z: 0 },
            layers: Seq::empty(),
            palette: Seq::empty(),
            skipped: Seq::empty(),
        }
    }

    /// The model with a palette of full length: its own if it has one of
    /// exactly 256 entries, else the fixed one.
    pub open spec fn with_full_palette(self) -> Model {
        if self.palette.len() == PALETTE_LEN {
            self
        } else {
            Model { palette: default_palette(), ..self }
        }
    }
}

/// The model after the chunk `r` has been read: a size chunk replaces the
/// size, a voxel-data chunk adds a layer, a palette chunk adds its colours
/// to the palette, an unknown chunk leaves its tag as a note, and a
/// container changes nothing by itself.
pub open spec fn absorb(data: Seq<u8>, m: Model, r: ChunkRecord) -> Model {
    match r.head.kind() {
        ChunkKind::Size => Model { size: size_at(data, r.payload()), ..m },
        ChunkKind::VoxelData => Model {
            layers: m.layers.push(voxels_at(data, r.payload() + 4, voxel_count(data, r))),
            ..m
        },
        ChunkKind::Palette => Model {
            palette: m.palette + colors_at(data, r.payload(), PALETTE_LEN as nat),
            ..m
        },
        ChunkKind::Unknown => Model { skipped: m.skipped.push(r.head.tag), ..m },
        ChunkKind::Main => m,
    }
}

/// The model after the chunks `records` have been read in order.
pub open spec fn absorb_all(data: Seq<u8>, m: Model, records: Seq<ChunkRecord>) -> Model
    decreases records.len(),
{
    if records.len() == 0 {
        m
    } else {
        absorb(data, absorb_all(data, m, records.drop_last()), records.last())
    }
}

/// The model that the bytes `data` encode, or the fault that a decoder
/// meets first.
pub open spec fn decode(data: Seq<u8>) -> Result<Model, DecodeError> {
    match file_at(data, 0) {
        Err(e) => Err(e),
        Ok(w) => Ok(absorb_all(data, Model::empty(), w.records).with_full_palette()),
    }
}

} // verus!
