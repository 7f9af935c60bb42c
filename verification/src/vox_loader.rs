//! The decoder: a cursor over the bytes of a model file and the values
//! decoded from them so far.

use crate::endian::{lemma_u32_at_subrange, read_u32_be, read_u32_le, u32_be_at, u32_le_at};
use crate::descent::Descent;
use crate::error::DecodeError;
use crate::format::{
    absorb, absorb_all, chunk_at, colors_at, decode, file_at, header_at, payload_end, tag_at,
    voxels_at, ChunkHeader, ChunkKind, ChunkRecord, Model, Walk, HEADER_LEN, PALETTE_BYTES,
};
use crate::laws::{lemma_absorb_all_concat, lemma_absorb_all_one, lemma_chunk_at_bounds};
use crate::palette::{default_palette_vec, PALETTE_LEN};
use vstd::prelude::*;
use vstd::slice::slice_subrange;

verus! {

/// One filled cell of a voxel layer: its place in the layer and the index of
/// its colour in the palette.
#[derive(Clone, Copy, Debug, PartialEq, Eq, Structural)]
pub struct Voxel {
    pub x: u8,
    pub y: u8,
    pub z: u8,
    pub c: u8,
}

/// The extent of the voxel volume along each axis.
#[derive(Clone, Copy, Debug, PartialEq, Eq, Structural)]
pub struct Size {
    pub x: u32,
    pub y: u32,
    pub z: u32,
}

/// The header of a chunk that has been read: its tag, the length of its
/// payload and the declared length of its children, both in bytes.
#[derive(Debug, PartialEq, Eq)]
pub struct Chunk {
    pub id: String,
    pub length: u32,
    pub child_length: u32,
}

impl View for Chunk {
    type V = ChunkHeader;

    open spec fn view(&self) -> ChunkHeader {
        ChunkHeader { tag: self.id@, content_len: self.length, children_len: self.child_length }
    }
}

impl Chunk {
    /// What the chunk means to the decoder.
    pub fn kind(&self) -> (kind: ChunkKind)
        ensures
            kind == self@.kind(),
    {
        if self.id == "MAIN".to_owned() && self.child_length > 0 {
            ChunkKind::Main
        } else if self.id == "SIZE".to_owned() {
            ChunkKind::Size
        } else if self.id == "XYZI".to_owned() {
            ChunkKind::VoxelData
        } else if self.id == "RGBA".to_owned() {
            ChunkKind::Palette
        } else {
            ChunkKind::Unknown
        }
    }
}

/// `String::push` of std appends the character to the end of the string.
pub assume_specification[ String::push ](s: &mut String, ch: char)
    ensures
        final(s)@ == old(s)@.push(ch),
;

/// The layers held by a vector of vectors.
pub open spec fn layers_of(voxels: Seq<Vec<Voxel>>) -> Seq<Seq<Voxel>> {
    Seq::new(voxels.len(), |i: int| voxels[i]@)
}

/// The tags held by a vector of strings.
pub open spec fn tags_of(tags: Seq<String>) -> Seq<Seq<char>> {
    Seq::new(tags.len(), |i: int| tags[i]@)
}

/// A model file being decoded: the bytes, the index of the next byte to
/// read, and what has been decoded so far.
#[derive(Debug)]
pub struct VoxLoader {
    pub data: Vec<u8>,
    pub offset: usize,
    /// The dimensions of the volume; zero until a `SIZE` chunk is read.
    pub size: Size,
    /// One list of voxels for each `XYZI` chunk read, in the order read.
    pub voxels: Vec<Vec<Voxel>>,
    /// The colours read from `RGBA` chunks; once `new` has returned, a
    /// palette of exactly 256 entries.
    pub palette: Vec<u32>,
    /// The tags of the chunks that were passed over as unknown, in the
    /// order met.
    pub skipped: Vec<String>,
}

impl VoxLoader {
    /// The bytes being decoded.
    pub open spec fn bytes(&self) -> Seq<u8> {
        self.data@
    }

    /// The index of the next byte to read.
    pub open spec fn position(&self) -> int {
        self.offset as int
    }

    /// What has been decoded so far.
    pub open spec fn model(&self) -> Model {
        Model {
            size: self.size,
            layers: layers_of(self.voxels@),
            palette: self.palette@,
            skipped: tags_of(self.skipped@),
        }
    }

    /// `self` is `before` with the cursor moved forward by `by` bytes and
    /// nothing else changed.
    pub open spec fn advanced(&self, before: &VoxLoader, by: int) -> bool {
        &&& self.bytes() == before.bytes()
        &&& self.position() == before.position() + by
        &&& self.size == before.size
        &&& self.voxels == before.voxels
        &&& self.palette == before.palette
        &&& self.skipped == before.skipped
    }

    /// A loader at the start of `data`, with nothing decoded.
    pub fn with_data(data: Vec<u8>) -> (loader: VoxLoader)
        ensures
            loader.bytes() == data@,
            loader.position() == 0,
            loader.model() == Model::empty(),
    {
        let loader = VoxLoader {
            data,
            offset: 0,
            size: Size { x: 0, y: 0, z: 0 },
            voxels: Vec::new(),
            palette: Vec::new(),
            skipped: Vec::new(),
        };
        assert(loader.model().layers =~= Model::empty().layers);
        assert(loader.model().skipped =~= Model::empty().skipped);
        loader
    }

    /// Decodes `data` as a model file.
    ///
    /// On success the loader holds the decoded size and layers and a
    /// palette of 256 entries: the file's own if the file brought exactly
    /// that many colours, else the fixed one.
    pub fn new(data: Vec<u8>) -> (r: Result<VoxLoader, DecodeError>)
        ensures
            match r {
                Ok(loader) => {
                    &&& decode(data@) == Ok::<Model, DecodeError>(loader.model())
                    &&& loader.palette@.len() == PALETTE_LEN
                    &&& loader.bytes() == data@
                },
                Err(e) => decode(data@) == Err::<Model, DecodeError>(e),
            },
    {
        let mut vl = VoxLoader::with_data(data);
        match vl.load() {
            Err(e) => {
                return Err(e);
            },
            Ok(_) => {},
        }
        if vl.palette.len() != PALETTE_LEN {
            vl.palette = default_palette_vec();
        }
        Ok(vl)
    }

    /// Decodes the file that starts at the cursor: checks the signature,
    /// passes over the version and reads the root chunk.
    pub fn load(&mut self) -> (r: Result<(), DecodeError>)
        ensures
            final(self).bytes() == old(self).bytes(),
            final(self).position() >= old(self).position(),
            match r {
                Ok(_) => {
                    &&& file_at(old(self).bytes(), old(self).position()) matches Ok(walk)
                    &&& final(self).position() == walk.end
                    &&& final(self).model() == absorb_all(
                        old(self).bytes(),
                        old(self).model(),
                        walk.records,
                    )
                },
                Err(e) => file_at(old(self).bytes(), old(self).position()) == Err::<
                    Walk,
                    DecodeError,
                >(e),
            },
    {
        let signature: String = self.read_string()?;
        if signature != "VOX ".to_owned() {
            return Err(DecodeError::BadSignature);
        }
        self.read_int(false)?;
        self.read_chunk()?;
        Ok(())
    }

    /// Reads one byte.
    pub fn read_byte(&mut self) -> (r: Result<u8, DecodeError>)
        ensures
            match r {
                Ok(b) => {
                    &&& old(self).position() < old(self).bytes().len()
                    &&& b == old(self).bytes()[old(self).position()]
                    &&& final(self).advanced(old(self), 1)
                },
                Err(e) => {
                    &&& e == DecodeError::TruncatedInput
                    &&& old(self).position() >= old(self).bytes().len()
                    &&& final(self).advanced(old(self), 0)
                },
            },
    {
        if self.offset >= self.data.len() {
            return Err(DecodeError::TruncatedInput);
        }
        let result: u8 = self.data[self.offset];
        self.offset += 1;
        Ok(result)
    }

    /// Reads four bytes as an unsigned integer, high byte first if
    /// `big_endian` and low byte first if not.
    pub fn read_int(&mut self, big_endian: bool) -> (r: Result<u32, DecodeError>)
        ensures
            match r {
                Ok(v) => {
                    &&& old(self).position() + 4 <= old(self).bytes().len()
                    &&& v == if big_endian {
                        u32_be_at(old(self).bytes(), old(self).position())
                    } else {
                        u32_le_at(old(self).bytes(), old(self).position())
                    }
                    &&& final(self).advanced(old(self), 4)
                },
                Err(e) => {
                    &&& e == DecodeError::TruncatedInput
                    &&& old(self).position() + 4 > old(self).bytes().len()
                    &&& final(self).advanced(old(self), 0)
                },
            },
    {
        if self.offset > self.data.len() || self.data.len() - self.offset < 4 {
            return Err(DecodeError::TruncatedInput);
        }
        let window = slice_subrange(self.data.as_slice(), self.offset, self.offset + 4);
        proof {
            lemma_u32_at_subrange(self.data@, self.offset as int);
        }
        let value: u32 = if big_endian {
            read_u32_be(window)
        } else {
            read_u32_le(window)
        };
        self.offset += 4;
        Ok(value)
    }

    /// Reads a four-character tag. Each byte becomes the character with
    /// that code point, ASCII or not.
    pub fn read_string(&mut self) -> (r: Result<String, DecodeError>)
        ensures
            match r {
                Ok(tag) => {
                    &&& old(self).position() + 4 <= old(self).bytes().len()
                    &&& tag@ == tag_at(old(self).bytes(), old(self).position())
                    &&& final(self).advanced(old(self), 4)
                },
                Err(e) => {
                    &&& e == DecodeError::TruncatedInput
                    &&& old(self).position() + 4 > old(self).bytes().len()
                    &&& final(self).advanced(old(self), 0)
                },
            },
    {
        if self.offset > self.data.len() || self.data.len() - self.offset < 4 {
            return Err(DecodeError::TruncatedInput);
        }
        let mut tag = String::new();
        let mut i: usize = 0;
        while i < 4
            invariant
                i <= 4,
                old(self).position() + 4 <= self.data.len(),
                self.advanced(old(self), i as int),
                tag@ == Seq::new(
                    i as nat,
                    |k: int| old(self).bytes()[old(self).position() + k] as char,
                ),
            decreases 4 - i,
        {
            tag.push(self.data[self.offset] as char);
            self.offset += 1;
            i += 1;
        }
        Ok(tag)
    }

    /// Moves the cursor over `count` bytes without looking at them.
    pub fn skip(&mut self, count: u32) -> (r: Result<(), DecodeError>)
        ensures
            match r {
                Ok(_) => {
                    &&& old(self).position() + count <= old(self).bytes().len()
                    &&& final(self).advanced(old(self), count as int)
                },
                Err(e) => {
                    &&& e == DecodeError::TruncatedInput
                    &&& old(self).position() + count > old(self).bytes().len()
                    &&& final(self).advanced(old(self), 0)
                },
            },
    {
        if self.offset > self.data.len() {
            return Err(DecodeError::TruncatedInput);
        }
        let left: usize = self.data.len() - self.offset;
        if (left as u64) < (count as u64) {
            return Err(DecodeError::TruncatedInput);
        }
        self.offset += count as usize;
        Ok(())
    }

    /// The record of the chunk whose header, `chunk`, ends at the cursor.
    pub open spec fn record_of(&self, chunk: &Chunk) -> ChunkRecord {
        ChunkRecord { at: self.position() - HEADER_LEN, head: chunk@ }
    }

    /// Reads a chunk header: the tag, the content length and the children
    /// length.
    pub fn read_header(&mut self) -> (r: Result<Chunk, DecodeError>)
        ensures
            match r {
                Ok(chunk) => {
                    &&& old(self).position() + HEADER_LEN <= old(self).bytes().len()
                    &&& chunk@ == header_at(old(self).bytes(), old(self).position())
                    &&& final(self).advanced(old(self), HEADER_LEN as int)
                },
                Err(e) => {
                    &&& e == DecodeError::TruncatedInput
                    &&& old(self).position() + HEADER_LEN > old(self).bytes().len()
                    &&& final(self).advanced(old(self), 0)
                },
            },
    {
        if self.offset > self.data.len() || self.data.len() - self.offset < HEADER_LEN {
            return Err(DecodeError::TruncatedInput);
        }
        let id: String = self.read_string()?;
        let length: u32 = self.read_int(false)?;
        let child_length: u32 = self.read_int(false)?;
        Ok(Chunk { id, length, child_length })
    }

    /// Decodes the payload of the chunk whose header `chunk` has just been
    /// read: a size replaces `size`, a voxel list is added to `voxels`,
    /// colours are added to `palette`, and the payload of an unknown chunk
    /// is passed over and its tag added to `skipped`. A container has no
    /// payload to read.
    #[verifier::loop_isolation(false)]
    pub fn read_payload(&mut self, chunk: &Chunk) -> (r: Result<(), DecodeError>)
        ensures
            final(self).bytes() == old(self).bytes(),
            final(self).position() >= old(self).position(),
            match r {
                Ok(_) => {
                    &&& payload_end(old(self).bytes(), old(self).record_of(chunk)) == Ok::<
                        int,
                        DecodeError,
                    >(final(self).position())
                    &&& final(self).model() == absorb(
                        old(self).bytes(),
                        old(self).model(),
                        old(self).record_of(chunk),
                    )
                },
                Err(e) => payload_end(old(self).bytes(), old(self).record_of(chunk)) == Err::<
                    int,
                    DecodeError,
                >(e),
            },
    {
        let ghost data = self.data@;
        let ghost first = self.offset as int;
        match chunk.kind() {
            ChunkKind::Main => {},
            ChunkKind::Size => {
                let x: u32 = self.read_int(false)?;
                let y: u32 = self.read_int(false)?;
                let z: u32 = self.read_int(false)?;
                self.size = Size { x, y, z };
            },
            ChunkKind::VoxelData => {
                let num_voxels: u32 = self.read_int(false)?;
                let mut voxels: Vec<Voxel> = Vec::new();
                let mut i: u32 = 0;
                while i < num_voxels
                    invariant
                        i <= num_voxels,
                        first + 4 + 4 * i <= data.len(),
                        self.advanced(old(self), 4 + 4 * i),
                        voxels@ == voxels_at(data, first + 4, i as nat),
                    decreases num_voxels - i,
                {
                    let x: u8 = self.read_byte()?;
                    let y: u8 = self.read_byte()?;
                    let z: u8 = self.read_byte()?;
                    let c: u8 = self.read_byte()?;
                    voxels.push(Voxel { x, y, z, c });
                    assert(voxels@ =~= voxels_at(data, first + 4, (i + 1) as nat));
                    i += 1;
                }
                self.voxels.push(voxels);
                assert(layers_of(self.voxels@) =~= layers_of(old(self).voxels@).push(voxels@));
            },
            ChunkKind::Palette => {
                if chunk.length != PALETTE_BYTES {
                    return Err(DecodeError::MalformedChunkTree);
                }
                let mut i: usize = 0;
                while i < PALETTE_LEN
                    invariant
                        i <= PALETTE_LEN,
                        i > 0 ==> first + 4 * i <= data.len(),
                        self.data@ == data,
                        self.offset == first + 4 * i,
                        self.size == old(self).size,
                        self.voxels == old(self).voxels,
                        self.skipped == old(self).skipped,
                        self.palette@ == old(self).palette@ + colors_at(data, first, i as nat),
                    decreases PALETTE_LEN - i,
                {
                    let color: u32 = self.read_int(true)?;
                    self.palette.push(color);
                    assert(self.palette@ =~= old(self).palette@ + colors_at(
                        data,
                        first,
                        (i + 1) as nat,
                    ));
                    i += 1;
                }
            },
            ChunkKind::Unknown => {
                self.skip(chunk.length)?;
                self.skipped.push(chunk.id.clone());
                assert(tags_of(self.skipped@) =~= tags_of(old(self).skipped@).push(chunk.id@));
            },
        }
        Ok(())
    }

    /// Decodes the chunk at the cursor, and for a container the chunks in
    /// it, into `size`, `voxels`, `palette` and `skipped`. Returns the
    /// chunk's header and leaves the cursor after everything that was read.
    ///
    /// A container's children are read until their costs, each the child's
    /// header and declared payload, have used up the container's children
    /// length; a child that costs more than is left is a fault.
    ///
    /// Containers may lie in containers to any depth: the containers that
    /// are open are kept on a stack of their own, not on the call stack.
    pub fn read_chunk(&mut self) -> (r: Result<Chunk, DecodeError>)
        ensures
            final(self).bytes() == old(self).bytes(),
            final(self).position() >= old(self).position(),
            match r {
                Ok(chunk) => {
                    &&& chunk_at(old(self).bytes(), old(self).position()) matches Ok(walk)
                    &&& chunk@ == walk.records[0].head
                    &&& final(self).position() == walk.end
                    &&& final(self).model() == absorb_all(
                        old(self).bytes(),
                        old(self).model(),
                        walk.records,
                    )
                },
                Err(e) => chunk_at(old(self).bytes(), old(self).position()) == Err::<
                    Walk,
                    DecodeError,
                >(e),
            },
    {
        let ghost data = self.data@;
        let ghost root_at = self.offset as int;
        let ghost before = self.model();
        let root: Chunk = self.read_header()?;
        let mut current = Chunk {
            id: root.id.clone(),
            length: root.length,
            child_length: root.child_length,
        };
        let ghost mut at: int = root_at;
        let mut inside = Descent::new(Ghost(data), Ghost(at));
        // `current` is the header that was read last; it starts at `at`.
        loop
            invariant
                self.data@ == data,
                data == old(self).bytes(),
                root_at == old(self).position(),
                before == old(self).model(),
                root_at <= at,
                at + HEADER_LEN == self.offset <= data.len(),
                current@ == header_at(data, at),
                root@ == header_at(data, root_at),
                inside.holds(data, at),
                inside.root(at) == root_at,
                self.model() == absorb_all(data, before, inside.met()),
            decreases data.len() - self.offset,
        {
            let ghost rec = ChunkRecord { at, head: current@ };
            let ghost so_far = self.model();
            let cost: u64 = current.length as u64 + HEADER_LEN as u64;
            proof {
                lemma_absorb_all_concat(data, before, inside.met(), seq![rec]);
                lemma_absorb_all_one(data, so_far, rec);
                assert(inside.met() + seq![rec] =~= inside.met().push(rec));
            }
            match current.kind() {
                ChunkKind::Main => {
                    // its children follow at once
                    inside.enter(current.child_length, cost, Ghost(data), Ghost(at));
                },
                _ => {
                    // the chunk ends with its payload, and with it every
                    // container of which it was the last child
                    match self.read_payload(&current) {
                        Err(e) => {
                            proof {
                                inside.lemma_fault(data, at, e);
                            }
                            return Err(e);
                        },
                        Ok(_) => {},
                    }
                    let ghost walk = Walk { end: self.offset as int, records: seq![rec] };
                    match inside.leave(cost, Ghost(data), Ghost(at), Ghost(walk)) {
                        Err(e) => {
                            return Err(e);
                        },
                        Ok(whole) => {
                            if whole {
                                proof {
                                    lemma_chunk_at_bounds(data, root_at);
                                }
                                return Ok(root);
                            }
                        },
                    }
                },
            }
            // some container has children left: the next one starts here
            proof {
                at = self.offset as int;
            }
            match self.read_header() {
                Err(e) => {
                    proof {
                        inside.lemma_fault(data, at, e);
                    }
                    return Err(e);
                },
                Ok(next) => {
                    current = next;
                },
            }
        }
    }
}

} // verus!
