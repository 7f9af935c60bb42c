//! What holds of every walk and of every decode.

use crate::endian::u32_be_at;
use crate::error::DecodeError;
use crate::format::{
    absorb, absorb_all, children_at, chunk_at, colors_at, decode, file_at, header_at, kind_of,
    payload_end, voxel_count, voxels_at, ChunkKind, ChunkRecord, Model, Walk, HEADER_LEN,
};
use crate::palette::default_palette;
use crate::vox_loader::Voxel;
use vstd::prelude::*;

verus! {

/// A chunk that can be walked ends past its header and within the bytes,
/// and the first chunk that its walk meets is the chunk itself.
pub proof fn lemma_chunk_at_bounds(data: Seq<u8>, pos: int)
    ensures
        chunk_at(data, pos) matches Ok(w) ==> {
            &&& 0 <= pos
            &&& pos + HEADER_LEN <= w.end <= data.len()
            &&& w.records.len() >= 1
            &&& w.records[0] == (ChunkRecord { at: pos, head: header_at(data, pos) })
        },
    decreases data.len() - pos, 0int,
{
    if 0 <= pos && pos + HEADER_LEN <= data.len() {
        let r = ChunkRecord { at: pos, head: header_at(data, pos) };
        if let Ok(end) = payload_end(data, r) {
            if r.head.kind() == ChunkKind::Main {
                lemma_children_at_bounds(data, end, r.head.children_len as nat);
            }
        }
    }
}

/// The children of a container end within the bytes, and not before the
/// place where they start.
pub proof fn lemma_children_at_bounds(data: Seq<u8>, pos: int, remaining: nat)
    requires
        0 <= pos <= data.len(),
    ensures
        children_at(data, pos, remaining) matches Ok(w) ==> pos <= w.end <= data.len(),
    decreases data.len() - pos, 1int,
{
    if remaining != 0 {
        lemma_chunk_at_bounds(data, pos);
        if let Ok(child) = chunk_at(data, pos) {
            let cost = child.records[0].head.cost();
            if cost <= remaining {
                lemma_children_at_bounds(data, child.end, (remaining - cost) as nat);
            }
        }
    }
}

/// One turn of the walk over a container's children: the next child is
/// walked, its cost is taken from what remains, and the walk goes on after
/// it. A child that costs more than remains is a malformed tree.
pub proof fn lemma_children_at_step(data: Seq<u8>, pos: int, remaining: nat)
    requires
        remaining > 0,
    ensures
        children_at(data, pos, remaining) == match chunk_at(data, pos) {
            Err(e) => Err::<Walk, DecodeError>(e),
            Ok(child) => {
                let cost = child.records[0].head.cost();
                if cost > remaining {
                    Err(DecodeError::MalformedChunkTree)
                } else {
                    match children_at(data, child.end, (remaining - cost) as nat) {
                        Err(e) => Err(e),
                        Ok(rest) => Ok(rest.after(child.records)),
                    }
                }
            },
        },
{
    lemma_chunk_at_bounds(data, pos);
}

/// Reading one list of chunks and then another is reading the two joined.
pub proof fn lemma_absorb_all_concat(
    data: Seq<u8>,
    m: Model,
    first: Seq<ChunkRecord>,
    second: Seq<ChunkRecord>,
)
    ensures
        absorb_all(data, m, first + second) == absorb_all(
            data,
            absorb_all(data, m, first),
            second,
        ),
    decreases second.len(),
{
    if second.len() == 0 {
        assert(first + second =~= first);
    } else {
        lemma_absorb_all_concat(data, m, first, second.drop_last());
        assert((first + second).drop_last() =~= first + second.drop_last());
        assert((first + second).last() == second.last());
    }
}

/// Reading a list of one chunk is reading that chunk.
pub proof fn lemma_absorb_all_one(data: Seq<u8>, m: Model, r: ChunkRecord)
    ensures
        absorb_all(data, m, seq![r]) == absorb(data, m, r),
{
    assert(seq![r].drop_last() =~= Seq::<ChunkRecord>::empty());
    assert(absorb_all(data, m, Seq::<ChunkRecord>::empty()) == m);
}

/// The chunk `r` lies within the bytes: its header stands at `r.at`, and
/// what its kind reads of its payload ends at or before the last byte.
pub open spec fn inside(data: Seq<u8>, r: ChunkRecord) -> bool {
    &&& 0 <= r.at
    &&& r.head == header_at(data, r.at)
    &&& payload_end(data, r) matches Ok(end) && r.payload() <= end <= data.len()
}

/// Every chunk met in the walk over a chunk lies within the bytes.
pub proof fn lemma_chunk_at_inside(data: Seq<u8>, pos: int)
    ensures
        chunk_at(data, pos) matches Ok(w) ==> forall|i: int|
            0 <= i < w.records.len() ==> inside(data, #[trigger] w.records[i]),
    decreases data.len() - pos, 0int,
{
    if 0 <= pos && pos + HEADER_LEN <= data.len() {
        let r = ChunkRecord { at: pos, head: header_at(data, pos) };
        if let Ok(end) = payload_end(data, r) {
            if r.head.kind() == ChunkKind::Main {
                lemma_children_at_inside(data, end, r.head.children_len as nat);
            }
        }
    }
}

/// Every chunk met in the walk over a container's children lies within
/// the bytes.
pub proof fn lemma_children_at_inside(data: Seq<u8>, pos: int, remaining: nat)
    ensures
        children_at(data, pos, remaining) matches Ok(w) ==> forall|i: int|
            0 <= i < w.records.len() ==> inside(data, #[trigger] w.records[i]),
    decreases data.len() - pos, 1int,
{
    if remaining != 0 {
        lemma_chunk_at_inside(data, pos);
        if let Ok(child) = chunk_at(data, pos) {
            let cost = child.records[0].head.cost();
            if cost <= remaining && pos < child.end <= data.len() {
                lemma_children_at_inside(data, child.end, (remaining - cost) as nat);
            }
        }
    }
}

/// A file that decodes was read within its bytes: the walk ends at or
/// before the last byte, and so does every chunk that it met.
pub proof fn law_walk_stays_inside(data: Seq<u8>)
    ensures
        file_at(data, 0) matches Ok(w) ==> {
            &&& w.end <= data.len()
            &&& forall|i: int| 0 <= i < w.records.len() ==> inside(data, #[trigger] w.records[i])
        },
{
    lemma_chunk_at_bounds(data, 8);
    lemma_chunk_at_inside(data, 8);
}

/// The four tags that the decoder knows differ from one another, so the tag
/// alone tells a size, a voxel-data and a palette chunk, and the tag with a
/// children length above zero tells a container.
pub proof fn lemma_kind_by_tag(tag: Seq<char>, children_len: u32)
    ensures
        kind_of(tag, children_len) == ChunkKind::Main <==> tag == "MAIN"@ && children_len > 0,
        kind_of(tag, children_len) == ChunkKind::Size <==> tag == "SIZE"@,
        kind_of(tag, children_len) == ChunkKind::VoxelData <==> tag == "XYZI"@,
        kind_of(tag, children_len) == ChunkKind::Palette <==> tag == "RGBA"@,
{
    reveal_strlit("MAIN");
    reveal_strlit("SIZE");
    reveal_strlit("XYZI");
    reveal_strlit("RGBA");
    assert("MAIN"@[0] == 'M');
    assert("SIZE"@[0] == 'S');
    assert("XYZI"@[0] == 'X');
    assert("RGBA"@[0] == 'R');
}

/// Every decoded model has a palette of exactly 256 entries, whether or
/// not the file brought one.
pub proof fn law_palette_is_full(data: Seq<u8>)
    ensures
        decode(data) matches Ok(m) ==> m.palette.len() == 256,
{
}

/// Chunks other than palette chunks leave the palette as it was.
pub proof fn lemma_palette_untouched(data: Seq<u8>, m: Model, records: Seq<ChunkRecord>)
    requires
        forall|i: int| 0 <= i < records.len() ==> records[i].head.tag != "RGBA"@,
    ensures
        absorb_all(data, m, records).palette == m.palette,
    decreases records.len(),
{
    if records.len() > 0 {
        lemma_palette_untouched(data, m, records.drop_last());
        lemma_kind_by_tag(records.last().head.tag, records.last().head.children_len);
    }
}

/// A file in which no `RGBA` chunk is met decodes to the fixed palette.
pub proof fn law_no_palette_chunk(data: Seq<u8>)
    requires
        file_at(data, 0) matches Ok(w) && forall|i: int|
            0 <= i < w.records.len() ==> w.records[i].head.tag != "RGBA"@,
    ensures
        decode(data) matches Ok(m) && m.palette == default_palette(),
{
    let w = file_at(data, 0)->Ok_0;
    lemma_palette_untouched(data, Model::empty(), w.records);
}

/// When the chunk at index `k` is the only palette chunk among `records`,
/// its 256 colours are what reading `records` adds to the palette.
pub proof fn lemma_palette_from_one(data: Seq<u8>, m: Model, records: Seq<ChunkRecord>, k: int)
    requires
        0 <= k < records.len(),
        records[k].head.tag == "RGBA"@,
        forall|i: int| 0 <= i < records.len() && i != k ==> records[i].head.tag != "RGBA"@,
    ensures
        absorb_all(data, m, records).palette == m.palette + colors_at(
            data,
            records[k].payload(),
            256,
        ),
    decreases records.len(),
{
    let last = records.last();
    lemma_kind_by_tag(last.head.tag, last.head.children_len);
    if k == records.len() - 1 {
        lemma_palette_untouched(data, m, records.drop_last());
    } else {
        lemma_palette_from_one(data, m, records.drop_last(), k);
    }
}

/// A file in which exactly one `RGBA` chunk is met decodes to that chunk's
/// palette: entry `i` is the `i`-th group of four payload bytes, read high
/// byte first.
pub proof fn law_one_palette_chunk(data: Seq<u8>, k: int)
    requires
        file_at(data, 0) matches Ok(w) && {
            &&& 0 <= k < w.records.len()
            &&& w.records[k].head.tag == "RGBA"@
            &&& forall|i: int|
                0 <= i < w.records.len() && i != k ==> w.records[i].head.tag != "RGBA"@
        },
    ensures
        decode(data) matches Ok(m) && file_at(data, 0) matches Ok(w) && {
            &&& w.records[k].head.content_len == 4 * 256
            &&& w.records[k].payload() + 4 * 256 <= data.len()
            &&& m.palette.len() == 256
            &&& forall|i: int|
                0 <= i < 256 ==> m.palette[i] == u32_be_at(data, w.records[k].payload() + 4 * i)
        },
{
    let w = file_at(data, 0)->Ok_0;
    lemma_palette_from_one(data, Model::empty(), w.records, k);
    law_walk_stays_inside(data);
    lemma_kind_by_tag(w.records[k].head.tag, w.records[k].head.children_len);
    assert(inside(data, w.records[k]));
}

/// The `XYZI` chunks among `records`, in the order met.
pub open spec fn voxel_chunks(records: Seq<ChunkRecord>) -> Seq<ChunkRecord> {
    records.filter(|r: ChunkRecord| r.head.tag == "XYZI"@)
}

/// The voxels that the `XYZI` chunk `r` holds: as many as its payload
/// declares, from the byte after the count on.
pub open spec fn layer_of(data: Seq<u8>, r: ChunkRecord) -> Seq<Voxel> {
    voxels_at(data, r.payload() + 4, voxel_count(data, r))
}

/// Reading `records` adds one layer for each `XYZI` chunk among them, in
/// the order met, and leaves the layers before them alone.
pub proof fn lemma_layers_from_voxel_chunks(data: Seq<u8>, m: Model, records: Seq<ChunkRecord>)
    ensures
        absorb_all(data, m, records).layers == m.layers + voxel_chunks(records).map_values(
            |r: ChunkRecord| layer_of(data, r),
        ),
    decreases records.len(),
{
    reveal(Seq::filter);
    let layer = |r: ChunkRecord| layer_of(data, r);
    if records.len() == 0 {
        assert(m.layers + voxel_chunks(records).map_values(layer) =~= m.layers);
    } else {
        let last = records.last();
        let front = records.drop_last();
        lemma_layers_from_voxel_chunks(data, m, front);
        lemma_kind_by_tag(last.head.tag, last.head.children_len);
        if last.head.tag == "XYZI"@ {
            assert(voxel_chunks(records) == voxel_chunks(front).push(last));
            assert(voxel_chunks(records).map_values(layer) =~= voxel_chunks(front).map_values(
                layer,
            ).push(layer_of(data, last)));
            assert(m.layers + voxel_chunks(records).map_values(layer) =~= (m.layers
                + voxel_chunks(front).map_values(layer)).push(layer_of(data, last)));
        } else {
            assert(voxel_chunks(records) == voxel_chunks(front));
        }
    }
}

/// Each `XYZI` chunk met makes a layer of its own: a decoded model has as
/// many layers as the file has such chunks, in the order met, and each layer
/// holds the voxels of its chunk and no others.
pub proof fn law_one_layer_per_voxel_chunk(data: Seq<u8>)
    requires
        file_at(data, 0) is Ok,
    ensures
        decode(data) matches Ok(m) && file_at(data, 0) matches Ok(w) && {
            &&& m.layers.len() == voxel_chunks(w.records).len()
            &&& forall|j: int|
                0 <= j < m.layers.len() ==> m.layers[j] == layer_of(
                    data,
                    voxel_chunks(w.records)[j],
                )
        },
{
    let w = file_at(data, 0)->Ok_0;
    lemma_layers_from_voxel_chunks(data, Model::empty(), w.records);
    let layers = voxel_chunks(w.records).map_values(|r: ChunkRecord| layer_of(data, r));
    assert(Model::empty().layers + layers =~= layers);
}

/// The chunk that starts at `start` can be walked, and its walk ends at
/// `end`.
pub open spec fn spans(data: Seq<u8>, start: int, end: int) -> bool {
    chunk_at(data, start) matches Ok(w) && w.end == end
}

/// Chunks lie end to end between the positions `posts`: one starts at each
/// position but the last, and ends where the next position is.
pub open spec fn end_to_end(data: Seq<u8>, posts: Seq<int>) -> bool {
    &&& posts.len() >= 1
    &&& forall|i: int, j: int|
        0 <= i && j == i + 1 && j < posts.len() ==> spans(
            data,
            #[trigger] posts[i],
            #[trigger] posts[j],
        )
}

/// What the chunks that start at `starts` take from their parent's
/// children length between them: for each its header and its declared
/// payload.
pub open spec fn declared_cost(data: Seq<u8>, starts: Seq<int>) -> int
    decreases starts.len(),
{
    if starts.len() == 0 {
        0
    } else {
        header_at(data, starts[0]).cost() + declared_cost(data, starts.drop_first())
    }
}

/// Every chunk between `posts` occupies what it declares: its header and
/// `content_len` bytes, no more and no fewer.
pub open spec fn all_tight(data: Seq<u8>, posts: Seq<int>) -> bool {
    forall|i: int, j: int|
        0 <= i && j == i + 1 && j < posts.len() ==> #[trigger] posts[j] - #[trigger] posts[i]
            == header_at(data, posts[i]).cost()
}

proof fn lemma_declared_cost_bounds(data: Seq<u8>, starts: Seq<int>)
    ensures
        declared_cost(data, starts) >= 12 * starts.len(),
    decreases starts.len(),
{
    if starts.len() > 0 {
        lemma_declared_cost_bounds(data, starts.drop_first());
    }
}

proof fn lemma_tight_cost(data: Seq<u8>, posts: Seq<int>)
    requires
        posts.len() >= 1,
        all_tight(data, posts),
    ensures
        declared_cost(data, posts.drop_last()) == posts.last() - posts[0],
    decreases posts.len(),
{
    if posts.len() >= 2 {
        let tail = posts.drop_first();
        assert forall|i: int, j: int| 0 <= i && j == i + 1 && j < tail.len() implies #[trigger] tail[j]
            - #[trigger] tail[i] == header_at(data, tail[i]).cost() by {
            assert(tail[i] == posts[i + 1]);
            assert(tail[j] == posts[j + 1]);
        }
        lemma_tight_cost(data, tail);
        assert(tail.drop_last() =~= posts.drop_last().drop_first());
        assert(posts[1] - posts[0] == header_at(data, posts[0]).cost());
    }
}

proof fn lemma_end_to_end_tail(data: Seq<u8>, posts: Seq<int>)
    requires
        end_to_end(data, posts),
        posts.len() >= 2,
    ensures
        end_to_end(data, posts.drop_first()),
        chunk_at(data, posts[0]) matches Ok(w) && w.end == posts[1],
{
    let tail = posts.drop_first();
    assert forall|i: int, j: int| 0 <= i && j == i + 1 && j < tail.len() implies spans(
        data,
        #[trigger] tail[i],
        #[trigger] tail[j],
    ) by {
        assert(tail[i] == posts[i + 1]);
        assert(tail[j] == posts[j + 1]);
        assert(spans(data, posts[i + 1], posts[j + 1]));
    }
    assert(spans(data, posts[0], posts[1]));
}

/// Children that lie end to end and whose costs add up to what remains are
/// all walked, and the walk ends where the last of them ends.
pub proof fn lemma_children_exact(data: Seq<u8>, posts: Seq<int>)
    requires
        end_to_end(data, posts),
    ensures
        declared_cost(data, posts.drop_last()) >= 0,
        children_at(data, posts[0], declared_cost(data, posts.drop_last()) as nat) matches Ok(w)
            && w.end == posts.last(),
    decreases posts.len(),
{
    lemma_declared_cost_bounds(data, posts.drop_last());
    if posts.len() >= 2 {
        let tail = posts.drop_first();
        let declared = declared_cost(data, posts.drop_last());
        lemma_end_to_end_tail(data, posts);
        lemma_children_exact(data, tail);
        lemma_children_at_step(data, posts[0], declared as nat);
        lemma_chunk_at_bounds(data, posts[0]);
        assert(tail.drop_last() =~= posts.drop_last().drop_first());
    }
}

/// Children that lie end to end, the last of which costs more than is left
/// for it, make a malformed tree.
pub proof fn lemma_children_overrun(data: Seq<u8>, posts: Seq<int>, declared: nat)
    requires
        end_to_end(data, posts),
        posts.len() >= 2,
        declared_cost(data, posts.drop_last().drop_last()) < declared < declared_cost(
            data,
            posts.drop_last(),
        ),
    ensures
        children_at(data, posts[0], declared) == Err::<Walk, DecodeError>(
            DecodeError::MalformedChunkTree,
        ),
    decreases posts.len(),
{
    let tail = posts.drop_first();
    lemma_declared_cost_bounds(data, posts.drop_last().drop_last());
    lemma_end_to_end_tail(data, posts);
    lemma_children_at_step(data, posts[0], declared);
    lemma_chunk_at_bounds(data, posts[0]);
    assert(tail.drop_last() =~= posts.drop_last().drop_first());
    if posts.len() > 2 {
        let cost = header_at(data, posts[0]).cost();
        assert(tail.drop_last().drop_last() =~= posts.drop_last().drop_last().drop_first());
        lemma_declared_cost_bounds(data, tail.drop_last().drop_last());
        lemma_children_overrun(data, tail, (declared - cost) as nat);
    } else {
        assert(posts.drop_last().drop_last() =~= Seq::<int>::empty());
        assert(tail.drop_last() =~= Seq::<int>::empty());
    }
}

/// A `MAIN` chunk whose children length is the exact sum of its children's
/// costs is walked to the end of its last child, with nothing remaining.
/// Where each child occupies what it declares, that is exactly the declared
/// number of bytes after the container's header.
///
/// `posts` holds where each child starts and, last, where the last child
/// ends.
pub proof fn law_container_accounts_exactly(data: Seq<u8>, pos: int, posts: Seq<int>)
    requires
        0 <= pos,
        pos + HEADER_LEN <= data.len(),
        header_at(data, pos).tag == "MAIN"@,
        posts.len() >= 2,
        posts[0] == pos + HEADER_LEN,
        end_to_end(data, posts),
        header_at(data, pos).children_len == declared_cost(data, posts.drop_last()),
    ensures
        chunk_at(data, pos) matches Ok(w) && w.end == posts.last(),
        all_tight(data, posts) ==> posts.last() == pos + HEADER_LEN + header_at(
            data,
            pos,
        ).children_len,
{
    let head = header_at(data, pos);
    lemma_declared_cost_bounds(data, posts.drop_last());
    lemma_kind_by_tag(head.tag, head.children_len);
    lemma_children_exact(data, posts);
    if all_tight(data, posts) {
        lemma_tight_cost(data, posts);
    }
}

/// A `MAIN` chunk whose children length runs out inside a child's cost is
/// a malformed tree: the walk does not go on into the bytes that follow.
///
/// `posts` holds where each child up to that one starts and, last, where
/// that one ends.
pub proof fn law_container_rejects_overrun(data: Seq<u8>, pos: int, posts: Seq<int>)
    requires
        0 <= pos,
        pos + HEADER_LEN <= data.len(),
        header_at(data, pos).tag == "MAIN"@,
        posts.len() >= 2,
        posts[0] == pos + HEADER_LEN,
        end_to_end(data, posts),
        declared_cost(data, posts.drop_last().drop_last()) < header_at(data, pos).children_len
            < declared_cost(data, posts.drop_last()),
    ensures
        chunk_at(data, pos) == Err::<Walk, DecodeError>(DecodeError::MalformedChunkTree),
{
    let head = header_at(data, pos);
    lemma_declared_cost_bounds(data, posts.drop_last().drop_last());
    lemma_kind_by_tag(head.tag, head.children_len);
    lemma_children_overrun(data, posts, head.children_len as nat);
}

/// A chunk of a tag that the decoder does not know, whose content length
/// reaches beyond the end of the bytes, is a truncated input: the walk reads
/// nothing past the end.
pub proof fn law_payload_beyond_end(data: Seq<u8>, pos: int)
    requires
        0 <= pos,
        pos + HEADER_LEN <= data.len(),
        header_at(data, pos).kind() == ChunkKind::Unknown,
        pos + HEADER_LEN + header_at(data, pos).content_len > data.len(),
    ensures
        chunk_at(data, pos) == Err::<Walk, DecodeError>(DecodeError::TruncatedInput),
{
}

} // verus!
