//! The containers that the chunk reader is inside of, kept on a stack in
//! place of recursion.
//!
//! For each open container the stack holds what is left of its children
//! length. Beside it, for the proof alone, an [`OpenFrame`] says how the
//! walk over that container follows from the walk over the rest of its
//! children. [`Descent::enter`] and [`Descent::leave`] keep these true; when
//! the last container closes they give the walk over the outermost chunk.

use crate::error::DecodeError;
use crate::format::{
    children_at, chunk_at, header_at, ChunkKind, ChunkRecord, Walk, HEADER_LEN,
};
use crate::laws::{lemma_children_at_step, lemma_chunk_at_bounds};
use vstd::prelude::*;

verus! {

/// A container some of whose children have been read.
pub struct OpenFrame {
    /// Where the container's header starts.
    pub at: int,
    /// Where the child that is read next, or is being read, starts.
    pub child: int,
    /// The children length that is left for that child and those after it.
    pub remaining: nat,
    /// The container itself and all that was met in the children before.
    pub met: Seq<ChunkRecord>,
}

/// The outcome `rest` of a walk, with the chunks `met` before it.
pub open spec fn prefixed(met: Seq<ChunkRecord>, rest: Result<Walk, DecodeError>) -> Result<
    Walk,
    DecodeError,
> {
    match rest {
        Err(e) => Err(e),
        Ok(w) => Ok(w.after(met)),
    }
}

/// The walk over the container is what was met so far and then the walk
/// over its remaining children; and something remains.
pub open spec fn frame_ok(data: Seq<u8>, f: OpenFrame) -> bool {
    &&& f.remaining > 0
    &&& chunk_at(data, f.at) == prefixed(f.met, children_at(data, f.child, f.remaining))
}

/// Every frame holds, each container is the next child of the one below
/// it, and the next child of the innermost starts at `next`.
pub open spec fn frames_ok(data: Seq<u8>, frames: Seq<OpenFrame>, next: int) -> bool
    decreases frames.len(),
{
    frames.len() > 0 ==> {
        &&& frame_ok(data, frames.last())
        &&& frames.last().child == next
        &&& frames_ok(data, frames.drop_last(), frames.last().at)
    }
}

/// All that was met in the open containers, outermost first: the chunks
/// read so far, in the order read.
pub open spec fn met_so_far(frames: Seq<OpenFrame>) -> Seq<ChunkRecord>
    decreases frames.len(),
{
    if frames.len() == 0 {
        Seq::empty()
    } else {
        met_so_far(frames.drop_last()) + frames.last().met
    }
}

/// One more container opens: the frames hold with it on top.
proof fn lemma_frames_push(data: Seq<u8>, frames: Seq<OpenFrame>, f: OpenFrame)
    requires
        frames_ok(data, frames, f.at),
        frame_ok(data, f),
    ensures
        frames_ok(data, frames.push(f), f.child),
        met_so_far(frames.push(f)) == met_so_far(frames) + f.met,
        frames.len() > 0 ==> frames.push(f)[0] == frames[0],
{
    assert(frames.push(f).drop_last() =~= frames);
}

/// A fault in the next child of the innermost open container is the fault
/// of the outermost: no container goes on after a child that failed.
proof fn lemma_fault_rises(data: Seq<u8>, frames: Seq<OpenFrame>, next: int, e: DecodeError)
    requires
        frames_ok(data, frames, next),
        frames.len() > 0,
        chunk_at(data, next) == Err::<Walk, DecodeError>(e),
    ensures
        chunk_at(data, frames[0].at) == Err::<Walk, DecodeError>(e),
    decreases frames.len(),
{
    let top = frames.last();
    lemma_children_at_step(data, top.child, top.remaining);
    if frames.len() > 1 {
        lemma_fault_rises(data, frames.drop_last(), top.at, e);
    }
}

impl OpenFrame {
    /// The frame once the child `child` has been read and `left` of the
    /// children length remains.
    pub open spec fn moved_on(self, child: Walk, left: nat) -> OpenFrame {
        OpenFrame {
            at: self.at,
            child: child.end,
            remaining: left,
            met: self.met + child.records,
        }
    }
}

/// What follows for the innermost open container once its next child, the
/// chunk at `at`, has been read whole with the walk `child`.
///
/// A child that costs more than the container has left is a fault of the
/// outermost chunk. Else, while something is left, the container stays open
/// with the child among what it has met; and when nothing is left, the
/// container has been read whole in its turn.
proof fn lemma_child_read(data: Seq<u8>, frames: Seq<OpenFrame>, at: int, child: Walk)
    requires
        frames_ok(data, frames, at),
        frames.len() > 0,
        chunk_at(data, at) == Ok::<Walk, DecodeError>(child),
    ensures
        ({
            let top = frames.last();
            let below = frames.drop_last();
            let left = top.remaining - header_at(data, at).cost();
            let met = top.met + child.records;
            &&& frames_ok(data, below, top.at)
            &&& below.len() > 0 ==> below[0] == frames[0]
            &&& met_so_far(below) + met == met_so_far(frames) + child.records
            &&& left < 0 ==> chunk_at(data, frames[0].at) == Err::<Walk, DecodeError>(
                DecodeError::MalformedChunkTree,
            )
            &&& left == 0 ==> chunk_at(data, top.at) == Ok::<Walk, DecodeError>(
                Walk { end: child.end, records: met },
            )
            &&& left > 0 ==> {
                let moved = top.moved_on(child, left as nat);
                &&& frames_ok(data, below.push(moved), child.end)
                &&& met_so_far(below.push(moved)) == met_so_far(frames) + child.records
                &&& below.push(moved)[0].at == frames[0].at
            }
        }),
{
    let top = frames.last();
    let below = frames.drop_last();
    let left = top.remaining - header_at(data, at).cost();
    let met = top.met + child.records;
    lemma_children_at_step(data, at, top.remaining);
    lemma_chunk_at_bounds(data, at);
    assert(met_so_far(below) + met =~= met_so_far(frames) + child.records);
    if left < 0 {
        if below.len() > 0 {
            lemma_fault_rises(data, below, top.at, DecodeError::MalformedChunkTree);
        }
    } else {
        let rest = children_at(data, child.end, left as nat);
        assert(prefixed(top.met, prefixed(child.records, rest)) == prefixed(met, rest)) by {
            if let Ok(w) = rest {
                assert(top.met + (child.records + w.records) =~= met + w.records);
            }
        }
        if left > 0 {
            lemma_frames_push(data, below, top.moved_on(child, left as nat));
        } else {
            assert(met + Seq::<ChunkRecord>::empty() =~= met);
        }
    }
}

/// A container whose children are being read.
#[derive(Clone, Copy)]
pub struct OpenContainer {
    /// The children length that is left for the children still to read.
    pub remaining: u32,
    /// What the container takes from its own parent once it is complete.
    pub cost: u64,
}

/// The containers that the reader is inside of, outermost first.
pub struct Descent {
    open: Vec<OpenContainer>,
    frames: Ghost<Seq<OpenFrame>>,
}

impl Descent {
    /// The stack and the frames agree, and the frames hold for the bytes
    /// `data` when the next chunk to read starts at `next`.
    pub closed spec fn holds(&self, data: Seq<u8>, next: int) -> bool {
        &&& self.open@.len() == self.frames@.len()
        &&& forall|i: int|
            #![trigger self.open@[i]]
            0 <= i < self.open@.len() ==> self.open@[i].remaining == self.frames@[i].remaining
                && self.open@[i].cost == header_at(data, self.frames@[i].at).cost()
        &&& frames_ok(data, self.frames@, next)
    }

    /// Where the outermost chunk starts: the outermost open container, or
    /// the chunk at `at` if none is open.
    pub closed spec fn root(&self, at: int) -> int {
        if self.frames@.len() > 0 {
            self.frames@[0].at
        } else {
            at
        }
    }

    /// The chunks read so far, in the order read.
    pub closed spec fn met(&self) -> Seq<ChunkRecord> {
        met_so_far(self.frames@)
    }

    /// No container is open.
    pub fn new(Ghost(data): Ghost<Seq<u8>>, Ghost(at): Ghost<int>) -> (d: Descent)
        ensures
            d.holds(data, at),
            d.root(at) == at,
            d.met() == Seq::<ChunkRecord>::empty(),
    {
        Descent { open: Vec::new(), frames: Ghost(Seq::empty()) }
    }

    /// A fault in the chunk that is read next is the fault of the outermost
    /// chunk.
    pub proof fn lemma_fault(&self, data: Seq<u8>, next: int, e: DecodeError)
        requires
            self.holds(data, next),
            chunk_at(data, next) == Err::<Walk, DecodeError>(e),
        ensures
            chunk_at(data, self.root(next)) == Err::<Walk, DecodeError>(e),
    {
        if self.frames@.len() > 0 {
            lemma_fault_rises(data, self.frames@, next, e);
        }
    }

    /// Opens the container whose header has just been read at `at`, with
    /// `children_len` bytes of children to read and `cost` to pay to the
    /// container around it.
    pub fn enter(
        &mut self,
        children_len: u32,
        cost: u64,
        Ghost(data): Ghost<Seq<u8>>,
        Ghost(at): Ghost<int>,
    )
        requires
            old(self).holds(data, at),
            0 <= at,
            at + HEADER_LEN <= data.len(),
            header_at(data, at).kind() == ChunkKind::Main,
            children_len == header_at(data, at).children_len,
            cost == header_at(data, at).cost(),
        ensures
            final(self).holds(data, at + HEADER_LEN),
            final(self).root(at + HEADER_LEN) == old(self).root(at),
            final(self).met() == old(self).met().push(
                ChunkRecord { at, head: header_at(data, at) },
            ),
    {
        let ghost rec = ChunkRecord { at, head: header_at(data, at) };
        let ghost frame = OpenFrame {
            at,
            child: at + HEADER_LEN,
            remaining: children_len as nat,
            met: seq![rec],
        };
        proof {
            lemma_frames_push(data, self.frames@, frame);
            assert(self.met() + seq![rec] =~= self.met().push(rec));
        }
        self.open.push(OpenContainer { remaining: children_len, cost });
        self.frames = Ghost(self.frames@.push(frame));
    }

    /// Takes the cost of a chunk that has been read whole from the
    /// container it lies in. A container that has nothing left after that
    /// has been read whole in its turn, and its own cost is taken from the
    /// container around it, and so on outwards.
    ///
    /// Returns `true` when the outermost chunk has been read whole, `false`
    /// when some container has children left to read, and the fault when a
    /// cost is more than a container has left.
    pub fn leave(
        &mut self,
        cost: u64,
        Ghost(data): Ghost<Seq<u8>>,
        Ghost(at): Ghost<int>,
        Ghost(walk): Ghost<Walk>,
    ) -> (r: Result<bool, DecodeError>)
        requires
            old(self).holds(data, at),
            chunk_at(data, at) == Ok::<Walk, DecodeError>(walk),
            cost == header_at(data, at).cost(),
        ensures
            match r {
                Ok(whole) => if whole {
                    chunk_at(data, old(self).root(at)) == Ok::<Walk, DecodeError>(
                        Walk { end: walk.end, records: old(self).met() + walk.records },
                    )
                } else {
                    &&& final(self).holds(data, walk.end)
                    &&& final(self).root(walk.end) == old(self).root(at)
                    &&& final(self).met() == old(self).met() + walk.records
                },
                Err(e) => {
                    &&& e == DecodeError::MalformedChunkTree
                    &&& chunk_at(data, old(self).root(at)) == Err::<Walk, DecodeError>(e)
                },
            },
    {
        let mut cost: u64 = cost;
        let ghost mut done_at: int = at;
        let ghost mut done: Walk = walk;
        loop
            invariant
                self.holds(data, done_at),
                chunk_at(data, done_at) == Ok::<Walk, DecodeError>(done),
                cost == header_at(data, done_at).cost(),
                done.end == walk.end,
                self.root(done_at) == old(self).root(at),
                self.met() + done.records == old(self).met() + walk.records,
            decreases self.open.len(),
        {
            let ghost now = self.frames@;
            match self.open.pop() {
                None => {
                    proof {
                        assert(self.met() + done.records =~= done.records);
                    }
                    return Ok(true);
                },
                Some(top) => {
                    let ghost frame = now.last();
                    let ghost below = now.drop_last();
                    let ghost met = frame.met + done.records;
                    proof {
                        lemma_child_read(data, now, done_at, done);
                    }
                    if cost > top.remaining as u64 {
                        return Err(DecodeError::MalformedChunkTree);
                    }
                    let left: u32 = top.remaining - (cost as u32);
                    if left > 0 {
                        self.open.push(OpenContainer { remaining: left, cost: top.cost });
                        self.frames = Ghost(below.push(frame.moved_on(done, left as nat)));
                        return Ok(false);
                    }
                    cost = top.cost;
                    proof {
                        done = Walk { end: done.end, records: met };
                        done_at = frame.at;
                    }
                    self.frames = Ghost(below);
                },
            }
        }
    }
}

} // verus!
