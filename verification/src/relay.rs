//! The interactive relay's input side: a line of input is split into
//! fixed-capacity chunks, each carrying its valid length, and the chunks
//! are pushed onto the handoff queue in order.  The relay loop later
//! writes each chunk's valid bytes — and only those — to the endpoint.

use crate::chunk::concat_all;
use crate::chunk::lemma_concat_all_append;
use crate::chunk::lemma_concat_all_singleton;
use vstd::prelude::*;

verus! {

/// Capacity of one input chunk pushed onto the relay's handoff queue.
pub const CHUNK_CAPACITY: usize = 150;

/// One fixed-capacity block of input bytes plus its valid length: only
/// `data[..len]` carries input; the rest is padding, never transmitted.
pub struct InputChunk {
    data: Vec<u8>,
    len: usize,
}

/// The payloads the input line is cut into: full blocks of
/// `CHUNK_CAPACITY` bytes, in order, with a final shorter block for the
/// remainder.  An empty line yields no chunks.
pub open spec fn chunk_payloads(line: Seq<u8>) -> Seq<Seq<u8>>
    decreases line.len(),
{
    if line.len() == 0 {
        Seq::empty()
    } else if line.len() <= CHUNK_CAPACITY {
        seq![line]
    } else {
        seq![line.take(CHUNK_CAPACITY as int)] + chunk_payloads(line.skip(CHUNK_CAPACITY as int))
    }
}

impl InputChunk {
    /// Internal invariant: the block is exactly one capacity wide and the
    /// valid length names a nonempty prefix of it.
    pub closed spec fn wf(self) -> bool {
        self.data@.len() == CHUNK_CAPACITY && 1 <= self.len <= CHUNK_CAPACITY
    }

    /// The valid bytes this chunk carries.
    pub closed spec fn payload(self) -> Seq<u8> {
        self.data@.take(self.len as int)
    }

    /// Report the internal invariant, so an unverified caller can test it
    /// before relying on it.  `chunk_line` only builds chunks that satisfy it.
    pub fn is_well_formed(&self) -> (r: bool)
        ensures
            r == self.wf(),
    {
        self.data.len() == CHUNK_CAPACITY && 1 <= self.len && self.len <= CHUNK_CAPACITY
    }

    /// How many of the chunk's bytes are valid input.
    pub fn valid_len(&self) -> (r: usize)
        requires
            self.wf(),
        ensures
            r == self.payload().len(),
    {
        self.len
    }

    /// Copy out exactly the valid bytes, the ones the relay loop writes to
    /// the endpoint: never the padding behind them.
    pub fn valid_bytes(&self) -> (r: Vec<u8>)
        requires
            self.wf(),
        ensures
            r@ == self.payload(),
    {
        let mut out: Vec<u8> = Vec::new();
        let mut i: usize = 0;
        while i < self.len
            invariant
                self.wf(),
                i <= self.len,
                out@ == self.payload().take(i as int),
            decreases self.len - i,
        {
            out.push(self.data[i]);
            proof {
                assert(out@ =~= self.payload().take(i + 1 as int));
            }
            i = i + 1;
        }
        proof {
            assert(self.payload().take(self.len as int) =~= self.payload());
        }
        out
    }
}

/// Split one line of input into queue chunks: block `i` carries payload
/// `chunk_payloads(line)[i]`, so the original byte order is preserved
/// across chunks and nothing is added or lost.
pub fn chunk_line(line: &Vec<u8>) -> (r: Vec<InputChunk>)
    ensures
        r@.map_values(|c: InputChunk| c.payload()) == chunk_payloads(line@),
        forall|i: int| 0 <= i < r@.len() ==> (#[trigger] r@[i]).wf(),
{
    let mut r: Vec<InputChunk> = Vec::new();
    let mut start: usize = 0;
    proof {
        assert(line@.skip(0) =~= line@);
        assert(r@.map_values(|c: InputChunk| c.payload()) =~= Seq::<Seq<u8>>::empty());
        assert(Seq::<Seq<u8>>::empty() + chunk_payloads(line@) =~= chunk_payloads(line@));
    }
    while start < line.len()
        invariant
            start <= line@.len(),
            forall|i: int| 0 <= i < r@.len() ==> (#[trigger] r@[i]).wf(),
            r@.map_values(|c: InputChunk| c.payload()) + chunk_payloads(line@.skip(start as int))
                == chunk_payloads(line@),
        decreases line@.len() - start,
    {
        let rest: usize = line.len() - start;
        let len: usize = if rest < CHUNK_CAPACITY {
            rest
        } else {
            CHUNK_CAPACITY
        };
        let mut data: Vec<u8> = vec![0u8; CHUNK_CAPACITY];
        let mut i: usize = 0;
        while i < len
            invariant
                i <= len,
                start + len <= line.len(),
                len <= CHUNK_CAPACITY,
                data@.len() == CHUNK_CAPACITY,
                forall|j: int| 0 <= j < i ==> data@[j] == line@[start + j],
            decreases len - i,
        {
            data[i] = line[start + i];
            i = i + 1;
        }
        let chunk = InputChunk { data, len };
        proof {
            let tail = line@.skip(start as int);
            assert(chunk.payload() =~= tail.take(len as int));
            if tail.len() <= CHUNK_CAPACITY {
                assert(tail.take(len as int) =~= tail);
                assert(tail.skip(len as int) =~= line@.skip((start + len) as int));
                assert(chunk_payloads(line@.skip((start + len) as int)) =~= Seq::<
                    Seq<u8>,
                >::empty());
                assert(chunk_payloads(tail) =~= seq![chunk.payload()] + chunk_payloads(
                    line@.skip((start + len) as int),
                ));
            } else {
                assert(tail.skip(CHUNK_CAPACITY as int) =~= line@.skip((start + len) as int));
                assert(chunk_payloads(tail) =~= seq![chunk.payload()] + chunk_payloads(
                    line@.skip((start + len) as int),
                ));
            }
        }
        r.push(chunk);
        proof {
            assert(r@.map_values(|c: InputChunk| c.payload()) =~= r@.drop_last().map_values(
                |c: InputChunk| c.payload(),
            ).push(chunk.payload()));
            assert(r@.map_values(|c: InputChunk| c.payload()) + chunk_payloads(
                line@.skip((start + len) as int),
            ) =~= chunk_payloads(line@));
        }
        start = start + len;
    }
    proof {
        assert(line@.skip(start as int) =~= Seq::<u8>::empty());
        assert(r@.map_values(|c: InputChunk| c.payload()) =~= chunk_payloads(line@));
    }
    r
}

/// Reassembling the chunks of one line, in queue order, yields exactly
/// that line: chunking loses, duplicates and reorders nothing.
pub proof fn lemma_chunks_rebuild_line(line: Seq<u8>)
    ensures
        concat_all(chunk_payloads(line)) == line,
    decreases line.len(),
{
    if line.len() == 0 {
        assert(concat_all(chunk_payloads(line)) =~= line);
    } else if line.len() <= CHUNK_CAPACITY {
        lemma_concat_all_singleton(line);
    } else {
        let head = line.take(CHUNK_CAPACITY as int);
        let tail = line.skip(CHUNK_CAPACITY as int);
        lemma_chunks_rebuild_line(tail);
        lemma_concat_all_append(seq![head], chunk_payloads(tail));
        lemma_concat_all_singleton(head);
        assert(head + tail =~= line);
    }
}

/// Two lines queued one after the other produce two independent chunk
/// runs: the transmitted stream is the first line followed by the second,
/// with no chunk straddling the line boundary.  In particular, issuing the
/// same line twice yields two identical, independent round-trips.
pub proof fn lemma_lines_chunked_independently(a: Seq<u8>, b: Seq<u8>)
    ensures
        concat_all(chunk_payloads(a) + chunk_payloads(b)) == a + b,
{
    lemma_concat_all_append(chunk_payloads(a), chunk_payloads(b));
    lemma_chunks_rebuild_line(a);
    lemma_chunks_rebuild_line(b);
}

} // verus!
