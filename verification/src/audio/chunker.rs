//! Grouping of captured sample buffers into analysis chunks.
use vstd::prelude::*;

verus! {

/// Size of the chunk released once `available` samples are buffered, when
/// chunks are `chunk_size` samples long: the chunk size, or all that is
/// buffered if less, provided that is at least half a chunk.
pub open spec fn release_len(chunk_size: int, available: int) -> Option<int> {
    let n = if available < chunk_size {
        available
    } else {
        chunk_size
    };
    if n >= chunk_size / 2 {
        Some(n)
    } else {
        None
    }
}

/// How much `push` hands out, with `available` samples buffered and chunks
/// of `chunk_size`: a full chunk when there is one; everything buffered when
/// that is at least half a chunk but less than a full one; nothing when
/// less than half a chunk is buffered.
pub proof fn lemma_release_sizes(chunk_size: int, available: int)
    requires
        chunk_size >= 0,
        available >= 0,
    ensures
        available >= chunk_size ==> release_len(chunk_size, available) == Some(chunk_size),
        chunk_size / 2 <= available < chunk_size ==> release_len(chunk_size, available) == Some(available),
        available < chunk_size / 2 ==> release_len(chunk_size, available) is None,
{
}

/// Collects captured samples and hands them out in analysis chunks.
pub struct SampleChunker<T> {
    chunk_size: usize,
    buffer: Vec<T>,
}

impl<T> SampleChunker<T> {
    /// Samples per analysis chunk.
    pub closed spec fn chunk_size(&self) -> usize {
        self.chunk_size
    }

    /// Samples collected but not yet handed out.
    pub closed spec fn buffered(&self) -> Seq<T> {
        self.buffer@
    }

    /// An empty chunker for chunks of `chunk_size` samples.
    pub fn new(chunk_size: usize) -> (c: Self)
        ensures
            c.chunk_size() == chunk_size,
            c.buffered() == Seq::<T>::empty(),
    {
        SampleChunker { chunk_size, buffer: Vec::new() }
    }

    /// Adds a captured buffer; hands out the next chunk when at least half
    /// a chunk is available (a full chunk when there is one).
    pub fn push(&mut self, samples: Vec<T>) -> (chunk: Option<Vec<T>>)
        ensures
            final(self).chunk_size() == old(self).chunk_size(),
            ({
                let all = old(self).buffered() + samples@;
                match release_len(old(self).chunk_size() as int, all.len() as int) {
                    Some(n) => {
                        &&& chunk matches Some(c) && c@ == all.take(n)
                        &&& final(self).buffered() == all.skip(n)
                    },
                    None => {
                        &&& chunk is None
                        &&& final(self).buffered() == all
                    },
                }
            }),
    {
        let mut samples = samples;
        self.buffer.append(&mut samples);
        let available = self.buffer.len();
        let n = if available < self.chunk_size {
            available
        } else {
            self.chunk_size
        };
        if n >= self.chunk_size / 2 {
            let mut chunk = self.buffer.split_off(n);
            std::mem::swap(&mut self.buffer, &mut chunk);
            Some(chunk)
        } else {
            None
        }
    }

    /// Hands out everything still buffered, if anything is.
    pub fn take_rest(&mut self) -> (rest: Option<Vec<T>>)
        ensures
            final(self).chunk_size() == old(self).chunk_size(),
            final(self).buffered() == Seq::<T>::empty(),
            old(self).buffered().len() == 0 ==> rest is None,
            old(self).buffered().len() > 0 ==> (rest matches Some(r) && r@ == old(self).buffered()),
    {
        if self.buffer.len() == 0 {
            return None;
        }
        let mut all = Vec::new();
        std::mem::swap(&mut self.buffer, &mut all);
        Some(all)
    }
}

/// Chunking loses and invents no sample, in order: what a push hands out
/// followed by what stays buffered is exactly the old buffer followed by
/// the pushed samples, and a handed-out chunk is never longer than a chunk.
pub proof fn lemma_chunking_conserves_samples<T>(buffered: Seq<T>, samples: Seq<T>, chunk_size: int)
    requires
        chunk_size >= 0,
    ensures
        ({
            let all = buffered + samples;
            match release_len(chunk_size, all.len() as int) {
                Some(n) => all.take(n) + all.skip(n) == all && n <= chunk_size && n <= all.len(),
                None => all.len() < chunk_size,
            }
        }),
{
    let all = buffered + samples;
    if let Some(n) = release_len(chunk_size, all.len() as int) {
        assert(all.take(n) + all.skip(n) =~= all);
    }
}

} // verus!
