//! Splitting large id sets into request-sized chunks.
//!
//! The upstream batch-lookup endpoints accept at most [`CHUNK_LIMIT`] ids per
//! request, so a large id set is partitioned into an ordered list of chunks,
//! each non-empty and at most [`CHUNK_LIMIT`] long, whose concatenation is the
//! original id list.

use vstd::prelude::*;

verus! {

/// Upstream list endpoints accept at most this many ids per request.
pub const CHUNK_LIMIT: usize = 100;

/// How many chunk fetches a set of `n` ids needs with chunks of size `size`.
pub open spec fn spec_chunk_count(n: nat, size: nat) -> nat
    recommends
        size > 0,
    decreases n when size > 0
{
    if n == 0 {
        0
    } else if n <= size {
        1
    } else {
        1 + spec_chunk_count((n - size) as nat, size)
    }
}

/// The chunk count is exactly the ceiling of `n / size`.
pub proof fn lemma_chunk_count_is_ceil(n: nat, size: nat)
    requires
        size > 0,
    ensures
        spec_chunk_count(n, size) == (n + size - 1) / (size as int),
    decreases n,
{
    if n == 0 {
        assert((size - 1) / (size as int) == 0) by (nonlinear_arith)
            requires size > 0;
    } else if n <= size {
        assert((n + size - 1) / (size as int) == 1) by (nonlinear_arith)
            requires 0 < n <= size;
    } else {
        lemma_chunk_count_is_ceil((n - size) as nat, size);
        assert((n + size - 1) / (size as int) == 1 + (n - size + size - 1) / (size as int))
            by (nonlinear_arith)
            requires n > size > 0;
    }
}

/// Where chunk `j` of an `n`-item list ends (exclusive).
pub open spec fn spec_chunk_end(j: int, n: int, size: int) -> int {
    if size * (j + 1) <= n {
        size * (j + 1)
    } else {
        n
    }
}

/// Partitions `ids` in order into chunks of at most [`CHUNK_LIMIT`] ids each.
///
/// Chunk `j` is exactly the slice of `ids` from `CHUNK_LIMIT * j` up to
/// `spec_chunk_end(j, ..)`, so the concatenation of all chunks is `ids` and
/// every chunk but the last is full.
pub fn chunk_ids(ids: &Vec<String>) -> (chunks: Vec<Vec<String>>)
    ensures
        chunks@.len() == spec_chunk_count(ids@.len(), CHUNK_LIMIT as nat),
        forall|j: int| 0 <= j < chunks@.len() ==> #[trigger] chunks@[j]@ =~= ids@.subrange(
            CHUNK_LIMIT * j,
            spec_chunk_end(j, ids@.len() as int, CHUNK_LIMIT as int),
        ),
{
    let n = ids.len();
    let mut chunks: Vec<Vec<String>> = Vec::new();
    let mut start: usize = 0;
    while start < n
        invariant
            n == ids@.len(),
            start <= n,
            start == CHUNK_LIMIT * chunks@.len() || start == n,
            chunks@.len() + spec_chunk_count((n - start) as nat, CHUNK_LIMIT as nat)
                == spec_chunk_count(n as nat, CHUNK_LIMIT as nat),
            forall|j: int| 0 <= j < chunks@.len() ==> #[trigger] chunks@[j]@ =~= ids@.subrange(
                CHUNK_LIMIT * j,
                spec_chunk_end(j, n as int, CHUNK_LIMIT as int),
            ),
        decreases n - start,
    {
        let end = if n - start >= CHUNK_LIMIT {
            start + CHUNK_LIMIT
        } else {
            n
        };
        let mut chunk: Vec<String> = Vec::new();
        let mut k = start;
        while k < end
            invariant
                n == ids@.len(),
                start <= k <= end <= n,
                chunk@ =~= ids@.subrange(start as int, k as int),
            decreases end - k,
        {
            chunk.push(ids[k].clone());
            k = k + 1;
        }
        proof {
            let m = chunks@.len() as int;
            assert(CHUNK_LIMIT * (m + 1) == CHUNK_LIMIT * m + CHUNK_LIMIT) by (nonlinear_arith);
        }
        chunks.push(chunk);
        start = end;
    }
    chunks
}

} // verus!
