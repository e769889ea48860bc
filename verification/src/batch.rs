//! Single and batched hashing over the input and output regions.
//!
//! Every operation reads its records from the start of the input region and
//! writes one 32-byte chaining value per record, densely and in record order,
//! from the start of the output region. Output bytes past the last chaining
//! value written are left as they were.

use crate::primitive::{
    chunk_cv_spec, compute_chunk_cv, compute_parent_cv, parent_cv_spec, CHUNK_LEN, OUT_LEN,
};
use crate::region::{
    chunk_record, cv_record, cv_stored, pair_left, pair_right, read_cv, write_cv, PAIR_LEN,
};
use vstd::prelude::*;
use vstd::slice::slice_subrange;

verus! {

/// The chaining value of the chunk made of the first `chunk_len` bytes of
/// `region`.
pub open spec fn staged_chunk_cv(
    region: Seq<u8>,
    chunk_len: int,
    chunk_index: u64,
    is_root: bool,
) -> Seq<u8> {
    chunk_cv_spec(region.subrange(0, chunk_len), chunk_index, is_root)
}

/// The chaining value of the pair staged in the first 64 bytes of `region`.
pub open spec fn staged_parent_cv(region: Seq<u8>, is_root: bool) -> Seq<u8> {
    parent_cv_spec(pair_left(region, 0), pair_right(region, 0), is_root)
}

/// The chaining value that a batch starting at `start_index` gives to the
/// `i`-th chunk record of `region`: an interior chunk at index
/// `start_index + i`.
pub open spec fn batch_chunk_cv(region: Seq<u8>, start_index: u64, i: int) -> Seq<u8> {
    chunk_cv_spec(chunk_record(region, i), (start_index + i) as u64, false)
}

/// Whether the pair at position `i` of a batch is the one designated by
/// `root_index`.
pub open spec fn pair_is_root(i: int, root_index: i32) -> bool {
    i == root_index as int
}

/// The chaining value that a batch gives to the `i`-th pair record of
/// `region`, flagged as root only at the designated position.
pub open spec fn batch_parent_cv(region: Seq<u8>, root_index: i32, i: int) -> Seq<u8> {
    parent_cv_spec(pair_left(region, i), pair_right(region, i), pair_is_root(i, root_index))
}

/// `after` is `before` with its first `count` 32-byte records replaced by
/// `cvs(0)`, `cvs(1)`, and so on, every later byte untouched.
pub open spec fn cvs_stored(
    before: Seq<u8>,
    after: Seq<u8>,
    count: int,
    cvs: spec_fn(int) -> Seq<u8>,
) -> bool {
    &&& after.len() == before.len()
    &&& forall|i: int| 0 <= i < count ==> #[trigger] cv_record(after, i) == cvs(i)
    &&& forall|k: int| count * 32 <= k < before.len() ==> after[k] == before[k]
}

/// Storing one more record behind `count` records already in place keeps
/// those and leaves `count + 1` in place.
proof fn lemma_store_next(
    before: Seq<u8>,
    mid: Seq<u8>,
    after: Seq<u8>,
    count: int,
    cvs: spec_fn(int) -> Seq<u8>,
)
    requires
        0 <= count,
        count * 32 + 32 <= before.len(),
        cvs_stored(before, mid, count, cvs),
        cv_stored(mid, after, count * 32, cvs(count)),
    ensures
        cvs_stored(before, after, count + 1, cvs),
{
    assert forall|i: int| 0 <= i < count + 1 implies #[trigger] cv_record(after, i) == cvs(i) by {
        if i < count {
            assert(cv_record(after, i) =~= cv_record(mid, i));
        }
    }
}

/// Hashes the chunk staged in the first `chunk_len` bytes of `input` and
/// stores its chaining value at the start of `output`. A chunk is the root
/// only where it is the whole stream, so the root flag goes with index zero.
pub fn chunk_cv(
    input: &[u8],
    output: &mut [u8],
    chunk_len: usize,
    chunk_index: u64,
    is_root: bool,
)
    requires
        chunk_len <= CHUNK_LEN,
        chunk_len <= input.len(),
        is_root ==> chunk_index == 0,
        old(output).len() >= 32,
    ensures
        cv_stored(
            old(output)@,
            final(output)@,
            0,
            staged_chunk_cv(input@, chunk_len as int, chunk_index, is_root),
        ),
{
    let data = slice_subrange(input, 0, chunk_len);
    let cv = compute_chunk_cv(data, chunk_index, is_root);
    write_cv(output, 0, &cv);
}

/// Combines the pair staged in the first 64 bytes of `input`, left child
/// first, and stores the parent's chaining value at the start of `output`.
pub fn parent_cv(input: &[u8], output: &mut [u8], is_root: bool)
    requires
        input.len() >= 64,
        old(output).len() >= 32,
    ensures
        cv_stored(old(output)@, final(output)@, 0, staged_parent_cv(input@, is_root)),
{
    let left = read_cv(input, 0);
    let right = read_cv(input, OUT_LEN);
    let cv = compute_parent_cv(&left, &right, is_root);
    write_cv(output, 0, &cv);
}

/// Hashes `num_chunks` full chunk records of `input` as interior chunks, the
/// `i`-th at chunk index `start_index + i`, and stores their chaining values
/// in record order from the start of `output`.
pub fn batch_chunk_cvs(input: &[u8], output: &mut [u8], num_chunks: usize, start_index: u64)
    requires
        num_chunks * 1024 <= input.len(),
        num_chunks * 32 <= old(output).len(),
        num_chunks == 0 || start_index + num_chunks - 1 <= u64::MAX,
    ensures
        cvs_stored(
            old(output)@,
            final(output)@,
            num_chunks as int,
            |i: int| batch_chunk_cv(input@, start_index, i),
        ),
{
    let ghost cvs = |i: int| batch_chunk_cv(input@, start_index, i);
    let mut i: usize = 0;
    while i < num_chunks
        invariant
            i <= num_chunks,
            num_chunks * 1024 <= input.len(),
            num_chunks * 32 <= old(output).len(),
            num_chunks == 0 || start_index + num_chunks - 1 <= u64::MAX,
            cvs == (|i: int| batch_chunk_cv(input@, start_index, i)),
            cvs_stored(old(output)@, output@, i as int, cvs),
        decreases num_chunks - i,
    {
        let offset = i * CHUNK_LEN;
        let chunk_end = offset + CHUNK_LEN;
        let data = slice_subrange(input, offset, chunk_end);
        let cv = compute_chunk_cv(data, start_index + i as u64, false);
        let out_offset = i * OUT_LEN;
        let ghost mid = output@;
        write_cv(output, out_offset, &cv);
        proof {
            lemma_store_next(old(output)@, mid, output@, i as int, cvs);
        }
        i += 1;
    }
}

/// Combines `num_pairs` pair records of `input` and stores the parents'
/// chaining values in record order from the start of `output`. The pair at
/// position `root_index` is finalized as the root; a `root_index` that is
/// negative or not below `num_pairs` designates none.
pub fn batch_parent_cvs(input: &[u8], output: &mut [u8], num_pairs: usize, root_index: i32)
    requires
        num_pairs * 64 <= input.len(),
        num_pairs * 32 <= old(output).len(),
    ensures
        cvs_stored(
            old(output)@,
            final(output)@,
            num_pairs as int,
            |i: int| batch_parent_cv(input@, root_index, i),
        ),
{
    let ghost cvs = |i: int| batch_parent_cv(input@, root_index, i);
    let mut i: usize = 0;
    while i < num_pairs
        invariant
            i <= num_pairs,
            num_pairs * 64 <= input.len(),
            num_pairs * 32 <= old(output).len(),
            cvs == (|i: int| batch_parent_cv(input@, root_index, i)),
            cvs_stored(old(output)@, output@, i as int, cvs),
        decreases num_pairs - i,
    {
        let in_offset = i * PAIR_LEN;
        let left = read_cv(input, in_offset);
        let right = read_cv(input, in_offset + OUT_LEN);
        let is_root = root_index >= 0 && root_index as usize == i;
        let cv = compute_parent_cv(&left, &right, is_root);
        let out_offset = i * OUT_LEN;
        let ghost mid = output@;
        write_cv(output, out_offset, &cv);
        proof {
            lemma_store_next(old(output)@, mid, output@, i as int, cvs);
        }
        i += 1;
    }
}

/// Hashing is determined by the staged chunk alone: two input regions that
/// agree on their first `chunk_len` bytes give the same chaining value for the
/// same chunk index and root flag, whatever else they hold.
pub proof fn lemma_chunk_cv_deterministic(
    first: Seq<u8>,
    second: Seq<u8>,
    chunk_len: int,
    chunk_index: u64,
    is_root: bool,
)
    requires
        0 <= chunk_len <= first.len(),
        chunk_len <= second.len(),
        first.subrange(0, chunk_len) == second.subrange(0, chunk_len),
    ensures
        staged_chunk_cv(first, chunk_len, chunk_index, is_root) == staged_chunk_cv(
            second,
            chunk_len,
            chunk_index,
            is_root,
        ),
{
}

/// A batch gives its `i`-th chunk record the chaining value that the
/// single-chunk operation gives to a region holding that record at its start,
/// hashed as a full interior chunk at index `start_index + i`.
pub proof fn lemma_batch_chunk_is_single(
    region: Seq<u8>,
    single: Seq<u8>,
    num_chunks: int,
    start_index: u64,
    i: int,
)
    requires
        0 <= i < num_chunks,
        num_chunks * 1024 <= region.len(),
        start_index + i <= u64::MAX,
        1024 <= single.len(),
        single.subrange(0, 1024) == chunk_record(region, i),
    ensures
        batch_chunk_cv(region, start_index, i) == staged_chunk_cv(
            single,
            1024,
            (start_index + i) as u64,
            false,
        ),
{
}

/// A batch gives its `i`-th pair record the chaining value that the
/// single-pair operation gives to a region holding that record at its start,
/// with the root flag set exactly when `i` is the designated position.
pub proof fn lemma_batch_parent_is_single(
    region: Seq<u8>,
    single: Seq<u8>,
    num_pairs: int,
    root_index: i32,
    i: int,
)
    requires
        0 <= i < num_pairs,
        num_pairs * 64 <= region.len(),
        64 <= single.len(),
        single.subrange(0, 64) == region.subrange(i * 64, i * 64 + 64),
    ensures
        batch_parent_cv(region, root_index, i) == staged_parent_cv(single, i == root_index),
{
    let record = region.subrange(i * 64, i * 64 + 64);
    assert(pair_left(single, 0) =~= single.subrange(0, 64).subrange(0, 32));
    assert(pair_right(single, 0) =~= single.subrange(0, 64).subrange(32, 64));
    assert(pair_left(region, i) =~= record.subrange(0, 32));
    assert(pair_right(region, i) =~= record.subrange(32, 64));
}

/// A root index inside the batch flags the pair at that position and no
/// other.
pub proof fn lemma_root_index_flags_one(num_pairs: int, root_index: i32)
    requires
        0 <= root_index < num_pairs,
    ensures
        pair_is_root(root_index as int, root_index),
        forall|i: int| 0 <= i < num_pairs && i != root_index ==> !pair_is_root(i, root_index),
{
}

/// A root index outside the batch, such as -1, flags no pair.
pub proof fn lemma_root_index_outside_flags_none(num_pairs: int, root_index: i32)
    requires
        root_index < 0 || root_index >= num_pairs,
    ensures
        forall|i: int| 0 <= i < num_pairs ==> !pair_is_root(i, root_index),
{
}

} // verus!
