//! The two hash primitives, taken from the `blake3` crate.
//!
//! Verus does not look inside `blake3`. Each primitive is given a name as a
//! mathematical function of its arguments, and the functions below are believed
//! to return exactly that value.

use vstd::prelude::*;

verus! {

/// Most bytes a chunk may hold.
pub const CHUNK_LEN: usize = 1024;

/// Bytes in a chaining value.
pub const OUT_LEN: usize = 32;

/// The chaining value that BLAKE3 assigns to a chunk holding `data` at position
/// `chunk_index` of a stream, finalized as the root of the tree or as an
/// interior node.
pub uninterp spec fn chunk_cv_spec(data: Seq<u8>, chunk_index: u64, is_root: bool) -> Seq<u8>;

/// The chaining value that BLAKE3 assigns to a parent node with children `left`
/// and `right`, finalized as the root of the tree or as an interior node.
pub uninterp spec fn parent_cv_spec(left: Seq<u8>, right: Seq<u8>, is_root: bool) -> Seq<u8>;

/// Hashes one chunk with `blake3::guts::ChunkState`: a fresh state for
/// `chunk_index` absorbs `data` and is finalized with `is_root`.
///
/// Trusted: the result is taken to be `chunk_cv_spec` of the arguments, which
/// claims only that `blake3` computes a function of the bytes, the index and
/// the flag. A chunk state holds at most `CHUNK_LEN` bytes, so longer data is
/// excluded; and `blake3` finalizes a root only at counter zero, the root chunk
/// being the only chunk of its stream, so a root at a later index is excluded
/// too.
#[verifier::external_body]
#[allow(deprecated)]
pub(crate) fn compute_chunk_cv(data: &[u8], chunk_index: u64, is_root: bool) -> (cv: [u8; 32])
    requires
        data@.len() <= CHUNK_LEN,
        is_root ==> chunk_index == 0,
    ensures
        cv@ == chunk_cv_spec(data@, chunk_index, is_root),
{
    let mut state = blake3::guts::ChunkState::new(chunk_index);
    state.update(data);
    let output = state.finalize(is_root);
    *output.as_bytes()
}

/// Combines two child chaining values with `blake3::guts::parent_cv`.
///
/// Trusted: the result is taken to be `parent_cv_spec` of the arguments, which
/// claims only that `blake3` computes a function of the two children, in their
/// order, and the flag.
#[verifier::external_body]
#[allow(deprecated)]
pub(crate) fn compute_parent_cv(left: &[u8; 32], right: &[u8; 32], is_root: bool) -> (cv: [u8; 32])
    ensures
        cv@ == parent_cv_spec(left@, right@, is_root),
{
    let left_hash = blake3::Hash::from_bytes(*left);
    let right_hash = blake3::Hash::from_bytes(*right);
    let result = blake3::guts::parent_cv(&left_hash, &right_hash, is_root);
    *result.as_bytes()
}

} // verus!
