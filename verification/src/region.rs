//! The record layout of the input and output regions.

use vstd::prelude::*;

verus! {

/// Capacity of the input region, in bytes.
pub const INPUT_SIZE: usize = 1048576;

/// Capacity of the output region, in bytes.
pub const OUTPUT_SIZE: usize = 1048576;

/// Bytes in a record that holds a left and a right chaining value.
pub const PAIR_LEN: usize = 64;

/// The `i`-th 1024-byte chunk record of a region.
pub open spec fn chunk_record(region: Seq<u8>, i: int) -> Seq<u8> {
    region.subrange(i * 1024, i * 1024 + 1024)
}

/// The `i`-th 32-byte chaining value of a region.
pub open spec fn cv_record(region: Seq<u8>, i: int) -> Seq<u8> {
    region.subrange(i * 32, i * 32 + 32)
}

/// The left child of the `i`-th 64-byte pair record of a region.
pub open spec fn pair_left(region: Seq<u8>, i: int) -> Seq<u8> {
    region.subrange(i * 64, i * 64 + 32)
}

/// The right child of the `i`-th 64-byte pair record of a region.
pub open spec fn pair_right(region: Seq<u8>, i: int) -> Seq<u8> {
    region.subrange(i * 64 + 32, i * 64 + 64)
}

/// `after` is `before` with the 32 bytes at `offset` replaced by `cv`, every
/// other byte untouched.
pub open spec fn cv_stored(before: Seq<u8>, after: Seq<u8>, offset: int, cv: Seq<u8>) -> bool {
    &&& after.len() == before.len()
    &&& after.subrange(offset, offset + 32) == cv
    &&& forall|k: int| 0 <= k < before.len() && !(offset <= k < offset + 32) ==> after[k] == before[k]
}

/// Capacity of the input region.
pub fn get_input_size() -> (size: usize)
    ensures
        size == INPUT_SIZE,
{
    INPUT_SIZE
}

/// Capacity of the output region.
pub fn get_output_size() -> (size: usize)
    ensures
        size == OUTPUT_SIZE,
{
    OUTPUT_SIZE
}

/// Copies the 32 bytes at `offset` of `region` into a chaining value.
pub fn read_cv(region: &[u8], offset: usize) -> (cv: [u8; 32])
    requires
        offset + 32 <= region.len(),
    ensures
        cv@ == region@.subrange(offset as int, offset + 32),
{
    let mut cv: [u8; 32] = [0u8; 32];
    let mut j: usize = 0;
    while j < 32
        invariant
            j <= 32,
            offset + 32 <= region.len(),
            forall|k: int| 0 <= k < j ==> cv@[k] == region@[offset + k],
        decreases 32 - j,
    {
        cv[j] = region[offset + j];
        j += 1;
    }
    assert(cv@ =~= region@.subrange(offset as int, offset + 32));
    cv
}

/// Overwrites the 32 bytes at `offset` of `region` with `cv`.
pub fn write_cv(region: &mut [u8], offset: usize, cv: &[u8; 32])
    requires
        offset + 32 <= old(region).len(),
    ensures
        cv_stored(old(region)@, final(region)@, offset as int, cv@),
{
    let mut j: usize = 0;
    while j < 32
        invariant
            j <= 32,
            offset + 32 <= old(region).len(),
            region@.len() == old(region)@.len(),
            forall|k: int| offset <= k < offset + j ==> region@[k] == cv@[k - offset],
            forall|k: int|
                0 <= k < region@.len() && !(offset <= k < offset + j) ==> region@[k] == old(
                    region,
                )@[k],
        decreases 32 - j,
    {
        region[offset + j] = cv[j];
        j += 1;
    }
    assert(region@.subrange(offset as int, offset + 32) =~= cv@);
}

} // verus!
