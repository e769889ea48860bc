//! Bottom-up reduction of leaf chaining values to a single root.
//!
//! A level is an ordered sequence of chaining values. Each step pairs the
//! elements of a level from left to right, combines every pair into its parent
//! and carries an unpaired last element forward unchanged. The root flag is
//! given by the shape of the level alone: only the single combination that
//! reduces a level of exactly two elements is finalized as the root.

use crate::primitive::{compute_parent_cv, parent_cv_spec, OUT_LEN};
use crate::region::{cv_record, cv_stored, read_cv, write_cv};
use vstd::prelude::*;

verus! {

/// The chaining values of a level, each as its sequence of bytes.
pub open spec fn level_view(level: Seq<[u8; 32]>) -> Seq<Seq<u8>> {
    Seq::new(level.len(), |i: int| level[i]@)
}

/// The first `num_leaves` chaining values staged in `region`.
pub open spec fn leaf_cvs(region: Seq<u8>, num_leaves: int) -> Seq<Seq<u8>> {
    Seq::new(num_leaves as nat, |i: int| cv_record(region, i))
}

/// Whether a level of `level_len` elements is reduced by the root combination:
/// it holds exactly two elements, so one pair and nothing left over.
pub open spec fn is_root_level_spec(level_len: int) -> bool {
    level_len == 2
}

/// The level above `level`: the parents of its pairs in order, followed by its
/// last element where the length is odd.
pub open spec fn next_level(level: Seq<Seq<u8>>) -> Seq<Seq<u8>> {
    Seq::new(
        ((level.len() + 1) / 2) as nat,
        |i: int|
            if 2 * i + 1 < level.len() {
                parent_cv_spec(
                    level[2 * i],
                    level[2 * i + 1],
                    is_root_level_spec(level.len() as int) && i == 0,
                )
            } else {
                level[2 * i]
            },
    )
}

/// The single chaining value that remains when `level` is reduced until one
/// element is left. A level of one element is its own root.
pub open spec fn tree_root(level: Seq<Seq<u8>>) -> Seq<u8>
    decreases level.len(),
{
    if level.len() <= 1 {
        level[0]
    } else {
        tree_root(next_level(level))
    }
}

/// Decides from a level's length whether its reduction is the root
/// combination.
pub fn is_root_level(level_len: usize) -> (is_root: bool)
    ensures
        is_root == is_root_level_spec(level_len as int),
{
    let has_odd = level_len % 2 == 1;
    level_len == 2 && !has_odd
}

/// Reduces one level to the level above it.
pub fn reduce_level(level: &Vec<[u8; 32]>) -> (next: Vec<[u8; 32]>)
    ensures
        level_view(next@) == next_level(level_view(level@)),
{
    let n = level.len();
    let num_pairs = n / 2;
    let has_odd = n % 2 == 1;
    let root_level = is_root_level(n);
    let mut next: Vec<[u8; 32]> = Vec::with_capacity(num_pairs + if has_odd { 1 } else { 0 });
    let mut i: usize = 0;
    while i < num_pairs
        invariant
            i <= num_pairs,
            n == level@.len(),
            num_pairs == n / 2,
            root_level == is_root_level_spec(n as int),
            next@.len() == i,
            forall|k: int|
                0 <= k < i ==> next@[k]@ == parent_cv_spec(
                    level@[2 * k]@,
                    level@[2 * k + 1]@,
                    root_level && k == 0,
                ),
        decreases num_pairs - i,
    {
        let is_root = root_level && i == 0;
        let parent = compute_parent_cv(&level[i * 2], &level[i * 2 + 1], is_root);
        next.push(parent);
        i += 1;
    }
    if has_odd {
        next.push(level[n - 1]);
    }
    assert(level_view(next@) =~= next_level(level_view(level@)));
    next
}

/// Reduces a non-empty sequence of leaves, level by level, to its root.
pub fn reduce_to_root(leaves: Vec<[u8; 32]>) -> (root: [u8; 32])
    requires
        leaves@.len() >= 1,
    ensures
        root@ == tree_root(level_view(leaves@)),
{
    let ghost start = level_view(leaves@);
    let mut current = leaves;
    while current.len() > 1
        invariant
            current@.len() >= 1,
            tree_root(level_view(current@)) == tree_root(start),
        decreases current@.len(),
    {
        let next = reduce_level(&current);
        assert(next@.len() == level_view(next@).len());
        assert(level_view(current@).len() == current@.len());
        current = next;
    }
    current[0]
}

/// Builds the tree over the first `num_leaves` chaining values of `input` and
/// stores its root at the start of `output`. Returns the number of bytes
/// written: 32, or 0 when there are no leaves, in which case `output` is left
/// as it was. A single leaf is copied through without any combination.
pub fn build_tree_single_pass(input: &[u8], output: &mut [u8], num_leaves: usize) -> (written:
    usize)
    requires
        num_leaves * 32 <= input.len(),
        num_leaves >= 1 ==> old(output).len() >= 32,
    ensures
        num_leaves == 0 ==> written == 0 && final(output)@ == old(output)@,
        num_leaves >= 1 ==> written == 32 && cv_stored(
            old(output)@,
            final(output)@,
            0,
            tree_root(leaf_cvs(input@, num_leaves as int)),
        ),
{
    if num_leaves == 0 {
        return 0;
    }
    if num_leaves == 1 {
        let leaf = read_cv(input, 0);
        write_cv(output, 0, &leaf);
        return OUT_LEN;
    }
    let mut current_level: Vec<[u8; 32]> = Vec::with_capacity(num_leaves);
    let mut i: usize = 0;
    while i < num_leaves
        invariant
            i <= num_leaves,
            num_leaves * 32 <= input.len(),
            current_level@.len() == i,
            forall|k: int| 0 <= k < i ==> current_level@[k]@ == cv_record(input@, k),
        decreases num_leaves - i,
    {
        let cv = read_cv(input, i * OUT_LEN);
        current_level.push(cv);
        i += 1;
    }
    assert(level_view(current_level@) =~= leaf_cvs(input@, num_leaves as int));
    let root = reduce_to_root(current_level);
    write_cv(output, 0, &root);
    OUT_LEN
}

/// The number of combinations made while `level` is reduced to one element.
pub open spec fn combination_count(level: Seq<Seq<u8>>) -> nat
    decreases level.len(),
{
    if level.len() <= 1 {
        0
    } else {
        level.len() / 2 + combination_count(next_level(level))
    }
}

/// The number of those combinations that are finalized as the root.
pub open spec fn root_combination_count(level: Seq<Seq<u8>>) -> nat
    decreases level.len(),
{
    if level.len() <= 1 {
        0
    } else {
        let here: nat = if is_root_level_spec(level.len() as int) {
            1
        } else {
            0
        };
        here + root_combination_count(next_level(level))
    }
}

/// The last level that still holds more than one element.
pub open spec fn final_level(level: Seq<Seq<u8>>) -> Seq<Seq<u8>>
    decreases level.len(),
{
    if level.len() <= 2 {
        level
    } else {
        final_level(next_level(level))
    }
}

/// A single leaf is the root as it stands, and no combination is made.
pub proof fn lemma_single_leaf(leaf: Seq<u8>)
    ensures
        tree_root(seq![leaf]) == leaf,
        combination_count(seq![leaf]) == 0,
{
}

/// Two leaves are reduced by one combination, finalized as the root.
pub proof fn lemma_two_leaves(left: Seq<u8>, right: Seq<u8>)
    ensures
        tree_root(seq![left, right]) == parent_cv_spec(left, right, true),
        combination_count(seq![left, right]) == 1,
        root_combination_count(seq![left, right]) == 1,
{
    let level = seq![left, right];
    let above = next_level(level);
    assert(above =~= seq![parent_cv_spec(left, right, true)]);
    assert(tree_root(level) == tree_root(above));
    assert(combination_count(above) == 0);
    assert(root_combination_count(above) == 0);
}

/// Three leaves are reduced by two combinations. The first joins the first two
/// leaves as an interior node and carries the third forward; the second joins
/// that parent with the carried leaf and, reducing a level of exactly two
/// elements, is the one finalized as the root.
pub proof fn lemma_three_leaves(first: Seq<u8>, second: Seq<u8>, third: Seq<u8>)
    ensures
        next_level(seq![first, second, third]) == seq![
            parent_cv_spec(first, second, false),
            third,
        ],
        tree_root(seq![first, second, third]) == parent_cv_spec(
            parent_cv_spec(first, second, false),
            third,
            true,
        ),
        combination_count(seq![first, second, third]) == 2,
        root_combination_count(seq![first, second, third]) == 1,
{
    let level = seq![first, second, third];
    let above = next_level(level);
    let inner = parent_cv_spec(first, second, false);
    assert(above =~= seq![inner, third]);
    lemma_two_leaves(inner, third);
    assert(tree_root(level) == tree_root(above));
    assert(combination_count(level) == 1 + combination_count(above));
    assert(root_combination_count(level) == root_combination_count(above));
}

/// Reducing `n` leaves to one takes `n - 1` combinations.
pub proof fn lemma_combination_count(level: Seq<Seq<u8>>)
    requires
        level.len() >= 1,
    ensures
        combination_count(level) == level.len() - 1,
    decreases level.len(),
{
    if level.len() > 1 {
        lemma_combination_count(next_level(level));
    }
}

/// Over a whole reduction of two or more leaves exactly one combination is
/// finalized as the root; with fewer leaves none is.
pub proof fn lemma_one_root_combination(level: Seq<Seq<u8>>)
    ensures
        level.len() >= 2 ==> root_combination_count(level) == 1,
        level.len() <= 1 ==> root_combination_count(level) == 0,
    decreases level.len(),
{
    if level.len() > 1 {
        lemma_one_root_combination(next_level(level));
    }
}

/// The root of two or more leaves is the root combination of the two elements
/// of the last level, so the flagged combination is the one that yields the
/// final chaining value.
pub proof fn lemma_root_is_final_combination(level: Seq<Seq<u8>>)
    requires
        level.len() >= 2,
    ensures
        final_level(level).len() == 2,
        tree_root(level) == parent_cv_spec(final_level(level)[0], final_level(level)[1], true),
    decreases level.len(),
{
    if level.len() == 2 {
        lemma_two_leaves(level[0], level[1]);
        assert(level =~= seq![level[0], level[1]]);
    } else {
        lemma_root_is_final_combination(next_level(level));
    }
}

/// A level that is not the root level is reduced without the root flag: each
/// pair becomes an interior parent, in its place, and an odd last element is
/// carried forward behind them.
pub proof fn lemma_interior_level(level: Seq<Seq<u8>>, i: int)
    requires
        level.len() != 2,
        0 <= i < next_level(level).len(),
    ensures
        2 * i + 1 < level.len() ==> next_level(level)[i] == parent_cv_spec(
            level[2 * i],
            level[2 * i + 1],
            false,
        ),
        2 * i + 1 == level.len() ==> next_level(level)[i] == level[2 * i],
{
}

} // verus!
