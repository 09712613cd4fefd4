//! Blocks in ascending order: how to find a block among them, how to put one
//! in, and how to bring blocks into order.

use crate::mine::Block;
use vstd::prelude::*;

verus! {

/// Whether the blocks stand in ascending order of their numbers.
pub open spec fn is_ordered<B: Block>(blocks: Seq<B>) -> bool {
    forall|i: int, j: int|
        #![trigger blocks[i], blocks[j]]
        0 <= i <= j < blocks.len() ==> blocks[i].value() <= blocks[j].value()
}

/// Looks for `block` among ordered blocks by halving. `Ok` holds a place where
/// a block with the same number stands, `Err` the place where `block` can be
/// put in without breaking the order.
pub fn search<B: Block>(ordered: &Vec<B>, block: B) -> (place: Result<usize, usize>)
    requires
        is_ordered(ordered@),
    ensures
        match place {
            Ok(i) => i < ordered@.len() && ordered@[i as int].value() == block.value(),
            Err(i) => {
                &&& i <= ordered@.len()
                &&& forall|k: int| 0 <= k < i ==> (#[trigger] ordered@[k]).value() < block.value()
                &&& forall|k: int|
                    i <= k < ordered@.len() ==> block.value() < (#[trigger] ordered@[k]).value()
            },
        },
{
    let mut low: usize = 0;
    let mut high: usize = ordered.len();
    while low < high
        invariant
            low <= high <= ordered@.len(),
            is_ordered(ordered@),
            forall|k: int| 0 <= k < low ==> (#[trigger] ordered@[k]).value() < block.value(),
            forall|k: int|
                high <= k < ordered@.len() ==> block.value() < (#[trigger] ordered@[k]).value(),
        decreases high - low,
    {
        let middle = low + (high - low) / 2;
        let found = ordered[middle];
        if found.precedes(block) {
            low = middle + 1;
        } else if block.precedes(found) {
            high = middle;
        } else {
            return Ok(middle);
        }
    }
    Err(low)
}

/// Puts `block` among ordered blocks at a place that keeps the order.
pub fn insert_ordered<B: Block>(ordered: &mut Vec<B>, block: B)
    requires
        is_ordered(old(ordered)@),
    ensures
        is_ordered(final(ordered)@),
        final(ordered)@.to_multiset() == old(ordered)@.to_multiset().insert(block),
        final(ordered)@.len() == old(ordered)@.len() + 1,
{
    let place = match search(ordered, block) {
        Ok(i) => i,
        Err(i) => i,
    };
    proof {
        vstd::seq_lib::to_multiset_insert(ordered@, place as int, block);
        ordered@.insert_ensures(place as int, block);
    }
    let ghost before = ordered@;
    ordered.insert(place, block);
    assert forall|i: int, j: int|
        #![trigger ordered@[i], ordered@[j]]
        0 <= i <= j < ordered@.len() implies ordered@[i].value() <= ordered@[j].value() by {
        let p = place as int;
        let vi = if i < p {
            before[i].value()
        } else if i == p {
            block.value()
        } else {
            before[i - 1].value()
        };
        let vj = if j < p {
            before[j].value()
        } else if j == p {
            block.value()
        } else {
            before[j - 1].value()
        };
        assert(ordered@[i].value() == vi);
        assert(ordered@[j].value() == vj);
    }
}

/// Merges two runs of ordered blocks into one.
pub fn merge<B: Block>(left: &Vec<B>, right: &Vec<B>) -> (merged: Vec<B>)
    requires
        is_ordered(left@),
        is_ordered(right@),
        left@.len() + right@.len() <= usize::MAX,
    ensures
        is_ordered(merged@),
        merged@.to_multiset() == left@.to_multiset().add(right@.to_multiset()),
        merged@.len() == left@.len() + right@.len(),
{
    broadcast use vstd::multiset::group_multiset_axioms;

    let mut merged: Vec<B> = Vec::with_capacity(left.len() + right.len());
    let mut i: usize = 0;
    let mut j: usize = 0;
    proof {
        vstd::seq_lib::to_multiset_len(left@.take(0));
        vstd::seq_lib::to_multiset_len(right@.take(0));
        vstd::seq_lib::to_multiset_len(merged@);
        vstd::multiset::lemma_multiset_empty_len(left@.take(0).to_multiset());
        vstd::multiset::lemma_multiset_empty_len(right@.take(0).to_multiset());
        vstd::multiset::lemma_multiset_empty_len(merged@.to_multiset());
    }
    while i < left.len() || j < right.len()
        invariant
            i <= left@.len(),
            j <= right@.len(),
            is_ordered(left@),
            is_ordered(right@),
            is_ordered(merged@),
            merged@.len() == i + j,
            merged@.to_multiset() == left@.take(i as int).to_multiset().add(
                right@.take(j as int).to_multiset(),
            ),
            forall|k: int|
                0 <= k < merged@.len() && i < left@.len() ==> (#[trigger] merged@[k]).value()
                    <= left@[i as int].value(),
            forall|k: int|
                0 <= k < merged@.len() && j < right@.len() ==> (#[trigger] merged@[k]).value()
                    <= right@[j as int].value(),
        decreases (left@.len() - i) + (right@.len() - j),
    {
        let from_left = if i == left.len() {
            false
        } else if j == right.len() {
            true
        } else {
            !right[j].precedes(left[i])
        };
        let ghost before = merged@;
        if from_left {
            proof {
                vstd::seq_lib::to_multiset_build(before, left@[i as int]);
                vstd::seq_lib::to_multiset_build(left@.take(i as int), left@[i as int]);
                assert(left@.take(i as int).push(left@[i as int]) == left@.take(i + 1));
            }
            merged.push(left[i]);
            i += 1;
        } else {
            proof {
                vstd::seq_lib::to_multiset_build(before, right@[j as int]);
                vstd::seq_lib::to_multiset_build(right@.take(j as int), right@[j as int]);
                assert(right@.take(j as int).push(right@[j as int]) == right@.take(j + 1));
            }
            merged.push(right[j]);
            j += 1;
        }
        assert(merged@.to_multiset() =~= left@.take(i as int).to_multiset().add(
            right@.take(j as int).to_multiset(),
        ));
        assert forall|a: int, b: int|
            #![trigger merged@[a], merged@[b]]
            0 <= a <= b < merged@.len() implies merged@[a].value() <= merged@[b].value() by {
            if b < before.len() {
                assert(merged@[a] == before[a] && merged@[b] == before[b]);
            } else if a < before.len() {
                assert(merged@[a] == before[a]);
            }
        }
    }
    assert(left@.take(i as int) == left@);
    assert(right@.take(j as int) == right@);
    merged
}

/// The blocks of `blocks` from place `from` up to place `to`, in ascending
/// order: each half is brought into order and the halves are merged.
pub fn sorted<B: Block>(blocks: &[B], from: usize, to: usize) -> (ordered: Vec<B>)
    requires
        from <= to <= blocks@.len(),
    ensures
        is_ordered(ordered@),
        ordered@.to_multiset() == blocks@.subrange(from as int, to as int).to_multiset(),
        ordered@.len() == to - from,
    decreases to - from,
{
    broadcast use vstd::multiset::group_multiset_axioms;

    if to - from <= 1 {
        let mut ordered: Vec<B> = Vec::new();
        if from < to {
            ordered.push(blocks[from]);
        }
        assert(ordered@ == blocks@.subrange(from as int, to as int));
        ordered
    } else {
        let middle = from + (to - from) / 2;
        let left = sorted(blocks, from, middle);
        let right = sorted(blocks, middle, to);
        proof {
            let first = blocks@.subrange(from as int, middle as int);
            let second = blocks@.subrange(middle as int, to as int);
            assert(first + second == blocks@.subrange(from as int, to as int));
            vstd::seq_lib::lemma_multiset_commutative(first, second);
        }
        merge(&left, &right)
    }
}

} // verus!
