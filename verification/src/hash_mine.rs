//! A mine that keeps, beside its window, every sum of two blocks of the
//! window in a hash multiset, and tests a new block by looking it up there.

use crate::mine::{lemma_pair_needs_two, Mine, MineError};
use crate::pair_sums::{
    lemma_pair_sums_from_front, lemma_pair_sums_hold, lemma_sums_with_from_front,
    lemma_sums_with_holds, pair_sums, sums_with,
};
use multiset::HashMultiSet;
use std::collections::VecDeque;
use vstd::multiset::Multiset;
use vstd::prelude::*;

verus! {

broadcast use vstd::multiset::group_multiset_axioms;

/// `multiset::HashMultiSet`, which Verus takes as a value it cannot look into.
#[verifier::external_type_specification]
#[verifier::external_body]
#[verifier::reject_recursive_types(K)]
pub struct ExHashMultiSet<K>(HashMultiSet<K>);

/// What a hash multiset of `u128` holds: each value as often as it has been
/// put in and not taken out again. Nothing is proved of it; the functions
/// below say how `new`, `contains`, `insert`, `remove` and `clone` of the
/// multiset read and change it, for a multiset that is made and changed
/// through them alone.
pub uninterp spec fn sums_held(sums: HashMultiSet<u128>) -> Multiset<u128>;

/// `HashMultiSet::new`: a multiset that holds nothing.
#[verifier::external_body]
fn no_sums() -> (sums: HashMultiSet<u128>)
    ensures
        sums_held(sums) == Multiset::<u128>::empty(),
{
    HashMultiSet::new()
}

/// `HashMultiSet::contains`: whether the multiset holds `sum` at least once.
#[verifier::external_body]
fn holds_sum(sums: &HashMultiSet<u128>, sum: u128) -> (held: bool)
    ensures
        held == (sums_held(*sums).count(sum) > 0),
{
    sums.contains(&sum)
}

/// `HashMultiSet::insert`: the multiset holds `sum` once more and everything
/// else as before. The multiset counts what it holds in a `usize`, so it must
/// hold fewer than `usize::MAX` values.
#[verifier::external_body]
fn put_sum(sums: &mut HashMultiSet<u128>, sum: u128)
    requires
        sums_held(*old(sums)).len() < usize::MAX,
    ensures
        sums_held(*final(sums)) == sums_held(*old(sums)).insert(sum),
{
    sums.insert(sum)
}

/// `HashMultiSet::remove`: the multiset holds `sum` once less, if it held it
/// at all, and everything else as before. The result says whether it held it.
#[verifier::external_body]
fn take_sum(sums: &mut HashMultiSet<u128>, sum: u128) -> (taken: bool)
    ensures
        sums_held(*final(sums)) == sums_held(*old(sums)).remove(sum),
        taken == (sums_held(*old(sums)).count(sum) > 0),
{
    sums.remove(&sum)
}

/// `HashMultiSet::clone`: a multiset of its own that holds what `sums` holds.
#[verifier::external_body]
fn copy_sums(sums: &HashMultiSet<u128>) -> (copy: HashMultiSet<u128>)
    ensures
        sums_held(copy) == sums_held(*sums),
{
    sums.clone()
}

/// A mine of `u128` blocks that keeps, beside its window, the sums of every
/// two blocks of the window.
#[derive(Debug)]
pub struct HashMine<const VALIDATION_WINDOW_SIZE: usize> {
    /// The window: the blocks accepted last, the oldest first.
    validation_blocks: VecDeque<u128>,
    /// The sums of the blocks at every two different places of the window.
    block_pair_sums: HashMultiSet<u128>,
    /// How many blocks the mine has taken in.
    total_blocks: usize,
}

impl<const VALIDATION_WINDOW_SIZE: usize> HashMine<VALIDATION_WINDOW_SIZE> {
    /// The sums that the mine keeps.
    pub closed spec fn sums(&self) -> Multiset<u128> {
        sums_held(self.block_pair_sums)
    }

    /// The window of the mine.
    pub fn validation_blocks(&self) -> (blocks: &VecDeque<u128>)
        ensures
            blocks@ == self.window(),
    {
        &self.validation_blocks
    }
}

impl<const VALIDATION_WINDOW_SIZE: usize> Clone for HashMine<VALIDATION_WINDOW_SIZE> {
    /// A mine of its own with the same window, the same sums and the same
    /// count.
    fn clone(&self) -> (copy: Self)
        ensures
            copy.window() == self.window(),
            copy.sums() == self.sums(),
            copy.total_blocks() == self.total_blocks(),
    {
        HashMine {
            validation_blocks: self.validation_blocks.clone(),
            block_pair_sums: copy_sums(&self.block_pair_sums),
            total_blocks: self.total_blocks,
        }
    }
}

impl<const VALIDATION_WINDOW_SIZE: usize> Mine<VALIDATION_WINDOW_SIZE, u128> for HashMine<
    VALIDATION_WINDOW_SIZE,
> {
    closed spec fn window(&self) -> Seq<u128> {
        self.validation_blocks@
    }

    closed spec fn total_blocks(&self) -> nat {
        self.total_blocks as nat
    }

    open spec fn wf(&self) -> bool {
        &&& self.window().len() == VALIDATION_WINDOW_SIZE
        &&& self.sums() == pair_sums(self.window())
        &&& Self::window_size_fits()
    }

    /// The multiset counts its sums in a `usize`: the window may have no more
    /// pairs of places than that.
    open spec fn window_size_fits() -> bool {
        VALIDATION_WINDOW_SIZE * (VALIDATION_WINDOW_SIZE - 1) / 2 <= usize::MAX
    }

    proof fn lemma_window_is_full(&self) {
    }

    fn new(initialization_blocks: [u128; VALIDATION_WINDOW_SIZE]) -> (mine: Self) {
        let mut block_pair_sums = no_sums();
        let mut validation_blocks: VecDeque<u128> = VecDeque::with_capacity(
            VALIDATION_WINDOW_SIZE,
        );
        let ghost blocks = initialization_blocks@;
        let mut j: usize = 0;
        while j < VALIDATION_WINDOW_SIZE
            invariant
                j <= VALIDATION_WINDOW_SIZE,
                blocks == initialization_blocks@,
                Self::window_size_fits(),
                validation_blocks@ == blocks.take(j as int),
                sums_held(block_pair_sums) == pair_sums(blocks.take(j as int)),
            decreases VALIDATION_WINDOW_SIZE - j,
        {
            let second = initialization_blocks[j];
            let ghost before = blocks.take(j as int);
            let mut i: usize = 0;
            while i < j
                invariant
                    i <= j < VALIDATION_WINDOW_SIZE,
                    blocks == initialization_blocks@,
                    Self::window_size_fits(),
                    before == blocks.take(j as int),
                    second == blocks[j as int],
                    sums_held(block_pair_sums) == pair_sums(before).add(
                        sums_with(second, before.take(i as int)),
                    ),
                decreases j - i,
            {
                proof {
                    lemma_pair_sums_hold(before, 0);
                    lemma_sums_with_holds(second, before.take(i as int), 0);
                    lemma_pairs_grow(j as int, VALIDATION_WINDOW_SIZE as int);
                    assert(before.take(i + 1).drop_last() == before.take(i as int));
                    assert(before.take(i + 1).last() == blocks[i as int]);
                }
                match second.checked_add(initialization_blocks[i]) {
                    Some(sum) => put_sum(&mut block_pair_sums, sum),
                    None => {},
                }
                i += 1;
                assert(sums_held(block_pair_sums) =~= pair_sums(before).add(
                    sums_with(second, before.take(i as int)),
                ));
            }
            proof {
                assert(before.take(j as int) == before);
                assert(blocks.take(j + 1).drop_last() == before);
            }
            validation_blocks.push_back(second);
            j += 1;
        }
        assert(blocks.take(VALIDATION_WINDOW_SIZE as int) == blocks);
        HashMine { validation_blocks, block_pair_sums, total_blocks: VALIDATION_WINDOW_SIZE }
    }

    fn try_extend_one(&mut self, new_block: u128) -> (result: Result<
        (),
        MineError<VALIDATION_WINDOW_SIZE, u128>,
    >) {
        proof {
            lemma_pair_sums_hold(self.window(), new_block);
        }
        if !holds_sum(&self.block_pair_sums, new_block) {
            return Err(MineError::InvalidBlock(new_block, self.total_blocks + 1));
        }
        let ghost window = self.window();
        proof {
            lemma_pair_needs_two(window, new_block);
            lemma_pair_sums_from_front(window);
        }
        let old_block = match self.validation_blocks.pop_front() {
            Some(block) => block,
            None => new_block,
        };
        let ghost rest = window.drop_first();
        proof {
            assert(rest.skip(0) == rest);
            assert(sums_held(self.block_pair_sums) =~= pair_sums(rest).add(
                sums_with(old_block, rest.skip(0)),
            ).add(sums_with(new_block, rest.take(0))));
        }
        let mut k: usize = 0;
        while k < self.validation_blocks.len()
            invariant
                k <= rest.len(),
                rest.len() + 1 == VALIDATION_WINDOW_SIZE,
                Self::window_size_fits(),
                self.validation_blocks@ == rest,
                self.total_blocks == old(self).total_blocks,
                sums_held(self.block_pair_sums) == pair_sums(rest).add(
                    sums_with(old_block, rest.skip(k as int)),
                ).add(sums_with(new_block, rest.take(k as int))),
            decreases rest.len() - k,
        {
            let block = self.validation_blocks[k];
            proof {
                lemma_sums_with_from_front(old_block, rest.skip(k as int));
                assert(rest.skip(k as int).drop_first() == rest.skip(k + 1));
                assert(rest.take(k + 1).drop_last() == rest.take(k as int));
                assert(rest.take(k + 1).last() == block);
                assert(rest.skip(k as int)[0] == block);
                lemma_pair_sums_hold(rest, 0);
                lemma_sums_with_holds(old_block, rest.skip(k + 1), 0);
                lemma_sums_with_holds(new_block, rest.take(k as int), 0);
                lemma_pairs_grow(rest.len() as int, VALIDATION_WINDOW_SIZE as int);
            }
            let ghost others = pair_sums(rest).add(sums_with(old_block, rest.skip(k + 1))).add(
                sums_with(new_block, rest.take(k as int)),
            );
            match old_block.checked_add(block) {
                Some(sum) => {
                    assert(sums_held(self.block_pair_sums) =~= others.insert(sum));
                    take_sum(&mut self.block_pair_sums, sum);
                    assert(sums_held(self.block_pair_sums) =~= others);
                },
                None => {
                    assert(sums_held(self.block_pair_sums) =~= others);
                },
            }
            match new_block.checked_add(block) {
                Some(sum) => {
                    put_sum(&mut self.block_pair_sums, sum);
                },
                None => {},
            }
            k += 1;
            assert(sums_held(self.block_pair_sums) =~= pair_sums(rest).add(
                sums_with(old_block, rest.skip(k as int)),
            ).add(sums_with(new_block, rest.take(k as int))));
        }
        self.validation_blocks.push_back(new_block);
        self.total_blocks += 1;
        proof {
            assert(rest.take(rest.len() as int) == rest);
            assert(rest.push(new_block).drop_last() == rest);
            assert(self.sums() =~= pair_sums(rest.push(new_block)));
        }
        Ok(())
    }
}

/// A window has more pairs of places than any shorter one, by at least the
/// length of the shorter.
pub proof fn lemma_pairs_grow(shorter: int, longer: int)
    requires
        0 <= shorter < longer,
    ensures
        shorter * (shorter - 1) + 2 * shorter <= longer * (longer - 1),
{
    assert(shorter * (shorter - 1) + 2 * shorter == (shorter + 1) * shorter) by (nonlinear_arith);
    assert((shorter + 1) * shorter <= longer * (longer - 1)) by (nonlinear_arith)
        requires
            0 <= shorter,
            shorter + 1 <= longer,
    ;
}

} // verus!
