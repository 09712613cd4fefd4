//! A mine that keeps an ordered copy of its window and looks for the two
//! blocks of a sum from both ends of it.

use crate::mine::{
    is_sum_of_two, lemma_pair_needs_two, lemma_same_blocks_same_sums, Block, Mine, MineError,
};
use crate::ordered::{insert_ordered, is_ordered, search, sorted};
use std::collections::VecDeque;
use vstd::prelude::*;

verus! {

/// A mine that keeps, beside its window, the same blocks in ascending order.
#[derive(Debug)]
pub struct TwoPtrMine<const VALIDATION_WINDOW_SIZE: usize, B: Block> {
    /// The window: the blocks accepted last, the oldest first.
    validation_blocks: VecDeque<B>,
    /// The blocks of the window in ascending order.
    ordered_validation_blocks: Vec<B>,
    /// How many blocks the mine has taken in.
    total_blocks: usize,
}

impl<const VALIDATION_WINDOW_SIZE: usize, B: Block> TwoPtrMine<VALIDATION_WINDOW_SIZE, B> {
    /// The ordered copy of the window.
    pub closed spec fn ordered(&self) -> Seq<B> {
        self.ordered_validation_blocks@
    }

    /// The window of the mine.
    pub fn validation_blocks(&self) -> (blocks: &VecDeque<B>)
        ensures
            blocks@ == self.window(),
    {
        &self.validation_blocks
    }

    /// Whether two blocks at different places of the ordered copy add up to
    /// `value`: one place moves up from the smallest block and one down from
    /// the largest until they find such a pair or meet.
    fn has_sum_of_two(&self, value: B) -> (found: bool)
        requires
            self.wf(),
        ensures
            found == is_sum_of_two(self.window(), value),
    {
        let ordered = &self.ordered_validation_blocks;
        let mut found = false;
        let mut low: usize = 0;
        let mut high: usize = if ordered.len() == 0 {
            0
        } else {
            ordered.len() - 1
        };
        while low < high && !found
            invariant
                is_ordered(ordered@),
                low <= high,
                high < ordered@.len() || high == 0,
                found ==> is_sum_of_two(ordered@, value),
                forall|i: int, j: int|
                    #![trigger ordered@[i], ordered@[j]]
                    0 <= i < j < ordered@.len() && ordered@[i].value() + ordered@[j].value()
                        == value.value() ==> low <= i && j <= high,
            decreases high - low + if found { 0int } else { 1int },
        {
            let smaller = ordered[low];
            let larger = ordered[high];
            let ghost low_before = low as int;
            let ghost high_before = high as int;
            match smaller.checked_sum(larger) {
                Some(sum) => {
                    if sum.precedes(value) {
                        low = low + 1;
                    } else if value.precedes(sum) {
                        high = high - 1;
                    } else {
                        found = true;
                    }
                },
                None => {
                    high = high - 1;
                },
            }
            assert forall|i: int, j: int|
                #![trigger ordered@[i], ordered@[j]]
                0 <= i < j < ordered@.len() && ordered@[i].value() + ordered@[j].value()
                    == value.value() implies low <= i && j <= high by {
                assert(low_before <= i && j <= high_before);
                assert(ordered@[low_before].value() <= ordered@[i].value());
                assert(ordered@[j].value() <= ordered@[high_before].value());
            }
        }
        proof {
            if !found && is_sum_of_two(ordered@, value) {
                let (i, j) = choose|i: int, j: int|
                    #![trigger ordered@[i], ordered@[j]]
                    0 <= i < ordered@.len() && 0 <= j < ordered@.len() && i != j
                        && ordered@[i].value() + ordered@[j].value() == value.value();
                if i < j {
                    assert(low <= i && j <= high);
                } else {
                    assert(low <= j && i <= high);
                }
            }
            lemma_same_blocks_same_sums(ordered@, self.window(), value);
        }
        found
    }
}

impl<const VALIDATION_WINDOW_SIZE: usize, B: Block> Clone for TwoPtrMine<
    VALIDATION_WINDOW_SIZE,
    B,
> {
    /// A mine of its own with the same window, the same ordered copy and the
    /// same count.
    fn clone(&self) -> (copy: Self)
        ensures
            copy.window() == self.window(),
            copy.ordered() == self.ordered(),
            copy.total_blocks() == self.total_blocks(),
    {
        let mut validation_blocks: VecDeque<B> = VecDeque::with_capacity(
            self.validation_blocks.len(),
        );
        let mut i: usize = 0;
        while i < self.validation_blocks.len()
            invariant
                i <= self.validation_blocks@.len(),
                validation_blocks@ == self.validation_blocks@.take(i as int),
            decreases self.validation_blocks@.len() - i,
        {
            validation_blocks.push_back(self.validation_blocks[i]);
            assert(self.validation_blocks@.take(i as int).push(self.validation_blocks@[i as int])
                == self.validation_blocks@.take(i + 1));
            i += 1;
        }
        let mut ordered_validation_blocks: Vec<B> = Vec::with_capacity(
            self.ordered_validation_blocks.len(),
        );
        let mut j: usize = 0;
        while j < self.ordered_validation_blocks.len()
            invariant
                j <= self.ordered_validation_blocks@.len(),
                ordered_validation_blocks@ == self.ordered_validation_blocks@.take(j as int),
            decreases self.ordered_validation_blocks@.len() - j,
        {
            ordered_validation_blocks.push(self.ordered_validation_blocks[j]);
            assert(self.ordered_validation_blocks@.take(j as int).push(
                self.ordered_validation_blocks@[j as int],
            ) == self.ordered_validation_blocks@.take(j + 1));
            j += 1;
        }
        assert(self.validation_blocks@.take(i as int) == self.validation_blocks@);
        assert(self.ordered_validation_blocks@.take(j as int) == self.ordered_validation_blocks@);
        TwoPtrMine { validation_blocks, ordered_validation_blocks, total_blocks: self.total_blocks }
    }
}

impl<const VALIDATION_WINDOW_SIZE: usize, B: Block> Mine<VALIDATION_WINDOW_SIZE, B> for TwoPtrMine<
    VALIDATION_WINDOW_SIZE,
    B,
> {
    closed spec fn window(&self) -> Seq<B> {
        self.validation_blocks@
    }

    closed spec fn total_blocks(&self) -> nat {
        self.total_blocks as nat
    }

    open spec fn wf(&self) -> bool {
        &&& self.window().len() == VALIDATION_WINDOW_SIZE
        &&& is_ordered(self.ordered())
        &&& self.ordered().to_multiset() == self.window().to_multiset()
    }

    open spec fn window_size_fits() -> bool {
        true
    }

    proof fn lemma_window_is_full(&self) {
    }

    fn new(initialization_blocks: [B; VALIDATION_WINDOW_SIZE]) -> (mine: Self) {
        let blocks = initialization_blocks.as_slice();
        let mut validation_blocks: VecDeque<B> = VecDeque::with_capacity(VALIDATION_WINDOW_SIZE);
        let mut i: usize = 0;
        while i < VALIDATION_WINDOW_SIZE
            invariant
                i <= VALIDATION_WINDOW_SIZE,
                blocks@ == initialization_blocks@,
                validation_blocks@ == blocks@.take(i as int),
            decreases VALIDATION_WINDOW_SIZE - i,
        {
            validation_blocks.push_back(blocks[i]);
            assert(blocks@.take(i as int).push(blocks@[i as int]) == blocks@.take(i + 1));
            i += 1;
        }
        let ordered_validation_blocks = sorted(blocks, 0, VALIDATION_WINDOW_SIZE);
        proof {
            assert(blocks@.take(VALIDATION_WINDOW_SIZE as int) == blocks@);
            assert(blocks@.subrange(0, VALIDATION_WINDOW_SIZE as int) == blocks@);
        }
        TwoPtrMine { validation_blocks, ordered_validation_blocks, total_blocks: VALIDATION_WINDOW_SIZE }
    }

    fn try_extend_one(&mut self, new_block: B) -> (result: Result<
        (),
        MineError<VALIDATION_WINDOW_SIZE, B>,
    >) {
        if !self.has_sum_of_two(new_block) {
            return Err(MineError::InvalidBlock(new_block, self.total_blocks + 1));
        }
        let ghost window = self.window();
        let ghost ordered = self.ordered();
        proof {
            lemma_pair_needs_two(window, new_block);
        }
        let old_block = match self.validation_blocks.pop_front() {
            Some(block) => block,
            None => new_block,
        };
        self.validation_blocks.push_back(new_block);
        let place = match search(&self.ordered_validation_blocks, old_block) {
            Ok(i) => i,
            Err(i) => i,
        };
        proof {
            broadcast use {
                vstd::seq_lib::to_multiset_contains,
                vstd::seq_lib::to_multiset_remove,
                vstd::seq_lib::to_multiset_build,
            };

            assert(old_block == window[0]);
            assert(window.contains(old_block));
            assert(ordered.to_multiset().count(old_block) > 0);
            assert(ordered.contains(old_block));
            let at = choose|k: int| 0 <= k < ordered.len() && ordered[k] == old_block;
            assert(ordered[at].value() == old_block.value());
            assert(place < ordered.len());
            B::value_is_injective(ordered[place as int], old_block);
            assert(window.remove(0) == window.drop_first());
            assert(ordered.remove(place as int).to_multiset() == window.drop_first().to_multiset());
            assert forall|i: int, j: int|
                #![trigger ordered.remove(place as int)[i], ordered.remove(place as int)[j]]
                0 <= i <= j < ordered.remove(place as int).len() implies ordered.remove(
                place as int,
            )[i].value() <= ordered.remove(place as int)[j].value() by {
                let p = place as int;
                let ii = if i < p {
                    i
                } else {
                    i + 1
                };
                let jj = if j < p {
                    j
                } else {
                    j + 1
                };
                assert(ordered.remove(p)[i] == ordered[ii]);
                assert(ordered.remove(p)[j] == ordered[jj]);
            }
        }
        self.ordered_validation_blocks.remove(place);
        insert_ordered(&mut self.ordered_validation_blocks, new_block);
        self.total_blocks += 1;
        Ok(())
    }
}

} // verus!
