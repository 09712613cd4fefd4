//! Validation of a stream of blocks against a sliding window: a block is
//! accepted when it is the sum of two blocks at different places among the
//! blocks accepted just before it.

pub mod hash_mine;
pub mod mine;
pub mod ordered;
pub mod pair_sums;
pub mod two_ptr_mine;

use crate::hash_mine::HashMine;
use crate::mine::{accepted_len, slide, step_result, stream_result, Mine as _};
pub use crate::mine::{Block, MineError};
use std::collections::VecDeque;
use vstd::prelude::*;

verus! {

/// The mine for callers that do not choose one: a mine of `u128` blocks that
/// keeps the sums of two of its window, with the operations of every mine as
/// its own methods.
#[derive(Debug)]
pub struct Mine<const VALIDATION_WINDOW_SIZE: usize> {
    /// The mine that does the work.
    sums_mine: HashMine<VALIDATION_WINDOW_SIZE>,
}

impl<const VALIDATION_WINDOW_SIZE: usize> Clone for Mine<VALIDATION_WINDOW_SIZE> {
    /// A mine of its own with the same window and the same count.
    fn clone(&self) -> (copy: Self)
        ensures
            copy.window() == self.window(),
            copy.total_blocks() == self.total_blocks(),
            copy.wf() == self.wf(),
    {
        Mine { sums_mine: self.sums_mine.clone() }
    }
}

impl<const VALIDATION_WINDOW_SIZE: usize> Mine<VALIDATION_WINDOW_SIZE> {
    /// The window: the blocks accepted last, the oldest first.
    pub closed spec fn window(&self) -> Seq<u128> {
        self.sums_mine.window()
    }

    /// How many blocks the mine has taken in, those it was made from included.
    pub closed spec fn total_blocks(&self) -> nat {
        self.sums_mine.total_blocks()
    }

    /// Whether the mine's parts fit together.
    pub closed spec fn wf(&self) -> bool {
        self.sums_mine.wf()
    }

    /// Whether this machine can count the pairs of places of a window of
    /// `VALIDATION_WINDOW_SIZE` blocks.
    pub open spec fn window_size_fits() -> bool {
        VALIDATION_WINDOW_SIZE * (VALIDATION_WINDOW_SIZE - 1) / 2 <= usize::MAX
    }

    /// A mine whose parts fit together has a full window and a count that
    /// `usize` holds.
    pub proof fn lemma_window_is_full(&self)
        requires
            self.wf(),
        ensures
            self.window().len() == VALIDATION_WINDOW_SIZE,
            self.total_blocks() <= usize::MAX,
    {
        self.sums_mine.lemma_window_is_full();
    }

    /// Makes a mine whose window holds `initialization_blocks` in their order.
    /// The blocks are not held to the rule.
    pub fn new(initialization_blocks: [u128; VALIDATION_WINDOW_SIZE]) -> (mine: Self)
        requires
            Self::window_size_fits(),
        ensures
            mine.wf(),
            mine.window() == initialization_blocks@,
            mine.total_blocks() == VALIDATION_WINDOW_SIZE,
    {
        Mine { sums_mine: HashMine::new(initialization_blocks) }
    }

    /// Gives the mine one block. If the block is the sum of two blocks at
    /// different places of the window, the window slides on to it; if not, the
    /// mine stays as it was and the error names the block and its place in the
    /// stream.
    pub fn try_extend_one(&mut self, new_block: u128) -> (result: Result<
        (),
        MineError<VALIDATION_WINDOW_SIZE, u128>,
    >)
        requires
            old(self).wf(),
            old(self).total_blocks() < usize::MAX,
        ensures
            final(self).wf(),
            result == step_result::<VALIDATION_WINDOW_SIZE, u128>(
                old(self).window(),
                old(self).total_blocks(),
                new_block,
            ),
            result is Ok ==> final(self).window() == slide(old(self).window(), new_block)
                && final(self).total_blocks() == old(self).total_blocks() + 1,
            result is Err ==> *final(self) == *old(self),
    {
        self.sums_mine.try_extend_one(new_block)
    }

    /// The window of the mine.
    pub fn validation_blocks(&self) -> (blocks: &VecDeque<u128>)
        ensures
            blocks@ == self.window(),
    {
        self.sums_mine.validation_blocks()
    }

    /// Makes a mine from the first `VALIDATION_WINDOW_SIZE` blocks of
    /// `initialization_blocks`, and fails where there are fewer.
    pub fn try_new(initialization_blocks: &[u128]) -> (mine: Result<
        Self,
        MineError<VALIDATION_WINDOW_SIZE, u128>,
    >)
        requires
            Self::window_size_fits(),
        ensures
            match mine {
                Ok(m) => {
                    &&& initialization_blocks@.len() >= VALIDATION_WINDOW_SIZE
                    &&& m.wf()
                    &&& m.window() == initialization_blocks@.take(VALIDATION_WINDOW_SIZE as int)
                    &&& m.total_blocks() == VALIDATION_WINDOW_SIZE
                },
                Err(e) => {
                    &&& initialization_blocks@.len() < VALIDATION_WINDOW_SIZE
                    &&& e == MineError::<
                        VALIDATION_WINDOW_SIZE,
                        u128,
                    >::InvalidInitializationBlocksSize
                },
            },
    {
        match HashMine::try_new(initialization_blocks) {
            Ok(sums_mine) => Ok(Mine { sums_mine }),
            Err(e) => Err(e),
        }
    }

    /// Gives the mine the blocks one after another and stops at the first that
    /// it refuses. The blocks before that one stay taken in.
    pub fn try_extend(&mut self, blocks: &[u128]) -> (result: Result<
        (),
        MineError<VALIDATION_WINDOW_SIZE, u128>,
    >)
        requires
            old(self).wf(),
            old(self).total_blocks() + blocks@.len() <= usize::MAX,
        ensures
            final(self).wf(),
            ({
                let accepted = accepted_len(old(self).window(), blocks@);
                &&& final(self).window() == (old(self).window() + blocks@.take(
                    accepted as int,
                )).skip(accepted as int)
                &&& final(self).total_blocks() == old(self).total_blocks() + accepted
                &&& match result {
                    Ok(()) => accepted == blocks@.len(),
                    Err(e) => accepted < blocks@.len() && e == MineError::<
                        VALIDATION_WINDOW_SIZE,
                        u128,
                    >::InvalidBlock(
                        blocks@[accepted as int],
                        (old(self).total_blocks() + accepted + 1) as usize,
                    ),
                }
            }),
    {
        self.sums_mine.try_extend(blocks)
    }

    /// Takes a whole stream: makes a mine from its first
    /// `VALIDATION_WINDOW_SIZE` blocks and gives it the rest.
    pub fn try_create_and_extend(blocks: &[u128]) -> (result: Result<
        (),
        MineError<VALIDATION_WINDOW_SIZE, u128>,
    >)
        requires
            Self::window_size_fits(),
        ensures
            result == stream_result::<VALIDATION_WINDOW_SIZE, u128>(blocks@),
    {
        HashMine::<VALIDATION_WINDOW_SIZE>::try_create_and_extend(blocks)
    }
}

} // verus!
