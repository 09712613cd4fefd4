//! What every mine shares: the blocks, the errors, the rule that decides
//! whether a block is accepted, and the operations built on a single step.

use vstd::prelude::*;

verus! {

/// A block of a mine: a value that stands for a natural number, can be added
/// to another block and compared with it.
pub trait Block: Copy + Sized {
    /// The number that the block stands for.
    spec fn value(self) -> nat;

    /// Blocks that stand for the same number are the same block.
    proof fn value_is_injective(a: Self, b: Self)
        requires
            a.value() == b.value(),
        ensures
            a == b,
    ;

    /// The block that stands for the sum of the two numbers, or `None` where
    /// the sum is beyond every block of the type.
    fn checked_sum(self, other: Self) -> (sum: Option<Self>)
        ensures
            match sum {
                Some(s) => s.value() == self.value() + other.value(),
                None => forall|b: Self| #[trigger] b.value() < self.value() + other.value(),
            },
    ;

    /// Whether the block's number is smaller than the other's.
    fn precedes(self, other: Self) -> (smaller: bool)
        ensures
            smaller == (self.value() < other.value()),
    ;
}

impl Block for u8 {
    open spec fn value(self) -> nat {
        self as nat
    }

    proof fn value_is_injective(a: Self, b: Self) {
    }

    fn checked_sum(self, other: Self) -> (sum: Option<Self>) {
        self.checked_add(other)
    }

    fn precedes(self, other: Self) -> (smaller: bool) {
        self < other
    }
}

impl Block for u16 {
    open spec fn value(self) -> nat {
        self as nat
    }

    proof fn value_is_injective(a: Self, b: Self) {
    }

    fn checked_sum(self, other: Self) -> (sum: Option<Self>) {
        self.checked_add(other)
    }

    fn precedes(self, other: Self) -> (smaller: bool) {
        self < other
    }
}

impl Block for u32 {
    open spec fn value(self) -> nat {
        self as nat
    }

    proof fn value_is_injective(a: Self, b: Self) {
    }

    fn checked_sum(self, other: Self) -> (sum: Option<Self>) {
        self.checked_add(other)
    }

    fn precedes(self, other: Self) -> (smaller: bool) {
        self < other
    }
}

impl Block for u64 {
    open spec fn value(self) -> nat {
        self as nat
    }

    proof fn value_is_injective(a: Self, b: Self) {
    }

    fn checked_sum(self, other: Self) -> (sum: Option<Self>) {
        self.checked_add(other)
    }

    fn precedes(self, other: Self) -> (smaller: bool) {
        self < other
    }
}

impl Block for u128 {
    open spec fn value(self) -> nat {
        self as nat
    }

    proof fn value_is_injective(a: Self, b: Self) {
    }

    fn checked_sum(self, other: Self) -> (sum: Option<Self>) {
        self.checked_add(other)
    }

    fn precedes(self, other: Self) -> (smaller: bool) {
        self < other
    }
}

impl Block for usize {
    open spec fn value(self) -> nat {
        self as nat
    }

    proof fn value_is_injective(a: Self, b: Self) {
    }

    fn checked_sum(self, other: Self) -> (sum: Option<Self>) {
        self.checked_add(other)
    }

    fn precedes(self, other: Self) -> (smaller: bool) {
        self < other
    }
}

/// Why a mine refused its input.
#[derive(Debug, PartialEq, Eq)]
pub enum MineError<const VALIDATION_WINDOW_SIZE: usize, B: Block> {
    /// Fewer blocks than the window holds were given to start a mine.
    InvalidInitializationBlocksSize,
    /// The block, and its place in the stream counted from one, that is not the
    /// sum of two blocks of the window before it.
    InvalidBlock(B, usize),
}

/// Whether `value` is the sum of the blocks at two different places of `window`.
pub open spec fn is_sum_of_two<B: Block>(window: Seq<B>, value: B) -> bool {
    exists|i: int, j: int|
        #![trigger window[i], window[j]]
        0 <= i < window.len() && 0 <= j < window.len() && i != j && window[i].value()
            + window[j].value() == value.value()
}

/// The window after it has taken `value` in: the oldest block gone, `value`
/// at the end.
pub open spec fn slide<B>(window: Seq<B>, value: B) -> Seq<B> {
    window.drop_first().push(value)
}

/// How many of `values`, from the first on, a mine whose window is `window`
/// accepts one after another before it meets one that it refuses.
pub open spec fn accepted_len<B: Block>(window: Seq<B>, values: Seq<B>) -> nat
    decreases values.len(),
{
    if values.len() == 0 || !is_sum_of_two(window, values[0]) {
        0
    } else {
        1 + accepted_len(slide(window, values[0]), values.drop_first())
    }
}

/// What a mine whose window is `window`, and which has taken in `total_blocks`
/// blocks so far, answers when it is given `value`.
pub open spec fn step_result<const VALIDATION_WINDOW_SIZE: usize, B: Block>(
    window: Seq<B>,
    total_blocks: nat,
    value: B,
) -> Result<(), MineError<VALIDATION_WINDOW_SIZE, B>> {
    if is_sum_of_two(window, value) {
        Ok(())
    } else {
        Err(MineError::InvalidBlock(value, (total_blocks + 1) as usize))
    }
}

/// What comes of a whole stream: its first `VALIDATION_WINDOW_SIZE` blocks
/// start a mine, and the mine is given the rest one after another until it
/// refuses one.
pub open spec fn stream_result<const VALIDATION_WINDOW_SIZE: usize, B: Block>(
    blocks: Seq<B>,
) -> Result<(), MineError<VALIDATION_WINDOW_SIZE, B>> {
    let size = VALIDATION_WINDOW_SIZE as int;
    if blocks.len() < size {
        Err(MineError::InvalidInitializationBlocksSize)
    } else {
        let accepted = accepted_len(blocks.take(size), blocks.skip(size));
        if size + accepted == blocks.len() {
            Ok(())
        } else {
            Err(MineError::InvalidBlock(blocks[size + accepted], (size + accepted + 1) as usize))
        }
    }
}

/// A mine: a window of the blocks accepted last, which takes in a new block
/// only if it is the sum of two blocks at different places of the window.
pub trait Mine<const VALIDATION_WINDOW_SIZE: usize, B: Block>: Sized {
    /// The window: the blocks accepted last, the oldest first.
    spec fn window(&self) -> Seq<B>;

    /// How many blocks the mine has taken in, those it was made from included.
    spec fn total_blocks(&self) -> nat;

    /// Whether the mine's parts fit together: the window is full and what the
    /// mine keeps beside it describes the window.
    spec fn wf(&self) -> bool;

    /// Whether this machine can hold what a mine of this kind keeps for a
    /// window of `VALIDATION_WINDOW_SIZE` blocks.
    spec fn window_size_fits() -> bool;

    /// A mine whose parts fit together has a full window and a count that
    /// `usize` holds.
    proof fn lemma_window_is_full(&self)
        requires
            self.wf(),
        ensures
            self.window().len() == VALIDATION_WINDOW_SIZE,
            self.total_blocks() <= usize::MAX,
    ;

    /// Makes a mine whose window holds `initialization_blocks` in their order.
    /// The blocks are not held to the rule.
    fn new(initialization_blocks: [B; VALIDATION_WINDOW_SIZE]) -> (mine: Self)
        requires
            Self::window_size_fits(),
        ensures
            mine.wf(),
            mine.window() == initialization_blocks@,
            mine.total_blocks() == VALIDATION_WINDOW_SIZE,
    ;

    /// Gives the mine one block. If the block is the sum of two blocks at
    /// different places of the window, the window slides on to it; if not, the
    /// mine stays as it was and the error names the block and its place in the
    /// stream.
    fn try_extend_one(&mut self, new_block: B) -> (result: Result<
        (),
        MineError<VALIDATION_WINDOW_SIZE, B>,
    >)
        requires
            old(self).wf(),
            old(self).total_blocks() < usize::MAX,
        ensures
            final(self).wf(),
            result == step_result::<VALIDATION_WINDOW_SIZE, B>(
                old(self).window(),
                old(self).total_blocks(),
                new_block,
            ),
            result is Ok ==> final(self).window() == slide(old(self).window(), new_block)
                && final(self).total_blocks() == old(self).total_blocks() + 1,
            result is Err ==> *final(self) == *old(self),
    ;

    /// Makes a mine from the first `VALIDATION_WINDOW_SIZE` blocks of
    /// `initialization_blocks`, and fails where there are fewer.
    fn try_new(initialization_blocks: &[B]) -> (mine: Result<
        Self,
        MineError<VALIDATION_WINDOW_SIZE, B>,
    >)
        requires
            Self::window_size_fits(),
        ensures
            match mine {
                Ok(m) => {
                    &&& initialization_blocks@.len() >= VALIDATION_WINDOW_SIZE
                    &&& m.wf()
                    &&& m.window() == initialization_blocks@.take(VALIDATION_WINDOW_SIZE as int)
                    &&& m.total_blocks() == VALIDATION_WINDOW_SIZE
                },
                Err(e) => {
                    &&& initialization_blocks@.len() < VALIDATION_WINDOW_SIZE
                    &&& e == MineError::<VALIDATION_WINDOW_SIZE, B>::InvalidInitializationBlocksSize
                },
            },
    {
        let (taken, _) = take_with_remainder(initialization_blocks, VALIDATION_WINDOW_SIZE);
        match array_from_vec::<B, VALIDATION_WINDOW_SIZE>(taken) {
            Ok(array) => Ok(Self::new(array)),
            Err(_) => Err(MineError::InvalidInitializationBlocksSize),
        }
    }

    /// Gives the mine the blocks one after another and stops at the first that
    /// it refuses. The blocks before that one stay taken in.
    fn try_extend(&mut self, blocks: &[B]) -> (result: Result<
        (),
        MineError<VALIDATION_WINDOW_SIZE, B>,
    >)
        requires
            old(self).wf(),
            old(self).total_blocks() + blocks@.len() <= usize::MAX,
        ensures
            final(self).wf(),
            ({
                let accepted = accepted_len(old(self).window(), blocks@);
                &&& final(self).window() == (old(self).window() + blocks@.take(
                    accepted as int,
                )).skip(accepted as int)
                &&& final(self).total_blocks() == old(self).total_blocks() + accepted
                &&& match result {
                    Ok(()) => accepted == blocks@.len(),
                    Err(e) => accepted < blocks@.len() && e == MineError::<
                        VALIDATION_WINDOW_SIZE,
                        B,
                    >::InvalidBlock(
                        blocks@[accepted as int],
                        (old(self).total_blocks() + accepted + 1) as usize,
                    ),
                }
            }),
    {
        let ghost first_window = self.window();
        let ghost first_total = self.total_blocks();
        let mut i: usize = 0;
        proof {
            assert(blocks@.skip(0) == blocks@);
            assert((first_window + blocks@.take(0)).skip(0) == first_window);
        }
        while i < blocks.len()
            invariant
                i <= blocks@.len(),
                self.wf(),
                first_window == old(self).window(),
                first_total == old(self).total_blocks(),
                first_total + blocks@.len() <= usize::MAX,
                self.window() == (first_window + blocks@.take(i as int)).skip(i as int),
                self.total_blocks() == first_total + i,
                accepted_len(first_window, blocks@) == i + accepted_len(
                    self.window(),
                    blocks@.skip(i as int),
                ),
            decreases blocks@.len() - i,
        {
            let ghost window = self.window();
            proof {
                self.lemma_window_is_full();
                assert(blocks@.skip(i as int)[0] == blocks@[i as int]);
                assert(blocks@.skip(i as int).drop_first() == blocks@.skip(i + 1));
            }
            match self.try_extend_one(blocks[i]) {
                Ok(()) => {},
                Err(e) => {
                    assert(accepted_len(window, blocks@.skip(i as int)) == 0);
                    return Err(e);
                },
            }
            proof {
                lemma_pair_needs_two(window, blocks@[i as int]);
                assert(slide(window, blocks@[i as int]) == (first_window + blocks@.take(
                    i + 1,
                )).skip(i + 1));
            }
            i += 1;
        }
        Ok(())
    }

    /// Takes a whole stream: makes a mine from its first
    /// `VALIDATION_WINDOW_SIZE` blocks and gives it the rest.
    fn try_create_and_extend(blocks: &[B]) -> (result: Result<
        (),
        MineError<VALIDATION_WINDOW_SIZE, B>,
    >)
        requires
            Self::window_size_fits(),
        ensures
            result == stream_result::<VALIDATION_WINDOW_SIZE, B>(blocks@),
    {
        let (initialization_blocks, remaining_blocks) = take_with_remainder(
            blocks,
            VALIDATION_WINDOW_SIZE,
        );
        match array_from_vec::<B, VALIDATION_WINDOW_SIZE>(initialization_blocks) {
            Ok(array) => {
                let mut mine = Self::new(array);
                proof {
                    assert(blocks@.len() == blocks.len());
                    assert(mine.window() == blocks@.take(VALIDATION_WINDOW_SIZE as int));
                    assert(remaining_blocks@ == blocks@.skip(VALIDATION_WINDOW_SIZE as int));
                }
                let result = mine.try_extend(remaining_blocks);
                proof {
                    let size = VALIDATION_WINDOW_SIZE as int;
                    let accepted = accepted_len(blocks@.take(size), blocks@.skip(size));
                    if result is Ok {
                        assert(result->Ok_0 == ());
                    } else {
                        assert(remaining_blocks@[accepted as int] == blocks@[size + accepted]);
                    }
                }
                result
            },
            Err(_) => Err(MineError::InvalidInitializationBlocksSize),
        }
    }
}

/// Where two sequences hold the same items, each as often as the other, two
/// different places of the first have their items at two different places of
/// the second.
pub proof fn lemma_two_places<A>(a: Seq<A>, b: Seq<A>, i: int, j: int) -> (places: (int, int))
    requires
        a.to_multiset() == b.to_multiset(),
        0 <= i < a.len(),
        0 <= j < a.len(),
        i != j,
    ensures
        0 <= places.0 < b.len(),
        0 <= places.1 < b.len(),
        places.0 != places.1,
        b[places.0] == a[i],
        b[places.1] == a[j],
{
    broadcast use {
        vstd::seq_lib::to_multiset_contains,
        vstd::seq_lib::to_multiset_remove,
        vstd::seq_lib::to_multiset_len,
    };

    assert(a.contains(a[i]));
    assert(b.to_multiset().count(a[i]) > 0);
    assert(b.contains(a[i]));
    let first = choose|k: int| 0 <= k < b.len() && b[k] == a[i];
    let a_rest = a.remove(i);
    let b_rest = b.remove(first);
    assert(a_rest.to_multiset() == b_rest.to_multiset());
    let j_rest = if j < i {
        j
    } else {
        j - 1
    };
    assert(a_rest[j_rest] == a[j]);
    assert(a_rest.contains(a[j]));
    assert(b_rest.to_multiset().count(a[j]) > 0);
    assert(b_rest.contains(a[j]));
    let k = choose|k: int| 0 <= k < b_rest.len() && b_rest[k] == a[j];
    let second = if k < first {
        k
    } else {
        k + 1
    };
    assert(b[second] == b_rest[k]);
    (first, second)
}

/// The rule looks at which blocks the window holds, not at their order: two
/// windows with the same blocks, each as often, have the same sums of two.
pub proof fn lemma_same_blocks_same_sums<B: Block>(a: Seq<B>, b: Seq<B>, value: B)
    requires
        a.to_multiset() == b.to_multiset(),
    ensures
        is_sum_of_two(a, value) == is_sum_of_two(b, value),
{
    if is_sum_of_two(a, value) {
        let (i, j) = choose|i: int, j: int|
            #![trigger a[i], a[j]]
            0 <= i < a.len() && 0 <= j < a.len() && i != j && a[i].value() + a[j].value()
                == value.value();
        let (k, l) = lemma_two_places(a, b, i, j);
        assert(b[k].value() + b[l].value() == value.value());
    }
    if is_sum_of_two(b, value) {
        let (i, j) = choose|i: int, j: int|
            #![trigger b[i], b[j]]
            0 <= i < b.len() && 0 <= j < b.len() && i != j && b[i].value() + b[j].value()
                == value.value();
        let (k, l) = lemma_two_places(b, a, i, j);
        assert(a[k].value() + a[l].value() == value.value());
    }
}

/// The window after it has taken in each of `values` in turn.
pub open spec fn slide_all<B>(window: Seq<B>, values: Seq<B>) -> Seq<B>
    decreases values.len(),
{
    if values.len() == 0 {
        window
    } else {
        slide_all(slide(window, values[0]), values.drop_first())
    }
}

/// After any run of accepted blocks the window is as long as it was, and it
/// holds the blocks accepted last, in the order in which they were accepted:
/// the end of the old window followed by the new blocks.
pub proof fn lemma_window_holds_last_accepted<B: Block>(window: Seq<B>, values: Seq<B>)
    requires
        accepted_len(window, values) == values.len(),
    ensures
        slide_all(window, values).len() == window.len(),
        slide_all(window, values) == (window + values).skip(values.len() as int),
    decreases values.len(),
{
    if values.len() == 0 {
        assert((window + values).skip(0) == window);
    } else {
        lemma_pair_needs_two(window, values[0]);
        let next = slide(window, values[0]);
        let rest = values.drop_first();
        lemma_window_holds_last_accepted(next, rest);
        assert((next + rest).skip(rest.len() as int) == (window + values).skip(
            values.len() as int,
        ));
    }
}

/// Two mines with the same window and the same count, of whatever kinds, give
/// the same answer to the same block and have the same window and the same
/// count afterwards. What is required of each mine is what `try_extend_one`
/// ensures of it.
pub proof fn lemma_mines_agree<
    const VALIDATION_WINDOW_SIZE: usize,
    B: Block,
    M1: Mine<VALIDATION_WINDOW_SIZE, B>,
    M2: Mine<VALIDATION_WINDOW_SIZE, B>,
>(
    one: M1,
    other: M2,
    value: B,
    one_after: M1,
    other_after: M2,
    one_result: Result<(), MineError<VALIDATION_WINDOW_SIZE, B>>,
    other_result: Result<(), MineError<VALIDATION_WINDOW_SIZE, B>>,
)
    requires
        one.window() == other.window(),
        one.total_blocks() == other.total_blocks(),
        one_result == step_result::<VALIDATION_WINDOW_SIZE, B>(
            one.window(),
            one.total_blocks(),
            value,
        ),
        one_result is Ok ==> one_after.window() == slide(one.window(), value)
            && one_after.total_blocks() == one.total_blocks() + 1,
        one_result is Err ==> one_after == one,
        other_result == step_result::<VALIDATION_WINDOW_SIZE, B>(
            other.window(),
            other.total_blocks(),
            value,
        ),
        other_result is Ok ==> other_after.window() == slide(other.window(), value)
            && other_after.total_blocks() == other.total_blocks() + 1,
        other_result is Err ==> other_after == other,
    ensures
        one_result == other_result,
        one_after.window() == other_after.window(),
        one_after.total_blocks() == other_after.total_blocks(),
{
}

/// A block that a mine has refused is refused again, with the same error, as
/// often as it is given to the mine, and the mine stays as it was. What is
/// required of the two calls is what `try_extend_one` ensures of them.
pub proof fn lemma_refusal_repeats<
    const VALIDATION_WINDOW_SIZE: usize,
    B: Block,
    M: Mine<VALIDATION_WINDOW_SIZE, B>,
>(
    mine: M,
    value: B,
    after_first: M,
    first: Result<(), MineError<VALIDATION_WINDOW_SIZE, B>>,
    after_second: M,
    second: Result<(), MineError<VALIDATION_WINDOW_SIZE, B>>,
)
    requires
        first is Err,
        first == step_result::<VALIDATION_WINDOW_SIZE, B>(
            mine.window(),
            mine.total_blocks(),
            value,
        ),
        first is Err ==> after_first == mine,
        second == step_result::<VALIDATION_WINDOW_SIZE, B>(
            after_first.window(),
            after_first.total_blocks(),
            value,
        ),
        second is Err ==> after_second == after_first,
    ensures
        second == first,
        second == Err::<(), MineError<VALIDATION_WINDOW_SIZE, B>>(
            MineError::InvalidBlock(value, (mine.total_blocks() + 1) as usize),
        ),
        after_second == mine,
{
}

/// A window with a sum of two has at least two blocks.
pub proof fn lemma_pair_needs_two<B: Block>(window: Seq<B>, value: B)
    requires
        is_sum_of_two(window, value),
    ensures
        window.len() >= 2,
{
}

/// Takes the first `n` items of `values`, or all of them if there are fewer,
/// and hands them back with the items that follow them.
pub fn take_with_remainder<T: Copy>(values: &[T], n: usize) -> (parts: (Vec<T>, &[T]))
    ensures
        parts.0@ == values@.take(if n <= values@.len() { n as int } else { values@.len() as int }),
        parts.1@ == values@.skip(if n <= values@.len() { n as int } else { values@.len() as int }),
{
    let mut taken: Vec<T>;
    if values.len() < n {
        taken = Vec::new();
    } else {
        taken = Vec::with_capacity(n);
    }
    let mut i: usize = 0;
    while i < n && i < values.len()
        invariant
            i <= n,
            i <= values@.len(),
            taken@ == values@.take(i as int),
        decreases values@.len() - i,
    {
        taken.push(values[i]);
        i += 1;
    }
    let remainder = &values[i..values.len()];
    (taken, remainder)
}

/// `<[T; N]>::try_from` on a vector: with exactly `N` items the array holds
/// them in their order; with any other number the vector comes back as it was.
#[verifier::external_body]
fn array_from_vec<T, const N: usize>(items: Vec<T>) -> (array: Result<[T; N], Vec<T>>)
    ensures
        match array {
            Ok(a) => items@.len() == N && a@ == items@,
            Err(v) => items@.len() != N && v@ == items@,
        },
{
    <[T; N]>::try_from(items)
}

} // verus!
