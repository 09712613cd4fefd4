//! The multiset of the sums of two that a window of `u128` blocks has, and
//! what holds of it.

use crate::mine::{is_sum_of_two, lemma_same_blocks_same_sums, Block};
use vstd::multiset::Multiset;
use vstd::prelude::*;

verus! {

/// `sums` with the sum of `a` and `b` put in, where `u128` holds that sum.
pub open spec fn with_sum(sums: Multiset<u128>, a: u128, b: u128) -> Multiset<u128> {
    if a + b <= u128::MAX {
        sums.insert((a + b) as u128)
    } else {
        sums
    }
}

/// The sums of `block` and each of `others` that `u128` holds, each as often
/// as it comes about.
pub open spec fn sums_with(block: u128, others: Seq<u128>) -> Multiset<u128>
    decreases others.len(),
{
    if others.len() == 0 {
        Multiset::empty()
    } else {
        with_sum(sums_with(block, others.drop_last()), block, others.last())
    }
}

/// The sums of the blocks at every two different places of `window` that
/// `u128` holds, each as often as it comes about.
pub open spec fn pair_sums(window: Seq<u128>) -> Multiset<u128>
    decreases window.len(),
{
    if window.len() == 0 {
        Multiset::empty()
    } else {
        pair_sums(window.drop_last()).add(sums_with(window.last(), window.drop_last()))
    }
}

/// The sums with a block can be taken from the front as well as from the end.
pub proof fn lemma_sums_with_from_front(block: u128, others: Seq<u128>)
    requires
        others.len() > 0,
    ensures
        sums_with(block, others) == with_sum(
            sums_with(block, others.drop_first()),
            block,
            others[0],
        ),
    decreases others.len(),
{
    broadcast use vstd::multiset::group_multiset_axioms;

    if others.len() == 1 {
        assert(others.drop_last() == others.drop_first());
        assert(sums_with(block, others.drop_first()) == Multiset::<u128>::empty());
    } else {
        lemma_sums_with_from_front(block, others.drop_last());
        assert(others.drop_last().drop_first() == others.drop_first().drop_last());
        assert(others.drop_first().last() == others.last());
        assert(others.drop_last()[0] == others[0]);
        assert(sums_with(block, others) =~= with_sum(
            sums_with(block, others.drop_first()),
            block,
            others[0],
        ));
    }
}

/// The sums of two can be taken from the front as well as from the end: they
/// are the sums with the first block and the sums of two among the rest.
pub proof fn lemma_pair_sums_from_front(window: Seq<u128>)
    requires
        window.len() > 0,
    ensures
        pair_sums(window) == sums_with(window[0], window.drop_first()).add(
            pair_sums(window.drop_first()),
        ),
    decreases window.len(),
{
    broadcast use vstd::multiset::group_multiset_axioms;

    if window.len() == 1 {
        assert(window.drop_last() == window.drop_first());
        assert(pair_sums(window) =~= sums_with(window[0], window.drop_first()).add(
            pair_sums(window.drop_first()),
        ));
    } else {
        let last = window.last();
        let middle = window.drop_first().drop_last();
        lemma_pair_sums_from_front(window.drop_last());
        lemma_sums_with_from_front(last, window.drop_last());
        assert(window.drop_last().drop_first() == middle);
        assert(window.drop_first().last() == last);
        assert(window.drop_last()[0] == window[0]);
        assert(sums_with(window[0], window.drop_first()) == with_sum(
            sums_with(window[0], middle),
            window[0],
            last,
        ));
        assert(pair_sums(window) =~= sums_with(window[0], window.drop_first()).add(
            pair_sums(window.drop_first()),
        ));
    }
}

/// A sum with a block is held exactly when one of the others adds up to it
/// with the block, and there are no more sums than others.
pub proof fn lemma_sums_with_holds(block: u128, others: Seq<u128>, value: u128)
    ensures
        sums_with(block, others).count(value) > 0 <==> exists|k: int|
            0 <= k < others.len() && block + #[trigger] others[k] == value,
        sums_with(block, others).len() <= others.len(),
    decreases others.len(),
{
    broadcast use vstd::multiset::group_multiset_axioms;

    if others.len() > 0 {
        let rest = others.drop_last();
        lemma_sums_with_holds(block, rest, value);
        if sums_with(block, others).count(value) > 0 {
            if sums_with(block, rest).count(value) > 0 {
                let k = choose|k: int| 0 <= k < rest.len() && block + #[trigger] rest[k] == value;
                assert(block + others[k] == value);
            } else {
                assert(block + others[others.len() - 1] == value);
            }
        }
        if exists|k: int| 0 <= k < others.len() && block + #[trigger] others[k] == value {
            let k = choose|k: int| 0 <= k < others.len() && block + #[trigger] others[k] == value;
            if k < rest.len() {
                assert(block + rest[k] == value);
            }
        }
    }
}

/// The test that the pair-sum mine makes is the rule: a value is among the
/// sums of two of a window exactly when it is the sum of the blocks at two
/// different places of it. A window of `n` blocks has at most `n * (n - 1) / 2`
/// such sums.
pub proof fn lemma_pair_sums_hold(window: Seq<u128>, value: u128)
    ensures
        pair_sums(window).count(value) > 0 <==> is_sum_of_two(window, value),
        2 * pair_sums(window).len() <= window.len() * (window.len() - 1),
    decreases window.len(),
{
    broadcast use vstd::multiset::group_multiset_axioms;

    if window.len() > 0 {
        let rest = window.drop_last();
        let last = window.last();
        let n = rest.len() as int;
        lemma_pair_sums_hold(rest, value);
        lemma_sums_with_holds(last, rest, value);
        assert((n + 1) * n == n * (n - 1) + 2 * n) by (nonlinear_arith);
        if pair_sums(window).count(value) > 0 {
            if pair_sums(rest).count(value) > 0 {
                let (i, j) = choose|i: int, j: int|
                    #![trigger rest[i], rest[j]]
                    0 <= i < rest.len() && 0 <= j < rest.len() && i != j && rest[i].value()
                        + rest[j].value() == value.value();
                assert(window[i].value() + window[j].value() == value.value());
            } else {
                let k = choose|k: int| 0 <= k < rest.len() && last + #[trigger] rest[k] == value;
                assert(window[k].value() + window[n].value() == value.value());
            }
        }
        if is_sum_of_two(window, value) {
            let (i, j) = choose|i: int, j: int|
                #![trigger window[i], window[j]]
                0 <= i < window.len() && 0 <= j < window.len() && i != j && window[i].value()
                    + window[j].value() == value.value();
            if i < n && j < n {
                assert(rest[i].value() + rest[j].value() == value.value());
            } else if i == n {
                assert(last + rest[j] == value);
            } else {
                assert(last + rest[i] == value);
            }
        }
    } else {
        assert(window.len() * (window.len() - 1) == 0) by (nonlinear_arith)
            requires
                window.len() == 0,
        ;
    }
}

/// The two kinds of mine test alike: a value is among the sums of two of a
/// window exactly when two blocks at different places of any reordering of
/// the window add up to it.
pub proof fn lemma_sums_and_order_agree(window: Seq<u128>, ordered: Seq<u128>, value: u128)
    requires
        ordered.to_multiset() == window.to_multiset(),
    ensures
        pair_sums(window).count(value) > 0 <==> is_sum_of_two(ordered, value),
{
    lemma_pair_sums_hold(window, value);
    lemma_same_blocks_same_sums(window, ordered, value);
}

} // verus!
