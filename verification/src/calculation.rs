//! What a calculator returns, and its total.

use vstd::prelude::*;
use crate::allocation::{largest_share, lemma_share_bounds, paired_rows, zipped, Allocation};

verus! {

/// The outcome of running a calculator over a table.
pub enum CalculationResult {
    /// One allocation per row.
    Value(Vec<Allocation>),
    /// An outcome that carries no allocations.
    Conditional,
}

/// The sum of the amounts, taken in the order of the sequence.
pub open spec fn sum_hundredths(allocations: Seq<Allocation>) -> int {
    allocations.fold_left(0int, |sum: int, allocation: Allocation| sum + allocation.hundredths())
}

/// Whether an `i128` can hold `amount`.
pub open spec fn fits(amount: int) -> bool {
    i128::MIN <= amount <= i128::MAX
}

/// Whether an `i128` can hold the sum of every leading part of the sequence.
pub open spec fn running_sums_fit(allocations: Seq<Allocation>) -> bool {
    forall|k: int| 0 <= k <= allocations.len() ==> fits(#[trigger] sum_hundredths(allocations.take(k)))
}

/// One more allocation at the end adds its amount to the sum.
pub proof fn lemma_sum_push(allocations: Seq<Allocation>, next: Allocation)
    ensures
        sum_hundredths(allocations.push(next)) == sum_hundredths(allocations) + next.hundredths(),
{
    assert(allocations.push(next).drop_last() =~= allocations);
}

/// Taking one more allocation from the front of a sequence adds its amount to
/// the sum of those taken before.
pub proof fn lemma_sum_next(allocations: Seq<Allocation>, k: int)
    requires
        0 <= k < allocations.len(),
    ensures
        sum_hundredths(allocations.take(k + 1)) == sum_hundredths(allocations.take(k))
            + allocations[k].hundredths(),
{
    assert(allocations.take(k + 1) =~= allocations.take(k).push(allocations[k]));
    lemma_sum_push(allocations.take(k), allocations[k]);
}

/// Allocations that each lie within `bound` of zero can be summed wherever an
/// `i128` can hold `bound` times their number, and their sum lies within
/// that.
pub proof fn lemma_bounded_sums_fit(allocations: Seq<Allocation>, bound: nat)
    requires
        forall|i: int|
            0 <= i < allocations.len() ==> -bound <= (#[trigger] allocations[i]).hundredths()
                <= bound,
        allocations.len() * bound <= i128::MAX,
    ensures
        running_sums_fit(allocations),
        -(allocations.len() * bound) <= sum_hundredths(allocations) <= allocations.len() * bound,
{
    assert forall|k: int| 0 <= k <= allocations.len() implies fits(
        #[trigger] sum_hundredths(allocations.take(k)),
    ) by {
        lemma_leading_sum_bounds(allocations, bound, k as nat);
        assert(k * bound <= allocations.len() * bound) by (nonlinear_arith)
            requires
                0 <= k <= allocations.len(),
        ;
    }
    lemma_leading_sum_bounds(allocations, bound, allocations.len());
    assert(allocations.take(allocations.len() as int) =~= allocations);
}

/// The sum of the first `k` allocations lies within `k` times `bound`.
proof fn lemma_leading_sum_bounds(allocations: Seq<Allocation>, bound: nat, k: nat)
    requires
        forall|i: int|
            0 <= i < allocations.len() ==> -bound <= (#[trigger] allocations[i]).hundredths()
                <= bound,
        k <= allocations.len(),
    ensures
        -(k * bound) <= sum_hundredths(allocations.take(k as int)) <= k * bound,
    decreases k,
{
    if k == 0 {
        assert(allocations.take(0) =~= Seq::<Allocation>::empty());
    } else {
        let before = (k - 1) as nat;
        lemma_leading_sum_bounds(allocations, bound, before);
        lemma_sum_next(allocations, before as int);
        assert(k * bound == before * bound + bound) by (nonlinear_arith)
            requires
                before == k - 1,
        ;
    }
}

/// A number of rows whose shares can always be summed: 2^62.
pub open spec fn summable_rows() -> nat {
    0x4000_0000_0000_0000
}

/// The allocations of at most 2^62 paired rows can be summed in an `i128`,
/// whatever the cells hold.
pub proof fn lemma_zipped_sums_fit(first: Seq<i32>, second: Seq<i32>)
    requires
        paired_rows(first, second) <= summable_rows(),
    ensures
        running_sums_fit(zipped(first, second)),
{
    let all = zipped(first, second);
    assert forall|i: int| 0 <= i < all.len() implies -largest_share() <= (
    #[trigger] all[i]).hundredths() <= largest_share() by {
        lemma_share_bounds(first[i], second[i]);
    }
    lemma_bounded_sums_fit(all, largest_share());
}

impl CalculationResult {
    /// The total in hundredths: the sum of the allocations, and zero where
    /// there are none to sum.
    pub open spec fn total(self) -> int {
        match self {
            CalculationResult::Value(allocations) => sum_hundredths(allocations@),
            CalculationResult::Conditional => 0,
        }
    }

    /// Whether the total can be summed in an `i128`, allocation by allocation.
    pub open spec fn sums_fit(self) -> bool {
        match self {
            CalculationResult::Value(allocations) => running_sums_fit(allocations@),
            CalculationResult::Conditional => true,
        }
    }
}

/// Reduces a result to its total in hundredths.
///
/// The sum is taken allocation by allocation in an `i128`, which has to hold
/// every running sum. [`lemma_bounded_sums_fit`] shows that from a bound on
/// the amounts, and what `Table::zip_columns` returns comes with it.
/// [`checked_total`] asks nothing.
pub fn calculate_total(result: CalculationResult) -> (total: i128)
    requires
        result.sums_fit(),
    ensures
        total == result.total(),
        !(result is Value) ==> total == 0,
{
    match result {
        CalculationResult::Value(allocations) => {
            let mut total: i128 = 0;
            let mut i: usize = 0;
            assert(allocations@.take(0) =~= Seq::<Allocation>::empty());
            while i < allocations.len()
                invariant
                    i <= allocations.len(),
                    total == sum_hundredths(allocations@.take(i as int)),
                    running_sums_fit(allocations@),
                decreases allocations.len() - i,
            {
                proof {
                    lemma_sum_next(allocations@, i as int);
                    assert(fits(sum_hundredths(allocations@.take(i + 1))));
                }
                total = total + allocations[i].amount();
                i += 1;
            }
            assert(allocations@.take(i as int) =~= allocations@);
            total
        },
        _ => 0,
    }
}

/// The total in hundredths where an `i128` can hold every running sum, and
/// `None` where it cannot.
pub fn checked_total(result: &CalculationResult) -> (total: Option<i128>)
    ensures
        total is Some <==> result.sums_fit(),
        total matches Some(sum) ==> sum == result.total(),
{
    match result {
        CalculationResult::Value(allocations) => {
            let mut total: i128 = 0;
            let mut i: usize = 0;
            assert(allocations@.take(0) =~= Seq::<Allocation>::empty());
            while i < allocations.len()
                invariant
                    *result == CalculationResult::Value(*allocations),
                    i <= allocations.len(),
                    total == sum_hundredths(allocations@.take(i as int)),
                    forall|k: int| 0 <= k <= i ==> fits(#[trigger] sum_hundredths(allocations@.take(k))),
                decreases allocations.len() - i,
            {
                proof {
                    lemma_sum_next(allocations@, i as int);
                }
                match total.checked_add(allocations[i].amount()) {
                    Some(next) => {
                        total = next;
                    },
                    None => {
                        assert(!fits(sum_hundredths(allocations@.take(i + 1))));
                        return None;
                    },
                }
                i += 1;
            }
            assert(allocations@.take(i as int) =~= allocations@);
            Some(total)
        },
        _ => Some(0),
    }
}

} // verus!
