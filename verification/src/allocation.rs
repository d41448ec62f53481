//! One allocation, and the rate that produces it.

use vstd::prelude::*;

verus! {

/// The allocation rate, counted in hundredths: 7 stands for 0.07.
pub const RATE_HUNDREDTHS: i128 = 7;

/// A computed amount, held as a whole number of hundredths.
pub enum Allocation {
    Value(i128),
}

/// What a row with the two given cells is allocated, in hundredths:
/// the product of the cells times the rate.
pub open spec fn share(first: i32, second: i32) -> int {
    first * second * RATE_HUNDREDTHS
}

/// The number of rows that two columns have in common.
pub open spec fn paired_rows(first: Seq<i32>, second: Seq<i32>) -> nat {
    if first.len() <= second.len() {
        first.len()
    } else {
        second.len()
    }
}

/// The allocations of two columns paired row by row, up to the end of the
/// shorter one.
pub open spec fn zipped(first: Seq<i32>, second: Seq<i32>) -> Seq<Allocation> {
    Seq::new(
        paired_rows(first, second),
        |i: int| Allocation::Value(share(first[i], second[i]) as i128),
    )
}

/// The largest share that two cells can give: 2^31 * 2^31 * 7.
pub open spec fn largest_share() -> nat {
    0x1_C000_0000_0000_0000
}

/// No share is larger in magnitude than the largest, so that an `i128` holds
/// every share.
pub proof fn lemma_share_bounds(first: i32, second: i32)
    ensures
        -largest_share() <= share(first, second) <= largest_share(),
        share(first, second) as i128 == share(first, second),
{
    let product = first * second;
    assert(-0x4000_0000_0000_0000 <= product <= 0x4000_0000_0000_0000) by (nonlinear_arith)
        requires
            product == first * second,
            -0x8000_0000 <= first <= 0x7fff_ffff,
            -0x8000_0000 <= second <= 0x7fff_ffff,
    ;
}

impl Allocation {
    /// The amount, in hundredths.
    pub open spec fn hundredths(self) -> int {
        match self {
            Allocation::Value(amount) => amount as int,
        }
    }

    /// The allocation of one row.
    pub fn for_row(first: i32, second: i32) -> (allocation: Allocation)
        ensures
            allocation == Allocation::Value(share(first, second) as i128),
            allocation.hundredths() == share(first, second),
    {
        proof {
            lemma_share_bounds(first, second);
        }
        let market_value: i128 = (first as i128) * (second as i128);
        Allocation::Value(market_value * RATE_HUNDREDTHS)
    }

    /// The amount, in hundredths.
    pub fn amount(&self) -> (amount: i128)
        ensures
            amount == self.hundredths(),
    {
        match self {
            Allocation::Value(amount) => *amount,
        }
    }
}

} // verus!
