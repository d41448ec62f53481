//! What holds of zipping and summing taken together.

use vstd::prelude::*;
use crate::allocation::{lemma_share_bounds, share, zipped, Allocation, RATE_HUNDREDTHS};
use crate::calculation::{fits, running_sums_fit, sum_hundredths, CalculationResult};
use crate::table::{constant_cells, TableView};

verus! {

/// Two constant columns of `rows` rows sum to `rows` times the share of one
/// row.
pub proof fn lemma_constant_sum(rows: nat, first: i32, second: i32)
    ensures
        sum_hundredths(zipped(constant_cells(rows, first), constant_cells(rows, second))) == rows
            * share(first, second),
    decreases rows,
{
    let all = zipped(constant_cells(rows, first), constant_cells(rows, second));
    if rows > 0 {
        let before = (rows - 1) as nat;
        assert(all.drop_last() =~= zipped(
            constant_cells(before, first),
            constant_cells(before, second),
        ));
        lemma_constant_sum(before, first, second);
        lemma_share_bounds(first, second);
        assert(all.last().hundredths() == share(first, second));
        assert(rows * share(first, second) == before * share(first, second) + share(
            first,
            second,
        )) by (nonlinear_arith)
            requires
                before == rows - 1,
        ;
    }
}

/// Where the two columns that are zipped have `rows` rows each, every cell
/// of the first holding `quantity` and every cell of the second `price`, the
/// total is `rows * quantity * price` times the rate. It can be summed
/// wherever an `i128` can hold it.
pub proof fn lemma_constant_columns_total(
    table: TableView,
    first: Seq<char>,
    second: Seq<char>,
    rows: nat,
    quantity: i32,
    price: i32,
    result: CalculationResult,
)
    requires
        table.has_column(first),
        table.has_column(second),
        table.column(first).data == constant_cells(rows, quantity),
        table.column(second).data == constant_cells(rows, price),
        result matches CalculationResult::Value(allocations) && allocations@ == table.zipped(
            first,
            second,
        ),
    ensures
        result.total() == rows * quantity * price * RATE_HUNDREDTHS,
        fits(rows * quantity * price * RATE_HUNDREDTHS) ==> result.sums_fit(),
{
    let one = share(quantity, price);
    let all = zipped(constant_cells(rows, quantity), constant_cells(rows, price));
    lemma_constant_sum(rows, quantity, price);
    assert(rows * quantity * price * RATE_HUNDREDTHS == rows * one) by (nonlinear_arith)
        requires
            one == quantity * price * RATE_HUNDREDTHS,
    ;
    if fits(rows * one) {
        assert forall|k: int| 0 <= k <= all.len() implies fits(
            #[trigger] sum_hundredths(all.take(k)),
        ) by {
            assert(all.take(k) =~= zipped(
                constant_cells(k as nat, quantity),
                constant_cells(k as nat, price),
            ));
            lemma_constant_sum(k as nat, quantity, price);
            assert(fits(k * one)) by (nonlinear_arith)
                requires
                    0 <= k <= rows,
                    fits(rows * one),
            ;
        }
        assert(running_sums_fit(all));
    }
}

/// Zipping the same two columns of the same table again gives the same
/// allocations, in the same order.
pub proof fn lemma_zip_columns_repeatable(
    table: TableView,
    first: Seq<char>,
    second: Seq<char>,
    once: Seq<Allocation>,
    again: Seq<Allocation>,
)
    requires
        once == table.zipped(first, second),
        again == table.zipped(first, second),
    ensures
        once == again,
{
}

} // verus!
