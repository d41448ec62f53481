//! Rules and the calculators that they make.

use vstd::prelude::*;
use crate::calculation::{summable_rows, CalculationResult};
use crate::table::{Table, TableView};

verus! {

/// Something that computes a result from a table.
pub trait Calculator {
    /// The tables that this calculator can be run over: every table, unless
    /// an implementation says otherwise.
    open spec fn accepts(&self, table: TableView) -> bool {
        true
    }

    /// Computes the result for a table that this calculator accepts.
    fn calculate(&self, table: &Table) -> (result: CalculationResult)
        requires
            self.accepts(table@),
    ;
}

/// Something that makes calculators.
pub trait Rule {
    /// What this rule makes.
    type Calculator: Calculator;

    /// A new calculator.
    fn create_calculator(&self) -> Self::Calculator;
}

/// Allocates to each row its share of quantity times price.
pub struct SimpleCalculator {}

impl SimpleCalculator {
    /// A new calculator.
    pub fn new() -> (calculator: SimpleCalculator)
        ensures
            calculator == (SimpleCalculator {}),
    {
        SimpleCalculator {}
    }
}

impl Calculator for SimpleCalculator {
    /// The tables that have a quantity and a price.
    open spec fn accepts(&self, table: TableView) -> bool {
        table.has_column("quantity"@) && table.has_column("price"@)
    }

    fn calculate(&self, table: &Table) -> (result: CalculationResult)
        ensures
            result matches CalculationResult::Value(allocations) && allocations@ == table@.zipped(
                "quantity"@,
                "price"@,
            ),
            table@.zipped("quantity"@, "price"@).len() <= summable_rows() ==> result.sums_fit(),
    {
        let results = table.zip_columns("quantity", "price");
        CalculationResult::Value(results)
    }
}

/// The rule that makes a [`SimpleCalculator`].
pub struct SampleRule {}

impl Rule for SampleRule {
    type Calculator = SimpleCalculator;

    fn create_calculator(&self) -> (calculator: SimpleCalculator)
        ensures
            calculator == (SimpleCalculator {}),
    {
        SimpleCalculator::new()
    }
}

} // verus!
