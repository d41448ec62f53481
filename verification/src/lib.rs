//! Tables of named integer columns, and a rule that allocates seven
//! hundredths of the product of two columns, row by row.
//!
//! Every amount is exact. A column holds whole numbers; an allocation is held
//! as a whole number of hundredths, so that `100 * 1` allocates `700`
//! hundredths, which is 7.00.

pub mod allocation;
pub mod calculation;
pub mod laws;
pub mod rule;
pub mod table;

pub use allocation::{Allocation, RATE_HUNDREDTHS};
pub use calculation::{calculate_total, checked_total, CalculationResult};
pub use rule::{Calculator, Rule, SampleRule, SimpleCalculator};
pub use table::{Column, Table};
