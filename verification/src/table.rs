//! Tables of named columns of whole numbers.

use vstd::prelude::*;
use crate::allocation::{paired_rows, zipped, Allocation};
use crate::calculation::{lemma_zipped_sums_fit, running_sums_fit, summable_rows};

verus! {

/// A named column of whole numbers.
#[derive(Debug)]
pub struct Column<'a> {
    name: &'a str,
    data: Box<Vec<i32>>,
}

/// The cells of a column of `rows` rows that all hold `value`.
pub open spec fn constant_cells(rows: nat, value: i32) -> Seq<i32> {
    Seq::new(rows, |i: int| value)
}

/// A column as a plain value: its name and its cells, top row first.
pub struct ColumnView {
    pub name: Seq<char>,
    pub data: Seq<i32>,
}

impl<'a> View for Column<'a> {
    type V = ColumnView;

    closed spec fn view(&self) -> ColumnView {
        ColumnView { name: self.name@, data: self.data@ }
    }
}

/// Named columns in the order in which they were defined, and the number of
/// rows that each of them has to fill.
pub struct Table<'a> {
    size: usize,
    columns: Vec<Column<'a>>,
}

/// A table as a plain value.
pub struct TableView {
    pub size: nat,
    pub columns: Seq<ColumnView>,
}

impl<'a> View for Table<'a> {
    type V = TableView;

    closed spec fn view(&self) -> TableView {
        TableView {
            size: self.size as nat,
            columns: Seq::new(self.columns@.len(), |i: int| self.columns@[i]@),
        }
    }
}

impl TableView {
    /// Every column fills the rows that the table declares.
    pub open spec fn wf(self) -> bool {
        forall|i: int|
            0 <= i < self.columns.len() ==> (#[trigger] self.columns[i]).data.len() >= self.size
    }

    /// Some column bears `name`.
    pub open spec fn has_column(self, name: Seq<char>) -> bool {
        exists|i: int| 0 <= i < self.columns.len() && (#[trigger] self.columns[i]).name == name
    }

    /// Column `i` bears `name`, and no column before it does.
    pub open spec fn is_first_match(self, name: Seq<char>, i: int) -> bool {
        &&& 0 <= i < self.columns.len()
        &&& self.columns[i].name == name
        &&& forall|j: int| 0 <= j < i ==> (#[trigger] self.columns[j]).name != name
    }

    /// Where a lookup of `name` lands: on the first column that bears it.
    pub open spec fn position(self, name: Seq<char>) -> int {
        choose|i: int| self.is_first_match(name, i)
    }

    /// The column that a lookup of `name` returns.
    pub open spec fn column(self, name: Seq<char>) -> ColumnView {
        self.columns[self.position(name)]
    }

    /// The table with one more column at the end.
    pub open spec fn with_column(self, name: Seq<char>, data: Seq<i32>) -> TableView {
        TableView { size: self.size, columns: self.columns.push(ColumnView { name, data }) }
    }

    /// The allocations of the two named columns, paired row by row.
    pub open spec fn zipped(self, first: Seq<char>, second: Seq<char>) -> Seq<Allocation> {
        zipped(self.column(first).data, self.column(second).data)
    }

    /// A name that is found at all is found first at exactly one place.
    pub proof fn lemma_position(self, name: Seq<char>)
        requires
            self.has_column(name),
        ensures
            self.is_first_match(name, self.position(name)),
            forall|i: int| self.is_first_match(name, i) ==> i == self.position(name),
    {
        let found = choose|i: int|
            0 <= i < self.columns.len() && (#[trigger] self.columns[i]).name == name;
        self.lemma_first_match_before(name, found);
        let first = self.position(name);
        assert forall|i: int| self.is_first_match(name, i) implies i == first by {
            if i < first {
                assert(self.columns[i].name != name);
            } else if first < i {
                assert(self.columns[first].name != name);
            }
        }
    }

    /// Appending a column leaves every name that was found where it was
    /// found. A name that was not found is found at the new column if that
    /// column bears it, and is still not found if it does not.
    pub proof fn lemma_with_column(self, name: Seq<char>, data: Seq<i32>, sought: Seq<char>)
        ensures
            self.with_column(name, data).has_column(sought) <==> self.has_column(sought)
                || sought == name,
            self.has_column(sought) ==> {
                &&& self.with_column(name, data).position(sought) == self.position(sought)
                &&& self.with_column(name, data).column(sought) == self.column(sought)
            },
            !self.has_column(sought) && sought == name ==> {
                &&& self.with_column(name, data).position(sought) == self.columns.len()
                &&& self.with_column(name, data).column(sought) == (ColumnView { name, data })
            },
    {
        let longer = self.with_column(name, data);
        if self.has_column(sought) || sought == name {
            let at = if self.has_column(sought) {
                self.lemma_position(sought);
                self.position(sought)
            } else {
                self.columns.len() as int
            };
            assert(longer.columns[at].name == sought);
            assert forall|j: int| 0 <= j < at implies (#[trigger] longer.columns[j]).name
                != sought by {
                assert(longer.columns[j] == self.columns[j]);
            }
            longer.lemma_position(sought);
        } else {
            assert forall|i: int| 0 <= i < longer.columns.len() implies (
            #[trigger] longer.columns[i]).name != sought by {
                if i < self.columns.len() {
                    assert(longer.columns[i] == self.columns[i]);
                }
            }
        }
    }

    /// At or before any column that bears `name` stands the first that does.
    proof fn lemma_first_match_before(self, name: Seq<char>, found: int)
        requires
            0 <= found < self.columns.len(),
            self.columns[found].name == name,
        ensures
            exists|i: int| self.is_first_match(name, i),
        decreases found,
    {
        if exists|j: int| 0 <= j < found && (#[trigger] self.columns[j]).name == name {
            let earlier = choose|j: int| 0 <= j < found && (#[trigger] self.columns[j]).name == name;
            self.lemma_first_match_before(name, earlier);
        } else {
            assert(self.is_first_match(name, found));
        }
    }
}

/// Whether two strings hold the same text.
fn same_text(a: &str, b: &str) -> (same: bool)
    ensures
        same == (a@ == b@),
{
    let left = a.as_bytes();
    let right = b.as_bytes();
    proof {
        vstd::utf8::encode_utf8_decode_utf8(a@);
        vstd::utf8::encode_utf8_decode_utf8(b@);
    }
    if left.len() != right.len() {
        return false;
    }
    let mut i: usize = 0;
    while i < left.len()
        invariant
            i <= left.len(),
            left.len() == right.len(),
            forall|j: int| 0 <= j < i ==> left@[j] == right@[j],
            left@ == vstd::utf8::encode_utf8(a@),
            right@ == vstd::utf8::encode_utf8(b@),
            vstd::utf8::decode_utf8(vstd::utf8::encode_utf8(a@)) == a@,
            vstd::utf8::decode_utf8(vstd::utf8::encode_utf8(b@)) == b@,
        decreases left.len() - i,
    {
        if left[i] != right[i] {
            return false;
        }
        i += 1;
    }
    assert(left@ =~= right@);
    true
}

impl<'a> Table<'a> {
    /// An empty table whose columns will each have to fill `size` rows.
    pub fn new(size: usize) -> (table: Table<'a>)
        ensures
            table@ == (TableView { size: size as nat, columns: Seq::empty() }),
            table@.wf(),
    {
        let table = Table { size: size, columns: Vec::new() };
        assert(table@.columns =~= Seq::empty());
        table
    }

    /// The number of rows that each column has to fill.
    pub fn size(&self) -> (size: usize)
        ensures
            size == self@.size,
    {
        self.size
    }

    /// Appends a column, and hands the table back for a lookup to follow.
    ///
    /// The column has to fill the rows that the table declares. Names found
    /// before are found where they were; the new name is found at the new
    /// column unless an earlier column bears it.
    pub fn define_column_f64(&mut self, name: &'a str, data: Box<Vec<i32>>) -> (table: &Table<'a>)
        requires
            data@.len() >= old(self)@.size,
        ensures
            final(self)@ == old(self)@.with_column(name@, data@),
            old(self)@.wf() ==> final(self)@.wf(),
            forall|sought: Seq<char>| #[trigger]
                final(self)@.has_column(sought) <==> old(self)@.has_column(sought)
                    || sought == name@,
            forall|sought: Seq<char>|
                old(self)@.has_column(sought) ==> #[trigger] final(self)@.column(sought)
                    == old(self)@.column(sought),
            !old(self)@.has_column(name@) ==> final(self)@.column(name@)
                == (ColumnView { name: name@, data: data@ }),
            *table == *final(self),
    {
        let column = Column { name: name, data: data };
        self.columns.push(column);
        proof {
            assert(self@.columns =~= old(self)@.columns.push(
                ColumnView { name: name@, data: data@ },
            ));
            assert forall|sought: Seq<char>| #[trigger]
                self@.has_column(sought) <==> old(self)@.has_column(sought) || sought == name@ by {
                old(self)@.lemma_with_column(name@, data@, sought);
            }
            assert forall|sought: Seq<char>| old(self)@.has_column(sought) implies #[trigger]
                self@.column(sought) == old(self)@.column(sought) by {
                old(self)@.lemma_with_column(name@, data@, sought);
            }
            old(self)@.lemma_with_column(name@, data@, name@);
        }
        self
    }

    /// The place of the first column that bears `name`, if any does.
    pub fn position(&self, name: &str) -> (found: Option<usize>)
        ensures
            found is Some <==> self@.has_column(name@),
            found matches Some(i) ==> i == self@.position(name@) && self@.is_first_match(
                name@,
                i as int,
            ),
    {
        let mut i: usize = 0;
        while i < self.columns.len()
            invariant
                i <= self.columns.len(),
                forall|j: int| 0 <= j < i ==> (#[trigger] self@.columns[j]).name != name@,
            decreases self.columns.len() - i,
        {
            if same_text(self.columns[i].name, name) {
                proof {
                    assert(self@.columns[i as int].name == name@);
                    assert(self@.is_first_match(name@, i as int));
                    self@.lemma_position(name@);
                }
                return Some(i);
            }
            i += 1;
        }
        None
    }

    /// Whether some column bears `name`.
    pub fn has_column(&self, name: &str) -> (found: bool)
        ensures
            found == self@.has_column(name@),
    {
        self.position(name).is_some()
    }

    /// The first column that bears `name`.
    fn column(&self, name: &str) -> (column: &Column<'a>)
        requires
            self@.has_column(name@),
        ensures
            column@ == self@.column(name@),
    {
        let i: usize = self.position(name).unwrap();
        &self.columns[i]
    }

    /// Pairs the two named columns row by row, up to the end of the shorter
    /// one, and allocates to each row its share.
    ///
    /// Both names have to be found: [`Table::has_column`] tells. The
    /// allocations of up to 2^62 rows can always be summed.
    pub fn zip_columns(&self, first: &str, second: &str) -> (allocations: Vec<Allocation>)
        requires
            self@.has_column(first@),
            self@.has_column(second@),
        ensures
            allocations@ == self@.zipped(first@, second@),
            self@.wf() ==> allocations@.len() >= self@.size,
            allocations@.len() <= summable_rows() ==> running_sums_fit(allocations@),
    {
        let left = self.column(first);
        let right = self.column(second);
        let rows: usize = if left.data.len() <= right.data.len() {
            left.data.len()
        } else {
            right.data.len()
        };
        let mut allocations: Vec<Allocation> = Vec::new();
        let mut i: usize = 0;
        while i < rows
            invariant
                i <= rows,
                rows == paired_rows(left@.data, right@.data),
                allocations@ == zipped(left@.data, right@.data).take(i as int),
            decreases rows - i,
        {
            allocations.push(Allocation::for_row(left.data[i], right.data[i]));
            i += 1;
        }
        proof {
            self@.lemma_position(first@);
            self@.lemma_position(second@);
            assert(allocations@ =~= zipped(left@.data, right@.data));
            if rows <= summable_rows() {
                lemma_zipped_sums_fit(left@.data, right@.data);
            }
        }
        allocations
    }
}

/// The number of rows of the sample table.
pub const SAMPLE_ROWS: usize = 10000;

/// The quantity in every row of the sample table.
pub const SAMPLE_QUANTITY: i32 = 100;

/// The price in every row of the sample table.
pub const SAMPLE_PRICE: i32 = 1;

impl TableView {
    /// The sample table: 10000 rows, a quantity of 100 and a price of 1 in
    /// each.
    pub open spec fn sample() -> TableView {
        TableView {
            size: SAMPLE_ROWS as nat,
            columns: seq![
                ColumnView {
                    name: "quantity"@,
                    data: constant_cells(SAMPLE_ROWS as nat, SAMPLE_QUANTITY),
                },
                ColumnView {
                    name: "price"@,
                    data: constant_cells(SAMPLE_ROWS as nat, SAMPLE_PRICE),
                },
            ],
        }
    }
}

/// A column of `rows` cells that all hold `value`.
fn filled(rows: usize, value: i32) -> (cells: Vec<i32>)
    ensures
        cells@ == constant_cells(rows as nat, value),
{
    let mut cells: Vec<i32> = Vec::new();
    let mut i: usize = 0;
    while i < rows
        invariant
            i <= rows,
            cells@ == constant_cells(i as nat, value),
        decreases rows - i,
    {
        cells.push(value);
        i += 1;
    }
    cells
}

impl Table<'static> {
    /// The sample table, with its two columns already defined.
    pub fn sample() -> (table: Table<'static>)
        ensures
            table@ == TableView::sample(),
            table@.wf(),
            table@.has_column("quantity"@),
            table@.has_column("price"@),
            table@.column("quantity"@).data == constant_cells(SAMPLE_ROWS as nat, SAMPLE_QUANTITY),
            table@.column("price"@).data == constant_cells(SAMPLE_ROWS as nat, SAMPLE_PRICE),
    {
        proof {
            reveal_strlit("quantity");
            reveal_strlit("price");
            assert("quantity"@.len() != "price"@.len());
        }
        let mut table = Table::new(SAMPLE_ROWS);
        table.define_column_f64("quantity", Box::new(filled(SAMPLE_ROWS, SAMPLE_QUANTITY)));
        table.define_column_f64("price", Box::new(filled(SAMPLE_ROWS, SAMPLE_PRICE)));
        assert(table@.columns =~= TableView::sample().columns);
        table
    }
}

} // verus!
