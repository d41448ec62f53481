use rule_table::{Allocation, Table, RATE_HUNDREDTHS};

fn amounts(allocations: &Vec<Allocation>) -> Vec<i128> {
    allocations.iter().map(|a| a.amount()).collect()
}

#[test]
fn new_table_declares_its_size_and_has_no_columns() {
    let table = Table::new(42);
    assert_eq!(table.size(), 42);
    assert!(!table.has_column("quantity"));
    assert!(!table.has_column(""));
    assert_eq!(table.position("quantity"), None);
}

#[test]
fn missing_name_is_never_found() {
    let mut table = Table::new(1);
    table.define_column_f64("quantity", Box::new(vec![1]));
    table.define_column_f64("price", Box::new(vec![2]));

    assert!(!table.has_column("volume"));
    assert_eq!(table.position("volume"), None);
    assert!(!table.has_column("quantit"));
    assert!(!table.has_column("quantity "));
    assert!(!table.has_column("Quantity"));
    assert!(!table.has_column(""));
    assert!(table.has_column("quantity"));
}

#[test]
fn columns_keep_the_order_of_definition() {
    let mut table = Table::new(0);
    table.define_column_f64("a", Box::new(vec![]));
    table.define_column_f64("b", Box::new(vec![]));
    table.define_column_f64("c", Box::new(vec![]));
    assert_eq!(table.position("a"), Some(0));
    assert_eq!(table.position("b"), Some(1));
    assert_eq!(table.position("c"), Some(2));
    assert_eq!(table.size(), 0);
}

#[test]
fn define_column_hands_the_table_back() {
    let mut table = Table::new(2);
    let allocations = table.define_column_f64("x", Box::new(vec![3, 5])).zip_columns("x", "x");
    assert_eq!(amounts(&allocations), vec![63, 175]);
    assert!(table.define_column_f64("y", Box::new(vec![1, 1])).has_column("x"));
    assert_eq!(table.position("y"), Some(1));
}

#[test]
fn column_may_be_longer_than_the_declared_size() {
    let mut table = Table::new(2);
    assert!(3 >= table.size());
    table.define_column_f64("long", Box::new(vec![1, 2, 3]));
    assert!(2 >= table.size());
    table.define_column_f64("exact", Box::new(vec![10, 20]));
    assert_eq!(table.size(), 2);
    assert_eq!(amounts(&table.zip_columns("long", "long")), vec![7, 28, 63]);
    assert_eq!(amounts(&table.zip_columns("exact", "exact")), vec![700, 2800]);
}

#[test]
fn short_data_is_told_apart_by_the_declared_size() {
    let mut table = Table::new(3);
    let short: Vec<i32> = vec![1, 2];
    let full: Vec<i32> = vec![1, 2, 3];
    assert!(short.len() < table.size());
    assert!(full.len() >= table.size());
    table.define_column_f64("full", Box::new(full));
    assert_eq!(table.size(), 3);
    assert!(short.len() < table.size());
    assert_eq!(table.zip_columns("full", "full").len(), 3);
}

#[test]
fn lookup_returns_the_first_of_equal_names() {
    let mut table = Table::new(1);
    table.define_column_f64("n", Box::new(vec![2]));
    table.define_column_f64("n", Box::new(vec![1000]));
    table.define_column_f64("m", Box::new(vec![3]));
    assert_eq!(table.position("n"), Some(0));
    assert_eq!(amounts(&table.zip_columns("n", "m")), vec![42]);
    assert_eq!(amounts(&table.zip_columns("m", "n")), vec![42]);
    assert_eq!(amounts(&table.zip_columns("n", "n")), vec![28]);
}

#[test]
fn zip_stops_at_the_end_of_the_shorter_column() {
    let mut table = Table::new(2);
    table.define_column_f64("long", Box::new(vec![1, 2, 3, 4, 5]));
    table.define_column_f64("short", Box::new(vec![10, 20]));
    assert_eq!(amounts(&table.zip_columns("long", "short")), vec![70, 280]);
    assert_eq!(amounts(&table.zip_columns("short", "long")), vec![70, 280]);
    assert_eq!(table.zip_columns("long", "long").len(), 5);
}

#[test]
fn zip_of_empty_columns_is_empty() {
    let mut table = Table::new(0);
    table.define_column_f64("a", Box::new(vec![]));
    table.define_column_f64("b", Box::new(vec![1, 2, 3]));
    assert!(table.zip_columns("a", "b").is_empty());
    assert!(table.zip_columns("b", "a").is_empty());
    assert!(table.zip_columns("a", "a").is_empty());
}

#[test]
fn zip_pairs_rows_by_position() {
    let mut table = Table::new(4);
    table.define_column_f64("quantity", Box::new(vec![1, -2, 0, 300]));
    table.define_column_f64("price", Box::new(vec![5, 5, 99, -7]));
    let allocations = table.zip_columns("quantity", "price");
    assert_eq!(amounts(&allocations), vec![35, -70, 0, -14700]);
    assert!(matches!(allocations[3], Allocation::Value(-14700)));
}

#[test]
fn zip_twice_gives_the_same_allocations() {
    let mut table = Table::new(3);
    table.define_column_f64("quantity", Box::new(vec![7, 11, -13]));
    table.define_column_f64("price", Box::new(vec![2, 3, 5]));
    let once = table.zip_columns("quantity", "price");
    let again = table.zip_columns("quantity", "price");
    assert_eq!(amounts(&once), amounts(&again));
    assert_eq!(amounts(&once), vec![98, 231, -455]);
    assert_eq!(table.size(), 3);
    assert_eq!(table.position("price"), Some(1));
}

#[test]
fn names_are_compared_as_whole_texts() {
    let mut table = Table::new(1);
    table.define_column_f64("prix €", Box::new(vec![1]));
    table.define_column_f64("prix", Box::new(vec![2]));
    table.define_column_f64("数量", Box::new(vec![3]));
    assert_eq!(table.position("prix"), Some(1));
    assert_eq!(table.position("prix €"), Some(0));
    assert_eq!(table.position("数量"), Some(2));
    assert_eq!(table.position("数"), None);
    assert_eq!(table.position("prix \u{20ac}"), Some(0));
    assert_eq!(table.position("prix $"), None);
}

#[test]
fn share_of_a_row_is_the_product_times_the_rate() {
    assert_eq!(RATE_HUNDREDTHS, 7);
    assert_eq!(Allocation::for_row(100, 1).amount(), 700);
    assert_eq!(Allocation::for_row(0, 12345).amount(), 0);
    assert_eq!(Allocation::for_row(-3, 4).amount(), -84);
    assert_eq!(Allocation::for_row(-3, -4).amount(), 84);
    assert_eq!(Allocation::for_row(12, 250).amount(), 21000);
    assert_eq!(Allocation::for_row(i32::MAX, i32::MAX).amount(), 32_281_802_098_926_944_263);
    assert_eq!(Allocation::for_row(i32::MIN, i32::MIN).amount(), 32_281_802_128_991_715_328);
    assert_eq!(Allocation::for_row(i32::MIN, i32::MAX).amount(), -32_281_802_113_959_329_792);
    assert_eq!(Allocation::Value(-5).amount(), -5);
}
