//! The time-series store: inserts, replacement and range averages.

use protohackers::prices::PriceDb;

#[test]
fn range_left_greater_right_is_empty() {
    let mut db = PriceDb::new();
    db.insert(12345, 101);
    assert_eq!(db.query_mean(20000, 16384), 0);
}

#[test]
fn example_query() {
    let mut db = PriceDb::new();
    db.insert(12345, 101);
    assert_eq!(db.query_mean(12288, 16384), 101);
}

#[test]
fn mean_truncates_towards_zero() {
    let mut db = PriceDb::new();
    db.insert(1, -5);
    db.insert(2, -6);
    // (-5 + -6) / 2 = -11 / 2 truncates to -5.
    assert_eq!(db.query_mean(0, 10), -5);

    let mut db = PriceDb::new();
    db.insert(1, 5);
    db.insert(2, 6);
    assert_eq!(db.query_mean(0, 10), 5);
}

#[test]
fn inserting_a_timestamp_again_replaces_its_price() {
    let mut db = PriceDb::new();
    db.insert(7, 100);
    db.insert(7, 40);
    assert_eq!(db.query_mean(7, 7), 40);
}

#[test]
fn only_the_range_counts() {
    let mut db = PriceDb::new();
    db.insert(10, 100);
    db.insert(20, 200);
    db.insert(30, 300);
    assert_eq!(db.query_mean(15, 30), 250);
    assert_eq!(db.query_mean(10, 30), 200);
    assert_eq!(db.query_mean(31, 99), 0);
}
