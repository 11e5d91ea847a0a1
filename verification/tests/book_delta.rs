use arbitrage::book_delta::{calculate_delta, handle_delta};
use arbitrage::decimal::Dec;
use arbitrage::model::OrderData;

fn d(m: i128, s: u32) -> Dec {
    Dec::new(m, s)
}

fn lv(price: i128, size: i128) -> OrderData {
    OrderData { price: d(price, 0), size: d(size, 0) }
}

fn same_levels(a: &[OrderData], b: &[OrderData]) -> bool {
    a.len() == b.len() && a.iter().zip(b.iter()).all(|(x, y)| x.price == y.price && x.size == y.size)
}

#[test]
fn delta_lists_changed_levels_then_removed_ones() {
    let prev = vec![lv(100, 1), lv(101, 2), lv(102, 3)];
    let new = vec![lv(100, 1), lv(101, 5), lv(103, 4)];
    let delta = calculate_delta(&prev, &new);
    assert!(same_levels(&delta, &[lv(101, 5), lv(103, 4), lv(102, 0)]));
}

#[test]
fn delta_compares_prices_numerically() {
    let prev = vec![OrderData { price: d(1000, 1), size: d(2, 0) }];
    let new = vec![OrderData { price: d(100, 0), size: d(20, 1) }];
    assert!(calculate_delta(&prev, &new).is_empty());
}

#[test]
fn handle_delta_sets_adds_and_removes_levels() {
    let mut side = vec![lv(100, 1), lv(101, 2), lv(102, 3)];
    handle_delta(&[lv(101, 7), lv(102, 0), lv(99, 4)], &mut side);
    assert!(same_levels(&side, &[lv(100, 1), lv(101, 7), lv(99, 4)]));
}

#[test]
fn handle_delta_removes_every_level_at_a_price() {
    let mut side = vec![lv(100, 1), lv(101, 2), lv(100, 3)];
    handle_delta(&[lv(100, 0)], &mut side);
    assert!(same_levels(&side, &[lv(101, 2)]));
}

#[test]
fn delta_applied_to_the_old_side_gives_the_new_levels() {
    let prev = vec![lv(100, 1), lv(101, 2), lv(102, 3), lv(105, 1)];
    let new = vec![lv(104, 6), lv(101, 2), lv(100, 9)];
    let delta = calculate_delta(&prev, &new);
    let mut rebuilt = prev.clone();
    handle_delta(&delta, &mut rebuilt);
    assert_eq!(rebuilt.len(), new.len());
    for level in &new {
        assert!(rebuilt.iter().any(|r| r.price == level.price && r.size == level.size));
    }
}
