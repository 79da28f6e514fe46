use orderbook_imbalance::decimal::{DecimalError, SCALE};
use orderbook_imbalance::imbalance::{imbalance, ImbalanceSignal, MAX_VOLUME};
use orderbook_imbalance::ladder::ChangeCounts;
use orderbook_imbalance::level::{LevelField, MalformedLevelError, PriceLevel, Side};
use orderbook_imbalance::messages::{OrderBookDiff, OrderBookSnapshot, OrderBookUpdate};
use orderbook_imbalance::orderbook::{AppliedDiffReport, OrderBook, SyncError};

fn pairs(levels: &[(&str, &str)]) -> Vec<[String; 2]> {
    levels.iter().map(|(p, q)| [p.to_string(), q.to_string()]).collect()
}

fn snapshot(id: u64, bids: &[(&str, &str)], asks: &[(&str, &str)]) -> OrderBookSnapshot {
    OrderBookSnapshot { last_update_id: id, bids: pairs(bids), asks: pairs(asks) }
}

fn update(first: u64, last: u64, bids: &[(&str, &str)], asks: &[(&str, &str)]) -> OrderBookUpdate {
    OrderBookUpdate {
        event_type: "depthUpdate".to_string(),
        event_time: 0,
        symbol: "BTCUSDT".to_string(),
        first_update_id: first,
        final_update_id: last,
        bids: pairs(bids),
        asks: pairs(asks),
    }
}

fn units(price: u64, quantity: u64) -> PriceLevel {
    PriceLevel { price: price * SCALE, quantity: quantity * SCALE }
}

fn all_levels(book: &OrderBook) -> (Vec<PriceLevel>, Vec<PriceLevel>, u64) {
    (
        book.top_levels(Side::Bid, usize::MAX),
        book.top_levels(Side::Ask, usize::MAX),
        book.last_update_id(),
    )
}

fn sample_book() -> OrderBook {
    OrderBook::from_snapshot(
        &snapshot(100, &[("100", "1"), ("99", "2")], &[("101", "1"), ("102", "3")]),
        2,
    )
    .unwrap()
}

#[test]
fn a_new_book_is_empty() {
    let book = OrderBook::new(10);
    assert_eq!(book.depth(), 10);
    assert_eq!(book.last_update_id(), 0);
    assert_eq!(book.best_bid(), None);
    assert_eq!(book.best_ask(), None);
    assert!(!book.is_desynchronized());
    assert_eq!(book.top_n_volume(Side::Bid, 10), 0);
    assert_eq!(book.calculate_imbalance().value, 0);
}

#[test]
fn a_snapshot_replaces_the_book() {
    let mut book = sample_book();
    assert_eq!(book.last_update_id(), 100);
    assert_eq!(book.best_bid(), Some(units(100, 1)));
    assert_eq!(book.best_ask(), Some(units(101, 1)));
    let r = book.initialize_from_snapshot(&snapshot(200, &[("50", "1")], &[]));
    assert_eq!(r, Ok(()));
    assert_eq!(all_levels(&book), (vec![units(50, 1)], vec![], 200));
    assert_eq!(book.depth(), 2);
}

#[test]
fn a_snapshot_passes_over_quantity_zero() {
    let book = OrderBook::from_snapshot(
        &snapshot(1, &[("100", "0"), ("99", "2")], &[("101", "0.00000000")]),
        5,
    )
    .unwrap();
    assert_eq!(all_levels(&book), (vec![units(99, 2)], vec![], 1));
}

#[test]
fn a_malformed_snapshot_leaves_the_book_as_it_was() {
    let mut book = sample_book();
    let before = all_levels(&book);
    let r = book.initialize_from_snapshot(&snapshot(200, &[("50", "1")], &[("x", "1")]));
    assert_eq!(
        r,
        Err(MalformedLevelError {
            side: Side::Ask,
            index: 0,
            field: LevelField::Price,
            reason: DecimalError::NotNumeric,
        })
    );
    assert_eq!(all_levels(&book), before);
    assert!(OrderBook::from_snapshot(&snapshot(1, &[("1", "-1")], &[]), 1).is_err());
}

#[test]
fn an_update_that_continues_the_sequence_is_applied() {
    let mut book = sample_book();
    let r = book.apply_update(&update(
        101,
        105,
        &[("100", "0"), ("98", "4")],
        &[("101", "2"), ("103", "0")],
    ));
    assert_eq!(
        r,
        Ok(AppliedDiffReport {
            applied: true,
            last_update_id: 105,
            bids: ChangeCounts { set: 1, removed: 1 },
            asks: ChangeCounts { set: 1, removed: 0 },
        })
    );
    assert_eq!(
        all_levels(&book),
        (vec![units(99, 2), units(98, 4)], vec![units(101, 2), units(102, 3)], 105)
    );
    assert_eq!(book.best_bid(), Some(units(99, 2)));
    assert_eq!(book.best_ask(), Some(units(101, 2)));
}

#[test]
fn an_update_may_overlap_what_was_applied() {
    let mut book = sample_book();
    let r = book.apply_update(&update(90, 101, &[("97", "1")], &[]));
    assert!(matches!(r, Ok(report) if report.applied));
    assert_eq!(book.last_update_id(), 101);
}

#[test]
fn contiguous_updates_advance_the_sequence() {
    let mut book = sample_book();
    for (first, last) in [(101u64, 105u64), (106, 106), (107, 120), (121, 122)] {
        let r = book.apply_update(&update(first, last, &[], &[]));
        assert!(matches!(r, Ok(report) if report.applied && report.last_update_id == last));
        assert_eq!(book.last_update_id(), last);
    }
    assert_eq!(book.last_update_id(), 122);
}

#[test]
fn applying_an_update_twice_is_applying_it_once() {
    let mut book = sample_book();
    let u = update(101, 105, &[("100", "0"), ("98", "4")], &[("101", "2")]);
    assert!(matches!(book.apply_update(&u), Ok(report) if report.applied));
    let once = all_levels(&book);
    let again = book.apply_update(&u);
    assert_eq!(
        again,
        Ok(AppliedDiffReport {
            applied: false,
            last_update_id: 105,
            bids: ChangeCounts { set: 0, removed: 0 },
            asks: ChangeCounts { set: 0, removed: 0 },
        })
    );
    assert_eq!(all_levels(&book), once);
}

#[test]
fn a_gap_is_rejected_and_changes_nothing() {
    let mut book = OrderBook::from_snapshot(&snapshot(100, &[("100", "1")], &[("101", "1")]), 10)
        .unwrap();
    let a = update(101, 105, &[("99", "1")], &[]);
    assert!(matches!(book.apply_update(&a), Ok(report) if report.applied));
    let before = all_levels(&book);
    assert!(!book.is_desynchronized());
    let b = update(110, 115, &[("98", "1")], &[("101", "0")]);
    assert_eq!(
        book.apply_update(&b),
        Err(SyncError::SequenceGap { expected: 106, got: 110 })
    );
    assert_eq!(all_levels(&book), before);
    assert_eq!(book.last_update_id(), 105);
    assert!(book.is_desynchronized());
}

#[test]
fn the_mark_of_lost_updates_stays_until_a_snapshot() {
    let mut book = sample_book();
    assert!(!book.is_desynchronized());
    assert!(book.apply_update(&update(1, 100, &[], &[])).is_ok());
    assert!(!book.is_desynchronized());
    assert!(book.apply_update(&update(105, 106, &[], &[])).is_err());
    assert!(book.is_desynchronized());
    assert!(matches!(
        book.apply_update(&update(101, 101, &[("98", "1")], &[])),
        Ok(report) if report.applied
    ));
    assert!(book.is_desynchronized());
    assert!(book.initialize_from_snapshot(&snapshot(200, &[("x", "1")], &[])).is_err());
    assert!(book.is_desynchronized());
    assert_eq!(book.initialize_from_snapshot(&snapshot(200, &[("50", "1")], &[])), Ok(()));
    assert!(!book.is_desynchronized());

    let diff = OrderBookDiff {
        first_update_id: 300,
        final_update_id: 301,
        bid_changes: vec![],
        ask_changes: vec![],
    };
    assert_eq!(book.apply(&diff), Err(SyncError::SequenceGap { expected: 201, got: 300 }));
    assert!(book.is_desynchronized());
    book.install(&orderbook_imbalance::messages::SnapshotLevels {
        last_update_id: 400,
        bids: vec![],
        asks: vec![],
    });
    assert!(!book.is_desynchronized());
}

#[test]
fn the_sequence_is_judged_before_the_levels_are_read() {
    let mut book = sample_book();
    assert!(matches!(
        book.apply_update(&update(1, 100, &[("x", "y")], &[])),
        Ok(report) if !report.applied
    ));
    assert!(!book.is_desynchronized());
    assert_eq!(
        book.apply_update(&update(102, 103, &[("x", "y")], &[])),
        Err(SyncError::SequenceGap { expected: 101, got: 102 })
    );
    assert!(book.is_desynchronized());
}

#[test]
fn a_malformed_update_is_not_applied_in_part() {
    let mut book = sample_book();
    let before = all_levels(&book);
    let r = book.apply_update(&update(101, 101, &[("98", "4")], &[("101", "2"), ("102", "-3")]));
    assert_eq!(
        r,
        Err(SyncError::MalformedLevel(MalformedLevelError {
            side: Side::Ask,
            index: 1,
            field: LevelField::Quantity,
            reason: DecimalError::Negative,
        }))
    );
    assert_eq!(all_levels(&book), before);
    assert!(!book.is_desynchronized());
}

#[test]
fn quantity_zero_removes_and_a_later_quantity_restores() {
    let mut book = sample_book();
    assert!(book.apply_update(&update(101, 101, &[("100", "0")], &[])).is_ok());
    assert_eq!(book.top_levels(Side::Bid, 10), vec![units(99, 2)]);
    assert!(book.apply_update(&update(102, 102, &[("100", "7")], &[])).is_ok());
    assert_eq!(book.top_levels(Side::Bid, 10), vec![units(100, 7), units(99, 2)]);
    let r = book.apply_update(&update(103, 103, &[("55", "0")], &[]));
    assert!(matches!(r, Ok(report) if report.bids == ChangeCounts { set: 0, removed: 0 }));
}

#[test]
fn check_sequence_names_each_case() {
    let book = sample_book();
    assert_eq!(book.check_sequence(101, 101), Ok(()));
    assert_eq!(book.check_sequence(0, 101), Ok(()));
    assert_eq!(
        book.check_sequence(90, 100),
        Err(SyncError::StaleDiff { last_applied: 100, got: 100 })
    );
    assert_eq!(
        book.check_sequence(200, 50),
        Err(SyncError::StaleDiff { last_applied: 100, got: 50 })
    );
    assert_eq!(
        book.check_sequence(102, 102),
        Err(SyncError::SequenceGap { expected: 101, got: 102 })
    );
    let mut late = OrderBook::new(1);
    late.install(&orderbook_imbalance::messages::SnapshotLevels {
        last_update_id: u64::MAX,
        bids: vec![],
        asks: vec![],
    });
    assert_eq!(
        late.check_sequence(u64::MAX, u64::MAX),
        Err(SyncError::StaleDiff { last_applied: u64::MAX, got: u64::MAX })
    );
}

#[test]
fn a_read_update_is_applied_like_a_raw_one() {
    let mut book = sample_book();
    let diff = OrderBookDiff {
        first_update_id: 101,
        final_update_id: 102,
        bid_changes: vec![units(100, 0), units(97, 1)],
        ask_changes: vec![],
    };
    assert_eq!(
        book.apply(&diff),
        Ok(AppliedDiffReport {
            applied: true,
            last_update_id: 102,
            bids: ChangeCounts { set: 1, removed: 1 },
            asks: ChangeCounts { set: 0, removed: 0 },
        })
    );
    assert_eq!(book.top_levels(Side::Bid, 10), vec![units(99, 2), units(97, 1)]);
}

#[test]
fn top_n_volume_follows_side_order() {
    let book = OrderBook::from_snapshot(
        &snapshot(
            1,
            &[("100", "1"), ("99", "2"), ("98", "4")],
            &[("101", "1"), ("102", "3"), ("103", "5")],
        ),
        2,
    )
    .unwrap();
    assert_eq!(book.top_n_volume(Side::Bid, 0), 0);
    assert_eq!(book.top_n_volume(Side::Bid, 1), SCALE as u128);
    assert_eq!(book.top_n_volume(Side::Bid, 2), 3 * SCALE as u128);
    assert_eq!(book.top_n_volume(Side::Bid, 99), 7 * SCALE as u128);
    assert_eq!(book.top_n_volume(Side::Ask, 2), 4 * SCALE as u128);
    assert_eq!(book.top_n_volume(Side::Ask, 3), 9 * SCALE as u128);
}

#[test]
fn end_to_end_imbalance() {
    let book = sample_book();
    let signal = book.calculate_imbalance();
    assert_eq!(
        signal,
        ImbalanceSignal {
            value: -14_285_714,
            top_bid_volume: 3 * SCALE as u128,
            top_ask_volume: 4 * SCALE as u128,
            depth_n: 2,
        }
    );
    assert_eq!(ImbalanceSignal::compute(&book, 1).value, 0);
    assert_eq!(ImbalanceSignal::compute(&book, 0).value, 0);
}

#[test]
fn imbalance_stays_in_range() {
    assert_eq!(imbalance(0, 0), 0);
    assert_eq!(imbalance(5, 0), SCALE as i64);
    assert_eq!(imbalance(0, 5), -(SCALE as i64));
    assert_eq!(imbalance(3, 3), 0);
    assert_eq!(imbalance(3, 1), 50_000_000);
    assert_eq!(imbalance(1, 3), -50_000_000);
    assert_eq!(imbalance(2, 1), 33_333_333);
    assert_eq!(imbalance(1, 2), -33_333_333);
    assert_eq!(imbalance(MAX_VOLUME, MAX_VOLUME), 0);
    assert_eq!(imbalance(MAX_VOLUME, 0), SCALE as i64);
    assert_eq!(imbalance(MAX_VOLUME, 1), SCALE as i64 - 1);
    assert_eq!(imbalance(0, MAX_VOLUME), -(SCALE as i64));
}
