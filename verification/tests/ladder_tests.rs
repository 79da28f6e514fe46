use orderbook_imbalance::ladder::{ChangeCounts, PriceLevels};
use orderbook_imbalance::level::{PriceLevel, Side};

fn level(price: u64, quantity: u64) -> PriceLevel {
    PriceLevel { price, quantity }
}

#[test]
fn a_new_side_is_empty() {
    let bids = PriceLevels::new(Side::Bid);
    assert_eq!(bids.which(), Side::Bid);
    assert_eq!(bids.len(), 0);
    assert_eq!(bids.best(), None);
    assert_eq!(bids.top_levels(5), Vec::new());
    assert_eq!(bids.top_volume(5), 0);
    assert_eq!(bids.quantity_at(1), None);
}

#[test]
fn bids_run_from_the_highest_price_down() {
    let mut bids = PriceLevels::new(Side::Bid);
    bids.apply(&vec![level(99, 2), level(101, 4), level(100, 1)]);
    assert_eq!(bids.best(), Some(level(101, 4)));
    assert_eq!(bids.top_levels(2), vec![level(101, 4), level(100, 1)]);
    assert_eq!(bids.top_levels(10), vec![level(101, 4), level(100, 1), level(99, 2)]);
    assert_eq!(bids.top_levels(0), Vec::new());
}

#[test]
fn asks_run_from_the_lowest_price_up() {
    let mut asks = PriceLevels::new(Side::Ask);
    asks.apply(&vec![level(103, 2), level(101, 4), level(102, 1)]);
    assert_eq!(asks.best(), Some(level(101, 4)));
    assert_eq!(asks.top_levels(2), vec![level(101, 4), level(102, 1)]);
    assert_eq!(asks.top_levels(3), vec![level(101, 4), level(102, 1), level(103, 2)]);
    assert_eq!(asks.top_levels(usize::MAX).len(), asks.len());
    asks.apply(&vec![level(101, 0), level(102, 0), level(103, 0)]);
    assert_eq!(asks.len(), 0);
    assert_eq!(asks.best(), None);
}

#[test]
fn top_volume_sums_the_first_levels() {
    let mut asks = PriceLevels::new(Side::Ask);
    asks.apply(&vec![level(103, 2), level(101, 4), level(102, 1)]);
    assert_eq!(asks.top_volume(0), 0);
    assert_eq!(asks.top_volume(1), 4);
    assert_eq!(asks.top_volume(2), 5);
    assert_eq!(asks.top_volume(3), 7);
    assert_eq!(asks.top_volume(u32::MAX), 7);
}

#[test]
fn top_volume_does_not_overflow() {
    let mut bids = PriceLevels::new(Side::Bid);
    bids.apply(&vec![level(1, u64::MAX), level(2, u64::MAX), level(3, u64::MAX)]);
    assert_eq!(bids.top_volume(3), 3 * (u64::MAX as u128));
}

#[test]
fn changes_are_counted() {
    let mut bids = PriceLevels::new(Side::Bid);
    let counts = bids.apply(&vec![level(100, 1), level(100, 2), level(99, 0), level(98, 5)]);
    assert_eq!(counts, ChangeCounts { set: 3, removed: 0 });
    assert_eq!(bids.len(), 2);
    assert_eq!(bids.quantity_at(100), Some(2));
    let counts = bids.apply(&vec![level(100, 0), level(100, 0), level(98, 7)]);
    assert_eq!(counts, ChangeCounts { set: 1, removed: 1 });
    assert_eq!(bids.quantity_at(100), None);
    assert_eq!(bids.quantity_at(98), Some(7));
}

#[test]
fn a_later_change_overrides_an_earlier_one() {
    let mut asks = PriceLevels::new(Side::Ask);
    asks.apply(&vec![level(5, 1), level(5, 0), level(5, 3), level(6, 2), level(6, 0)]);
    assert_eq!(asks.top_levels(10), vec![level(5, 3)]);
}

#[test]
fn loading_replaces_the_side_and_passes_over_zero() {
    let mut asks = PriceLevels::new(Side::Ask);
    asks.apply(&vec![level(1, 1), level(2, 2)]);
    asks.load(&vec![level(10, 1), level(10, 0), level(11, 0), level(12, 3)]);
    assert_eq!(asks.top_levels(10), vec![level(10, 1), level(12, 3)]);
    assert_eq!(asks.quantity_at(1), None);
    assert_eq!(asks.which(), Side::Ask);
}
