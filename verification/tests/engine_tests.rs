use orderbook_imbalance::decimal::SCALE;
use orderbook_imbalance::engine::{DecisionEngine, Portfolio, Trade, TradeSide};

const BUY: i64 = 70_000_000;
const SELL: i64 = 30_000_000;

#[test]
fn a_strong_imbalance_buys_once() {
    let mut engine = DecisionEngine::new(BUY, SELL, 1000 * SCALE, 0);
    let trade = engine.evaluate(85_000_000, Some(49_000 * SCALE), Some(50_000 * SCALE), 7);
    assert_eq!(
        trade,
        Some(Trade {
            side: TradeSide::Buy,
            sequence_id: 7,
            imbalance: 85_000_000,
            price: 50_000 * SCALE,
            quantity: 2_000_000,
        })
    );
    assert_eq!(engine.portfolio(), Portfolio { quote_balance: 0, base_balance: 2_000_000 });
    assert_eq!(engine.state().last_acted_sequence, Some(7));
    let again = engine.evaluate(85_000_000, Some(49_000 * SCALE), Some(50_000 * SCALE), 7);
    assert_eq!(again, None);
    assert_eq!(engine.portfolio(), Portfolio { quote_balance: 0, base_balance: 2_000_000 });
}

#[test]
fn a_weak_imbalance_sells_everything() {
    let mut engine = DecisionEngine::new(BUY, SELL, 20 * SCALE, 2_000_000);
    let trade = engine.evaluate(10_000_000, Some(49_000 * SCALE), Some(50_000 * SCALE), 3);
    assert_eq!(
        trade,
        Some(Trade {
            side: TradeSide::Sell,
            sequence_id: 3,
            imbalance: 10_000_000,
            price: 49_000 * SCALE,
            quantity: 2_000_000,
        })
    );
    assert_eq!(engine.portfolio(), Portfolio { quote_balance: 1000 * SCALE, base_balance: 0 });
}

#[test]
fn a_replayed_sequence_id_never_trades() {
    let mut engine = DecisionEngine::new(BUY, SELL, 1000 * SCALE, 0);
    assert!(engine.evaluate(85_000_000, None, Some(50_000 * SCALE), 7).is_some());
    assert_eq!(engine.evaluate(-(SCALE as i64), Some(49_000 * SCALE), None, 7), None);
    let sold = engine.evaluate(-(SCALE as i64), Some(49_000 * SCALE), None, 8);
    assert!(matches!(sold, Some(trade) if trade.side == TradeSide::Sell));
}

#[test]
fn nothing_happens_between_the_thresholds() {
    let mut engine = DecisionEngine::new(BUY, SELL, 1000 * SCALE, 5 * SCALE);
    for imbalance in [SELL, 50_000_000, BUY] {
        assert_eq!(engine.evaluate(imbalance, Some(1), Some(2), 1), None);
    }
    assert_eq!(
        engine.portfolio(),
        Portfolio { quote_balance: 1000 * SCALE, base_balance: 5 * SCALE }
    );
    assert_eq!(engine.state().last_acted_sequence, None);
}

#[test]
fn an_empty_balance_never_trades() {
    let mut engine = DecisionEngine::new(BUY, SELL, 0, 0);
    assert_eq!(engine.evaluate(SCALE as i64, Some(1), Some(2), 1), None);
    assert_eq!(engine.evaluate(-(SCALE as i64), Some(1), Some(2), 2), None);
    let mut engine = DecisionEngine::new(BUY, SELL, 0, SCALE);
    assert_eq!(engine.evaluate(SCALE as i64, Some(1), Some(2), 1), None);
    let mut engine = DecisionEngine::new(BUY, SELL, SCALE, 0);
    assert_eq!(engine.evaluate(0, Some(1), Some(2), 1), None);
}

#[test]
fn a_missing_quote_never_trades() {
    let mut engine = DecisionEngine::new(BUY, SELL, SCALE, SCALE);
    assert_eq!(engine.evaluate(SCALE as i64, Some(1), None, 1), None);
    assert_eq!(engine.evaluate(0, None, Some(1), 2), None);
}

#[test]
fn a_buy_comes_before_a_sell() {
    let mut engine = DecisionEngine::new(10, 90, SCALE, SCALE);
    let trade = engine.evaluate(50, Some(SCALE), Some(2 * SCALE), 1);
    assert!(matches!(trade, Some(trade) if trade.side == TradeSide::Buy));
    assert_eq!(
        engine.portfolio(),
        Portfolio { quote_balance: 0, base_balance: SCALE + SCALE / 2 }
    );
}

#[test]
fn a_trade_that_cannot_be_booked_is_not_made() {
    let mut engine = DecisionEngine::new(BUY, SELL, 2000 * SCALE, 0);
    assert_eq!(engine.evaluate(SCALE as i64, None, Some(0), 1), None);
    assert_eq!(engine.evaluate(SCALE as i64, None, Some(1), 1), None);
    assert_eq!(engine.portfolio(), Portfolio { quote_balance: 2000 * SCALE, base_balance: 0 });
    let bought = engine.evaluate(SCALE as i64, None, Some(2), 1);
    assert!(matches!(bought, Some(trade) if trade.quantity == 10_000_000_000_000_000_000));
    let mut engine = DecisionEngine::new(BUY, SELL, u64::MAX, u64::MAX);
    assert_eq!(engine.evaluate(0, Some(SCALE), None, 1), None);
    assert_eq!(engine.evaluate(SCALE as i64, Some(1), Some(u64::MAX), 1), None);
    let mut engine = DecisionEngine::new(10, 90, 1000 * SCALE, SCALE);
    assert_eq!(engine.evaluate(50, Some(SCALE), Some(0), 1), None);
}

#[test]
fn amounts_are_rounded_down() {
    let mut engine = DecisionEngine::new(BUY, SELL, 100, 0);
    let trade = engine.evaluate(SCALE as i64, None, Some(3 * SCALE), 1);
    assert!(matches!(trade, Some(trade) if trade.quantity == 33));
    let mut engine = DecisionEngine::new(BUY, SELL, 0, 10);
    let trade = engine.evaluate(-(SCALE as i64), Some(SCALE / 3), None, 1);
    assert!(matches!(trade, Some(trade) if trade.quantity == 10));
    assert_eq!(engine.portfolio(), Portfolio { quote_balance: 3, base_balance: 0 });
}

#[test]
fn a_portfolio_is_valued_at_a_price() {
    let p = Portfolio { quote_balance: 20 * SCALE, base_balance: 2_000_000 };
    assert_eq!(p.value_at(49_000 * SCALE), 1000 * SCALE as u128);
    assert_eq!(p.value_at(0), 20 * SCALE as u128);
    let p = Portfolio { quote_balance: u64::MAX, base_balance: u64::MAX };
    assert_eq!(
        p.value_at(u64::MAX),
        u64::MAX as u128 + (u64::MAX as u128 * u64::MAX as u128) / SCALE as u128
    );
}
