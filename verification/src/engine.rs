//! The paper-trading rule: a two-asset portfolio that is converted whole
//! into the base asset on a strong bid-side imbalance and whole into the
//! quote asset on a strong ask-side imbalance.

use crate::decimal::SCALE;
use vstd::prelude::*;

verus! {

/// The direction of a simulated trade.
#[derive(Clone, Copy, Debug, PartialEq, Eq, Structural)]
pub enum TradeSide {
    Buy,
    Sell,
}

/// A simulated trade. `quantity` is the amount of base asset bought or sold.
#[derive(Clone, Copy, Debug, PartialEq, Eq, Structural)]
pub struct Trade {
    pub side: TradeSide,
    pub sequence_id: u64,
    pub imbalance: i64,
    pub price: u64,
    pub quantity: u64,
}

/// Balances of the quote and the base asset, in hundred-millionths.
#[derive(Clone, Copy, Debug, PartialEq, Eq, Structural)]
pub struct Portfolio {
    pub quote_balance: u64,
    pub base_balance: u64,
}

/// What a portfolio is worth in quote asset with the base asset valued at a
/// price, rounded down.
pub open spec fn worth(p: Portfolio, price: u64) -> int {
    p.quote_balance + sell_proceeds(p.base_balance, price)
}

impl Portfolio {
    /// The worth of the portfolio with the base asset valued at `price`.
    pub fn value_at(&self, price: u64) -> (r: u128)
        ensures
            r == worth(*self, price),
    {
        assert(self.base_balance * price <= u64::MAX * u64::MAX) by (nonlinear_arith)
            requires
                self.base_balance <= u64::MAX,
                price <= u64::MAX,
        ;
        let base_worth: u128 = (self.base_balance as u128 * price as u128) / (SCALE as u128);
        self.quote_balance as u128 + base_worth
    }
}

/// Everything the rule decides from, besides the market.
#[derive(Clone, Copy, Debug)]
pub struct EngineState {
    pub portfolio: Portfolio,
    /// The sequence id of the last update that led to a trade.
    pub last_acted_sequence: Option<u64>,
    /// A buy needs an imbalance above this, in hundred-millionths.
    pub buy_threshold: i64,
    /// A sell needs an imbalance below this, in hundred-millionths.
    pub sell_threshold: i64,
}

/// A decision: the trade, if any, and the state after it.
pub struct Decision {
    pub state: EngineState,
    pub trade: Option<Trade>,
}

/// The base quantity that a quote balance buys at a price, rounded down.
pub open spec fn buy_quantity(quote: u64, price: u64) -> int
    recommends
        price > 0,
{
    (quote * SCALE) / (price as int)
}

/// The quote amount that a base balance sells for at a price, rounded down.
pub open spec fn sell_proceeds(base: u64, price: u64) -> int {
    (base * price) / (SCALE as int)
}

/// The rule asks for a buy: the imbalance is above the buy threshold, there
/// is quote balance to spend, and there is an ask to buy at.
pub open spec fn wants_buy(s: EngineState, imbalance: i64, best_ask: Option<u64>) -> bool {
    imbalance > s.buy_threshold && s.portfolio.quote_balance > 0 && best_ask is Some
}

/// The rule asks for a sell: the imbalance is below the sell threshold,
/// there is base balance to sell, and there is a bid to sell at.
pub open spec fn wants_sell(s: EngineState, imbalance: i64, best_bid: Option<u64>) -> bool {
    imbalance < s.sell_threshold && s.portfolio.base_balance > 0 && best_bid is Some
}

/// The buy that the rule asks for can be booked: the price is not zero and
/// the base balance after it fits sixty-four bits.
pub open spec fn buy_fits(s: EngineState, price: u64) -> bool {
    price > 0 && s.portfolio.base_balance + buy_quantity(s.portfolio.quote_balance, price)
        <= u64::MAX
}

/// The sell that the rule asks for can be booked: the quote balance after it
/// fits sixty-four bits.
pub open spec fn sell_fits(s: EngineState, price: u64) -> bool {
    s.portfolio.quote_balance + sell_proceeds(s.portfolio.base_balance, price) <= u64::MAX
}

/// No trade: the state stays as it is.
pub open spec fn stand_still(s: EngineState) -> Decision {
    Decision { state: s, trade: None }
}

/// The whole rule.
///
/// A sequence id that was already acted on never leads to a second trade.
/// Otherwise a buy is considered first, and a sell only where the rule does
/// not ask for a buy. A trade that cannot be booked is not made.
pub open spec fn decide(
    s: EngineState,
    imbalance: i64,
    best_bid: Option<u64>,
    best_ask: Option<u64>,
    sequence_id: u64,
) -> Decision {
    if s.last_acted_sequence == Some(sequence_id) {
        stand_still(s)
    } else if wants_buy(s, imbalance, best_ask) {
        let price = best_ask->0;
        if buy_fits(s, price) {
            let quantity = buy_quantity(s.portfolio.quote_balance, price) as u64;
            Decision {
                state: EngineState {
                    portfolio: Portfolio {
                        quote_balance: 0,
                        base_balance: (s.portfolio.base_balance + quantity) as u64,
                    },
                    last_acted_sequence: Some(sequence_id),
                    buy_threshold: s.buy_threshold,
                    sell_threshold: s.sell_threshold,
                },
                trade: Some(Trade { side: TradeSide::Buy, sequence_id, imbalance, price, quantity }),
            }
        } else {
            stand_still(s)
        }
    } else if wants_sell(s, imbalance, best_bid) {
        let price = best_bid->0;
        if sell_fits(s, price) {
            let proceeds = sell_proceeds(s.portfolio.base_balance, price) as u64;
            Decision {
                state: EngineState {
                    portfolio: Portfolio {
                        quote_balance: (s.portfolio.quote_balance + proceeds) as u64,
                        base_balance: 0,
                    },
                    last_acted_sequence: Some(sequence_id),
                    buy_threshold: s.buy_threshold,
                    sell_threshold: s.sell_threshold,
                },
                trade: Some(
                    Trade {
                        side: TradeSide::Sell,
                        sequence_id,
                        imbalance,
                        price,
                        quantity: s.portfolio.base_balance,
                    },
                ),
            }
        } else {
            stand_still(s)
        }
    } else {
        stand_still(s)
    }
}

/// The owner of the portfolio: it alone changes the balances, and only by a
/// trade.
#[derive(Debug)]
pub struct DecisionEngine {
    state: EngineState,
}

impl View for DecisionEngine {
    type V = EngineState;

    closed spec fn view(&self) -> EngineState {
        self.state
    }
}

impl DecisionEngine {
    /// An engine that has not acted yet.
    pub fn new(
        buy_threshold: i64,
        sell_threshold: i64,
        initial_quote_balance: u64,
        initial_base_balance: u64,
    ) -> (r: Self)
        ensures
            r@.buy_threshold == buy_threshold,
            r@.sell_threshold == sell_threshold,
            r@.portfolio.quote_balance == initial_quote_balance,
            r@.portfolio.base_balance == initial_base_balance,
            r@.last_acted_sequence is None,
    {
        DecisionEngine {
            state: EngineState {
                portfolio: Portfolio {
                    quote_balance: initial_quote_balance,
                    base_balance: initial_base_balance,
                },
                last_acted_sequence: None,
                buy_threshold,
                sell_threshold,
            },
        }
    }

    /// The balances as they stand.
    pub fn portfolio(&self) -> (r: Portfolio)
        ensures
            r == self@.portfolio,
    {
        self.state.portfolio
    }

    /// The whole state as it stands.
    pub fn state(&self) -> (r: EngineState)
        ensures
            r == self@,
    {
        self.state
    }

    /// Decides on one update of the book and books the trade, if any.
    pub fn evaluate(
        &mut self,
        imbalance: i64,
        best_bid: Option<u64>,
        best_ask: Option<u64>,
        sequence_id: u64,
    ) -> (r: Option<Trade>)
        ensures
            final(self)@ == decide(old(self)@, imbalance, best_bid, best_ask, sequence_id).state,
            r == decide(old(self)@, imbalance, best_bid, best_ask, sequence_id).trade,
            r is None ==> final(self)@ == old(self)@,
    {
        let quote: u64 = self.state.portfolio.quote_balance;
        let base: u64 = self.state.portfolio.base_balance;
        if let Some(acted) = self.state.last_acted_sequence {
            if acted == sequence_id {
                return None;
            }
        }
        if imbalance > self.state.buy_threshold && quote > 0 && best_ask.is_some() {
            let price: u64 = best_ask.unwrap();
            if price == 0 {
                return None;
            }
            assert(quote * SCALE <= u64::MAX * SCALE) by (nonlinear_arith)
                requires
                    quote <= u64::MAX,
            ;
            let bought: u128 = (quote as u128 * SCALE as u128) / (price as u128);
            if bought > (u64::MAX - base) as u128 {
                return None;
            }
            let quantity: u64 = bought as u64;
            self.state.portfolio = Portfolio { quote_balance: 0, base_balance: base + quantity };
            self.state.last_acted_sequence = Some(sequence_id);
            return Some(Trade { side: TradeSide::Buy, sequence_id, imbalance, price, quantity });
        }
        if imbalance < self.state.sell_threshold && base > 0 && best_bid.is_some() {
            let price: u64 = best_bid.unwrap();
            assert(base * price <= u64::MAX * u64::MAX) by (nonlinear_arith)
                requires
                    base <= u64::MAX,
                    price <= u64::MAX,
            ;
            let sold: u128 = (base as u128 * price as u128) / (SCALE as u128);
            if sold > (u64::MAX - quote) as u128 {
                return None;
            }
            let proceeds: u64 = sold as u64;
            self.state.portfolio = Portfolio { quote_balance: quote + proceeds, base_balance: 0 };
            self.state.last_acted_sequence = Some(sequence_id);
            return Some(
                Trade { side: TradeSide::Sell, sequence_id, imbalance, price, quantity: base },
            );
        }
        None
    }
}

} // verus!
