//! The liquidity-imbalance signal: the difference between the bid and ask
//! volume at the top of the book as a fraction of their sum, from -1 (asks
//! only) to +1 (bids only), in hundred-millionths.

use crate::decimal::SCALE;
use crate::ladder::top_volume;
use crate::level::Side;
use crate::orderbook::{BookState, OrderBook};
use vstd::prelude::*;

verus! {

/// The largest volume the signal is computed from: what the deepest
/// possible reading of one side can add up to.
pub const MAX_VOLUME: u128 = 0xffff_ffff * 0xffff_ffff_ffff_ffff;

/// The signal for given volumes: `(bid - ask) / (bid + ask)` in
/// hundred-millionths, rounded toward zero, and zero where both volumes are
/// zero.
pub open spec fn imbalance_of(bid: nat, ask: nat) -> int {
    if bid + ask == 0 {
        0
    } else if bid >= ask {
        ((bid - ask) * SCALE) / (bid + ask) as int
    } else {
        -(((ask - bid) * SCALE) / (bid + ask) as int)
    }
}

/// A part of a whole, scaled, is at most the scale.
proof fn lemma_ratio_bound(part: int, whole: int, scale: int)
    requires
        0 <= part <= whole,
        0 < whole,
        0 <= scale,
    ensures
        0 <= (part * scale) / whole <= scale,
{
    assert(part * scale <= whole * scale) by (nonlinear_arith)
        requires
            0 <= part <= whole,
            0 <= scale,
    ;
    assert(0 <= part * scale) by (nonlinear_arith)
        requires
            0 <= part,
            0 <= scale,
    ;
    vstd::arithmetic::div_mod::lemma_div_is_ordered(part * scale, whole * scale, whole);
    vstd::arithmetic::div_mod::lemma_div_is_ordered(0, part * scale, whole);
    vstd::arithmetic::div_mod::lemma_div_multiples_vanish(scale, whole);
    assert(whole * scale == scale * whole) by (nonlinear_arith);
}

/// The signal lies between -1 and +1 for all volumes, and is neutral where
/// there is no volume at all.
pub proof fn law_imbalance_in_range(bid: nat, ask: nat)
    ensures
        -SCALE <= imbalance_of(bid, ask) <= SCALE,
        bid == 0 && ask == 0 ==> imbalance_of(bid, ask) == 0,
        bid >= ask ==> imbalance_of(bid, ask) >= 0,
        bid <= ask ==> imbalance_of(bid, ask) <= 0,
{
    if bid + ask > 0 {
        if bid >= ask {
            lemma_ratio_bound(bid - ask, (bid + ask) as int, SCALE as int);
        } else {
            lemma_ratio_bound(ask - bid, (bid + ask) as int, SCALE as int);
        }
    }
}

/// Computes the signal from the two volumes.
pub fn imbalance(bid: u128, ask: u128) -> (r: i64)
    requires
        bid <= MAX_VOLUME,
        ask <= MAX_VOLUME,
    ensures
        r == imbalance_of(bid as nat, ask as nat),
        -SCALE <= r <= SCALE,
{
    proof {
        law_imbalance_in_range(bid as nat, ask as nat);
    }
    let total: u128 = bid + ask;
    if total == 0 {
        return 0;
    }
    let scale: u128 = SCALE as u128;
    if bid >= ask {
        let part: u128 = bid - ask;
        assert(part * scale <= MAX_VOLUME * scale) by (nonlinear_arith)
            requires
                part <= MAX_VOLUME,
        ;
        let scaled: u128 = part * scale / total;
        scaled as i64
    } else {
        let part: u128 = ask - bid;
        assert(part * scale <= MAX_VOLUME * scale) by (nonlinear_arith)
            requires
                part <= MAX_VOLUME,
        ;
        let scaled: u128 = part * scale / total;
        -(scaled as i64)
    }
}

/// The signal together with what it was computed from.
#[derive(Clone, Copy, Debug, PartialEq, Eq, Structural)]
pub struct ImbalanceSignal {
    /// The signal, in hundred-millionths: from `-SCALE` to `SCALE`.
    pub value: i64,
    pub top_bid_volume: u128,
    pub top_ask_volume: u128,
    pub depth_n: u32,
}

/// The signal of a book over its first `depth_n` levels on each side.
pub open spec fn signal_of(s: BookState, depth_n: u32) -> ImbalanceSignal {
    let bid = top_volume(s.bids, Side::Bid, depth_n as nat);
    let ask = top_volume(s.asks, Side::Ask, depth_n as nat);
    ImbalanceSignal {
        value: imbalance_of(bid, ask) as i64,
        top_bid_volume: bid as u128,
        top_ask_volume: ask as u128,
        depth_n,
    }
}

impl ImbalanceSignal {
    /// Computes the signal of a book over its first `depth_n` levels on each
    /// side. The book is only read.
    pub fn compute(book: &OrderBook, depth_n: u32) -> (r: ImbalanceSignal)
        requires
            book.wf(),
        ensures
            r == signal_of(book@, depth_n),
            -SCALE <= r.value <= SCALE,
            r.value == imbalance_of(r.top_bid_volume as nat, r.top_ask_volume as nat),
    {
        let top_bid_volume: u128 = book.top_n_volume(Side::Bid, depth_n);
        let top_ask_volume: u128 = book.top_n_volume(Side::Ask, depth_n);
        assert(depth_n * u64::MAX <= MAX_VOLUME) by (nonlinear_arith)
            requires
                depth_n <= 0xffff_ffff,
                MAX_VOLUME == 0xffff_ffff * 0xffff_ffff_ffff_ffff,
        ;
        let value: i64 = imbalance(top_bid_volume, top_ask_volume);
        ImbalanceSignal { value, top_bid_volume, top_ask_volume, depth_n }
    }
}

} // verus!
