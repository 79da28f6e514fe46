//! What holds of the library as a whole, proved from the definitions that
//! the contracts of its functions are stated over.

use crate::driver::{replay, step, DriverState, StepOutcome, SyncPhase};
use crate::engine::{buy_fits, decide, sell_fits, wants_buy, wants_sell, EngineState, TradeSide};
use crate::imbalance::signal_of;
use crate::ladder::{
    all_positive, apply_changes, best_price, better, is_best, law_best_is_unique, load_levels,
    ranked, top_volume,
};
use crate::level::{PriceLevel, Side};
use crate::messages::{DiffView, OrderBookUpdate, SnapshotView};
use crate::orderbook::{
    apply_all, apply_diff, apply_raw, diff_result, install, is_acceptable, is_gap, is_stale,
    raw_result, BookState, SyncError,
};
use vstd::prelude::*;

verus! {

/// Each update of the list continues the sequence where the one before it
/// ended, the first one where the book stands.
pub open spec fn continues(last: u64, diffs: Seq<DiffView>) -> bool {
    &&& diffs.len() > 0 ==> is_acceptable(
        last,
        diffs[0].first_update_id,
        diffs[0].final_update_id,
    )
    &&& forall|i: int|
        0 < i < diffs.len() ==> is_acceptable(
            diffs[i - 1].final_update_id,
            (#[trigger] diffs[i]).first_update_id,
            diffs[i].final_update_id,
        )
}

/// After a list of updates that each continue the sequence, the last
/// applied id is the final id of the last update.
pub proof fn law_continuing_updates_advance(s: BookState, diffs: Seq<DiffView>)
    requires
        diffs.len() > 0,
        continues(s.last_update_id, diffs),
    ensures
        apply_all(s, diffs).last_update_id == diffs.last().final_update_id,
    decreases diffs.len(),
{
    let front = diffs.drop_last();
    if front.len() > 0 {
        assert(front[0] == diffs[0]);
        assert forall|i: int| 0 < i < front.len() implies is_acceptable(
            front[i - 1].final_update_id,
            (#[trigger] front[i]).first_update_id,
            front[i].final_update_id,
        ) by {
            assert(front[i] == diffs[i]);
            assert(front[i - 1] == diffs[i - 1]);
        }
        law_continuing_updates_advance(s, front);
        assert(front.last() == diffs[diffs.len() - 2]);
        assert(diffs.last() == diffs[diffs.len() - 1]);
    } else {
        assert(apply_all(s, front) == s);
        assert(diffs.last() == diffs[0]);
    }
}

/// The last applied id never goes back, whatever updates arrive.
pub proof fn law_sequence_never_goes_back(s: BookState, diffs: Seq<DiffView>)
    ensures
        apply_all(s, diffs).last_update_id >= s.last_update_id,
    decreases diffs.len(),
{
    if diffs.len() > 0 {
        law_sequence_never_goes_back(s, diffs.drop_last());
    }
}

/// Applying an update a second time changes nothing: the second time it is
/// stale, or refused for the same gap.
pub proof fn law_apply_twice(s: BookState, d: DiffView)
    ensures
        apply_diff(apply_diff(s, d), d) == apply_diff(s, d),
        diff_result(s, d) is Ok ==> (diff_result(apply_diff(s, d), d) matches Ok(report)
            && !report.applied),
        diff_result(s, d) is Err ==> diff_result(apply_diff(s, d), d) == diff_result(s, d),
{
}

/// Applying an update as it arrives a second time changes nothing.
pub proof fn law_apply_raw_twice(s: BookState, u: OrderBookUpdate)
    ensures
        apply_raw(apply_raw(s, u), u) == apply_raw(s, u),
        raw_result(s, u) is Err ==> raw_result(apply_raw(s, u), u) == raw_result(s, u),
        raw_result(s, u) is Ok ==> (raw_result(apply_raw(s, u), u) matches Ok(report)
            && !report.applied),
{
}

/// An update is stale, skips ids, or continues the sequence, and never two
/// of these. A stale one leaves the book as it was. One that skips ids
/// leaves the levels and the last applied id as they were, marks the book,
/// and is answered with the id that was expected and the id that came.
pub proof fn law_sequence_cases(s: BookState, d: DiffView)
    ensures
        is_stale(s.last_update_id, d.final_update_id) || is_gap(
            s.last_update_id,
            d.first_update_id,
            d.final_update_id,
        ) || is_acceptable(s.last_update_id, d.first_update_id, d.final_update_id),
        !(is_stale(s.last_update_id, d.final_update_id) && is_gap(
            s.last_update_id,
            d.first_update_id,
            d.final_update_id,
        )),
        !(is_stale(s.last_update_id, d.final_update_id) && is_acceptable(
            s.last_update_id,
            d.first_update_id,
            d.final_update_id,
        )),
        !(is_gap(s.last_update_id, d.first_update_id, d.final_update_id) && is_acceptable(
            s.last_update_id,
            d.first_update_id,
            d.final_update_id,
        )),
        is_stale(s.last_update_id, d.final_update_id) ==> apply_diff(s, d) == s,
        is_gap(s.last_update_id, d.first_update_id, d.final_update_id) ==> {
            &&& apply_diff(s, d).bids == s.bids
            &&& apply_diff(s, d).asks == s.asks
            &&& apply_diff(s, d).last_update_id == s.last_update_id
            &&& apply_diff(s, d).desynchronized
            &&& diff_result(s, d) == Err::<crate::orderbook::AppliedDiffReport, SyncError>(
                SyncError::SequenceGap {
                    expected: (s.last_update_id + 1) as u64,
                    got: d.first_update_id,
                },
            )
        },
        diff_result(s, d) is Err <==> is_gap(
            s.last_update_id,
            d.first_update_id,
            d.final_update_id,
        ),
{
}

/// The book is marked as desynchronized exactly from the first update that
/// skips ids until the next snapshot: a snapshot clears the mark, an update
/// that skips ids sets it, and no other update changes it.
pub proof fn law_mark_of_lost_updates(s: BookState, d: DiffView, snapshot: SnapshotView)
    ensures
        !install(snapshot).desynchronized,
        apply_diff(s, d).desynchronized == (s.desynchronized || is_gap(
            s.last_update_id,
            d.first_update_id,
            d.final_update_id,
        )),
{
}

/// A price that no change names rests after the changes as it did before.
pub proof fn law_unnamed_price_rests(m: Map<u64, u64>, changes: Seq<PriceLevel>, p: u64)
    requires
        forall|i: int| 0 <= i < changes.len() ==> (#[trigger] changes[i]).price != p,
    ensures
        apply_changes(m, changes).contains_key(p) == m.contains_key(p),
        m.contains_key(p) ==> apply_changes(m, changes)[p] == m[p],
    decreases changes.len(),
{
    if changes.len() > 0 {
        let front = changes.drop_last();
        assert forall|i: int| 0 <= i < front.len() implies (#[trigger] front[i]).price != p by {
            assert(front[i] == changes[i]);
        }
        law_unnamed_price_rests(m, front, p);
        assert(changes.last() == changes[changes.len() - 1]);
    }
}

/// The last change that names a price decides what rests there: nothing
/// where its quantity is zero, its quantity otherwise.
pub proof fn law_last_change_wins(m: Map<u64, u64>, changes: Seq<PriceLevel>, i: int)
    requires
        0 <= i < changes.len(),
        forall|j: int| i < j < changes.len() ==> (#[trigger] changes[j]).price != changes[i].price,
    ensures
        changes[i].quantity == 0 ==> !apply_changes(m, changes).contains_key(changes[i].price),
        changes[i].quantity > 0 ==> apply_changes(m, changes).contains_key(changes[i].price)
            && apply_changes(m, changes)[changes[i].price] == changes[i].quantity,
    decreases changes.len(),
{
    let front = changes.drop_last();
    assert(changes.last() == changes[changes.len() - 1]);
    if i < changes.len() - 1 {
        assert(front[i] == changes[i]);
        assert forall|j: int| i < j < front.len() implies (#[trigger] front[j]).price
            != front[i].price by {
            assert(front[j] == changes[j]);
        }
        law_last_change_wins(m, front, i);
    }
}

/// A change with quantity zero removes a price that was there, and a later
/// change with a quantity above zero puts it back.
pub proof fn law_remove_then_restore(m: Map<u64, u64>, price: u64, quantity: u64)
    requires
        quantity > 0,
    ensures
        !apply_changes(m, seq![PriceLevel { price, quantity: 0 }]).contains_key(price),
        apply_changes(
            m,
            seq![PriceLevel { price, quantity: 0 }, PriceLevel { price, quantity }],
        ).contains_key(price),
        apply_changes(
            m,
            seq![PriceLevel { price, quantity: 0 }, PriceLevel { price, quantity }],
        )[price] == quantity,
{
    let gone = seq![PriceLevel { price, quantity: 0 }];
    let back = seq![PriceLevel { price, quantity: 0 }, PriceLevel { price, quantity }];
    law_last_change_wins(m, gone, 0);
    law_last_change_wins(m, back, 1);
}

/// Changes leave the prices of a side finitely many.
pub proof fn law_changes_keep_finite(m: Map<u64, u64>, changes: Seq<PriceLevel>)
    requires
        m.dom().finite(),
    ensures
        apply_changes(m, changes).dom().finite(),
    decreases changes.len(),
{
    if changes.len() > 0 {
        law_changes_keep_finite(m, changes.drop_last());
    }
}

/// A snapshot lays down finitely many prices.
pub proof fn law_snapshot_is_finite(levels: Seq<PriceLevel>)
    ensures
        load_levels(levels).dom().finite(),
    decreases levels.len(),
{
    if levels.len() > 0 {
        law_snapshot_is_finite(levels.drop_last());
    }
}

/// Changes never leave a price resting with quantity zero.
pub proof fn law_changes_keep_positive(m: Map<u64, u64>, changes: Seq<PriceLevel>)
    requires
        all_positive(m),
    ensures
        all_positive(apply_changes(m, changes)),
    decreases changes.len(),
{
    if changes.len() > 0 {
        law_changes_keep_positive(m, changes.drop_last());
    }
}

/// A snapshot never lays down a price with quantity zero.
pub proof fn law_snapshot_is_positive(levels: Seq<PriceLevel>)
    ensures
        all_positive(load_levels(levels)),
    decreases levels.len(),
{
    if levels.len() > 0 {
        law_snapshot_is_positive(levels.drop_last());
    }
}

/// In every book that a snapshot and any updates lead to, each side holds
/// finitely many prices and no level rests with quantity zero.
pub proof fn law_book_stays_positive(snapshot: SnapshotView, diffs: Seq<DiffView>)
    ensures
        apply_all(install(snapshot), diffs).bids.dom().finite(),
        apply_all(install(snapshot), diffs).asks.dom().finite(),
        all_positive(apply_all(install(snapshot), diffs).bids),
        all_positive(apply_all(install(snapshot), diffs).asks),
    decreases diffs.len(),
{
    if diffs.len() == 0 {
        law_snapshot_is_positive(snapshot.bids);
        law_snapshot_is_positive(snapshot.asks);
        law_snapshot_is_finite(snapshot.bids);
        law_snapshot_is_finite(snapshot.asks);
    } else {
        law_book_stays_positive(snapshot, diffs.drop_last());
        let before = apply_all(install(snapshot), diffs.drop_last());
        law_changes_keep_positive(before.bids, diffs.last().bid_changes);
        law_changes_keep_positive(before.asks, diffs.last().ask_changes);
        law_changes_keep_finite(before.bids, diffs.last().bid_changes);
        law_changes_keep_finite(before.asks, diffs.last().ask_changes);
    }
}

/// A side that holds a price has a best price.
pub proof fn law_best_exists(m: Map<u64, u64>, side: Side)
    requires
        m.dom().finite(),
        m.dom().len() > 0,
    ensures
        best_price(m, side) is Some,
        is_best(m, side, best_price(m, side)->0),
    decreases m.dom().len(),
{
    let p = m.dom().choose();
    let rest = m.remove(p);
    if rest.dom().len() == 0 {
        assert forall|q: u64| m.contains_key(q) implies !better(side, q, p) by {
            if q != p {
                assert(rest.dom().contains(q));
            }
        }
        law_best_is_unique(m, side, p);
    } else {
        law_best_exists(rest, side);
        let b = best_price(rest, side)->0;
        let winner = if better(side, p, b) {
            p
        } else {
            b
        };
        assert forall|q: u64| m.contains_key(q) implies !better(side, q, winner) by {
            if q != p {
                assert(rest.contains_key(q));
            }
        }
        law_best_is_unique(m, side, winner);
    }
}

/// The levels handed out are levels of the side, stand in side order, and
/// are as many as were asked for, or all where the side holds fewer.
pub proof fn law_ranked_in_order(m: Map<u64, u64>, side: Side, n: nat)
    requires
        m.dom().finite(),
    ensures
        ranked(m, side, n).len() == if n <= m.dom().len() {
            n
        } else {
            m.dom().len()
        },
        forall|i: int|
            0 <= i < ranked(m, side, n).len() ==> m.contains_key(
                (#[trigger] ranked(m, side, n)[i]).price,
            ) && m[ranked(m, side, n)[i].price] == ranked(m, side, n)[i].quantity,
        forall|i: int, j: int|
            0 <= i < j < ranked(m, side, n).len() ==> better(
                side,
                (#[trigger] ranked(m, side, n)[i]).price,
                (#[trigger] ranked(m, side, n)[j]).price,
            ),
    decreases n,
{
    if n > 0 {
        if m.dom().len() == 0 {
            assert forall|p: u64| !is_best(m, side, p) by {
                if m.contains_key(p) {
                    assert(m.dom().contains(p));
                }
            }
        } else {
            law_best_exists(m, side);
            let p = best_price(m, side)->0;
            let rest = m.remove(p);
            law_ranked_in_order(rest, side, (n - 1) as nat);
            let tail = ranked(rest, side, (n - 1) as nat);
            let all = ranked(m, side, n);
            assert(all == seq![PriceLevel { price: p, quantity: m[p] }] + tail);
            assert forall|i: int| 0 <= i < all.len() implies m.contains_key(
                (#[trigger] all[i]).price,
            ) && m[all[i].price] == all[i].quantity by {
                if i > 0 {
                    assert(all[i] == tail[i - 1]);
                    assert(rest.contains_key(tail[i - 1].price));
                }
            }
            assert forall|i: int, j: int| 0 <= i < j < all.len() implies better(
                side,
                (#[trigger] all[i]).price,
                (#[trigger] all[j]).price,
            ) by {
                assert(all[j] == tail[j - 1]);
                assert(rest.contains_key(tail[j - 1].price));
                if i > 0 {
                    assert(all[i] == tail[i - 1]);
                } else {
                    assert(!better(side, all[j].price, p));
                    assert(all[j].price != p);
                }
            }
        }
    }
}

/// Asking for no level gives no volume, and asking for more levels than the
/// side holds gives the volume of the whole side.
pub proof fn law_top_volume_edges(m: Map<u64, u64>, side: Side, n: nat)
    requires
        m.dom().finite(),
    ensures
        top_volume(m, side, 0) == 0,
        n >= m.dom().len() ==> ranked(m, side, n) == ranked(m, side, m.dom().len()),
        n >= m.dom().len() ==> top_volume(m, side, n) == top_volume(m, side, m.dom().len()),
    decreases n,
{
    if n >= m.dom().len() {
        if m.dom().len() == 0 {
            assert forall|p: u64| !is_best(m, side, p) by {
                if m.contains_key(p) {
                    assert(m.dom().contains(p));
                }
            }
        } else {
            law_best_exists(m, side);
            let rest = m.remove(best_price(m, side)->0);
            law_top_volume_edges(rest, side, (n - 1) as nat);
        }
    }
}

/// A trade is a buy only where the rule asks for a buy, and a sell only
/// where it asks for a sell and for no buy; either way the sequence id was
/// not acted on before, the balance that was spent is zero afterwards, and
/// the id is remembered.
pub proof fn law_one_trade_per_signal(
    s: EngineState,
    imbalance: i64,
    best_bid: Option<u64>,
    best_ask: Option<u64>,
    sequence_id: u64,
)
    ensures
        match decide(s, imbalance, best_bid, best_ask, sequence_id).trade {
            Some(trade) => {
                let after = decide(s, imbalance, best_bid, best_ask, sequence_id).state;
                &&& s.last_acted_sequence != Some(sequence_id)
                &&& after.last_acted_sequence == Some(sequence_id)
                &&& trade.sequence_id == sequence_id
                &&& trade.imbalance == imbalance
                &&& trade.side == TradeSide::Buy ==> {
                    &&& wants_buy(s, imbalance, best_ask)
                    &&& buy_fits(s, trade.price)
                    &&& best_ask == Some(trade.price)
                    &&& after.portfolio.quote_balance == 0
                    &&& after.portfolio.base_balance == s.portfolio.base_balance + trade.quantity
                }
                &&& trade.side == TradeSide::Sell ==> {
                    &&& !wants_buy(s, imbalance, best_ask)
                    &&& wants_sell(s, imbalance, best_bid)
                    &&& sell_fits(s, trade.price)
                    &&& best_bid == Some(trade.price)
                    &&& after.portfolio.base_balance == 0
                    &&& trade.quantity == s.portfolio.base_balance
                }
            },
            None => decide(s, imbalance, best_bid, best_ask, sequence_id).state == s,
        },
        s.portfolio.quote_balance == 0 && s.portfolio.base_balance == 0 ==> decide(
            s,
            imbalance,
            best_bid,
            best_ask,
            sequence_id,
        ).trade is None,
{
}

/// Once a sequence id has led to a trade, deciding on it again leads to no
/// trade and changes nothing, whatever the market shows.
pub proof fn law_no_second_trade(
    s: EngineState,
    imbalance: i64,
    best_bid: Option<u64>,
    best_ask: Option<u64>,
    sequence_id: u64,
    imbalance_again: i64,
    best_bid_again: Option<u64>,
    best_ask_again: Option<u64>,
)
    requires
        decide(s, imbalance, best_bid, best_ask, sequence_id).trade is Some,
    ensures
        decide(
            decide(s, imbalance, best_bid, best_ask, sequence_id).state,
            imbalance_again,
            best_bid_again,
            best_ask_again,
            sequence_id,
        ).trade is None,
        decide(
            decide(s, imbalance, best_bid, best_ask, sequence_id).state,
            imbalance_again,
            best_bid_again,
            best_ask_again,
            sequence_id,
        ).state == decide(s, imbalance, best_bid, best_ask, sequence_id).state,
{
}

/// What one update can do to the driver.
///
/// Once terminated nothing changes. While the driver waits for a snapshot,
/// book and portfolio stay as they are and the update is kept or discarded.
/// Only an update that is applied changes the book, which then stands at the
/// update's final id; only a trade changes the portfolio. No update makes
/// the driver synced: only a gap changes the phase, to desynchronised.
pub proof fn law_driver_step(s: DriverState, d: DiffView)
    ensures
        s.phase == SyncPhase::Terminated ==> step(s, d).0 == s && step(s, d).1
            == StepOutcome::Closed,
        s.phase == SyncPhase::Uninitialized || s.phase == SyncPhase::Desynchronized ==> {
            &&& step(s, d).0.phase == s.phase
            &&& step(s, d).0.book == s.book
            &&& step(s, d).0.engine == s.engine
            &&& step(s, d).1 == StepOutcome::Buffered || step(s, d).1 == StepOutcome::Dropped
        },
        step(s, d).0.phase != s.phase ==> {
            &&& s.phase == SyncPhase::Synced
            &&& step(s, d).0.phase == SyncPhase::Desynchronized
            &&& step(s, d).1 is Gap
        },
        step(s, d).1 is Applied <==> s.phase == SyncPhase::Synced && is_acceptable(
            s.book.last_update_id,
            d.first_update_id,
            d.final_update_id,
        ),
        step(s, d).1 is Applied ==> {
            &&& step(s, d).0.book == apply_diff(s.book, d)
            &&& step(s, d).0.book.last_update_id == d.final_update_id
        },
        !(step(s, d).1 is Applied) ==> {
            &&& step(s, d).0.book.bids == s.book.bids
            &&& step(s, d).0.book.asks == s.book.asks
            &&& step(s, d).0.book.last_update_id == s.book.last_update_id
            &&& step(s, d).0.engine == s.engine
        },
        step(s, d).1 is Gap <==> step(s, d).0.phase != s.phase,
        step(s, d).1 is Gap ==> step(s, d).0.book.desynchronized,
        step(s, d).0.book == s.book || step(s, d).0.book == apply_diff(s.book, d),
        step(s, d).1 matches StepOutcome::Applied { trade, signal, .. } ==> {
            &&& signal == signal_of(step(s, d).0.book, s.depth_n)
            &&& trade is None ==> step(s, d).0.engine == s.engine
            &&& trade matches Some(t) ==> t.sequence_id == d.final_update_id && t.imbalance
                == signal.value
        },
        step(s, d).0.policy == s.policy,
        step(s, d).0.depth_n == s.depth_n,
{
}

/// No list of updates brings a driver that is not synced back to synced:
/// that takes a snapshot.
pub proof fn law_only_a_snapshot_resynchronises(s: DriverState, diffs: Seq<DiffView>)
    requires
        s.phase != SyncPhase::Synced,
    ensures
        replay(s, diffs).0.phase == s.phase,
        replay(s, diffs).0.book == s.book,
        replay(s, diffs).0.engine == s.engine,
    decreases diffs.len(),
{
    if diffs.len() > 0 {
        law_only_a_snapshot_resynchronises(s, diffs.drop_last());
        law_driver_step(replay(s, diffs.drop_last()).0, diffs.last());
    }
}

/// As long as no gap shows, the driver's book is the book with every update
/// applied in arrival order: each decision is taken on the book exactly as
/// the update before it left it.
pub proof fn law_driver_follows_the_book(s: DriverState, diffs: Seq<DiffView>)
    requires
        replay(s, diffs).0.phase == SyncPhase::Synced,
    ensures
        s.phase == SyncPhase::Synced,
        replay(s, diffs).0.book == apply_all(s.book, diffs),
    decreases diffs.len(),
{
    if diffs.len() > 0 {
        let mid = replay(s, diffs.drop_last()).0;
        law_driver_step(mid, diffs.last());
        law_driver_follows_the_book(s, diffs.drop_last());
    }
}

} // verus!
