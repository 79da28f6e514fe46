//! What the feed delivers: a snapshot of the whole book and incremental
//! updates, first as they arrive (decimal text) and then as read (levels).

use crate::level::{levels_of, parse_levels, MalformedLevelError, PriceLevel, Side};
use vstd::prelude::*;

verus! {

/// A snapshot of the whole book as it arrives: each level is a pair of
/// decimal texts, price first.
#[derive(Debug)]
pub struct OrderBookSnapshot {
    pub last_update_id: u64,
    pub bids: Vec<[String; 2]>,
    pub asks: Vec<[String; 2]>,
}

/// An incremental update as it arrives. It covers the sequence ids from
/// `first_update_id` to `final_update_id`; a level with quantity zero asks
/// for the price to be deleted.
#[derive(Debug)]
pub struct OrderBookUpdate {
    pub event_type: String,
    pub event_time: u64,
    pub symbol: String,
    pub first_update_id: u64,
    pub final_update_id: u64,
    pub bids: Vec<[String; 2]>,
    pub asks: Vec<[String; 2]>,
}

/// The levels of a snapshot, read.
#[derive(Debug)]
pub struct SnapshotLevels {
    pub last_update_id: u64,
    pub bids: Vec<PriceLevel>,
    pub asks: Vec<PriceLevel>,
}

/// The changes of an update, read.
#[derive(Debug)]
pub struct OrderBookDiff {
    pub first_update_id: u64,
    pub final_update_id: u64,
    pub bid_changes: Vec<PriceLevel>,
    pub ask_changes: Vec<PriceLevel>,
}

/// A read snapshot as a mathematical value.
pub struct SnapshotView {
    pub last_update_id: u64,
    pub bids: Seq<PriceLevel>,
    pub asks: Seq<PriceLevel>,
}

/// A read update as a mathematical value.
pub struct DiffView {
    pub first_update_id: u64,
    pub final_update_id: u64,
    pub bid_changes: Seq<PriceLevel>,
    pub ask_changes: Seq<PriceLevel>,
}

impl View for SnapshotLevels {
    type V = SnapshotView;

    open spec fn view(&self) -> SnapshotView {
        SnapshotView { last_update_id: self.last_update_id, bids: self.bids@, asks: self.asks@ }
    }
}

impl View for OrderBookDiff {
    type V = DiffView;

    open spec fn view(&self) -> DiffView {
        DiffView {
            first_update_id: self.first_update_id,
            final_update_id: self.final_update_id,
            bid_changes: self.bid_changes@,
            ask_changes: self.ask_changes@,
        }
    }
}

/// What a snapshot reads as: its bids are read before its asks, and the
/// first malformed level is reported.
pub open spec fn read_snapshot(snapshot: OrderBookSnapshot) -> Result<
    SnapshotView,
    MalformedLevelError,
> {
    match levels_of(snapshot.bids@, Side::Bid) {
        Err(e) => Err(e),
        Ok(bids) => match levels_of(snapshot.asks@, Side::Ask) {
            Err(e) => Err(e),
            Ok(asks) => Ok(SnapshotView { last_update_id: snapshot.last_update_id, bids, asks }),
        },
    }
}

/// What an update reads as: its bids are read before its asks, and the
/// first malformed level is reported.
pub open spec fn read_update(update: OrderBookUpdate) -> Result<DiffView, MalformedLevelError> {
    match levels_of(update.bids@, Side::Bid) {
        Err(e) => Err(e),
        Ok(bid_changes) => match levels_of(update.asks@, Side::Ask) {
            Err(e) => Err(e),
            Ok(ask_changes) => Ok(
                DiffView {
                    first_update_id: update.first_update_id,
                    final_update_id: update.final_update_id,
                    bid_changes,
                    ask_changes,
                },
            ),
        },
    }
}

impl OrderBookSnapshot {
    /// Reads every level of the snapshot.
    pub fn to_levels(&self) -> (r: Result<SnapshotLevels, MalformedLevelError>)
        ensures
            match r {
                Ok(levels) => read_snapshot(*self) == Ok::<SnapshotView, MalformedLevelError>(
                    levels@,
                ),
                Err(e) => read_snapshot(*self) == Err::<SnapshotView, MalformedLevelError>(e),
            },
    {
        let bids = match parse_levels(&self.bids, Side::Bid) {
            Ok(bids) => bids,
            Err(e) => {
                return Err(e);
            },
        };
        let asks = match parse_levels(&self.asks, Side::Ask) {
            Ok(asks) => asks,
            Err(e) => {
                return Err(e);
            },
        };
        Ok(SnapshotLevels { last_update_id: self.last_update_id, bids, asks })
    }
}

impl OrderBookUpdate {
    /// Reads every level of the update.
    pub fn to_diff(&self) -> (r: Result<OrderBookDiff, MalformedLevelError>)
        ensures
            match r {
                Ok(diff) => read_update(*self) == Ok::<DiffView, MalformedLevelError>(diff@),
                Err(e) => read_update(*self) == Err::<DiffView, MalformedLevelError>(e),
            },
    {
        let bid_changes = match parse_levels(&self.bids, Side::Bid) {
            Ok(levels) => levels,
            Err(e) => {
                return Err(e);
            },
        };
        let ask_changes = match parse_levels(&self.asks, Side::Ask) {
            Ok(levels) => levels,
            Err(e) => {
                return Err(e);
            },
        };
        Ok(
            OrderBookDiff {
                first_update_id: self.first_update_id,
                final_update_id: self.final_update_id,
                bid_changes,
                ask_changes,
            },
        )
    }
}

} // verus!
