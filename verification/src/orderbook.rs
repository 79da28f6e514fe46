//! The book: both sides and the sequence id of the last update applied,
//! rebuilt from snapshots and advanced by updates that continue the
//! sequence.

use crate::imbalance::ImbalanceSignal;
use crate::ladder::{
    all_positive, apply_changes, best_level, count_removed, count_set, load_levels, ranked,
    top_volume, ChangeCounts, PriceLevels,
};
use crate::level::{MalformedLevelError, PriceLevel, Side};
use crate::messages::{
    read_snapshot, read_update, DiffView, OrderBookDiff, OrderBookSnapshot, OrderBookUpdate,
    SnapshotLevels, SnapshotView,
};
use vstd::prelude::*;

verus! {

/// Why an update was not applied.
#[derive(Clone, Copy, Debug, PartialEq, Eq, Structural)]
pub enum SyncError {
    /// The update starts after the sequence id that must come next: updates
    /// were lost, and the book needs a fresh snapshot.
    SequenceGap { expected: u64, got: u64 },
    /// The update ends at or before the last sequence id applied.
    StaleDiff { last_applied: u64, got: u64 },
    /// A level of the update could not be read.
    MalformedLevel(MalformedLevelError),
}

/// What applying an update did.
#[derive(Clone, Copy, Debug, PartialEq, Eq, Structural)]
pub struct AppliedDiffReport {
    /// False where the update was stale and the book was left as it was.
    pub applied: bool,
    /// The sequence id of the last update applied, after the call.
    pub last_update_id: u64,
    pub bids: ChangeCounts,
    pub asks: ChangeCounts,
}

/// The book as a mathematical value.
pub struct BookState {
    pub bids: Map<u64, u64>,
    pub asks: Map<u64, u64>,
    pub last_update_id: u64,
    /// Set where an update skipped sequence ids since the last snapshot.
    pub desynchronized: bool,
}

/// The book marked as having lost updates; levels and last applied id stay.
pub open spec fn marked(s: BookState) -> BookState {
    BookState {
        bids: s.bids,
        asks: s.asks,
        last_update_id: s.last_update_id,
        desynchronized: true,
    }
}

/// An update that ends at or before the last applied id repeats what the
/// book already holds.
pub open spec fn is_stale(last: u64, final_update_id: u64) -> bool {
    final_update_id <= last
}

/// An update that is not stale and starts after `last + 1` has skipped ids.
pub open spec fn is_gap(last: u64, first_update_id: u64, final_update_id: u64) -> bool {
    final_update_id > last && first_update_id > last + 1
}

/// An update that ends after the last applied id and starts at or before the
/// id that must come next continues the sequence.
pub open spec fn is_acceptable(last: u64, first_update_id: u64, final_update_id: u64) -> bool {
    final_update_id > last && first_update_id <= last + 1
}

/// Where an update stands in the sequence: staleness is judged first.
pub open spec fn sequence_check(last: u64, first_update_id: u64, final_update_id: u64) -> Result<
    (),
    SyncError,
> {
    if is_stale(last, final_update_id) {
        Err(SyncError::StaleDiff { last_applied: last, got: final_update_id })
    } else if is_gap(last, first_update_id, final_update_id) {
        Err(SyncError::SequenceGap { expected: (last + 1) as u64, got: first_update_id })
    } else {
        Ok(())
    }
}

/// The book that a snapshot describes: it carries no mark of lost updates.
pub open spec fn install(snapshot: SnapshotView) -> BookState {
    BookState {
        bids: load_levels(snapshot.bids),
        asks: load_levels(snapshot.asks),
        last_update_id: snapshot.last_update_id,
        desynchronized: false,
    }
}

/// The book after an update. Its levels and its last applied id change only
/// where the update continues the sequence; an update that skips ids marks
/// the book as desynchronized; a stale update changes nothing.
pub open spec fn apply_diff(s: BookState, d: DiffView) -> BookState {
    if is_acceptable(s.last_update_id, d.first_update_id, d.final_update_id) {
        BookState {
            bids: apply_changes(s.bids, d.bid_changes),
            asks: apply_changes(s.asks, d.ask_changes),
            last_update_id: d.final_update_id,
            desynchronized: s.desynchronized,
        }
    } else if is_gap(s.last_update_id, d.first_update_id, d.final_update_id) {
        marked(s)
    } else {
        s
    }
}

/// The book after a list of updates, each applied in turn.
pub open spec fn apply_all(s: BookState, diffs: Seq<DiffView>) -> BookState
    decreases diffs.len(),
{
    if diffs.len() == 0 {
        s
    } else {
        apply_diff(apply_all(s, diffs.drop_last()), diffs.last())
    }
}

/// What applying an update answers: a gap is an error, a stale update is
/// reported as not applied, and any other is reported with its counts.
pub open spec fn diff_result(s: BookState, d: DiffView) -> Result<AppliedDiffReport, SyncError> {
    match sequence_check(s.last_update_id, d.first_update_id, d.final_update_id) {
        Err(SyncError::StaleDiff { .. }) => Ok(
            AppliedDiffReport {
                applied: false,
                last_update_id: s.last_update_id,
                bids: ChangeCounts { set: 0, removed: 0 },
                asks: ChangeCounts { set: 0, removed: 0 },
            },
        ),
        Err(e) => Err(e),
        Ok(()) => Ok(
            AppliedDiffReport {
                applied: true,
                last_update_id: d.final_update_id,
                bids: ChangeCounts {
                    set: count_set(d.bid_changes) as usize,
                    removed: count_removed(s.bids, d.bid_changes) as usize,
                },
                asks: ChangeCounts {
                    set: count_set(d.ask_changes) as usize,
                    removed: count_removed(s.asks, d.ask_changes) as usize,
                },
            },
        ),
    }
}

/// The book after an update as it arrives: the sequence is judged before
/// the levels are read, so an update that skips ids marks the book whether
/// or not its levels read; otherwise nothing changes unless every level
/// reads.
pub open spec fn apply_raw(s: BookState, u: OrderBookUpdate) -> BookState {
    if is_gap(s.last_update_id, u.first_update_id, u.final_update_id) {
        marked(s)
    } else {
        match read_update(u) {
            Ok(d) => apply_diff(s, d),
            Err(_) => s,
        }
    }
}

/// What applying an update as it arrives answers.
pub open spec fn raw_result(s: BookState, u: OrderBookUpdate) -> Result<
    AppliedDiffReport,
    SyncError,
> {
    match sequence_check(s.last_update_id, u.first_update_id, u.final_update_id) {
        Err(SyncError::StaleDiff { .. }) => Ok(
            AppliedDiffReport {
                applied: false,
                last_update_id: s.last_update_id,
                bids: ChangeCounts { set: 0, removed: 0 },
                asks: ChangeCounts { set: 0, removed: 0 },
            },
        ),
        Err(e) => Err(e),
        Ok(()) => match read_update(u) {
            Err(e) => Err(SyncError::MalformedLevel(e)),
            Ok(d) => diff_result(s, d),
        },
    }
}

/// One side of the book as a mathematical value.
pub open spec fn side_of(s: BookState, side: Side) -> Map<u64, u64> {
    match side {
        Side::Bid => s.bids,
        Side::Ask => s.asks,
    }
}

/// An order book for one symbol.
#[derive(Debug)]
pub struct OrderBook {
    bids: PriceLevels,
    asks: PriceLevels,
    last_update_id: u64,
    desynchronized: bool,
    depth: u32,
}

impl View for OrderBook {
    type V = BookState;

    closed spec fn view(&self) -> BookState {
        BookState {
            bids: self.bids@,
            asks: self.asks@,
            last_update_id: self.last_update_id,
            desynchronized: self.desynchronized,
        }
    }
}

impl OrderBook {
    /// Each side is read in its own order.
    pub closed spec fn sides_in_place(&self) -> bool {
        self.bids.side() == Side::Bid && self.asks.side() == Side::Ask
    }

    /// Each side holds finitely many prices, and none rests with quantity
    /// zero.
    pub open spec fn wf(&self) -> bool {
        &&& self.sides_in_place()
        &&& self@.bids.dom().finite()
        &&& self@.asks.dom().finite()
        &&& all_positive(self@.bids)
        &&& all_positive(self@.asks)
    }

    /// The number of levels that the imbalance is computed over.
    pub closed spec fn configured_depth(&self) -> u32 {
        self.depth
    }

    /// An empty book that has applied nothing.
    pub fn new(depth: u32) -> (r: Self)
        ensures
            r.wf(),
            r@.bids == Map::<u64, u64>::empty(),
            r@.asks == Map::<u64, u64>::empty(),
            r@.last_update_id == 0,
            !r@.desynchronized,
            r.configured_depth() == depth,
    {
        OrderBook {
            bids: PriceLevels::new(Side::Bid),
            asks: PriceLevels::new(Side::Ask),
            last_update_id: 0,
            desynchronized: false,
            depth,
        }
    }

    /// The book that a snapshot describes, unless one of its levels cannot
    /// be read.
    pub fn from_snapshot(snapshot: &OrderBookSnapshot, depth: u32) -> (r: Result<
        Self,
        MalformedLevelError,
    >)
        ensures
            match r {
                Ok(book) => read_snapshot(*snapshot) is Ok && book.wf() && book@ == install(
                    read_snapshot(*snapshot)->Ok_0,
                ) && book.configured_depth() == depth,
                Err(e) => read_snapshot(*snapshot) == Err::<SnapshotView, MalformedLevelError>(e),
            },
    {
        let mut book = OrderBook::new(depth);
        match book.initialize_from_snapshot(snapshot) {
            Ok(()) => Ok(book),
            Err(e) => Err(e),
        }
    }

    /// Replaces the whole book by what a read snapshot describes: levels
    /// with quantity zero are passed over, the snapshot's sequence id
    /// becomes the last applied one, and the mark of lost updates is
    /// cleared.
    pub fn install(&mut self, snapshot: &SnapshotLevels)
        requires
            old(self).wf(),
        ensures
            final(self).wf(),
            final(self)@ == install(snapshot@),
            final(self).configured_depth() == old(self).configured_depth(),
    {
        self.bids.load(&snapshot.bids);
        self.asks.load(&snapshot.asks);
        self.last_update_id = snapshot.last_update_id;
        self.desynchronized = false;
    }

    /// Reads a snapshot and replaces the whole book by it. Where a level
    /// cannot be read the book is left as it was.
    pub fn initialize_from_snapshot(&mut self, snapshot: &OrderBookSnapshot) -> (r: Result<
        (),
        MalformedLevelError,
    >)
        requires
            old(self).wf(),
        ensures
            final(self).wf(),
            final(self).configured_depth() == old(self).configured_depth(),
            match r {
                Ok(()) => read_snapshot(*snapshot) is Ok && final(self)@ == install(
                    read_snapshot(*snapshot)->Ok_0,
                ),
                Err(e) => read_snapshot(*snapshot) == Err::<SnapshotView, MalformedLevelError>(e)
                    && *final(self) == *old(self),
            },
    {
        match snapshot.to_levels() {
            Ok(levels) => {
                self.install(&levels);
                Ok(())
            },
            Err(e) => Err(e),
        }
    }

    /// Where an update covering `first_update_id..=final_update_id` stands
    /// in the sequence.
    pub fn check_sequence(&self, first_update_id: u64, final_update_id: u64) -> (r: Result<
        (),
        SyncError,
    >)
        ensures
            r == sequence_check(self@.last_update_id, first_update_id, final_update_id),
    {
        if final_update_id <= self.last_update_id {
            Err(SyncError::StaleDiff { last_applied: self.last_update_id, got: final_update_id })
        } else if first_update_id > self.last_update_id + 1 {
            Err(SyncError::SequenceGap { expected: self.last_update_id + 1, got: first_update_id })
        } else {
            Ok(())
        }
    }

    /// Applies a read update.
    ///
    /// A stale update leaves the book as it was and is reported as not
    /// applied. An update that skips sequence ids is an error: the levels
    /// and the last applied id stay as they were, and the book is marked as
    /// desynchronized until the next snapshot. Any other update has its
    /// changes applied, bids and asks each in order, and its final id
    /// becomes the last applied one.
    pub fn apply(&mut self, diff: &OrderBookDiff) -> (r: Result<AppliedDiffReport, SyncError>)
        requires
            old(self).wf(),
        ensures
            final(self).wf(),
            final(self)@ == apply_diff(old(self)@, diff@),
            r == diff_result(old(self)@, diff@),
            final(self).configured_depth() == old(self).configured_depth(),
    {
        match self.check_sequence(diff.first_update_id, diff.final_update_id) {
            Err(SyncError::StaleDiff { .. }) => Ok(
                AppliedDiffReport {
                    applied: false,
                    last_update_id: self.last_update_id,
                    bids: ChangeCounts { set: 0, removed: 0 },
                    asks: ChangeCounts { set: 0, removed: 0 },
                },
            ),
            Err(e) => {
                self.desynchronized = true;
                Err(e)
            },
            Ok(()) => {
                let bids = self.bids.apply(&diff.bid_changes);
                let asks = self.asks.apply(&diff.ask_changes);
                self.last_update_id = diff.final_update_id;
                Ok(
                    AppliedDiffReport {
                        applied: true,
                        last_update_id: diff.final_update_id,
                        bids,
                        asks,
                    },
                )
            },
        }
    }

    /// Applies an update as it arrives: its place in the sequence is judged
    /// first, then every level is read, and only then is the book changed.
    pub fn apply_update(&mut self, update: &OrderBookUpdate) -> (r: Result<
        AppliedDiffReport,
        SyncError,
    >)
        requires
            old(self).wf(),
        ensures
            final(self).wf(),
            final(self)@ == apply_raw(old(self)@, *update),
            r == raw_result(old(self)@, *update),
            final(self).configured_depth() == old(self).configured_depth(),
    {
        match self.check_sequence(update.first_update_id, update.final_update_id) {
            Err(SyncError::StaleDiff { .. }) => {
                return Ok(
                    AppliedDiffReport {
                        applied: false,
                        last_update_id: self.last_update_id,
                        bids: ChangeCounts { set: 0, removed: 0 },
                        asks: ChangeCounts { set: 0, removed: 0 },
                    },
                );
            },
            Err(e) => {
                self.desynchronized = true;
                return Err(e);
            },
            Ok(()) => {},
        }
        match update.to_diff() {
            Ok(diff) => self.apply(&diff),
            Err(e) => Err(SyncError::MalformedLevel(e)),
        }
    }

    /// The sequence id of the last update applied, or of the snapshot where
    /// none was applied since.
    pub fn last_update_id(&self) -> (r: u64)
        ensures
            r == self@.last_update_id,
    {
        self.last_update_id
    }

    /// Whether an update skipped sequence ids since the last snapshot.
    pub fn is_desynchronized(&self) -> (r: bool)
        ensures
            r == self@.desynchronized,
    {
        self.desynchronized
    }

    /// The number of levels that the imbalance is computed over.
    pub fn depth(&self) -> (r: u32)
        ensures
            r == self.configured_depth(),
    {
        self.depth
    }

    /// The highest bid, if there is any bid.
    pub fn best_bid(&self) -> (r: Option<PriceLevel>)
        requires
            self.wf(),
        ensures
            r == best_level(self@.bids, Side::Bid),
            r is None <==> self@.bids.dom().len() == 0,
    {
        self.bids.best()
    }

    /// The lowest ask, if there is any ask.
    pub fn best_ask(&self) -> (r: Option<PriceLevel>)
        requires
            self.wf(),
        ensures
            r == best_level(self@.asks, Side::Ask),
            r is None <==> self@.asks.dom().len() == 0,
    {
        self.asks.best()
    }

    /// The first `n` levels of a side, best price first.
    pub fn top_levels(&self, side: Side, n: usize) -> (r: Vec<PriceLevel>)
        requires
            self.wf(),
        ensures
            r@ == ranked(side_of(self@, side), side, n as nat),
            r@.len() == if n <= side_of(self@, side).dom().len() {
                n as nat
            } else {
                side_of(self@, side).dom().len()
            },
    {
        match side {
            Side::Bid => self.bids.top_levels(n),
            Side::Ask => self.asks.top_levels(n),
        }
    }

    /// The sum of the quantities of the first `n` levels of a side: zero
    /// for `n` zero, and the whole side where it has fewer levels.
    pub fn top_n_volume(&self, side: Side, n: u32) -> (r: u128)
        requires
            self.wf(),
        ensures
            r == top_volume(side_of(self@, side), side, n as nat),
            r <= n * u64::MAX,
            n == 0 ==> r == 0,
            n >= side_of(self@, side).dom().len() ==> r == top_volume(
                side_of(self@, side),
                side,
                side_of(self@, side).dom().len(),
            ),
    {
        proof {
            crate::laws::law_top_volume_edges(side_of(self@, side), side, n as nat);
        }
        match side {
            Side::Bid => self.bids.top_volume(n),
            Side::Ask => self.asks.top_volume(n),
        }
    }

    /// The imbalance over the configured depth.
    pub fn calculate_imbalance(&self) -> (r: ImbalanceSignal)
        requires
            self.wf(),
        ensures
            r == crate::imbalance::signal_of(self@, self.configured_depth()),
    {
        ImbalanceSignal::compute(self, self.depth)
    }
}

} // verus!
