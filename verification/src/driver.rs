//! The synchronisation driver: it owns the book and the decision engine,
//! takes snapshots and updates in arrival order, and answers each with what
//! it did. The caller performs what the answers ask for: fetching a fresh
//! snapshot after a gap, and recording trades.

use crate::engine::{decide, DecisionEngine, EngineState, Trade};
use crate::imbalance::{signal_of, ImbalanceSignal};
use crate::ladder::best_level;
use crate::level::{MalformedLevelError, PriceLevel, Side};
use crate::messages::{
    read_snapshot, read_update, DiffView, OrderBookDiff, OrderBookSnapshot, OrderBookUpdate,
    SnapshotView,
};
use crate::orderbook::{
    apply_diff, diff_result, install, is_gap, is_stale, marked, AppliedDiffReport, BookState,
    OrderBook, SyncError,
};
use vstd::prelude::*;

verus! {

/// Where the driver stands in the life of the book.
#[derive(Clone, Copy, Debug, PartialEq, Eq, Structural)]
pub enum SyncPhase {
    /// No snapshot has been installed yet.
    Uninitialized,
    /// The book follows the feed.
    Synced,
    /// Updates were lost: the book waits for a fresh snapshot.
    Desynchronized,
    /// The feed was closed or the run was cancelled.
    Terminated,
}

/// What happens to updates that arrive while the book cannot take them.
#[derive(Clone, Copy, Debug, PartialEq, Eq, Structural)]
pub enum DesyncPolicy {
    /// Keep them, and replay them after the next snapshot.
    Buffer,
    /// Discard them.
    Drop,
}

/// The options of a run.
#[derive(Clone, Copy, Debug)]
pub struct DriverConfig {
    /// Levels considered for the imbalance, on each side.
    pub depth_n: u32,
    pub buy_threshold: i64,
    pub sell_threshold: i64,
    pub initial_quote_balance: u64,
    pub initial_base_balance: u64,
    pub desync_policy: DesyncPolicy,
}

impl Default for DriverConfig {
    /// Ten levels, a buy above 0.7 and a sell below 0.3, one million units
    /// of quote asset, and buffering while desynchronised.
    fn default() -> (r: Self)
        ensures
            r.depth_n == 10,
            r.buy_threshold == 70_000_000,
            r.sell_threshold == 30_000_000,
            r.initial_quote_balance == 100_000_000_000_000,
            r.initial_base_balance == 0,
            r.desync_policy == DesyncPolicy::Buffer,
    {
        DriverConfig {
            depth_n: 10,
            buy_threshold: 70_000_000,
            sell_threshold: 30_000_000,
            initial_quote_balance: 100_000_000_000_000,
            initial_base_balance: 0,
            desync_policy: DesyncPolicy::Buffer,
        }
    }
}

/// What the driver did with one update.
#[derive(Clone, Copy, Debug, PartialEq, Eq)]
pub enum StepOutcome {
    /// The update was applied; the signal and the decision were taken on
    /// the book as the update left it.
    Applied { report: AppliedDiffReport, signal: ImbalanceSignal, trade: Option<Trade> },
    /// The update repeated what the book already holds and was passed over.
    Stale,
    /// The update skipped sequence ids. The driver is now desynchronised
    /// and needs a fresh snapshot.
    Gap { expected: u64, got: u64 },
    /// The update was kept for replay after the next snapshot.
    Buffered,
    /// The update was discarded because the book could not take it.
    Dropped,
    /// A level of the update could not be read; the update was discarded.
    Malformed(MalformedLevelError),
    /// The driver is terminated and takes nothing more.
    Closed,
}

/// The driver as a mathematical value.
pub struct DriverState {
    pub phase: SyncPhase,
    pub policy: DesyncPolicy,
    pub depth_n: u32,
    pub book: BookState,
    pub engine: EngineState,
    pub backlog: Seq<DiffView>,
}

/// The price of a level, if there is a level.
pub open spec fn price_of(level: Option<PriceLevel>) -> Option<u64> {
    match level {
        Some(l) => Some(l.price),
        None => None,
    }
}

/// An update that the book cannot take now is kept or discarded, as the
/// policy says.
pub open spec fn hold(s: DriverState, d: DiffView) -> (DriverState, StepOutcome) {
    match s.policy {
        DesyncPolicy::Buffer => (
            DriverState {
                phase: s.phase,
                policy: s.policy,
                depth_n: s.depth_n,
                book: s.book,
                engine: s.engine,
                backlog: s.backlog.push(d),
            },
            StepOutcome::Buffered,
        ),
        DesyncPolicy::Drop => (s, StepOutcome::Dropped),
    }
}

/// One update while the book follows the feed.
///
/// A stale update changes nothing. An update that skips ids desynchronises
/// the driver and marks the book (and is itself kept where the policy
/// buffers). Any other update is applied, and then, in this order, the
/// signal is computed and the decision is taken, both on the book as the
/// update left it.
pub open spec fn synced_step(s: DriverState, d: DiffView) -> (DriverState, StepOutcome) {
    let last = s.book.last_update_id;
    if is_stale(last, d.final_update_id) {
        (s, StepOutcome::Stale)
    } else if is_gap(last, d.first_update_id, d.final_update_id) {
        (
            DriverState {
                phase: SyncPhase::Desynchronized,
                policy: s.policy,
                depth_n: s.depth_n,
                book: marked(s.book),
                engine: s.engine,
                backlog: match s.policy {
                    DesyncPolicy::Buffer => s.backlog.push(d),
                    DesyncPolicy::Drop => s.backlog,
                },
            },
            StepOutcome::Gap { expected: (last + 1) as u64, got: d.first_update_id },
        )
    } else {
        let book = apply_diff(s.book, d);
        let signal = signal_of(book, s.depth_n);
        let decision = decide(
            s.engine,
            signal.value,
            price_of(best_level(book.bids, Side::Bid)),
            price_of(best_level(book.asks, Side::Ask)),
            d.final_update_id,
        );
        (
            DriverState {
                phase: s.phase,
                policy: s.policy,
                depth_n: s.depth_n,
                book,
                engine: decision.state,
                backlog: s.backlog,
            },
            StepOutcome::Applied {
                report: diff_result(s.book, d)->Ok_0,
                signal,
                trade: decision.trade,
            },
        )
    }
}

/// One read update, in whatever phase the driver is.
pub open spec fn step(s: DriverState, d: DiffView) -> (DriverState, StepOutcome) {
    match s.phase {
        SyncPhase::Terminated => (s, StepOutcome::Closed),
        SyncPhase::Synced => synced_step(s, d),
        SyncPhase::Uninitialized | SyncPhase::Desynchronized => hold(s, d),
    }
}

/// One update as it arrives: once terminated the driver takes nothing;
/// otherwise the update is read, discarded where it is malformed, and then
/// handled as `step` says.
pub open spec fn raw_step(s: DriverState, u: OrderBookUpdate) -> (DriverState, StepOutcome) {
    if s.phase == SyncPhase::Terminated {
        (s, StepOutcome::Closed)
    } else {
        match read_update(u) {
            Err(e) => (s, StepOutcome::Malformed(e)),
            Ok(d) => step(s, d),
        }
    }
}

/// A list of updates, handled one after the other.
pub open spec fn replay(s: DriverState, diffs: Seq<DiffView>) -> (DriverState, Seq<StepOutcome>)
    decreases diffs.len(),
{
    if diffs.len() == 0 {
        (s, Seq::empty())
    } else {
        let (mid, outcomes) = replay(s, diffs.drop_last());
        let (end, outcome) = step(mid, diffs.last());
        (end, outcomes.push(outcome))
    }
}

/// The driver right after a snapshot was installed: synced on the book the
/// snapshot describes, with nothing kept.
pub open spec fn resynced(s: DriverState, snapshot: SnapshotView) -> DriverState {
    DriverState {
        phase: SyncPhase::Synced,
        policy: s.policy,
        depth_n: s.depth_n,
        book: install(snapshot),
        engine: s.engine,
        backlog: Seq::empty(),
    }
}

/// The driver after termination.
pub open spec fn terminated(s: DriverState) -> DriverState {
    DriverState {
        phase: SyncPhase::Terminated,
        policy: s.policy,
        depth_n: s.depth_n,
        book: s.book,
        engine: s.engine,
        backlog: Seq::empty(),
    }
}

/// The read updates of a list, as mathematical values.
pub open spec fn diff_views(diffs: Seq<OrderBookDiff>) -> Seq<DiffView> {
    diffs.map_values(|d: OrderBookDiff| d@)
}

fn copy_levels(levels: &Vec<PriceLevel>) -> (r: Vec<PriceLevel>)
    ensures
        r@ == levels@,
{
    let mut copy: Vec<PriceLevel> = Vec::new();
    let mut i: usize = 0;
    while i < levels.len()
        invariant
            i <= levels.len(),
            copy@ == levels@.take(i as int),
        decreases levels.len() - i,
    {
        copy.push(levels[i]);
        assert(copy@ == levels@.take(i + 1));
        i += 1;
    }
    assert(levels@.take(i as int) == levels@);
    copy
}

fn copy_diff(diff: &OrderBookDiff) -> (r: OrderBookDiff)
    ensures
        r@ == diff@,
{
    OrderBookDiff {
        first_update_id: diff.first_update_id,
        final_update_id: diff.final_update_id,
        bid_changes: copy_levels(&diff.bid_changes),
        ask_changes: copy_levels(&diff.ask_changes),
    }
}

/// Owner of the book and of the decision engine.
#[derive(Debug)]
pub struct SyncDriver {
    phase: SyncPhase,
    policy: DesyncPolicy,
    depth_n: u32,
    book: OrderBook,
    engine: DecisionEngine,
    backlog: Vec<OrderBookDiff>,
}

impl View for SyncDriver {
    type V = DriverState;

    closed spec fn view(&self) -> DriverState {
        DriverState {
            phase: self.phase,
            policy: self.policy,
            depth_n: self.depth_n,
            book: self.book@,
            engine: self.engine@,
            backlog: diff_views(self.backlog@),
        }
    }
}

impl SyncDriver {
    /// The book inside is well formed and configured with the driver's
    /// depth.
    pub closed spec fn wf(&self) -> bool {
        self.book.wf() && self.book.configured_depth() == self.depth_n
    }

    /// A driver that waits for its first snapshot.
    pub fn new(config: DriverConfig) -> (r: Self)
        ensures
            r.wf(),
            r@.phase == SyncPhase::Uninitialized,
            r@.policy == config.desync_policy,
            r@.depth_n == config.depth_n,
            r@.book.bids == Map::<u64, u64>::empty(),
            r@.book.asks == Map::<u64, u64>::empty(),
            r@.book.last_update_id == 0,
            !r@.book.desynchronized,
            r@.engine.buy_threshold == config.buy_threshold,
            r@.engine.sell_threshold == config.sell_threshold,
            r@.engine.portfolio.quote_balance == config.initial_quote_balance,
            r@.engine.portfolio.base_balance == config.initial_base_balance,
            r@.engine.last_acted_sequence is None,
            r@.backlog == Seq::<DiffView>::empty(),
    {
        let driver = SyncDriver {
            phase: SyncPhase::Uninitialized,
            policy: config.desync_policy,
            depth_n: config.depth_n,
            book: OrderBook::new(config.depth_n),
            engine: DecisionEngine::new(
                config.buy_threshold,
                config.sell_threshold,
                config.initial_quote_balance,
                config.initial_base_balance,
            ),
            backlog: Vec::new(),
        };
        assert(driver@.backlog == Seq::<DiffView>::empty());
        driver
    }

    /// The phase the driver is in.
    pub fn phase(&self) -> (r: SyncPhase)
        ensures
            r == self@.phase,
    {
        self.phase
    }

    /// The book, to read.
    pub fn book(&self) -> (r: &OrderBook)
        requires
            self.wf(),
        ensures
            r@ == self@.book,
            r.wf(),
            r.configured_depth() == self@.depth_n,
    {
        &self.book
    }

    /// The decision engine, to read.
    pub fn engine(&self) -> (r: &DecisionEngine)
        ensures
            r@ == self@.engine,
    {
        &self.engine
    }

    /// Number of updates kept for replay.
    pub fn backlog_len(&self) -> (r: usize)
        ensures
            r == self@.backlog.len(),
    {
        self.backlog.len()
    }

    /// Handles one read update as `step` says.
    pub fn on_diff(&mut self, diff: &OrderBookDiff) -> (r: StepOutcome)
        requires
            old(self).wf(),
        ensures
            final(self).wf(),
            final(self)@ == step(old(self)@, diff@).0,
            r == step(old(self)@, diff@).1,
    {
        match self.phase {
            SyncPhase::Terminated => StepOutcome::Closed,
            SyncPhase::Uninitialized | SyncPhase::Desynchronized => match self.policy {
                DesyncPolicy::Buffer => {
                    self.keep(diff);
                    StepOutcome::Buffered
                },
                DesyncPolicy::Drop => StepOutcome::Dropped,
            },
            SyncPhase::Synced => match self.book.apply(diff) {
                Ok(report) => {
                    if !report.applied {
                        return StepOutcome::Stale;
                    }
                    let signal = ImbalanceSignal::compute(&self.book, self.depth_n);
                    let best_bid = match self.book.best_bid() {
                        Some(level) => Some(level.price),
                        None => None,
                    };
                    let best_ask = match self.book.best_ask() {
                        Some(level) => Some(level.price),
                        None => None,
                    };
                    let trade = self.engine.evaluate(
                        signal.value,
                        best_bid,
                        best_ask,
                        diff.final_update_id,
                    );
                    StepOutcome::Applied { report, signal, trade }
                },
                Err(SyncError::SequenceGap { expected, got }) => {
                    self.phase = SyncPhase::Desynchronized;
                    match self.policy {
                        DesyncPolicy::Buffer => {
                            self.keep(diff);
                        },
                        DesyncPolicy::Drop => {},
                    }
                    StepOutcome::Gap { expected, got }
                },
                // `apply` refuses an update for a gap only.
                Err(_) => StepOutcome::Stale,
            },
        }
    }

    /// Appends a copy of the update to the backlog.
    fn keep(&mut self, diff: &OrderBookDiff)
        ensures
            final(self).phase == old(self).phase,
            final(self).policy == old(self).policy,
            final(self).depth_n == old(self).depth_n,
            final(self).book == old(self).book,
            final(self).engine == old(self).engine,
            diff_views(final(self).backlog@) == diff_views(old(self).backlog@).push(diff@),
    {
        self.backlog.push(copy_diff(diff));
        assert(diff_views(self.backlog@) == diff_views(old(self).backlog@).push(diff@));
    }

    /// Handles one update as it arrives, as `raw_step` says.
    pub fn on_update(&mut self, update: &OrderBookUpdate) -> (r: StepOutcome)
        requires
            old(self).wf(),
        ensures
            final(self).wf(),
            final(self)@ == raw_step(old(self)@, *update).0,
            r == raw_step(old(self)@, *update).1,
    {
        if let SyncPhase::Terminated = self.phase {
            return StepOutcome::Closed;
        }
        match update.to_diff() {
            Ok(diff) => self.on_diff(&diff),
            Err(e) => StepOutcome::Malformed(e),
        }
    }

    /// Installs a snapshot and replays what was kept.
    ///
    /// Once terminated the driver takes nothing and answers with an empty
    /// list. A snapshot with a malformed level is refused and changes
    /// nothing. Any other snapshot replaces the book, makes the driver
    /// synced, and has the kept updates handled in arrival order; the
    /// answers to them are returned in that order.
    pub fn on_snapshot(&mut self, snapshot: &OrderBookSnapshot) -> (r: Result<
        Vec<StepOutcome>,
        MalformedLevelError,
    >)
        requires
            old(self).wf(),
        ensures
            final(self).wf(),
            old(self)@.phase == SyncPhase::Terminated ==> final(self)@ == old(self)@ && (
            r matches Ok(outcomes) && outcomes@.len() == 0),
            old(self)@.phase != SyncPhase::Terminated ==> match r {
                Err(e) => read_snapshot(*snapshot) == Err::<SnapshotView, MalformedLevelError>(e)
                    && final(self)@ == old(self)@,
                Ok(outcomes) => read_snapshot(*snapshot) is Ok && final(self)@ == replay(
                    resynced(old(self)@, read_snapshot(*snapshot)->Ok_0),
                    old(self)@.backlog,
                ).0 && outcomes@ == replay(
                    resynced(old(self)@, read_snapshot(*snapshot)->Ok_0),
                    old(self)@.backlog,
                ).1,
            },
    {
        let mut outcomes: Vec<StepOutcome> = Vec::new();
        if let SyncPhase::Terminated = self.phase {
            return Ok(outcomes);
        }
        match self.book.initialize_from_snapshot(snapshot) {
            Ok(()) => {},
            Err(e) => {
                return Err(e);
            },
        }
        let mut pending: Vec<OrderBookDiff> = Vec::new();
        core::mem::swap(&mut self.backlog, &mut pending);
        self.phase = SyncPhase::Synced;
        let ghost start = self@;
        let ghost kept = diff_views(pending@);
        assert(start.backlog == Seq::<DiffView>::empty());
        let mut i: usize = 0;
        while i < pending.len()
            invariant
                i <= pending.len(),
                self.wf(),
                kept == diff_views(pending@),
                self@ == replay(start, kept.take(i as int)).0,
                outcomes@ == replay(start, kept.take(i as int)).1,
            decreases pending.len() - i,
        {
            assert(kept.take(i + 1).drop_last() == kept.take(i as int));
            let outcome = self.on_diff(&pending[i]);
            outcomes.push(outcome);
            i += 1;
        }
        assert(kept.take(i as int) == kept);
        Ok(outcomes)
    }

    /// Terminates the driver: the feed was closed or the run was cancelled.
    /// The book and the portfolio stay as the last applied update left
    /// them; what was kept for replay is let go.
    pub fn close(&mut self)
        requires
            old(self).wf(),
        ensures
            final(self).wf(),
            final(self)@ == terminated(old(self)@),
    {
        self.phase = SyncPhase::Terminated;
        self.backlog.clear();
        assert(diff_views(self.backlog@) == Seq::<DiffView>::empty());
    }
}

} // verus!
