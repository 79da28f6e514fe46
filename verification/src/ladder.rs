//! One side of a book: an ordered map from price to resting quantity, read
//! best price first.

use crate::level::{PriceLevel, Side};
use std::collections::BTreeMap;
use vstd::prelude::*;
use vstd::std_specs::btree::{increasing_seq, into_iter};
use vstd::std_specs::cmp::OrdSpec;
use vstd::std_specs::iter::IteratorSpec;

verus! {

/// Whether price `a` comes before price `b` on the given side: bids run
/// from the highest price down, asks from the lowest price up.
pub open spec fn better(side: Side, a: u64, b: u64) -> bool {
    match side {
        Side::Bid => a > b,
        Side::Ask => a < b,
    }
}

/// `p` is a price of `m` that no other price of `m` comes before.
pub open spec fn is_best(m: Map<u64, u64>, side: Side, p: u64) -> bool {
    m.contains_key(p) && forall|q: u64| m.contains_key(q) ==> !better(side, q, p)
}

/// The first price in side order, if the side has any price.
pub open spec fn best_price(m: Map<u64, u64>, side: Side) -> Option<u64> {
    if exists|p: u64| is_best(m, side, p) {
        Some(choose|p: u64| is_best(m, side, p))
    } else {
        None
    }
}

/// The first level in side order, if the side has any level.
pub open spec fn best_level(m: Map<u64, u64>, side: Side) -> Option<PriceLevel> {
    match best_price(m, side) {
        Some(p) => Some(PriceLevel { price: p, quantity: m[p] }),
        None => None,
    }
}

/// The first `n` levels in side order, or all of them where there are fewer.
pub open spec fn ranked(m: Map<u64, u64>, side: Side, n: nat) -> Seq<PriceLevel>
    decreases n,
{
    if n == 0 {
        Seq::empty()
    } else {
        match best_price(m, side) {
            None => Seq::empty(),
            Some(p) => seq![PriceLevel { price: p, quantity: m[p] }] + ranked(
                m.remove(p),
                side,
                (n - 1) as nat,
            ),
        }
    }
}

/// Sum of the quantities of a list of levels.
pub open spec fn total_quantity(levels: Seq<PriceLevel>) -> nat
    decreases levels.len(),
{
    if levels.len() == 0 {
        0
    } else {
        total_quantity(levels.drop_last()) + levels.last().quantity as nat
    }
}

/// Sum of the quantities of the first `n` levels in side order.
pub open spec fn top_volume(m: Map<u64, u64>, side: Side, n: nat) -> nat {
    total_quantity(ranked(m, side, n))
}

/// No price rests with quantity zero.
pub open spec fn all_positive(m: Map<u64, u64>) -> bool {
    forall|p: u64| m.contains_key(p) ==> m[p] > 0
}

/// One change of a diff: quantity zero deletes the price, any other quantity
/// replaces what rested there.
pub open spec fn apply_change(m: Map<u64, u64>, level: PriceLevel) -> Map<u64, u64> {
    if level.quantity == 0 {
        m.remove(level.price)
    } else {
        m.insert(level.price, level.quantity)
    }
}

/// The changes of a diff, applied in order.
pub open spec fn apply_changes(m: Map<u64, u64>, changes: Seq<PriceLevel>) -> Map<u64, u64>
    decreases changes.len(),
{
    if changes.len() == 0 {
        m
    } else {
        apply_change(apply_changes(m, changes.drop_last()), changes.last())
    }
}

/// One level of a snapshot: quantity zero is passed over, any other
/// quantity replaces what rested there.
pub open spec fn load_level(m: Map<u64, u64>, level: PriceLevel) -> Map<u64, u64> {
    if level.quantity == 0 {
        m
    } else {
        m.insert(level.price, level.quantity)
    }
}

/// The levels of a snapshot, laid down in order on an empty side.
pub open spec fn load_levels(levels: Seq<PriceLevel>) -> Map<u64, u64>
    decreases levels.len(),
{
    if levels.len() == 0 {
        Map::empty()
    } else {
        load_level(load_levels(levels.drop_last()), levels.last())
    }
}

/// How many of the changes carry a quantity above zero.
pub open spec fn count_set(changes: Seq<PriceLevel>) -> nat
    decreases changes.len(),
{
    if changes.len() == 0 {
        0
    } else {
        count_set(changes.drop_last()) + if changes.last().quantity > 0 {
            1nat
        } else {
            0nat
        }
    }
}

/// How many of the changes delete a price that rested when their turn came.
pub open spec fn count_removed(m: Map<u64, u64>, changes: Seq<PriceLevel>) -> nat
    decreases changes.len(),
{
    if changes.len() == 0 {
        0
    } else {
        let before = apply_changes(m, changes.drop_last());
        count_removed(m, changes.drop_last()) + if changes.last().quantity == 0
            && before.contains_key(changes.last().price) {
            1nat
        } else {
            0nat
        }
    }
}

/// `s` holds every entry of `m` once, in side order.
spec fn lists_ranked(s: Seq<PriceLevel>, m: Map<u64, u64>, side: Side) -> bool {
    &&& forall|i: int, j: int| 0 <= i < j < s.len() ==> better(side, s[i].price, s[j].price)
    &&& forall|i: int|
        0 <= i < s.len() ==> m.contains_key(#[trigger] s[i].price) && m[s[i].price]
            == s[i].quantity
    &&& forall|p: u64|
        m.contains_key(p) ==> exists|i: int| 0 <= i < s.len() && #[trigger] s[i].price == p
}

/// A side has at most one best price.
pub proof fn law_best_is_unique(m: Map<u64, u64>, side: Side, p: u64)
    requires
        is_best(m, side, p),
    ensures
        best_price(m, side) == Some(p),
{
    let q = choose|q: u64| is_best(m, side, q);
    assert(is_best(m, side, q));
    assert(!better(side, q, p));
    assert(!better(side, p, q));
}

/// The head of a listing is the best price, and the rest lists what is left.
proof fn lemma_listing_head(s: Seq<PriceLevel>, m: Map<u64, u64>, side: Side)
    requires
        lists_ranked(s, m, side),
        s.len() > 0,
    ensures
        best_price(m, side) == Some(s[0].price),
        m[s[0].price] == s[0].quantity,
        lists_ranked(s.drop_first(), m.remove(s[0].price), side),
{
    let head = s[0].price;
    assert(m.contains_key(s[0].price));
    assert forall|q: u64| m.contains_key(q) implies !better(side, q, head) by {
        let i = choose|i: int| 0 <= i < s.len() && #[trigger] s[i].price == q;
        if i > 0 {
            assert(better(side, s[0].price, s[i].price));
        }
    }
    law_best_is_unique(m, side, head);
    let rest = s.drop_first();
    let left = m.remove(head);
    assert forall|i: int| 0 <= i < rest.len() implies left.contains_key(#[trigger] rest[i].price)
        && left[rest[i].price] == rest[i].quantity by {
        assert(better(side, s[0].price, s[i + 1].price));
        assert(m.contains_key(s[i + 1].price));
    }
    assert forall|p: u64| left.contains_key(p) implies exists|i: int|
        0 <= i < rest.len() && #[trigger] rest[i].price == p by {
        let i = choose|i: int| 0 <= i < s.len() && #[trigger] s[i].price == p;
        assert(rest[i - 1].price == p);
    }
    assert forall|i: int, j: int| 0 <= i < j < rest.len() implies better(
        side,
        rest[i].price,
        rest[j].price,
    ) by {
        assert(better(side, s[i + 1].price, s[j + 1].price));
    }
}

/// A listing cut after `n` entries is the first `n` levels in side order.
proof fn lemma_listing_ranked(s: Seq<PriceLevel>, m: Map<u64, u64>, side: Side, n: nat)
    requires
        lists_ranked(s, m, side),
    ensures
        ranked(m, side, n) == s.take(if n <= s.len() {
            n as int
        } else {
            s.len() as int
        }),
    decreases n,
{
    if n == 0 {
        assert(s.take(0) == Seq::<PriceLevel>::empty());
    } else if s.len() == 0 {
        assert forall|p: u64| !is_best(m, side, p) by {
            if m.contains_key(p) {
                let i = choose|i: int| 0 <= i < s.len() && #[trigger] s[i].price == p;
            }
        }
        assert(s.take(0) == Seq::<PriceLevel>::empty());
    } else {
        lemma_listing_head(s, m, side);
        let rest = s.drop_first();
        lemma_listing_ranked(rest, m.remove(s[0].price), side, (n - 1) as nat);
        let cut = if n <= s.len() {
            n as int
        } else {
            s.len() as int
        };
        assert(s.take(cut) == seq![s[0]] + rest.take(cut - 1));
    }
}

/// Ranking never hands out more levels than were asked for.
proof fn lemma_ranked_len(m: Map<u64, u64>, side: Side, n: nat)
    ensures
        ranked(m, side, n).len() <= n,
    decreases n,
{
    if n > 0 {
        match best_price(m, side) {
            None => {},
            Some(p) => {
                lemma_ranked_len(m.remove(p), side, (n - 1) as nat);
            },
        }
    }
}

/// Keys that a walk of the map hands out stand in strictly rising order.
proof fn lemma_walk_rises(keys: Seq<u64>)
    requires
        increasing_seq(keys),
    ensures
        forall|i: int, j: int| 0 <= i < j < keys.len() ==> keys[i] < keys[j],
{
    assert forall|i: int, j: int| 0 <= i < j < keys.len() implies keys[i] < keys[j] by {
        assert(keys[i].cmp_spec(&keys[j]) is Less);
    }
}

/// The entries that a walk of the map hands out, as levels.
spec fn pair_levels(pairs: Seq<(u64, u64)>) -> Seq<PriceLevel> {
    Seq::new(pairs.len(), |i: int| PriceLevel { price: pairs[i].0, quantity: pairs[i].1 })
}

/// A listing in ask order, read backwards, is the listing in bid order.
proof fn lemma_listing_reversed(s: Seq<PriceLevel>, m: Map<u64, u64>)
    requires
        lists_ranked(s, m, Side::Ask),
    ensures
        lists_ranked(s.reverse(), m, Side::Bid),
{
    let down = s.reverse();
    assert forall|p: u64| m.contains_key(p) implies exists|i: int|
        0 <= i < down.len() && #[trigger] down[i].price == p by {
        let i = choose|i: int| 0 <= i < s.len() && #[trigger] s[i].price == p;
        assert(down[s.len() - 1 - i].price == p);
    }
    assert forall|i: int, j: int| 0 <= i < j < down.len() implies better(
        Side::Bid,
        down[i].price,
        down[j].price,
    ) by {
        assert(better(Side::Ask, s[s.len() - 1 - j].price, s[s.len() - 1 - i].price));
    }
    assert forall|i: int| 0 <= i < down.len() implies m.contains_key(#[trigger] down[i].price)
        && m[down[i].price] == down[i].quantity by {
        assert(m.contains_key(s[s.len() - 1 - i].price));
    }
}

/// How many changes of a list wrote a quantity, and how many deleted a price
/// that was there.
#[derive(Clone, Copy, Debug, PartialEq, Eq, Structural)]
pub struct ChangeCounts {
    pub set: usize,
    pub removed: usize,
}

/// The resting quantities of one side, keyed by price.
#[derive(Debug)]
pub struct PriceLevels {
    side: Side,
    levels: BTreeMap<u64, u64>,
}

impl View for PriceLevels {
    type V = Map<u64, u64>;

    closed spec fn view(&self) -> Map<u64, u64> {
        self.levels@
    }
}

impl PriceLevels {
    /// The side whose order the levels are read in.
    pub closed spec fn side(&self) -> Side {
        self.side
    }

    /// The prices are finitely many, and every one rests with a quantity
    /// above zero.
    pub open spec fn wf(&self) -> bool {
        self@.dom().finite() && all_positive(self@)
    }

    /// An empty side.
    pub fn new(side: Side) -> (r: Self)
        ensures
            r.wf(),
            r.side() == side,
            r@ == Map::<u64, u64>::empty(),
    {
        PriceLevels { side, levels: BTreeMap::new() }
    }

    /// The side whose order the levels are read in.
    pub fn which(&self) -> (r: Side)
        ensures
            r == self.side(),
    {
        self.side
    }

    /// Number of prices that rest on this side.
    pub fn len(&self) -> (r: usize)
        ensures
            r == self@.dom().len(),
            self@.dom().finite(),
    {
        self.levels.len()
    }

    /// The quantity resting at a price, if any does.
    pub fn quantity_at(&self, price: u64) -> (r: Option<u64>)
        ensures
            r == if self@.contains_key(price) {
                Some(self@[price])
            } else {
                None
            },
    {
        match self.levels.get(&price) {
            Some(quantity) => Some(*quantity),
            None => None,
        }
    }

    /// Replaces the whole side by the levels of a snapshot; levels with
    /// quantity zero are passed over.
    pub fn load(&mut self, levels: &Vec<PriceLevel>)
        ensures
            final(self).wf(),
            final(self).side() == old(self).side(),
            final(self)@ == load_levels(levels@),
    {
        self.levels.clear();
        let mut i: usize = 0;
        while i < levels.len()
            invariant
                i <= levels.len(),
                self.side == old(self).side,
                self.levels@ == load_levels(levels@.take(i as int)),
                all_positive(self.levels@),
            decreases levels.len() - i,
        {
            let level = levels[i];
            assert(levels@.take(i + 1).drop_last() == levels@.take(i as int));
            if level.quantity > 0 {
                self.levels.insert(level.price, level.quantity);
            }
            i += 1;
        }
        assert(levels@.take(i as int) == levels@);
    }

    /// Applies the changes of a diff in order: quantity zero deletes the
    /// price, whether or not it was there; any other quantity is written
    /// over what rested at the price.
    pub fn apply(&mut self, changes: &Vec<PriceLevel>) -> (r: ChangeCounts)
        requires
            old(self).wf(),
        ensures
            final(self).wf(),
            final(self).side() == old(self).side(),
            final(self)@ == apply_changes(old(self)@, changes@),
            r.set == count_set(changes@),
            r.removed == count_removed(old(self)@, changes@),
    {
        let ghost before = self.levels@;
        let mut set: usize = 0;
        let mut removed: usize = 0;
        let mut i: usize = 0;
        while i < changes.len()
            invariant
                i <= changes.len(),
                self.side == old(self).side,
                before == old(self).levels@,
                self.levels@ == apply_changes(before, changes@.take(i as int)),
                all_positive(self.levels@),
                set == count_set(changes@.take(i as int)),
                removed == count_removed(before, changes@.take(i as int)),
                set <= i,
                removed <= i,
            decreases changes.len() - i,
        {
            let level = changes[i];
            assert(changes@.take(i + 1).drop_last() == changes@.take(i as int));
            if level.quantity > 0 {
                self.levels.insert(level.price, level.quantity);
                set += 1;
            } else if self.levels.remove(&level.price).is_some() {
                removed += 1;
            }
            i += 1;
        }
        assert(changes@.take(i as int) == changes@);
        ChangeCounts { set, removed }
    }

    /// The first `n` levels in side order, or all of them where there are
    /// fewer.
    pub fn top_levels(&self, n: usize) -> (r: Vec<PriceLevel>)
        ensures
            r@ == ranked(self@, self.side(), n as nat),
            r@.len() == if n <= self@.dom().len() {
                n as nat
            } else {
                self@.dom().len()
            },
    {
        proof {
            assert(self.levels@.dom().finite());
            crate::laws::law_ranked_in_order(self@, self.side(), n as nat);
        }
        let mut out: Vec<PriceLevel> = Vec::new();
        if n == 0 {
            return out;
        }
        let walk = self.levels.iter();
        let ghost pairs = into_iter(walk);
        let ghost up = pair_levels(pairs);
        let ghost listing = match self.side {
            Side::Ask => up,
            Side::Bid => up.reverse(),
        };
        proof {
            let s = walk.remaining();
            let keys = pairs.map_values(|kv: (u64, u64)| kv.0);
            assert(pairs == s.unref());
            assert(keys == s.map_values(|kv: (&u64, &u64)| *kv.0));
            lemma_walk_rises(keys);
            assert forall|i: int, j: int| 0 <= i < j < up.len() implies better(
                Side::Ask,
                up[i].price,
                up[j].price,
            ) by {
                assert(keys[i] < keys[j]);
            }
            assert forall|p: u64| self.levels@.contains_key(p) implies exists|i: int|
                0 <= i < up.len() && #[trigger] up[i].price == p by {
                assert(s.contains((&p, &self.levels@[p])));
                let i = choose|i: int| 0 <= i < s.len() && s[i] == (&p, &self.levels@[p]);
                assert(up[i].price == p);
            }
            assert forall|i: int| 0 <= i < up.len() implies self.levels@.contains_key(
                #[trigger] up[i].price,
            ) && self.levels@[up[i].price] == up[i].quantity by {
                assert(self.levels@.contains_key(*s[i].0));
            }
            lemma_listing_reversed(up, self.levels@);
        }
        match self.side {
            Side::Ask => {
                for (price, quantity) in it: walk
                    invariant_except_break
                        out@.len() < n,
                    invariant
                        out@.len() == it.index(),
                        listing == pair_levels(it.seq().unref()),
                        out@ == listing.take(it.index()),
                    ensures
                        out@ == listing.take(
                            if n <= listing.len() {
                                n as int
                            } else {
                                listing.len() as int
                            },
                        ),
                {
                    out.push(PriceLevel { price: *price, quantity: *quantity });
                    assert(out@ == listing.take(it.index() + 1));
                    if out.len() >= n {
                        break ;
                    }
                }
            },
            Side::Bid => {
                let back = walk.rev();
                assert(pair_levels(back.remaining().unref()) == listing);
                for (price, quantity) in it: back
                    invariant_except_break
                        out@.len() < n,
                    invariant
                        out@.len() == it.index(),
                        listing == pair_levels(it.seq().unref()),
                        out@ == listing.take(it.index()),
                    ensures
                        out@ == listing.take(
                            if n <= listing.len() {
                                n as int
                            } else {
                                listing.len() as int
                            },
                        ),
                {
                    out.push(PriceLevel { price: *price, quantity: *quantity });
                    assert(out@ == listing.take(it.index() + 1));
                    if out.len() >= n {
                        break ;
                    }
                }
            },
        }
        proof {
            lemma_listing_ranked(listing, self@, self.side, n as nat);
        }
        out
    }

    /// The first level in side order: the highest bid or the lowest ask.
    pub fn best(&self) -> (r: Option<PriceLevel>)
        ensures
            r == best_level(self@, self.side()),
            r matches Some(level) ==> self@.contains_key(level.price),
            r is None <==> self@.dom().len() == 0,
    {
        let first = self.top_levels(1);
        proof {
            match best_price(self@, self.side()) {
                Some(p) => {
                    assert(is_best(self@, self.side(), p));
                    assert(ranked(self@.remove(p), self.side(), 0) == Seq::<PriceLevel>::empty());
                },
                None => {},
            }
        }
        if first.len() > 0 {
            Some(first[0])
        } else {
            None
        }
    }

    /// Sum of the quantities of the first `n` levels in side order.
    pub fn top_volume(&self, n: u32) -> (r: u128)
        ensures
            r == top_volume(self@, self.side(), n as nat),
            r <= n * u64::MAX,
    {
        let first = self.top_levels(n as usize);
        proof {
            lemma_ranked_len(self@, self.side(), n as nat);
        }
        let mut sum: u128 = 0;
        let mut i: usize = 0;
        while i < first.len()
            invariant
                i <= first.len() <= n,
                sum == total_quantity(first@.take(i as int)),
                sum <= i * u64::MAX,
            decreases first.len() - i,
        {
            assert(first@.take(i + 1).drop_last() == first@.take(i as int));
            assert(i * u64::MAX + u64::MAX == (i + 1) * u64::MAX) by (nonlinear_arith);
            assert((i + 1) * u64::MAX <= u32::MAX * u64::MAX) by (nonlinear_arith)
                requires
                    i + 1 <= u32::MAX,
            ;
            sum = sum + first[i].quantity as u128;
            i += 1;
        }
        assert(first@.take(i as int) == first@);
        assert(i * u64::MAX <= n * u64::MAX) by (nonlinear_arith)
            requires
                i <= n,
        ;
        sum
    }
}

} // verus!
