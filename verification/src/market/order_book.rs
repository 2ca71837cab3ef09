use vstd::prelude::*;
use std::collections::BTreeMap;
use vstd::std_specs::btree::{spec_keys_iter, increasing_seq};
use vstd::std_specs::iter::IteratorSpec;
use vstd::std_specs::cmp::OrdSpec;
use crate::market::tick::{Tick, TickType};

verus! {

broadcast use vstd::std_specs::btree::group_btree_axioms, vstd::laws_cmp::group_laws_cmp;

proof fn lemma_keys_increasing(m: &BTreeMap<u64, u64>)
    ensures
        forall|i: int, j: int|
            0 <= i < j < spec_keys_iter(m).remaining().len() ==> spec_keys_iter(m).remaining().unref()[i]
                < spec_keys_iter(m).remaining().unref()[j],
{
    let ks = spec_keys_iter(m).remaining();
    assert(increasing_seq(ks));
    vstd::std_specs::btree::axiom_increasing_seq_meaning::<&u64>(ks);
    assert forall|i: int, j: int| 0 <= i < j < ks.len() implies ks.unref()[i] < ks.unref()[j] by {
        assert(OrdSpec::cmp_spec(&ks[i], &ks[j]) is Less);
    }
}

/// The keys of `m` in increasing order.
fn ascending_keys(m: &BTreeMap<u64, u64>) -> (v: Vec<u64>)
    ensures
        v@.to_set() == m@.dom(),
        v@.no_duplicates(),
        forall|i: int, j: int| 0 <= i < j < v@.len() ==> v@[i] < v@[j],
{
    let mut v: Vec<u64> = Vec::new();
    for k in it: m.keys()
        invariant
            it.seq() == spec_keys_iter(m).remaining(),
            v@ == it.seq().take(it.index()).map_values(|r: &u64| *r),
    {
        v.push(*k);
        assert(it.seq().take(it.index() + 1).map_values(|r: &u64| *r) =~= v@);
    }
    proof {
        let ks = spec_keys_iter(m).remaining();
        assert(ks.take(ks.len() as int) =~= ks);
        assert(v@ =~= ks.unref());
        lemma_keys_increasing(m);
    }
    v
}


/// Price levels of one side: the best `depth` levels of `side` in the order
/// given by `descending`, as (price, volume) pairs.
pub open spec fn is_top_levels(
    side: Map<u64, u64>,
    depth: usize,
    descending: bool,
    levels: Seq<(u64, u64)>,
) -> bool {
    &&& levels.len() == if depth < side.dom().len() { depth as nat } else { side.dom().len() }
    &&& forall|i: int|
        0 <= i < levels.len() ==> side.contains_key(#[trigger] levels[i].0) && side[levels[i].0]
            == levels[i].1
    &&& forall|i: int, j: int|
        0 <= i < j < levels.len() ==> if descending {
            levels[i].0 > levels[j].0
        } else {
            levels[i].0 < levels[j].0
        }
    &&& forall|k: u64|
        levels.len() > 0 && side.contains_key(k) && !(exists|i: int|
            0 <= i < levels.len() && #[trigger] levels[i].0 == k) ==> if descending {
            k < levels.last().0
        } else {
            k > levels.last().0
        }
}

/// The highest key of `side`, or 0 when it is empty.
pub open spec fn is_best_high(side: Map<u64, u64>, r: u64) -> bool {
    if side.dom().is_empty() {
        r == 0
    } else {
        side.contains_key(r) && forall|k: u64| side.contains_key(k) ==> k <= r
    }
}

/// The lowest key of `side`, or 0 when it is empty.
pub open spec fn is_best_low(side: Map<u64, u64>, r: u64) -> bool {
    if side.dom().is_empty() {
        r == 0
    } else {
        side.contains_key(r) && forall|k: u64| side.contains_key(k) ==> r <= k
    }
}

/// An instrument's book: price key to resting volume on each side.
pub struct OrderBook {
    pub instrument_id: u32,
    pub bids: BTreeMap<u64, u64>,
    pub asks: BTreeMap<u64, u64>,
    pub last_price: u64,
    pub timestamp_ns: u64,
}

impl OrderBook {
    /// An empty book for instrument 0.
    pub fn new() -> (b: Self)
        ensures
            b.instrument_id == 0,
            b.bids@ == Map::<u64, u64>::empty(),
            b.asks@ == Map::<u64, u64>::empty(),
            b.last_price == 0,
            b.timestamp_ns == 0,
    {
        OrderBook {
            instrument_id: 0,
            bids: BTreeMap::new(),
            asks: BTreeMap::new(),
            last_price: 0,
            timestamp_ns: 0,
        }
    }

    /// Applies a tick: a bid or ask with positive volume sets that level, one
    /// with zero volume removes it; a trade sets the last price; every tick
    /// sets the book's timestamp.
    pub fn update(&mut self, tick: &Tick)
        ensures
            final(self).timestamp_ns == tick.timestamp_ns,
            final(self).instrument_id == old(self).instrument_id,
            final(self).bids@ == if tick.tick_type == TickType::Bid {
                if tick.volume > 0 {
                    old(self).bids@.insert(tick.price, tick.volume)
                } else {
                    old(self).bids@.remove(tick.price)
                }
            } else {
                old(self).bids@
            },
            final(self).asks@ == if tick.tick_type == TickType::Ask {
                if tick.volume > 0 {
                    old(self).asks@.insert(tick.price, tick.volume)
                } else {
                    old(self).asks@.remove(tick.price)
                }
            } else {
                old(self).asks@
            },
            final(self).last_price == if tick.tick_type == TickType::Trade {
                tick.price
            } else {
                old(self).last_price
            },
    {
        self.timestamp_ns = tick.timestamp_ns;
        let price_key = tick.price;
        match tick.tick_type {
            TickType::Bid => {
                if tick.volume > 0 {
                    self.bids.insert(price_key, tick.volume);
                } else {
                    self.bids.remove(&price_key);
                }
            },
            TickType::Ask => {
                if tick.volume > 0 {
                    self.asks.insert(price_key, tick.volume);
                } else {
                    self.asks.remove(&price_key);
                }
            },
            TickType::Trade => {
                self.last_price = tick.price;
            },
            TickType::Snapshot => {},
        }
    }

    /// The best `depth` bid levels (highest price first) and ask levels
    /// (lowest price first).
    pub fn top_levels(&self, depth: usize) -> (r: (Vec<(u64, u64)>, Vec<(u64, u64)>))
        ensures
            is_top_levels(self.bids@, depth, true, r.0@),
            is_top_levels(self.asks@, depth, false, r.1@),
    {
        let bid_keys = ascending_keys(&self.bids);
        let mut bid_vec: Vec<(u64, u64)> = Vec::new();
        let n = bid_keys.len();
        let mut i: usize = 0;
        while i < depth && i < n
            invariant
                n == bid_keys@.len(),
                bid_keys@.to_set() == self.bids@.dom(),
                bid_keys@.no_duplicates(),
                forall|a: int, b: int| 0 <= a < b < n ==> bid_keys@[a] < bid_keys@[b],
                0 <= i <= n,
                i <= depth,
                bid_vec@.len() == i,
                forall|t: int|
                    0 <= t < i ==> (#[trigger] bid_vec@[t]).0 == bid_keys@[n - 1 - t]
                        && self.bids@.contains_key(bid_vec@[t].0) && self.bids@[bid_vec@[t].0]
                        == bid_vec@[t].1,
            decreases n - i,
        {
            let k = bid_keys[n - 1 - i];
            assert(bid_keys@.to_set().contains(k));
            let v = *self.bids.get(&k).unwrap();
            bid_vec.push((k, v));
            i = i + 1;
        }
        let ask_keys = ascending_keys(&self.asks);
        let mut ask_vec: Vec<(u64, u64)> = Vec::new();
        let m = ask_keys.len();
        let mut j: usize = 0;
        while j < depth && j < m
            invariant
                m == ask_keys@.len(),
                ask_keys@.to_set() == self.asks@.dom(),
                ask_keys@.no_duplicates(),
                forall|a: int, b: int| 0 <= a < b < m ==> ask_keys@[a] < ask_keys@[b],
                0 <= j <= m,
                j <= depth,
                ask_vec@.len() == j,
                forall|t: int|
                    0 <= t < j ==> (#[trigger] ask_vec@[t]).0 == ask_keys@[t]
                        && self.asks@.contains_key(ask_vec@[t].0) && self.asks@[ask_vec@[t].0]
                        == ask_vec@[t].1,
            decreases m - j,
        {
            let k = ask_keys[j];
            assert(ask_keys@.to_set().contains(k));
            let v = *self.asks.get(&k).unwrap();
            ask_vec.push((k, v));
            j = j + 1;
        }
        proof {
            lemma_sorted_len(bid_keys@, self.bids@.dom());
            lemma_sorted_len(ask_keys@, self.asks@.dom());
            assert(bid_vec@.len() == if depth < self.bids@.dom().len() { depth as nat } else { self.bids@.dom().len() });
            assert(ask_vec@.len() == if depth < self.asks@.dom().len() { depth as nat } else { self.asks@.dom().len() });
            assert forall|a: int, b: int| 0 <= a < b < bid_vec@.len() implies bid_vec@[a].0 > bid_vec@[b].0 by {
                assert(bid_keys@[n - 1 - b] < bid_keys@[n - 1 - a]);
            }
            assert forall|a: int, b: int| 0 <= a < b < ask_vec@.len() implies ask_vec@[a].0 < ask_vec@[b].0 by {
                assert(ask_keys@[a] < ask_keys@[b]);
            }
            assert forall|k: u64|
                bid_vec@.len() > 0 && self.bids@.contains_key(k) && !(exists|t: int|
                    0 <= t < bid_vec@.len() && #[trigger] bid_vec@[t].0 == k) implies k
                < bid_vec@.last().0 by {
                assert(bid_keys@.to_set().contains(k));
                let p = choose|p: int| 0 <= p < n && bid_keys@[p] == k;
                if p >= n - i {
                    assert(bid_vec@[n - 1 - p].0 == k);
                } else {
                    assert(bid_vec@.last() == bid_vec@[i - 1]);
                    assert(bid_vec@[i - 1].0 == bid_keys@[n - i]);
                }
            }
            assert forall|k: u64|
                ask_vec@.len() > 0 && self.asks@.contains_key(k) && !(exists|t: int|
                    0 <= t < ask_vec@.len() && #[trigger] ask_vec@[t].0 == k) implies k
                > ask_vec@.last().0 by {
                assert(ask_keys@.to_set().contains(k));
                let p = choose|p: int| 0 <= p < m && ask_keys@[p] == k;
                if p < j {
                    assert(ask_vec@[p].0 == k);
                } else {
                    assert(ask_vec@.last() == ask_vec@[j - 1]);
                    assert(ask_vec@[j - 1].0 == ask_keys@[j - 1]);
                }
            }
        }
        (bid_vec, ask_vec)
    }

    /// Highest bid price key, or 0 for an empty bid side.
    pub fn best_bid(&self) -> (p: u64)
        ensures
            is_best_high(self.bids@, p),
    {
        let keys = ascending_keys(&self.bids);
        proof {
            lemma_sorted_len(keys@, self.bids@.dom());
        }
        if keys.len() == 0 {
            0
        } else {
            let p = keys[keys.len() - 1];
            proof {
                assert(keys@.to_set().contains(p));
                assert forall|k: u64| self.bids@.contains_key(k) implies k <= p by {
                    assert(keys@.to_set().contains(k));
                }
            }
            p
        }
    }

    /// Lowest ask price key, or 0 for an empty ask side.
    pub fn best_ask(&self) -> (p: u64)
        ensures
            is_best_low(self.asks@, p),
    {
        let keys = ascending_keys(&self.asks);
        proof {
            lemma_sorted_len(keys@, self.asks@.dom());
        }
        if keys.len() == 0 {
            0
        } else {
            let p = keys[0];
            proof {
                assert(keys@.to_set().contains(p));
                assert forall|k: u64| self.asks@.contains_key(k) implies p <= k by {
                    assert(keys@.to_set().contains(k));
                }
            }
            p
        }
    }
}

proof fn lemma_sorted_len(keys: Seq<u64>, dom: Set<u64>)
    requires
        keys.to_set() == dom,
        keys.no_duplicates(),
    ensures
        keys.len() == dom.len(),
        dom.is_empty() <==> keys.len() == 0,
{
    keys.unique_seq_to_set();
    if keys.len() == 0 {
        assert(keys.to_set() =~= Set::<u64>::empty());
    } else {
        assert(dom.contains(keys[0]));
    }
}


/// Setting a new level and then removing it leaves the side as it was.
pub proof fn law_set_then_remove_restores(side: Map<u64, u64>, price: u64, volume: u64)
    requires
        !side.contains_key(price),
    ensures
        side.insert(price, volume).remove(price) == side,
{
    assert(side.insert(price, volume).remove(price) =~= side);
}

/// After a bid level is set at `price`, the best bid is at least `price`;
/// after an ask level is set, the best ask is at most its price.
pub proof fn law_best_prices_after_set(side: Map<u64, u64>, price: u64, volume: u64, best: u64)
    ensures
        is_best_high(side.insert(price, volume), best) ==> best >= price,
        is_best_low(side.insert(price, volume), best) ==> best <= price,
{
    assert(side.insert(price, volume).dom().contains(price));
}
} // verus!
