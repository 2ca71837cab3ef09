// Order lifecycle: submission, acceptance, fills, cancellation, rejection
// and expiry of orders held in concurrent maps, with statistics over them.
//
// Volumes are in units of 1e-8 (`VOLUME_SCALE` per lot) and prices in units
// of 1e-4 (`PRICE_SCALE` per currency unit).
use vstd::prelude::*;
use dashmap::DashMap;
use crate::support::{now_ns, random_u64};

verus! {

#[verifier::external_type_specification]
#[verifier::external_body]
#[verifier::reject_recursive_types(K)]
#[verifier::reject_recursive_types(V)]
#[verifier::reject_recursive_types(S)]
pub struct ExDashMap<K, V, S>(DashMap<K, V, S>);

/// Order type.
#[derive(Debug, Clone, Copy, PartialEq, Eq, Structural)]
pub enum OrderType {
    Market,
    Limit,
    Stop,
    StopLimit,
    Iceberg,
    Pegged,
}

/// Order side.
#[derive(Debug, Clone, Copy, PartialEq, Eq, Structural)]
pub enum OrderSide {
    Buy,
    Sell,
    /// Two-sided order.
    BuySell,
}

/// Time in force.
#[derive(Debug, Clone, Copy, PartialEq, Eq, Structural)]
pub enum TimeInForce {
    Day,
    GoodTillCancel,
    ImmediateOrCancel,
    FillOrKill,
    /// Good until the given time (ns).
    GoodTillDate(u64),
}

/// Order status.
#[derive(Debug, Clone, Copy, PartialEq, Eq, Structural)]
pub enum OrderStatus {
    New,
    Pending,
    Open,
    PartiallyFilled,
    Filled,
    Cancelled,
    Rejected,
    Expired,
    Suspended,
}

/// An order. `tags` holds (key, value) pairs; a later pair overrides an
/// earlier one with the same key.
#[derive(Debug)]
pub struct Order {
    pub order_id: u64,
    pub client_order_id: u64,
    pub instrument_id: u32,
    pub order_type: OrderType,
    pub side: OrderSide,
    pub volume: u64,
    pub filled_volume: u64,
    pub limit_price: u64,
    pub stop_price: u64,
    pub time_in_force: TimeInForce,
    pub status: OrderStatus,
    pub created_at_ns: u64,
    pub updated_at_ns: u64,
    pub filled_at_ns: Option<u64>,
    pub avg_fill_price: u64,
    pub venue: String,
    pub tags: Vec<(String, String)>,
    pub expected_slippage: u64,
    pub tick_size: u64,
    pub cancel_after_ms: Option<u64>,
}

/// What an order holds, with its text as characters and its tags as a map.
pub struct OrderView {
    pub order_id: u64,
    pub client_order_id: u64,
    pub instrument_id: u32,
    pub order_type: OrderType,
    pub side: OrderSide,
    pub volume: u64,
    pub filled_volume: u64,
    pub limit_price: u64,
    pub stop_price: u64,
    pub time_in_force: TimeInForce,
    pub status: OrderStatus,
    pub created_at_ns: u64,
    pub updated_at_ns: u64,
    pub filled_at_ns: Option<u64>,
    pub avg_fill_price: u64,
    pub venue: Seq<char>,
    pub tags: Map<Seq<char>, Seq<char>>,
    pub expected_slippage: u64,
    pub tick_size: u64,
    pub cancel_after_ms: Option<u64>,
}

/// The tags as a map: each pair in turn sets its key.
pub open spec fn tag_map(s: Seq<(Seq<char>, Seq<char>)>) -> Map<Seq<char>, Seq<char>>
    decreases s.len(),
{
    if s.len() == 0 {
        Map::empty()
    } else {
        tag_map(s.drop_last()).insert(s.last().0, s.last().1)
    }
}

/// The tag pairs as text.
pub open spec fn tag_text(tags: Seq<(String, String)>) -> Seq<(Seq<char>, Seq<char>)> {
    tags.map_values(|t: (String, String)| (t.0@, t.1@))
}

/// No key occurs twice among the tag pairs.
pub open spec fn distinct_keys(s: Seq<(Seq<char>, Seq<char>)>) -> bool {
    forall|i: int, j: int| 0 <= i < j < s.len() ==> s[i].0 != s[j].0
}

proof fn lemma_tag_map_update(s: Seq<(Seq<char>, Seq<char>)>, i: int, k: Seq<char>, v: Seq<char>)
    requires
        0 <= i < s.len(),
        s[i].0 == k,
        forall|j: int| i < j < s.len() ==> s[j].0 != k,
    ensures
        tag_map(s.update(i, (k, v))) == tag_map(s).insert(k, v),
    decreases s.len(),
{
    let u = s.update(i, (k, v));
    if i == s.len() - 1 {
        assert(u.drop_last() =~= s.drop_last());
        assert(tag_map(u) =~= tag_map(s).insert(k, v));
    } else {
        let l = s.last();
        assert(u.drop_last() =~= s.drop_last().update(i, (k, v)));
        assert(u.last() == l);
        lemma_tag_map_update(s.drop_last(), i, k, v);
        assert(l.0 != k);
        assert(tag_map(u) =~= tag_map(s).insert(k, v));
    }
}

/// Sets tag `key` to `value`: the last pair with that key takes the new
/// value, or a pair is added when there is none, so pairs with distinct
/// keys stay distinct.
fn set_tag(tags: &mut Vec<(String, String)>, key: String, value: String)
    ensures
        tag_map(tag_text(final(tags)@)) == tag_map(tag_text(old(tags)@)).insert(key@, value@),
        distinct_keys(tag_text(old(tags)@)) ==> distinct_keys(tag_text(final(tags)@)),
        final(tags)@.len() <= old(tags)@.len() + 1,
{
    let ghost t0 = tag_text(tags@);
    let mut i: usize = tags.len();
    while i > 0
        invariant
            i <= tags@.len(),
            tags@ == old(tags)@,
            t0 == tag_text(tags@),
            forall|j: int| i <= j < tags@.len() ==> t0[j].0 != key@,
        decreases i,
    {
        if tags[i - 1].0 == key {
            let ki = key.clone();
            proof {
                lemma_tag_map_update(t0, i - 1, key@, value@);
            }
            tags.set(i - 1, (ki, value));
            assert(tag_text(tags@) =~= t0.update(i - 1, (key@, value@)));
            assert(distinct_keys(t0) ==> distinct_keys(tag_text(tags@))) by {
                let u = t0.update(i - 1, (key@, value@));
                assert forall|a: int, b: int| 0 <= a < b < u.len() implies u[a].0 == t0[a].0 && u[b].0
                    == t0[b].0 by {}
            }
            return;
        }
        i = i - 1;
    }
    let ghost kv = key@;
    let ghost vv = value@;
    tags.push((key, value));
    assert(tag_text(tags@) =~= t0.push((kv, vv)));
    assert(tag_text(tags@).drop_last() =~= t0);
}

impl View for Order {
    type V = OrderView;

    open spec fn view(&self) -> OrderView {
        OrderView {
            order_id: self.order_id,
            client_order_id: self.client_order_id,
            instrument_id: self.instrument_id,
            order_type: self.order_type,
            side: self.side,
            volume: self.volume,
            filled_volume: self.filled_volume,
            limit_price: self.limit_price,
            stop_price: self.stop_price,
            time_in_force: self.time_in_force,
            status: self.status,
            created_at_ns: self.created_at_ns,
            updated_at_ns: self.updated_at_ns,
            filled_at_ns: self.filled_at_ns,
            avg_fill_price: self.avg_fill_price,
            venue: self.venue@,
            tags: tag_map(tag_text(self.tags@)),
            expected_slippage: self.expected_slippage,
            tick_size: self.tick_size,
            cancel_after_ms: self.cancel_after_ms,
        }
    }
}

/// `o` holds a fresh limit order: the given instrument, side, volume and
/// price, nothing filled, status New, good for the day, no venue or tags,
/// a tick of 0.01.
pub open spec fn is_fresh_order(
    o: OrderView,
    instrument_id: u32,
    side: OrderSide,
    volume: u64,
    limit_price: u64,
) -> bool {
    &&& o.instrument_id == instrument_id
    &&& o.order_type == OrderType::Limit
    &&& o.side == side
    &&& o.volume == volume
    &&& o.filled_volume == 0
    &&& o.limit_price == limit_price
    &&& o.stop_price == 0
    &&& o.time_in_force == TimeInForce::Day
    &&& o.status == OrderStatus::New
    &&& o.filled_at_ns is None
    &&& o.avg_fill_price == 0
    &&& o.venue == Seq::<char>::empty()
    &&& o.tags == Map::<Seq<char>, Seq<char>>::empty()
    &&& o.expected_slippage == 0
    &&& o.tick_size == 100
    &&& o.cancel_after_ms is None
}

/// An order counts as filled once at most one volume unit is missing.
pub open spec fn order_filled(o: OrderView) -> bool {
    o.filled_volume + 1 >= o.volume
}

/// Volume still to fill.
pub open spec fn remaining_of(o: OrderView) -> nat {
    if o.volume >= o.filled_volume {
        (o.volume - o.filled_volume) as nat
    } else {
        0
    }
}

/// The order after a fill of `fill_volume` at `fill_price` at time `now_ns`:
/// the average fill price is the volume-weighted mean (rounded down), and
/// the order is Filled (stamped with `now_ns`) or PartiallyFilled.
pub open spec fn with_fill(o: OrderView, fill_volume: u64, fill_price: u64, now_ns: u64) -> OrderView {
    let filled = o.filled_volume + fill_volume;
    let avg = if filled > 0 {
        (o.avg_fill_price * o.filled_volume + fill_price * fill_volume) / filled
    } else {
        o.avg_fill_price as int
    };
    let done = filled + 1 >= o.volume;
    OrderView {
        filled_volume: filled as u64,
        avg_fill_price: avg as u64,
        updated_at_ns: now_ns,
        status: if done {
            OrderStatus::Filled
        } else {
            OrderStatus::PartiallyFilled
        },
        filled_at_ns: if done {
            Some(now_ns)
        } else {
            o.filled_at_ns
        },
        ..o
    }
}

/// The order cancelled at `now_ns`.
pub open spec fn cancelled_at(o: OrderView, now_ns: u64) -> OrderView {
    OrderView { status: OrderStatus::Cancelled, updated_at_ns: now_ns, ..o }
}

proof fn lemma_weighted_mean(a: nat, x: nat, b: nat, y: nat, m: nat)
    requires
        a <= m,
        b <= m,
        x + y > 0,
    ensures
        a * x + b * y <= m * (x + y),
        (a * x + b * y) / (x + y) <= m,
{
    assert(a * x <= m * x) by (nonlinear_arith)
        requires
            a <= m,
    ;
    assert(b * y <= m * y) by (nonlinear_arith)
        requires
            b <= m,
    ;
    assert(m * (x + y) == m * x + m * y) by (nonlinear_arith);
    assert((a * x + b * y) / (x + y) <= m) by (nonlinear_arith)
        requires
            a * x + b * y <= m * (x + y),
            x + y > 0,
    ;
}

impl Order {
    /// A copy of the order.
    pub fn duplicate(&self) -> (r: Order)
        ensures
            r@ == self@,
    {
        let mut tags: Vec<(String, String)> = Vec::new();
        let mut i: usize = 0;
        while i < self.tags.len()
            invariant
                0 <= i <= self.tags@.len(),
                tag_text(tags@) == tag_text(self.tags@).take(i as int),
            decreases self.tags@.len() - i,
        {
            let ghost prev = tags@;
            let k = self.tags[i].0.clone();
            let v = self.tags[i].1.clone();
            assert(k@ == self.tags@[i as int].0@ && v@ == self.tags@[i as int].1@);
            tags.push((k, v));
            assert(tags@ == prev.push((k, v)));
            assert(tag_text(tags@) =~= tag_text(prev).push((k@, v@)));
            i = i + 1;
            assert(tag_text(tags@) =~= tag_text(self.tags@).take(i as int));
        }
        assert(tag_text(self.tags@).take(self.tags@.len() as int) =~= tag_text(self.tags@));
        Order {
            order_id: self.order_id,
            client_order_id: self.client_order_id,
            instrument_id: self.instrument_id,
            order_type: self.order_type,
            side: self.side,
            volume: self.volume,
            filled_volume: self.filled_volume,
            limit_price: self.limit_price,
            stop_price: self.stop_price,
            time_in_force: self.time_in_force,
            status: self.status,
            created_at_ns: self.created_at_ns,
            updated_at_ns: self.updated_at_ns,
            filled_at_ns: self.filled_at_ns,
            avg_fill_price: self.avg_fill_price,
            venue: self.venue.clone(),
            tags,
            expected_slippage: self.expected_slippage,
            tick_size: self.tick_size,
            cancel_after_ms: self.cancel_after_ms,
        }
    }

    /// A fresh limit order with new random ids, stamped with the clock.
    fn fresh(instrument_id: u32, side: OrderSide, volume: u64, limit_price: u64) -> (o: Self)
        ensures
            is_fresh_order(o@, instrument_id, side, volume, limit_price),
    {
        let o = Order {
            order_id: Self::generate_id(),
            client_order_id: Self::generate_id(),
            instrument_id,
            order_type: OrderType::Limit,
            side,
            volume,
            filled_volume: 0,
            limit_price,
            stop_price: 0,
            time_in_force: TimeInForce::Day,
            status: OrderStatus::New,
            created_at_ns: now_ns(),
            updated_at_ns: now_ns(),
            filled_at_ns: None,
            avg_fill_price: 0,
            venue: String::new(),
            tags: Vec::new(),
            expected_slippage: 0,
            tick_size: 100,
            cancel_after_ms: None,
        };
        assert(o@.tags =~= Map::<Seq<char>, Seq<char>>::empty()) by {
            assert(tag_text(o.tags@) =~= Seq::<(Seq<char>, Seq<char>)>::empty());
        }
        o
    }

    /// A new buy limit order.
    pub fn buy(instrument_id: u32, volume: u64, limit_price: u64) -> (o: Self)
        ensures
            is_fresh_order(o@, instrument_id, OrderSide::Buy, volume, limit_price),
    {
        Self::fresh(instrument_id, OrderSide::Buy, volume, limit_price)
    }

    /// A new sell limit order.
    pub fn sell(instrument_id: u32, volume: u64, limit_price: u64) -> (o: Self)
        ensures
            is_fresh_order(o@, instrument_id, OrderSide::Sell, volume, limit_price),
    {
        Self::fresh(instrument_id, OrderSide::Sell, volume, limit_price)
    }

    /// A new order id, drawn at random.
    fn generate_id() -> u64 {
        random_u64()
    }

    /// Whether the order is filled (at most one volume unit missing).
    pub fn is_filled(&self) -> (b: bool)
        ensures
            b == order_filled(self@),
    {
        self.filled_volume as u128 + 1 >= self.volume as u128
    }

    /// Volume still to fill (0 when overfilled).
    pub fn remaining_volume(&self) -> (r: u64)
        ensures
            r == remaining_of(self@),
    {
        if self.volume >= self.filled_volume {
            self.volume - self.filled_volume
        } else {
            0
        }
    }

    /// Records a fill of `fill_volume` at `fill_price` at time `now_ns`.
    pub fn add_fill_at(&mut self, fill_volume: u64, fill_price: u64, now_ns: u64)
        requires
            old(self).filled_volume + fill_volume <= u64::MAX,
        ensures
            final(self)@ == with_fill(old(self)@, fill_volume, fill_price, now_ns),
    {
        let filled: u64 = self.filled_volume + fill_volume;
        if filled > 0 {
            let m: u64 = if self.avg_fill_price >= fill_price {
                self.avg_fill_price
            } else {
                fill_price
            };
            proof {
                lemma_weighted_mean(
                    self.avg_fill_price as nat,
                    self.filled_volume as nat,
                    fill_price as nat,
                    fill_volume as nat,
                    m as nat,
                );
                assert(m * filled <= u64::MAX * u64::MAX) by (nonlinear_arith)
                    requires
                        m <= u64::MAX,
                        filled <= u64::MAX,
                ;
            }
            let total: u128 = self.avg_fill_price as u128 * self.filled_volume as u128
                + fill_price as u128 * fill_volume as u128;
            self.avg_fill_price = (total / filled as u128) as u64;
        }
        self.filled_volume = filled;
        self.updated_at_ns = now_ns;
        if self.is_filled() {
            self.status = OrderStatus::Filled;
            self.filled_at_ns = Some(self.updated_at_ns);
        } else {
            self.status = OrderStatus::PartiallyFilled;
        }
    }

    /// Records a fill at the current clock time (see `add_fill_at`).
    pub fn add_fill(&mut self, fill_volume: u64, fill_price: u64)
        requires
            old(self).filled_volume + fill_volume <= u64::MAX,
        ensures
            exists|now_ns: u64|
                final(self)@ == #[trigger] with_fill(old(self)@, fill_volume, fill_price, now_ns),
    {
        let now = now_ns();
        self.add_fill_at(fill_volume, fill_price, now);
    }

    /// Cancels the order at time `now_ns`.
    pub fn cancel_at(&mut self, now_ns: u64)
        ensures
            final(self)@ == cancelled_at(old(self)@, now_ns),
    {
        self.status = OrderStatus::Cancelled;
        self.updated_at_ns = now_ns;
    }

    /// Cancels the order at the current clock time.
    pub fn cancel(&mut self)
        ensures
            exists|now_ns: u64| final(self)@ == #[trigger] cancelled_at(old(self)@, now_ns),
    {
        let now = now_ns();
        self.cancel_at(now);
    }

    /// Distance between the execution price (the average fill price once
    /// something is filled, else the limit price) and `reference_price`;
    /// 0 for a two-sided order.
    pub fn slippage(&self, reference_price: u64) -> (r: u64)
        ensures
            ({
                let exec = if self.filled_volume > 0 {
                    self.avg_fill_price
                } else {
                    self.limit_price
                };
                r == match self.side {
                    OrderSide::BuySell => 0,
                    _ => if exec >= reference_price {
                        exec - reference_price
                    } else {
                        reference_price - exec
                    },
                }
            }),
    {
        let exec = if self.filled_volume > 0 {
            self.avg_fill_price
        } else {
            self.limit_price
        };
        match self.side {
            OrderSide::Buy => if exec >= reference_price {
                exec - reference_price
            } else {
                reference_price - exec
            },
            OrderSide::Sell => if reference_price >= exec {
                reference_price - exec
            } else {
                exec - reference_price
            },
            OrderSide::BuySell => 0,
        }
    }
}

impl Default for Order {
    /// An empty day limit order to buy, stamped with the clock.
    fn default() -> (o: Self)
        ensures
            o.order_id == 0,
            o.client_order_id == 0,
            is_fresh_order(o@, 0, OrderSide::Buy, 0, 0),
    {
        let o = Order {
            order_id: 0,
            client_order_id: 0,
            instrument_id: 0,
            order_type: OrderType::Limit,
            side: OrderSide::Buy,
            volume: 0,
            filled_volume: 0,
            limit_price: 0,
            stop_price: 0,
            time_in_force: TimeInForce::Day,
            status: OrderStatus::New,
            created_at_ns: now_ns(),
            updated_at_ns: now_ns(),
            filled_at_ns: None,
            avg_fill_price: 0,
            venue: String::new(),
            tags: Vec::new(),
            expected_slippage: 0,
            tick_size: 100,
            cancel_after_ms: None,
        };
        assert(o@.tags =~= Map::<Seq<char>, Seq<char>>::empty()) by {
            assert(tag_text(o.tags@) =~= Seq::<(Seq<char>, Seq<char>)>::empty());
        }
        o
    }
}


/// What an order table holds, by key.
pub uninterp spec fn order_entries(m: DashMap<u64, Order>) -> Map<u64, Order>;

/// The orders of a table by key, as views.
pub open spec fn views_of(m: Map<u64, Order>) -> Map<u64, OrderView> {
    m.map_values(|o: Order| o@)
}

/// `es` lists every entry of `m` exactly once, each as (key, copy of the
/// value).
pub open spec fn lists_table(es: Seq<(u64, Order)>, m: Map<u64, Order>) -> bool {
    &&& es.len() == m.len()
    &&& forall|i: int, j: int| 0 <= i < j < es.len() ==> es[i].0 != es[j].0
    &&& forall|i: int|
        0 <= i < es.len() ==> #[trigger] m.contains_key(es[i].0) && es[i].1@ == m[es[i].0]@
    &&& forall|k: u64| #[trigger] m.contains_key(k) ==> exists|i: int| 0 <= i < es.len() && es[i].0 == k
}

/// An empty table with room for `capacity` entries (dashmap's
/// `DashMap::with_capacity`).
#[verifier::external_body]
pub(crate) fn table_with_capacity(capacity: usize) -> (table: DashMap<u64, Order>)
    ensures
        order_entries(table).dom() == Set::<u64>::empty(),
{
    DashMap::with_capacity(capacity)
}

/// Sets `key` to `value` (dashmap's `DashMap::insert`), handing back the
/// value it replaced.
#[verifier::external_body]
pub(crate) fn table_insert(m: &mut DashMap<u64, Order>, key: u64, value: Order) -> (r: Option<Order>)
    ensures
        order_entries(*final(m)) == order_entries(*old(m)).insert(key, value),
        r == (if order_entries(*old(m)).contains_key(key) {
            Some(order_entries(*old(m))[key])
        } else {
            None
        }),
{
    m.insert(key, value)
}

/// Removes `key` (dashmap's `DashMap::remove`), handing back its value.
#[verifier::external_body]
fn table_remove(m: &mut DashMap<u64, Order>, key: u64) -> (r: Option<Order>)
    ensures
        order_entries(*final(m)) == order_entries(*old(m)).remove(key),
        r == (if order_entries(*old(m)).contains_key(key) {
            Some(order_entries(*old(m))[key])
        } else {
            None
        }),
{
    match m.remove(&key) {
        Some((_, v)) => Some(v),
        None => None,
    }
}

/// A copy of the value at `key`, if any (dashmap's `DashMap::get`).
#[verifier::external_body]
pub(crate) fn table_get(m: &DashMap<u64, Order>, key: u64) -> (r: Option<Order>)
    ensures
        r is Some <==> order_entries(*m).contains_key(key),
        r is Some ==> r->0@ == order_entries(*m)[key]@,
{
    match m.get(&key) {
        Some(e) => Some(e.value().duplicate()),
        None => None,
    }
}

/// Number of entries (dashmap's `DashMap::len`).
#[verifier::external_body]
fn table_len(m: &DashMap<u64, Order>) -> (n: usize)
    ensures
        n == order_entries(*m).len(),
{
    m.len()
}

/// Every entry with a copy of its value, in the table's iteration order,
/// which nothing fixes (dashmap's `DashMap::iter`).
#[verifier::external_body]
fn table_entries(m: &DashMap<u64, Order>) -> (r: Vec<(u64, Order)>)
    ensures
        lists_table(r@, order_entries(*m)),
{
    m.iter().map(|e| (*e.key(), e.value().duplicate())).collect()
}

proof fn lemma_seen_step(es: Seq<(u64, Order)>, seen: Set<u64>, i: int)
    requires
        0 <= i < es.len(),
        forall|a: int, b: int| 0 <= a < b < es.len() ==> es[a].0 != es[b].0,
        forall|k: u64| seen.contains(k) <==> exists|j: int| 0 <= j < i && es[j].0 == k,
    ensures
        !seen.contains(es[i].0),
        forall|k: u64|
            seen.insert(es[i].0).contains(k) <==> exists|j: int| 0 <= j < i + 1 && es[j].0 == k,
{
    if seen.contains(es[i].0) {
        let j = choose|j: int| 0 <= j < i && es[j].0 == es[i].0;
        assert(es[j].0 != es[i].0);
    }
    assert forall|k: u64|
        seen.insert(es[i].0).contains(k) implies exists|j: int| 0 <= j < i + 1 && es[j].0 == k by {
        if k == es[i].0 {
            assert(0 <= i < i + 1 && es[i].0 == k);
        } else {
            let j = choose|j: int| 0 <= j < i && es[j].0 == k;
            assert(0 <= j < i + 1 && es[j].0 == k);
        }
    }
    assert forall|k: u64| (exists|j: int| 0 <= j < i + 1 && es[j].0 == k) implies seen.insert(
        es[i].0,
    ).contains(k) by {
        let j = choose|j: int| 0 <= j < i + 1 && es[j].0 == k;
        if j < i {
            assert(seen.contains(k));
        }
    }
}

proof fn lemma_seen_all(es: Seq<(u64, Order)>, m: Map<u64, Order>, seen: Set<u64>)
    requires
        lists_table(es, m),
        forall|k: u64| seen.contains(k) <==> exists|j: int| 0 <= j < es.len() && es[j].0 == k,
    ensures
        seen == m.dom(),
{
    assert forall|k: u64| seen.contains(k) <==> m.dom().contains(k) by {
        if seen.contains(k) {
            let j = choose|j: int| 0 <= j < es.len() && es[j].0 == k;
            assert(m.contains_key(es[j].0));
        }
        if m.contains_key(k) {
            assert(exists|i: int| 0 <= i < es.len() && es[i].0 == k);
        }
    }
    assert(seen =~= m.dom());
}

/// A per-order quantity summed over a table.
#[derive(Debug, Clone, Copy, PartialEq, Eq, Structural)]
pub enum Measure {
    /// 1 for an order with a fill time, else 0.
    Timed,
    /// Time from creation to the complete fill (0 when none).
    FillTime,
    /// Filled volume.
    Volume,
    /// Average fill price times filled volume.
    Value,
    /// Remaining volume times limit price.
    Exposure,
}

pub open spec fn measure(which: Measure, o: OrderView) -> nat {
    match which {
        Measure::Timed => if o.filled_at_ns is Some {
            1
        } else {
            0
        },
        Measure::FillTime => match o.filled_at_ns {
            Some(t) => if t >= o.created_at_ns {
                (t - o.created_at_ns) as nat
            } else {
                0
            },
            None => 0,
        },
        Measure::Volume => o.filled_volume as nat,
        Measure::Value => (o.avg_fill_price * o.filled_volume) as nat,
        Measure::Exposure => (remaining_of(o) * o.limit_price) as nat,
    }
}

pub open spec fn summand(m: Map<u64, OrderView>, which: Measure) -> spec_fn(nat, u64) -> nat {
    |acc: nat, k: u64| acc + measure(which, m[k])
}

/// Sum of `which` over the orders of `m` at `keys`.
pub open spec fn sum_keys(m: Map<u64, OrderView>, which: Measure, keys: Set<u64>) -> nat {
    keys.fold(0nat, summand(m, which))
}

/// Sum of `which` over all orders of `m`.
pub open spec fn sum_over(m: Map<u64, OrderView>, which: Measure) -> nat {
    sum_keys(m, which, m.dom())
}

/// `n`, or the largest `u128` when it does not fit.
pub open spec fn capped(n: nat) -> u128 {
    if n <= u128::MAX {
        n as u128
    } else {
        u128::MAX
    }
}

proof fn lemma_sum_insert(m: Map<u64, OrderView>, which: Measure, keys: Set<u64>, k: u64)
    requires
        keys.finite(),
        !keys.contains(k),
    ensures
        sum_keys(m, which, keys.insert(k)) == sum_keys(m, which, keys) + measure(which, m[k]),
{
    let f = summand(m, which);
    assert(vstd::set::fold::is_fun_commutative(f)) by {
        assert forall|a1: u64, a2: u64, b: nat| #[trigger] f(f(b, a1), a2) == f(f(b, a2), a1) by {}
    }
    vstd::set::fold::lemma_fold_insert(keys, 0nat, f, k);
}

proof fn lemma_sum_empty(m: Map<u64, OrderView>, which: Measure)
    ensures
        sum_keys(m, which, Set::empty()) == 0,
{
    vstd::set::fold::lemma_fold_empty(0nat, summand(m, which));
}

fn measure_of(which: Measure, o: &Order) -> (v: u128)
    ensures
        v == measure(which, o@),
{
    match which {
        Measure::Timed => if o.filled_at_ns.is_some() {
            1
        } else {
            0
        },
        Measure::FillTime => match o.filled_at_ns {
            Some(t) => if t >= o.created_at_ns {
                (t - o.created_at_ns) as u128
            } else {
                0
            },
            None => 0,
        },
        Measure::Volume => o.filled_volume as u128,
        Measure::Value => {
            proof {
                vstd::arithmetic::mul::lemma_mul_upper_bound(
                    o.avg_fill_price as int,
                    u64::MAX as int,
                    o.filled_volume as int,
                    u64::MAX as int,
                );
            }
            o.avg_fill_price as u128 * o.filled_volume as u128
        },
        Measure::Exposure => {
            let r = o.remaining_volume();
            proof {
                vstd::arithmetic::mul::lemma_mul_upper_bound(
                    r as int,
                    u64::MAX as int,
                    o.limit_price as int,
                    u64::MAX as int,
                );
            }
            r as u128 * o.limit_price as u128
        },
    }
}

/// Sum of `which` over the orders of `table`, capped at the largest `u128`.
fn table_sum(table: &DashMap<u64, Order>, which: Measure) -> (r: u128)
    requires
        order_entries(*table).dom().finite(),
    ensures
        r == capped(sum_over(views_of(order_entries(*table)), which)),
{
    let es = table_entries(table);
    let ghost entries = order_entries(*table);
    let ghost m = views_of(entries);
    let ghost mut seen: Set<u64> = Set::empty();
    proof {
        lemma_sum_empty(m, which);
    }
    let mut acc: u128 = 0;
    let mut i: usize = 0;
    while i < es.len()
        invariant
            0 <= i <= es@.len(),
            lists_table(es@, entries),
            m == views_of(entries),
            seen.finite(),
            forall|k: u64| seen.contains(k) <==> exists|j: int| 0 <= j < i && es@[j].0 == k,
            acc == capped(sum_keys(m, which, seen)),
        decreases es@.len() - i,
    {
        let v = measure_of(which, &es[i].1);
        proof {
            lemma_seen_step(es@, seen, i as int);
            lemma_sum_insert(m, which, seen, es@[i as int].0);
            assert(entries.contains_key(es@[i as int].0));
            assert(m[es@[i as int].0] == es@[i as int].1@);
            seen = seen.insert(es@[i as int].0);
        }
        acc = acc.saturating_add(v);
        i = i + 1;
    }
    proof {
        lemma_seen_all(es@, entries, seen);
        assert(m.dom() =~= entries.dom());
    }
    acc
}

/// Order manager statistics. Volumes are in volume units; the total value
/// is in volume units times price units; sums are capped at the largest
/// `u128`.
#[derive(Debug, Clone, Copy, PartialEq, Eq, Structural)]
pub struct OrderManagerStats {
    pub total_orders: u64,
    pub active_orders: u64,
    pub filled_orders: u64,
    pub cancelled_orders: u64,
    pub rejected_orders: u64,
    pub avg_fill_time_ns: u64,
    pub total_volume: u128,
    pub total_value: u128,
}

impl Default for OrderManagerStats {
    fn default() -> (s: Self)
        ensures
            s == zero_stats(),
    {
        OrderManagerStats {
            total_orders: 0,
            active_orders: 0,
            filled_orders: 0,
            cancelled_orders: 0,
            rejected_orders: 0,
            avg_fill_time_ns: 0,
            total_volume: 0,
            total_value: 0,
        }
    }
}

pub open spec fn zero_stats() -> OrderManagerStats {
    OrderManagerStats {
        total_orders: 0,
        active_orders: 0,
        filled_orders: 0,
        cancelled_orders: 0,
        rejected_orders: 0,
        avg_fill_time_ns: 0,
        total_volume: 0,
        total_value: 0,
    }
}

/// What the order manager holds: every order, the active, filled and
/// cancelled ones (each by order id), and the statistics.
pub struct ManagerState {
    pub orders: Map<u64, OrderView>,
    pub active: Map<u64, OrderView>,
    pub filled: Map<u64, OrderView>,
    pub cancelled: Map<u64, OrderView>,
    pub stats: OrderManagerStats,
}

/// The statistics over the tables of `s`: the table sizes, the mean time
/// to a complete fill over the filled orders that have one (the previous
/// mean when none has), and the filled volume and value; the rejection
/// count is carried over.
pub open spec fn stats_of(s: ManagerState) -> OrderManagerStats {
    let timed = capped(sum_over(s.filled, Measure::Timed));
    OrderManagerStats {
        total_orders: s.orders.len() as u64,
        active_orders: s.active.len() as u64,
        filled_orders: s.filled.len() as u64,
        cancelled_orders: s.cancelled.len() as u64,
        rejected_orders: s.stats.rejected_orders,
        avg_fill_time_ns: if timed > 0 {
            (capped(sum_over(s.filled, Measure::FillTime)) / timed) as u64
        } else {
            s.stats.avg_fill_time_ns
        },
        total_volume: capped(sum_over(s.filled, Measure::Volume)),
        total_value: capped(sum_over(s.filled, Measure::Value)),
    }
}

/// `s` with its statistics brought up to date.
pub open spec fn refreshed(s: ManagerState) -> ManagerState {
    ManagerState { stats: stats_of(s), ..s }
}

/// After submitting `o` at `now_ns`: it is stored and active as Pending,
/// created at `now_ns`.
pub open spec fn after_submit(s: ManagerState, o: OrderView, now_ns: u64) -> ManagerState {
    let p = OrderView { status: OrderStatus::Pending, created_at_ns: now_ns, ..o };
    refreshed(
        ManagerState {
            orders: s.orders.insert(o.order_id, p),
            active: s.active.insert(o.order_id, p),
            ..s
        },
    )
}

/// After accepting `id` at `now_ns`: its active copy is Open; nothing
/// changes for an order that is not active.
pub open spec fn after_accept(s: ManagerState, id: u64, now_ns: u64) -> ManagerState {
    if s.active.contains_key(id) {
        refreshed(
            ManagerState {
                active: s.active.insert(
                    id,
                    OrderView { status: OrderStatus::Open, updated_at_ns: now_ns, ..s.active[id] },
                ),
                ..s
            },
        )
    } else {
        s
    }
}

/// After a fill of `id`: the stored order takes the fill; once filled it
/// leaves the active orders and joins the filled ones. Nothing changes for
/// an unknown order.
pub open spec fn after_fill(
    s: ManagerState,
    id: u64,
    fill_volume: u64,
    fill_price: u64,
    now_ns: u64,
) -> ManagerState {
    if s.orders.contains_key(id) {
        let o = with_fill(s.orders[id], fill_volume, fill_price, now_ns);
        if order_filled(o) {
            refreshed(
                ManagerState {
                    orders: s.orders.insert(id, o),
                    active: s.active.remove(id),
                    filled: s.filled.insert(id, o),
                    ..s
                },
            )
        } else {
            refreshed(ManagerState { orders: s.orders.insert(id, o), ..s })
        }
    } else {
        s
    }
}

/// After cancelling `id` at `now_ns`: the active order leaves the active
/// ones and joins the cancelled ones, cancelled. Nothing changes for an
/// order that is not active.
pub open spec fn after_cancel(s: ManagerState, id: u64, now_ns: u64) -> ManagerState {
    if s.active.contains_key(id) {
        refreshed(
            ManagerState {
                active: s.active.remove(id),
                cancelled: s.cancelled.insert(id, cancelled_at(s.active[id], now_ns)),
                ..s
            },
        )
    } else {
        s
    }
}

/// After rejecting `id` for `reason`: the stored order is Rejected with the
/// reason under the tag "reject_reason", and it is no longer active.
/// Nothing changes for an unknown order.
pub open spec fn after_reject(s: ManagerState, id: u64, reason: Seq<char>) -> ManagerState {
    if s.orders.contains_key(id) {
        refreshed(
            ManagerState {
                orders: s.orders.insert(
                    id,
                    OrderView {
                        status: OrderStatus::Rejected,
                        tags: s.orders[id].tags.insert("reject_reason"@, reason),
                        ..s.orders[id]
                    },
                ),
                active: s.active.remove(id),
                ..s
            },
        )
    } else {
        s
    }
}

/// Which orders a bulk operation takes.
#[derive(Debug, Clone, Copy, PartialEq, Eq, Structural)]
pub enum Selector {
    /// Orders on the instrument.
    OnInstrument(u32),
    /// Orders last updated before the time.
    UpdatedBefore(u64),
    /// Unfilled orders whose time in force has run out at the time.
    Expiring(u64),
}

pub open spec fn selected(sel: Selector, o: OrderView) -> bool {
    match sel {
        Selector::OnInstrument(instrument_id) => o.instrument_id == instrument_id,
        Selector::UpdatedBefore(cutoff) => o.updated_at_ns < cutoff,
        Selector::Expiring(now_ns) => expires(o, now_ns) && !order_filled(o),
    }
}

/// Keys of the orders of `m` that `sel` takes.
pub open spec fn selected_keys(m: Map<u64, OrderView>, sel: Selector) -> Set<u64> {
    m.dom().filter(|k: u64| selected(sel, m[k]))
}

/// Keys of the orders of `m` on `instrument_id`.
pub open spec fn instrument_keys(m: Map<u64, OrderView>, instrument_id: u32) -> Set<u64> {
    selected_keys(m, Selector::OnInstrument(instrument_id))
}

/// The cancelled copies, at `now_ns`, of the orders of `m` at `keys`.
pub open spec fn cancelled_copies(m: Map<u64, OrderView>, keys: Set<u64>, now_ns: u64) -> Map<
    u64,
    OrderView,
> {
    Map::new(|k: u64| keys.contains(k), |k: u64| cancelled_at(m[k], now_ns))
}

/// The active orders at `keys` cancelled at `now_ns` (with up-to-date
/// statistics once any is).
pub open spec fn with_cancelled(s: ManagerState, keys: Set<u64>, now_ns: u64) -> ManagerState {
    if keys.is_empty() {
        s
    } else {
        refreshed(
            ManagerState {
                active: s.active.remove_keys(keys),
                cancelled: s.cancelled.union_prefer_right(cancelled_copies(s.active, keys, now_ns)),
                ..s
            },
        )
    }
}

/// After cancelling every active order on `instrument_id` at `now_ns`.
pub open spec fn after_cancel_all(s: ManagerState, instrument_id: u32, now_ns: u64) -> ManagerState {
    with_cancelled(s, instrument_keys(s.active, instrument_id), now_ns)
}

/// `now_ns - older_than_ns`, or 0 when that is negative.
pub open spec fn cleanup_cutoff(now_ns: u64, older_than_ns: u64) -> u64 {
    if now_ns >= older_than_ns {
        (now_ns - older_than_ns) as u64
    } else {
        0
    }
}

/// Keys of the orders of `m` last updated before `cutoff`.
pub open spec fn stale_keys(m: Map<u64, OrderView>, cutoff: u64) -> Set<u64> {
    selected_keys(m, Selector::UpdatedBefore(cutoff))
}

/// After removing the orders last updated before `cutoff` from the stored,
/// filled and cancelled orders (the active ones and the statistics stay).
pub open spec fn after_cleanup(s: ManagerState, cutoff: u64) -> ManagerState {
    let keys = stale_keys(s.orders, cutoff);
    ManagerState {
        orders: s.orders.remove_keys(keys),
        filled: s.filled.remove_keys(keys),
        cancelled: s.cancelled.remove_keys(keys),
        ..s
    }
}

/// Nanoseconds in a trading day.
pub const DAY_NS: u64 = 86_400_000_000_000;

/// Whether the time in force of `o` has run out at `now_ns`: a day order
/// after a day from its creation, a dated order after its date, an
/// immediate-or-cancel order always, a fill-or-kill order unless filled.
pub open spec fn expires(o: OrderView, now_ns: u64) -> bool {
    match o.time_in_force {
        TimeInForce::Day => now_ns >= o.created_at_ns && now_ns - o.created_at_ns > DAY_NS,
        TimeInForce::GoodTillDate(expiry) => now_ns > expiry,
        TimeInForce::ImmediateOrCancel => true,
        TimeInForce::FillOrKill => !order_filled(o),
        _ => false,
    }
}

/// Keys of the active orders of `m` that expire at `now_ns` unfilled.
pub open spec fn expiring_keys(m: Map<u64, OrderView>, now_ns: u64) -> Set<u64> {
    selected_keys(m, Selector::Expiring(now_ns))
}

/// The stored orders of `m` at `keys`, marked Expired.
pub open spec fn expired_copies(m: Map<u64, OrderView>, keys: Set<u64>) -> Map<u64, OrderView> {
    Map::new(
        |k: u64| keys.contains(k) && m.contains_key(k),
        |k: u64| OrderView { status: OrderStatus::Expired, ..m[k] },
    )
}

/// The orders at `keys` that are stored marked Expired and no longer
/// active (statistics unchanged).
pub open spec fn with_expired(s: ManagerState, keys: Set<u64>) -> ManagerState {
    ManagerState {
        orders: s.orders.union_prefer_right(expired_copies(s.orders, keys)),
        active: s.active.remove_keys(keys.intersect(s.orders.dom())),
        ..s
    }
}

/// After expiring the active orders whose time has run out at `now_ns`.
pub open spec fn after_expirations(s: ManagerState, now_ns: u64) -> ManagerState {
    with_expired(s, expiring_keys(s.active, now_ns))
}

/// `r` lists each order of `m` exactly once, as a copy.
pub open spec fn lists_orders(r: Seq<Order>, m: Map<u64, OrderView>) -> bool {
    &&& forall|i: int, j: int| 0 <= i < j < r.len() ==> r[i].order_id != r[j].order_id
    &&& forall|i: int|
        0 <= i < r.len() ==> #[trigger] m.contains_key(r[i].order_id) && r[i]@ == m[r[i].order_id]
    &&& forall|k: u64| #[trigger] m.contains_key(k) ==> exists|i: int| 0 <= i < r.len() && r[i].order_id == k
}

proof fn lemma_views_insert(m: Map<u64, Order>, k: u64, o: Order)
    ensures
        views_of(m.insert(k, o)) == views_of(m).insert(k, o@),
{
    assert(views_of(m.insert(k, o)) =~= views_of(m).insert(k, o@));
}

proof fn lemma_views_remove(m: Map<u64, Order>, k: u64)
    ensures
        views_of(m.remove(k)) == views_of(m).remove(k),
{
    assert(views_of(m.remove(k)) =~= views_of(m).remove(k));
}

proof fn lemma_instrument_listing(
    es: Seq<(u64, Order)>,
    entries: Map<u64, Order>,
    m: Map<u64, OrderView>,
    r: Seq<Order>,
    idx: Seq<int>,
    instrument_id: u32,
)
    requires
        lists_table(es, entries),
        m == views_of(entries),
        keyed(m),
        idx.len() == r.len(),
        forall|j: int|
            0 <= j < idx.len() ==> 0 <= #[trigger] idx[j] < es.len() && r[j]@ == es[idx[j]].1@
                && es[idx[j]].1.instrument_id == instrument_id,
        forall|a: int, b: int| 0 <= a < b < idx.len() ==> idx[a] < idx[b],
        forall|e: int|
            0 <= e < es.len() && (#[trigger] es[e]).1.instrument_id == instrument_id ==> exists|j: int|
                0 <= j < idx.len() && idx[j] == e,
    ensures
        lists_orders(r, m.restrict(instrument_keys(m, instrument_id))),
{
    let keys = instrument_keys(m, instrument_id);
    let sub = m.restrict(keys);
    assert forall|e: int| 0 <= e < es.len() implies (#[trigger] es[e]).1@.order_id == es[e].0
        && m.contains_key(es[e].0) && m[es[e].0] == es[e].1@ by {
        assert(entries.contains_key(es[e].0));
        assert(m.contains_key(es[e].0));
    }
    assert forall|a: int, b: int| 0 <= a < b < r.len() implies r[a].order_id != r[b].order_id by {
        let (ea, eb) = (idx[a], idx[b]);
        assert(es[ea].0 != es[eb].0);
        assert(es[ea].1@.order_id == es[ea].0);
        assert(es[eb].1@.order_id == es[eb].0);
    }
    assert forall|j: int| 0 <= j < r.len() implies #[trigger] sub.contains_key(r[j].order_id) && r[j]@
        == sub[r[j].order_id] by {
        let e = idx[j];
        assert(es[e].1@.order_id == es[e].0);
        assert(keys.contains(es[e].0));
    }
    assert forall|k: u64| #[trigger] sub.contains_key(k) implies exists|j: int|
        0 <= j < r.len() && r[j].order_id == k by {
        assert(entries.contains_key(k));
        let e = choose|e: int| 0 <= e < es.len() && es[e].0 == k;
        assert(es[e].1@.order_id == es[e].0);
        assert(m[k].instrument_id == instrument_id);
        let j = choose|j: int| 0 <= j < idx.len() && idx[j] == e;
        assert(r[j]@ == es[e].1@);
    }
}

/// The first `j` entries of `ids`, as a set.
pub open spec fn prefix_set(ids: Seq<u64>, j: int) -> Set<u64> {
    Set::new(|k: u64| exists|t: int| 0 <= t < j && ids[t] == k)
}

proof fn lemma_prefix_step(ids: Seq<u64>, j: int)
    requires
        0 <= j < ids.len(),
        ids.no_duplicates(),
    ensures
        !prefix_set(ids, j).contains(ids[j]),
        prefix_set(ids, j + 1) == prefix_set(ids, j).insert(ids[j]),
{
    if prefix_set(ids, j).contains(ids[j]) {
        let t = choose|t: int| 0 <= t < j && ids[t] == ids[j];
        assert(ids[t] != ids[j]);
    }
    assert forall|k: u64| prefix_set(ids, j + 1).contains(k) <==> prefix_set(ids, j).insert(ids[j]).contains(k) by {
        if prefix_set(ids, j + 1).contains(k) && k != ids[j] {
            let t = choose|t: int| 0 <= t < j + 1 && ids[t] == k;
            assert(0 <= t < j && ids[t] == k);
        }
        if k == ids[j] {
            assert(0 <= j < j + 1 && ids[j] == k);
        }
        if prefix_set(ids, j).contains(k) {
            let t = choose|t: int| 0 <= t < j && ids[t] == k;
            assert(0 <= t < j + 1 && ids[t] == k);
        }
    }
    assert(prefix_set(ids, j + 1) =~= prefix_set(ids, j).insert(ids[j]));
}

proof fn lemma_prefix_empty(ids: Seq<u64>)
    ensures
        prefix_set(ids, 0) == Set::<u64>::empty(),
{
    assert(prefix_set(ids, 0) =~= Set::<u64>::empty());
}

proof fn lemma_prefix_all(ids: Seq<u64>)
    ensures
        prefix_set(ids, ids.len() as int) == ids.to_set(),
{
    assert forall|k: u64| prefix_set(ids, ids.len() as int).contains(k) <==> ids.to_set().contains(k) by {
        if ids.to_set().contains(k) {
            assert(ids.contains(k));
            let t = choose|t: int| 0 <= t < ids.len() && ids[t] == k;
        }
    }
    assert(prefix_set(ids, ids.len() as int) =~= ids.to_set());
}

/// Every key of `m` maps to the order with that id.
pub open spec fn keyed(m: Map<u64, OrderView>) -> bool {
    forall|k: u64| #[trigger] m.contains_key(k) ==> m[k].order_id == k
}

/// Tracks orders through their lifecycle.
pub struct OrderManager {
    orders: DashMap<u64, Order>,
    active_orders: DashMap<u64, Order>,
    filled_orders: DashMap<u64, Order>,
    cancelled_orders: DashMap<u64, Order>,
    stats: OrderManagerStats,
    max_history: usize,
}

impl OrderManager {
    pub closed spec fn state(&self) -> ManagerState {
        ManagerState {
            orders: views_of(order_entries(self.orders)),
            active: views_of(order_entries(self.active_orders)),
            filled: views_of(order_entries(self.filled_orders)),
            cancelled: views_of(order_entries(self.cancelled_orders)),
            stats: self.stats,
        }
    }

    pub closed spec fn max_history(&self) -> usize {
        self.max_history
    }

    pub closed spec fn wf(&self) -> bool {
        &&& order_entries(self.orders).dom().finite()
        &&& order_entries(self.active_orders).dom().finite()
        &&& order_entries(self.filled_orders).dom().finite()
        &&& order_entries(self.cancelled_orders).dom().finite()
        &&& keyed(self.state().orders)
        &&& keyed(self.state().active)
        &&& keyed(self.state().filled)
        &&& keyed(self.state().cancelled)
    }

    /// An empty manager keeping up to `max_history` orders in each table.
    pub fn new(max_history: usize) -> (m: Self)
        ensures
            m.wf(),
            m.max_history() == max_history,
            m.state().orders == Map::<u64, OrderView>::empty(),
            m.state().active == Map::<u64, OrderView>::empty(),
            m.state().filled == Map::<u64, OrderView>::empty(),
            m.state().cancelled == Map::<u64, OrderView>::empty(),
            m.state().stats == zero_stats(),
    {
        let m = OrderManager {
            orders: table_with_capacity(max_history),
            active_orders: table_with_capacity(1000),
            filled_orders: table_with_capacity(max_history),
            cancelled_orders: table_with_capacity(max_history),
            stats: OrderManagerStats::default(),
            max_history,
        };
        assert(m.state().orders =~= Map::<u64, OrderView>::empty());
        assert(m.state().active =~= Map::<u64, OrderView>::empty());
        assert(m.state().filled =~= Map::<u64, OrderView>::empty());
        assert(m.state().cancelled =~= Map::<u64, OrderView>::empty());
        m
    }

    /// Brings the statistics up to date.
    fn update_stats(&mut self)
        requires
            old(self).wf(),
        ensures
            final(self).wf(),
            final(self).state() == refreshed(old(self).state()),
            final(self).max_history() == old(self).max_history(),
    {
        let active = table_len(&self.active_orders);
        let filled = table_len(&self.filled_orders);
        let cancelled = table_len(&self.cancelled_orders);
        let total = table_len(&self.orders);
        let timed = table_sum(&self.filled_orders, Measure::Timed);
        let avg = if timed > 0 {
            let times = table_sum(&self.filled_orders, Measure::FillTime);
            (times / timed) as u64
        } else {
            self.stats.avg_fill_time_ns
        };
        let volume = table_sum(&self.filled_orders, Measure::Volume);
        let value = table_sum(&self.filled_orders, Measure::Value);
        proof {
            assert(views_of(order_entries(self.active_orders)).len() == order_entries(self.active_orders).len()) by {
                assert(views_of(order_entries(self.active_orders)).dom() =~= order_entries(self.active_orders).dom());
            }
            assert(views_of(order_entries(self.filled_orders)).len() == order_entries(self.filled_orders).len()) by {
                assert(views_of(order_entries(self.filled_orders)).dom() =~= order_entries(self.filled_orders).dom());
            }
            assert(views_of(order_entries(self.cancelled_orders)).len() == order_entries(self.cancelled_orders).len()) by {
                assert(views_of(order_entries(self.cancelled_orders)).dom() =~= order_entries(self.cancelled_orders).dom());
            }
            assert(views_of(order_entries(self.orders)).len() == order_entries(self.orders).len()) by {
                assert(views_of(order_entries(self.orders)).dom() =~= order_entries(self.orders).dom());
            }
        }
        self.stats = OrderManagerStats {
            total_orders: total as u64,
            active_orders: active as u64,
            filled_orders: filled as u64,
            cancelled_orders: cancelled as u64,
            rejected_orders: self.stats.rejected_orders,
            avg_fill_time_ns: avg,
            total_volume: volume,
            total_value: value,
        };
    }
}


impl OrderManager {
    /// Submits `order` at time `now_ns`: it is stored and active as Pending,
    /// created at `now_ns`. Returns its id.
    pub fn submit_at(&mut self, order: Order, now_ns: u64) -> (id: u64)
        requires
            old(self).wf(),
        ensures
            final(self).wf(),
            final(self).max_history() == old(self).max_history(),
            id == order.order_id,
            final(self).state() == after_submit(old(self).state(), order@, now_ns),
    {
        let mut order = order;
        order.status = OrderStatus::Pending;
        order.created_at_ns = now_ns;
        let id = order.order_id;
        let copy = order.duplicate();
        let ghost s0 = self.state();
        let ghost (o0, a0) = (order_entries(self.orders), order_entries(self.active_orders));
        table_insert(&mut self.orders, id, copy);
        table_insert(&mut self.active_orders, id, order);
        proof {
            lemma_views_insert(o0, id, copy);
            lemma_views_insert(a0, id, order);
            assert(self.state() == ManagerState {
                orders: s0.orders.insert(id, order@),
                active: s0.active.insert(id, order@),
                ..s0
            });
        }
        self.update_stats();
        id
    }

    /// Submits `order` at the current clock time (see `submit_at`).
    pub fn submit(&mut self, order: Order) -> (id: u64)
        requires
            old(self).wf(),
        ensures
            final(self).wf(),
            final(self).max_history() == old(self).max_history(),
            id == order.order_id,
            exists|now_ns: u64|
                final(self).state() == #[trigger] after_submit(old(self).state(), order@, now_ns),
    {
        let now = now_ns();
        self.submit_at(order, now)
    }

    /// Accepts the active order `id` at `now_ns` (sent to the venue): its
    /// active copy becomes Open. Returns whether it was active.
    pub fn accept_at(&mut self, order_id: u64, now_ns: u64) -> (accepted: bool)
        requires
            old(self).wf(),
        ensures
            final(self).wf(),
            final(self).max_history() == old(self).max_history(),
            accepted == old(self).state().active.contains_key(order_id),
            final(self).state() == after_accept(old(self).state(), order_id, now_ns),
    {
        let ghost s0 = self.state();
        let ghost a0 = order_entries(self.active_orders);
        match table_get(&self.active_orders, order_id) {
            Some(mut order) => {
                assert(s0.active.contains_key(order_id));
                order.status = OrderStatus::Open;
                order.updated_at_ns = now_ns;
                table_insert(&mut self.active_orders, order_id, order);
                proof {
                    lemma_views_insert(a0, order_id, order);
                    assert(self.state() == ManagerState {
                        active: s0.active.insert(order_id, order@),
                        ..s0
                    });
                }
                self.update_stats();
                true
            },
            None => false,
        }
    }

    /// Accepts the active order `id` at the current clock time (see
    /// `accept_at`).
    pub fn accept(&mut self, order_id: u64) -> (accepted: bool)
        requires
            old(self).wf(),
        ensures
            final(self).wf(),
            final(self).max_history() == old(self).max_history(),
            accepted == old(self).state().active.contains_key(order_id),
            exists|now_ns: u64|
                final(self).state() == #[trigger] after_accept(old(self).state(), order_id, now_ns),
    {
        let now = now_ns();
        self.accept_at(order_id, now)
    }

    /// Records a fill of `fill_volume` at `fill_price` on the stored order
    /// `id` at `now_ns`; a filled order leaves the active ones and joins
    /// the filled ones. Returns whether the order is known.
    pub fn fill_at(&mut self, order_id: u64, fill_volume: u64, fill_price: u64, now_ns: u64) -> (known: bool)
        requires
            old(self).wf(),
            old(self).state().orders.contains_key(order_id) ==> old(self).state().orders[order_id].filled_volume
                + fill_volume <= u64::MAX,
        ensures
            final(self).wf(),
            final(self).max_history() == old(self).max_history(),
            known == old(self).state().orders.contains_key(order_id),
            final(self).state() == after_fill(old(self).state(), order_id, fill_volume, fill_price, now_ns),
    {
        let ghost s0 = self.state();
        let ghost (o0, a0, f0) = (
            order_entries(self.orders),
            order_entries(self.active_orders),
            order_entries(self.filled_orders),
        );
        match table_get(&self.orders, order_id) {
            Some(mut order) => {
                assert(s0.orders.contains_key(order_id));
                order.add_fill_at(fill_volume, fill_price, now_ns);
                if order.is_filled() {
                    let copy = order.duplicate();
                    table_insert(&mut self.orders, order_id, order);
                    table_remove(&mut self.active_orders, order_id);
                    table_insert(&mut self.filled_orders, order_id, copy);
                    proof {
                        lemma_views_insert(o0, order_id, order);
                        lemma_views_remove(a0, order_id);
                        lemma_views_insert(f0, order_id, copy);
                        assert(self.state() == ManagerState {
                            orders: s0.orders.insert(order_id, order@),
                            active: s0.active.remove(order_id),
                            filled: s0.filled.insert(order_id, order@),
                            ..s0
                        });
                    }
                } else {
                    table_insert(&mut self.orders, order_id, order);
                    proof {
                        lemma_views_insert(o0, order_id, order);
                        assert(self.state() == ManagerState {
                            orders: s0.orders.insert(order_id, order@),
                            ..s0
                        });
                    }
                }
                self.update_stats();
                true
            },
            None => false,
        }
    }

    /// Records a fill at the current clock time (see `fill_at`).
    pub fn fill(&mut self, order_id: u64, fill_volume: u64, fill_price: u64) -> (known: bool)
        requires
            old(self).wf(),
            old(self).state().orders.contains_key(order_id) ==> old(self).state().orders[order_id].filled_volume
                + fill_volume <= u64::MAX,
        ensures
            final(self).wf(),
            final(self).max_history() == old(self).max_history(),
            known == old(self).state().orders.contains_key(order_id),
            exists|now_ns: u64|
                final(self).state() == #[trigger] after_fill(
                    old(self).state(),
                    order_id,
                    fill_volume,
                    fill_price,
                    now_ns,
                ),
    {
        let now = now_ns();
        self.fill_at(order_id, fill_volume, fill_price, now)
    }

    /// Cancels the active order `id` at `now_ns`: it leaves the active
    /// orders and joins the cancelled ones. Returns whether it was active.
    pub fn cancel_at(&mut self, order_id: u64, now_ns: u64) -> (cancelled: bool)
        requires
            old(self).wf(),
        ensures
            final(self).wf(),
            final(self).max_history() == old(self).max_history(),
            cancelled == old(self).state().active.contains_key(order_id),
            final(self).state() == after_cancel(old(self).state(), order_id, now_ns),
    {
        let ghost s0 = self.state();
        let ghost (a0, c0) = (order_entries(self.active_orders), order_entries(self.cancelled_orders));
        match table_get(&self.active_orders, order_id) {
            Some(mut order) => {
                assert(s0.active.contains_key(order_id));
                order.cancel_at(now_ns);
                table_remove(&mut self.active_orders, order_id);
                table_insert(&mut self.cancelled_orders, order_id, order);
                proof {
                    lemma_views_remove(a0, order_id);
                    lemma_views_insert(c0, order_id, order);
                    assert(self.state() == ManagerState {
                        active: s0.active.remove(order_id),
                        cancelled: s0.cancelled.insert(order_id, order@),
                        ..s0
                    });
                }
                self.update_stats();
                true
            },
            None => false,
        }
    }

    /// Cancels the active order `id` at the current clock time (see
    /// `cancel_at`).
    pub fn cancel(&mut self, order_id: u64) -> (cancelled: bool)
        requires
            old(self).wf(),
        ensures
            final(self).wf(),
            final(self).max_history() == old(self).max_history(),
            cancelled == old(self).state().active.contains_key(order_id),
            exists|now_ns: u64|
                final(self).state() == #[trigger] after_cancel(old(self).state(), order_id, now_ns),
    {
        let now = now_ns();
        self.cancel_at(order_id, now)
    }

    /// Rejects the stored order `id` for `reason`: it is marked Rejected,
    /// tagged with the reason, and no longer active. Nothing happens for an
    /// unknown order.
    pub fn reject(&mut self, order_id: u64, reason: &str)
        requires
            old(self).wf(),
        ensures
            final(self).wf(),
            final(self).max_history() == old(self).max_history(),
            final(self).state() == after_reject(old(self).state(), order_id, reason@),
    {
        let ghost s0 = self.state();
        let ghost (o0, a0) = (order_entries(self.orders), order_entries(self.active_orders));
        match table_get(&self.orders, order_id) {
            Some(mut order) => {
                assert(s0.orders.contains_key(order_id));
                let ghost before = order@;
                order.status = OrderStatus::Rejected;
                let key = "reject_reason".to_owned();
                let value = reason.to_owned();
                set_tag(&mut order.tags, key, value);
                proof {
                    assert(order@ == OrderView {
                        status: OrderStatus::Rejected,
                        tags: before.tags.insert("reject_reason"@, reason@),
                        ..before
                    });
                }
                table_insert(&mut self.orders, order_id, order);
                table_remove(&mut self.active_orders, order_id);
                proof {
                    lemma_views_insert(o0, order_id, order);
                    lemma_views_remove(a0, order_id);
                    assert(self.state() == ManagerState {
                        orders: s0.orders.insert(order_id, order@),
                        active: s0.active.remove(order_id),
                        ..s0
                    });
                }
                self.update_stats();
            },
            None => {},
        }
    }

    /// A copy of the stored order `id`, if any.
    pub fn get_order(&self, order_id: u64) -> (r: Option<Order>)
        requires
            self.wf(),
        ensures
            r is Some <==> self.state().orders.contains_key(order_id),
            r is Some ==> r->0@ == self.state().orders[order_id],
    {
        table_get(&self.orders, order_id)
    }

    /// Copies of the active orders, in no fixed order.
    pub fn get_active_orders(&self) -> (r: Vec<Order>)
        requires
            self.wf(),
        ensures
            lists_orders(r@, self.state().active),
    {
        let es = table_entries(&self.active_orders);
        let ghost entries = order_entries(self.active_orders);
        let mut r: Vec<Order> = Vec::new();
        let mut i: usize = 0;
        while i < es.len()
            invariant
                0 <= i <= es@.len(),
                lists_table(es@, entries),
                r@.len() == i,
                forall|j: int| 0 <= j < i ==> (#[trigger] r@[j])@ == es@[j].1@,
            decreases es@.len() - i,
        {
            r.push(es[i].1.duplicate());
            i = i + 1;
        }
        proof {
            let m = self.state().active;
            assert(keyed(m));
            assert forall|j: int| 0 <= j < r@.len() implies (#[trigger] r@[j]).order_id == es@[j].0 by {
                assert(entries.contains_key(es@[j].0));
                assert(m.contains_key(es@[j].0));
            }
            assert forall|k: u64| #[trigger] m.contains_key(k) implies exists|j: int|
                0 <= j < r@.len() && r@[j].order_id == k by {
                assert(entries.contains_key(k));
                let j = choose|j: int| 0 <= j < es@.len() && es@[j].0 == k;
                assert(r@[j].order_id == es@[j].0);
            }
        }
        r
    }

    /// Copies of the stored orders on `instrument_id`, in no fixed order.
    pub fn get_orders_for_instrument(&self, instrument_id: u32) -> (r: Vec<Order>)
        requires
            self.wf(),
        ensures
            lists_orders(
                r@,
                self.state().orders.restrict(instrument_keys(self.state().orders, instrument_id)),
            ),
    {
        let es = table_entries(&self.orders);
        let ghost entries = order_entries(self.orders);
        let ghost m = self.state().orders;
        let ghost mut idx: Seq<int> = Seq::empty();
        let mut r: Vec<Order> = Vec::new();
        let mut i: usize = 0;
        while i < es.len()
            invariant
                0 <= i <= es@.len(),
                lists_table(es@, entries),
                idx.len() == r@.len(),
                forall|j: int|
                    0 <= j < idx.len() ==> 0 <= #[trigger] idx[j] < i && r@[j]@ == es@[idx[j]].1@
                        && es@[idx[j]].1.instrument_id == instrument_id,
                forall|a: int, b: int| 0 <= a < b < idx.len() ==> idx[a] < idx[b],
                forall|e: int|
                    0 <= e < i && (#[trigger] es@[e]).1.instrument_id == instrument_id ==> exists|j: int|
                        0 <= j < idx.len() && idx[j] == e,
            decreases es@.len() - i,
        {
            if es[i].1.instrument_id == instrument_id {
                let copy = es[i].1.duplicate();
                r.push(copy);
                proof {
                    let before = idx;
                    idx = idx.push(i as int);
                    assert forall|e: int|
                        0 <= e < i + 1 && (#[trigger] es@[e]).1.instrument_id == instrument_id implies exists|j: int|
                        0 <= j < idx.len() && idx[j] == e by {
                        if e < i {
                            let j = choose|j: int| 0 <= j < before.len() && before[j] == e;
                            assert(idx[j] == e);
                        } else {
                            assert(idx[before.len() as int] == e);
                        }
                    }
                }
            }
            i = i + 1;
        }
        proof {
            lemma_instrument_listing(es@, entries, m, r@, idx, instrument_id);
        }
        r
    }

    /// Remaining volume times limit price summed over the active orders
    /// (volume units times price units), capped at the largest `u128`.
    pub fn total_exposure(&self) -> (r: u128)
        requires
            self.wf(),
        ensures
            r == capped(sum_over(self.state().active, Measure::Exposure)),
    {
        table_sum(&self.active_orders, Measure::Exposure)
    }

    /// The statistics as last brought up to date.
    pub fn get_stats(&self) -> (st: OrderManagerStats)
        ensures
            st == self.state().stats,
    {
        self.stats
    }
}

/// Whether `o` expires unfilled at `now_ns` (see `expires`).
fn expires_unfilled(o: &Order, now_ns: u64) -> (b: bool)
    ensures
        b == (expires(o@, now_ns) && !order_filled(o@)),
{
    let should_expire = match o.time_in_force {
        TimeInForce::Day => now_ns >= o.created_at_ns && now_ns - o.created_at_ns > DAY_NS,
        TimeInForce::GoodTillDate(expiry) => now_ns > expiry,
        TimeInForce::ImmediateOrCancel => true,
        TimeInForce::FillOrKill => !o.is_filled(),
        _ => false,
    };
    should_expire && !o.is_filled()
}

fn selects(sel: Selector, o: &Order) -> (b: bool)
    ensures
        b == selected(sel, o@),
{
    match sel {
        Selector::OnInstrument(instrument_id) => o.instrument_id == instrument_id,
        Selector::UpdatedBefore(cutoff) => o.updated_at_ns < cutoff,
        Selector::Expiring(now_ns) => expires_unfilled(o, now_ns),
    }
}

/// Keys of the orders of `table` that `sel` takes, each once, in the
/// table's iteration order.
fn select_keys(table: &DashMap<u64, Order>, sel: Selector) -> (r: Vec<u64>)
    requires
        order_entries(*table).dom().finite(),
    ensures
        r@.no_duplicates(),
        r@.to_set() == selected_keys(views_of(order_entries(*table)), sel),
{
    let es = table_entries(table);
    let ghost entries = order_entries(*table);
    let ghost m = views_of(entries);
    let ghost mut idx: Seq<int> = Seq::empty();
    let mut r: Vec<u64> = Vec::new();
    let mut i: usize = 0;
    while i < es.len()
        invariant
            0 <= i <= es@.len(),
            lists_table(es@, entries),
            idx.len() == r@.len(),
            forall|j: int|
                0 <= j < idx.len() ==> 0 <= #[trigger] idx[j] < i && r@[j] == es@[idx[j]].0 && selected(
                    sel,
                    es@[idx[j]].1@,
                ),
            forall|a: int, b: int| 0 <= a < b < idx.len() ==> idx[a] < idx[b],
            forall|e: int|
                0 <= e < i && selected(sel, (#[trigger] es@[e]).1@) ==> exists|j: int|
                    0 <= j < idx.len() && idx[j] == e,
        decreases es@.len() - i,
    {
        if selects(sel, &es[i].1) {
            r.push(es[i].0);
            proof {
                let before = idx;
                idx = idx.push(i as int);
                assert forall|e: int|
                    0 <= e < i + 1 && selected(sel, (#[trigger] es@[e]).1@) implies exists|j: int|
                    0 <= j < idx.len() && idx[j] == e by {
                    if e < i {
                        let j = choose|j: int| 0 <= j < before.len() && before[j] == e;
                        assert(idx[j] == e);
                    } else {
                        assert(idx[before.len() as int] == e);
                    }
                }
            }
        }
        i = i + 1;
    }
    proof {
        assert forall|a: int, b: int| 0 <= a < r@.len() && 0 <= b < r@.len() && a != b implies r@[a]
            != r@[b] by {
            if a < b {
                assert(idx[a] < idx[b]);
            } else {
                assert(idx[b] < idx[a]);
            }
        }
        let keys = selected_keys(m, sel);
        assert forall|k: u64| r@.to_set().contains(k) <==> keys.contains(k) by {
            if r@.to_set().contains(k) {
                assert(r@.contains(k));
                let j = choose|j: int| 0 <= j < r@.len() && r@[j] == k;
                let e = idx[j];
                assert(entries.contains_key(es@[e].0));
                assert(m[es@[e].0] == es@[e].1@);
            }
            if keys.contains(k) {
                assert(entries.contains_key(k));
                let e = choose|e: int| 0 <= e < es@.len() && es@[e].0 == k;
                assert(m[k] == es@[e].1@);
                let j = choose|j: int| 0 <= j < idx.len() && idx[j] == e;
                assert(r@[j] == k);
            }
        }
        assert(r@.to_set() =~= keys);
    }
    r
}

proof fn lemma_cancel_step(s0: ManagerState, done: Set<u64>, id: u64, now_ns: u64)
    requires
        s0.active.contains_key(id),
        !done.contains(id),
    ensures
        with_cancelled(s0, done, now_ns).active.contains_key(id),
        after_cancel(with_cancelled(s0, done, now_ns), id, now_ns) == with_cancelled(
            s0,
            done.insert(id),
            now_ns,
        ),
{
    let x = with_cancelled(s0, done, now_ns);
    let y = with_cancelled(s0, done.insert(id), now_ns);
    let z = after_cancel(x, id, now_ns);
    assert(x.active[id] == s0.active[id]);
    assert(z.active =~= y.active);
    assert(z.cancelled =~= y.cancelled);
    assert(z.filled == y.filled);
}

proof fn lemma_expire_step(s0: ManagerState, done: Set<u64>, id: u64)
    requires
        !done.contains(id),
    ensures
        with_expired(s0, done).orders.contains_key(id) == s0.orders.contains_key(id),
        s0.orders.contains_key(id) ==> with_expired(s0, done).orders[id] == s0.orders[id],
{
}

impl OrderManager {
    /// Cancels every active order on `instrument_id` at `now_ns`. Returns
    /// how many were cancelled.
    pub fn cancel_all_at(&mut self, instrument_id: u32, now_ns: u64) -> (n: usize)
        requires
            old(self).wf(),
        ensures
            final(self).wf(),
            final(self).max_history() == old(self).max_history(),
            n == instrument_keys(old(self).state().active, instrument_id).len(),
            final(self).state() == after_cancel_all(old(self).state(), instrument_id, now_ns),
    {
        let ghost s0 = self.state();
        let to_cancel = select_keys(&self.active_orders, Selector::OnInstrument(instrument_id));
        let ghost keys = instrument_keys(s0.active, instrument_id);
        proof {
            lemma_prefix_empty(to_cancel@);
            to_cancel@.unique_seq_to_set();
        }
        let mut cancelled: usize = 0;
        let mut j: usize = 0;
        while j < to_cancel.len()
            invariant
                0 <= j <= to_cancel@.len(),
                self.wf(),
                self.max_history() == old(self).max_history(),
                to_cancel@.no_duplicates(),
                to_cancel@.to_set() == keys,
                keys == instrument_keys(s0.active, instrument_id),
                to_cancel@.len() == keys.len(),
                cancelled == j,
                self.state() == with_cancelled(s0, prefix_set(to_cancel@, j as int), now_ns),
            decreases to_cancel@.len() - j,
        {
            let id = to_cancel[j];
            proof {
                lemma_prefix_step(to_cancel@, j as int);
                assert(to_cancel@.to_set().contains(id));
                assert(keys.contains(id));
                lemma_cancel_step(s0, prefix_set(to_cancel@, j as int), id, now_ns);
            }
            let ok = self.cancel_at(id, now_ns);
            if ok {
                cancelled = cancelled + 1;
            }
            j = j + 1;
        }
        proof {
            lemma_prefix_all(to_cancel@);
        }
        cancelled
    }

    /// Cancels every active order on `instrument_id` at the current clock
    /// time (see `cancel_all_at`).
    pub fn cancel_all(&mut self, instrument_id: u32) -> (n: usize)
        requires
            old(self).wf(),
        ensures
            final(self).wf(),
            final(self).max_history() == old(self).max_history(),
            n == instrument_keys(old(self).state().active, instrument_id).len(),
            exists|now_ns: u64|
                final(self).state() == #[trigger] after_cancel_all(
                    old(self).state(),
                    instrument_id,
                    now_ns,
                ),
    {
        let now = now_ns();
        self.cancel_all_at(instrument_id, now)
    }

    /// Removes the orders last updated more than `older_than_ns` before
    /// `now_ns` from the stored, filled and cancelled orders. Returns how
    /// many stored orders were removed.
    pub fn cleanup_at(&mut self, older_than_ns: u64, now_ns: u64) -> (removed: usize)
        requires
            old(self).wf(),
        ensures
            final(self).wf(),
            final(self).max_history() == old(self).max_history(),
            removed == stale_keys(old(self).state().orders, cleanup_cutoff(now_ns, older_than_ns)).len(),
            final(self).state() == after_cleanup(old(self).state(), cleanup_cutoff(now_ns, older_than_ns)),
    {
        let ghost s0 = self.state();
        let cutoff: u64 = if now_ns >= older_than_ns {
            now_ns - older_than_ns
        } else {
            0
        };
        let to_remove = select_keys(&self.orders, Selector::UpdatedBefore(cutoff));
        let ghost keys = stale_keys(s0.orders, cutoff);
        proof {
            lemma_prefix_empty(to_remove@);
            to_remove@.unique_seq_to_set();
            assert(s0.orders.remove_keys(Set::empty()) =~= s0.orders);
            assert(s0.filled.remove_keys(Set::empty()) =~= s0.filled);
            assert(s0.cancelled.remove_keys(Set::empty()) =~= s0.cancelled);
        }
        let mut removed: usize = 0;
        let mut j: usize = 0;
        while j < to_remove.len()
            invariant
                0 <= j <= to_remove@.len(),
                self.wf(),
                self.max_history() == old(self).max_history(),
                to_remove@.no_duplicates(),
                to_remove@.to_set() == keys,
                keys == stale_keys(s0.orders, cutoff),
                to_remove@.len() == keys.len(),
                removed == j,
                ({
                    let done = prefix_set(to_remove@, j as int);
                    self.state() == ManagerState {
                        orders: s0.orders.remove_keys(done),
                        filled: s0.filled.remove_keys(done),
                        cancelled: s0.cancelled.remove_keys(done),
                        ..s0
                    }
                }),
            decreases to_remove@.len() - j,
        {
            let id = to_remove[j];
            let ghost done = prefix_set(to_remove@, j as int);
            let ghost (o0, f0, c0) = (
                order_entries(self.orders),
                order_entries(self.filled_orders),
                order_entries(self.cancelled_orders),
            );
            proof {
                lemma_prefix_step(to_remove@, j as int);
                assert(to_remove@.to_set().contains(id));
                assert(keys.contains(id));
                assert(self.state().orders.contains_key(id));
            }
            let gone = table_remove(&mut self.orders, id);
            if gone.is_some() {
                removed = removed + 1;
            }
            table_remove(&mut self.filled_orders, id);
            table_remove(&mut self.cancelled_orders, id);
            proof {
                lemma_views_remove(o0, id);
                lemma_views_remove(f0, id);
                lemma_views_remove(c0, id);
                assert(s0.orders.remove_keys(done).remove(id) =~= s0.orders.remove_keys(done.insert(id)));
                assert(s0.filled.remove_keys(done).remove(id) =~= s0.filled.remove_keys(done.insert(id)));
                assert(s0.cancelled.remove_keys(done).remove(id) =~= s0.cancelled.remove_keys(
                    done.insert(id),
                ));
            }
            j = j + 1;
        }
        proof {
            lemma_prefix_all(to_remove@);
        }
        removed
    }

    /// Removes the orders last updated more than `older_than_ns` before the
    /// current clock time (see `cleanup_at`).
    pub fn cleanup(&mut self, older_than_ns: u64) -> (removed: usize)
        requires
            old(self).wf(),
        ensures
            final(self).wf(),
            final(self).max_history() == old(self).max_history(),
            exists|now_ns: u64|
                {
                    &&& removed == stale_keys(
                        old(self).state().orders,
                        cleanup_cutoff(now_ns, older_than_ns),
                    ).len()
                    &&& final(self).state() == #[trigger] after_cleanup(
                        old(self).state(),
                        cleanup_cutoff(now_ns, older_than_ns),
                    )
                },
    {
        let now = now_ns();
        self.cleanup_at(older_than_ns, now)
    }

    /// Expires the active orders whose time in force has run out unfilled
    /// at `now_ns`: each stored one is marked Expired and leaves the active
    /// orders. Returns their ids, in no fixed order.
    pub fn check_expirations_at(&mut self, now_ns: u64) -> (expired: Vec<u64>)
        requires
            old(self).wf(),
        ensures
            final(self).wf(),
            final(self).max_history() == old(self).max_history(),
            expired@.no_duplicates(),
            expired@.to_set() == expiring_keys(old(self).state().active, now_ns),
            final(self).state() == after_expirations(old(self).state(), now_ns),
    {
        let ghost s0 = self.state();
        let expired = select_keys(&self.active_orders, Selector::Expiring(now_ns));
        proof {
            lemma_prefix_empty(expired@);
            assert(with_expired(s0, Set::empty()).orders =~= s0.orders);
            assert(with_expired(s0, Set::empty()).active =~= s0.active);
        }
        let mut j: usize = 0;
        while j < expired.len()
            invariant
                0 <= j <= expired@.len(),
                self.wf(),
                self.max_history() == old(self).max_history(),
                expired@.no_duplicates(),
                self.state() == with_expired(s0, prefix_set(expired@, j as int)),
            decreases expired@.len() - j,
        {
            let id = expired[j];
            let ghost done = prefix_set(expired@, j as int);
            let ghost (o0, a0) = (order_entries(self.orders), order_entries(self.active_orders));
            proof {
                lemma_prefix_step(expired@, j as int);
                lemma_expire_step(s0, done, id);
            }
            match table_get(&self.orders, id) {
                Some(mut order) => {
                    assert(self.state().orders.contains_key(id));
                    order.status = OrderStatus::Expired;
                    table_insert(&mut self.orders, id, order);
                    table_remove(&mut self.active_orders, id);
                    proof {
                        lemma_views_insert(o0, id, order);
                        lemma_views_remove(a0, id);
                        let x = with_expired(s0, done);
                        let y = with_expired(s0, done.insert(id));
                        assert(x.orders.insert(id, order@) =~= y.orders);
                        assert(x.active.remove(id) =~= y.active);
                    }
                },
                None => {
                    proof {
                        let x = with_expired(s0, done);
                        let y = with_expired(s0, done.insert(id));
                        assert(x.orders =~= y.orders);
                        assert(x.active =~= y.active);
                    }
                },
            }
            j = j + 1;
        }
        proof {
            lemma_prefix_all(expired@);
        }
        expired
    }

    /// Expires orders at the current clock time (see
    /// `check_expirations_at`).
    pub fn check_expirations(&mut self) -> (expired: Vec<u64>)
        requires
            old(self).wf(),
        ensures
            final(self).wf(),
            final(self).max_history() == old(self).max_history(),
            expired@.no_duplicates(),
            exists|now_ns: u64|
                {
                    &&& expired@.to_set() == expiring_keys(old(self).state().active, now_ns)
                    &&& final(self).state() == #[trigger] after_expirations(old(self).state(), now_ns)
                },
    {
        let now = now_ns();
        self.check_expirations_at(now)
    }
}

/// A submitted order is stored and active as Pending, created at the
/// submission time, and both tables hold the same copy.
pub proof fn law_submitted_order_is_pending(s: ManagerState, o: OrderView, now_ns: u64)
    ensures
        after_submit(s, o, now_ns).orders.contains_key(o.order_id),
        after_submit(s, o, now_ns).active.contains_key(o.order_id),
        after_submit(s, o, now_ns).orders[o.order_id].status == OrderStatus::Pending,
        after_submit(s, o, now_ns).orders[o.order_id].created_at_ns == now_ns,
        after_submit(s, o, now_ns).active[o.order_id] == after_submit(s, o, now_ns).orders[o.order_id],
{
}

/// A cancelled order is no longer active, so cancelling it again changes
/// nothing.
pub proof fn law_cancel_is_final(s: ManagerState, id: u64, t1: u64, t2: u64)
    ensures
        !after_cancel(s, id, t1).active.contains_key(id),
        after_cancel(after_cancel(s, id, t1), id, t2) == after_cancel(s, id, t1),
{
}

/// An order that a fill completes leaves the active orders and is kept
/// among the filled ones as Filled.
pub proof fn law_completed_fill_leaves_active(
    s: ManagerState,
    id: u64,
    fill_volume: u64,
    fill_price: u64,
    now_ns: u64,
)
    requires
        s.orders.contains_key(id),
        order_filled(with_fill(s.orders[id], fill_volume, fill_price, now_ns)),
    ensures
        !after_fill(s, id, fill_volume, fill_price, now_ns).active.contains_key(id),
        after_fill(s, id, fill_volume, fill_price, now_ns).filled.contains_key(id),
        after_fill(s, id, fill_volume, fill_price, now_ns).filled[id].status == OrderStatus::Filled,
        after_fill(s, id, fill_volume, fill_price, now_ns).filled[id].filled_at_ns == Some(now_ns),
{
}

/// A fill adds exactly its volume, and the average fill price stays
/// between the previous average and the fill price.
pub proof fn law_fill_accumulates(o: OrderView, fill_volume: u64, fill_price: u64, now_ns: u64)
    requires
        o.filled_volume + fill_volume <= u64::MAX,
        o.filled_volume + fill_volume > 0,
    ensures
        with_fill(o, fill_volume, fill_price, now_ns).filled_volume == o.filled_volume + fill_volume,
        with_fill(o, fill_volume, fill_price, now_ns).avg_fill_price >= if o.avg_fill_price
            <= fill_price || o.filled_volume == 0 {
            if o.filled_volume == 0 {
                fill_price
            } else {
                o.avg_fill_price
            }
        } else if fill_volume == 0 {
            o.avg_fill_price
        } else {
            fill_price
        },
        with_fill(o, fill_volume, fill_price, now_ns).avg_fill_price <= if o.avg_fill_price
            >= fill_price || o.filled_volume == 0 {
            if o.filled_volume == 0 {
                fill_price
            } else {
                o.avg_fill_price
            }
        } else if fill_volume == 0 {
            o.avg_fill_price
        } else {
            fill_price
        },
{
    let a = o.avg_fill_price as int;
    let x = o.filled_volume as int;
    let b = fill_price as int;
    let y = fill_volume as int;
    let q = (a * x + b * y) / (x + y);
    if x == 0 {
        assert(q == b) by (nonlinear_arith)
            requires
                x == 0,
                y > 0,
                q == (a * x + b * y) / (x + y),
        ;
    } else if y == 0 {
        assert(q == a) by (nonlinear_arith)
            requires
                y == 0,
                x > 0,
                q == (a * x + b * y) / (x + y),
        ;
    } else {
        let lo = if a <= b { a } else { b };
        let hi = if a <= b { b } else { a };
        assert(lo <= q <= hi) by (nonlinear_arith)
            requires
                x > 0,
                y > 0,
                lo <= a <= hi,
                lo <= b <= hi,
                q == (a * x + b * y) / (x + y),
        ;
    }
}

/// After cancelling every active order on an instrument, none on it is
/// active.
pub proof fn law_cancel_all_clears_instrument(s: ManagerState, instrument_id: u32, now_ns: u64)
    ensures
        instrument_keys(after_cancel_all(s, instrument_id, now_ns).active, instrument_id)
            == Set::<u64>::empty(),
{
    let keys = instrument_keys(s.active, instrument_id);
    let after = after_cancel_all(s, instrument_id, now_ns).active;
    assert(instrument_keys(after, instrument_id) =~= Set::<u64>::empty()) by {
        if !keys.is_empty() {
            assert forall|k: u64| !instrument_keys(after, instrument_id).contains(k) by {
                if after.contains_key(k) {
                    assert(!keys.contains(k));
                }
            }
        } else {
            assert forall|k: u64| !instrument_keys(after, instrument_id).contains(k) by {
                assert(!keys.contains(k));
            }
        }
    }
}

/// An expiring order that is stored ends up Expired and no longer active.
pub proof fn law_expired_order_leaves_active(s: ManagerState, now_ns: u64, k: u64)
    requires
        expiring_keys(s.active, now_ns).contains(k),
        s.orders.contains_key(k),
    ensures
        !after_expirations(s, now_ns).active.contains_key(k),
        after_expirations(s, now_ns).orders[k].status == OrderStatus::Expired,
{
}
/// The order after the fills `fills`, in turn, each (volume, price, time).
pub open spec fn after_fills(o: OrderView, fills: Seq<(u64, u64, u64)>) -> OrderView
    decreases fills.len(),
{
    if fills.len() == 0 {
        o
    } else {
        let l = fills.last();
        with_fill(after_fills(o, fills.drop_last()), l.0, l.1, l.2)
    }
}

/// Total volume of `fills`.
pub open spec fn fills_volume(fills: Seq<(u64, u64, u64)>) -> nat
    decreases fills.len(),
{
    if fills.len() == 0 {
        0
    } else {
        fills_volume(fills.drop_last()) + fills.last().0 as nat
    }
}

/// Total value (volume times price) of `fills`.
pub open spec fn fills_value(fills: Seq<(u64, u64, u64)>) -> nat
    decreases fills.len(),
{
    if fills.len() == 0 {
        0
    } else {
        fills_value(fills.drop_last()) + (fills.last().0 as nat) * (fills.last().1 as nat)
    }
}

/// Fills on a fresh order add up: the filled volume is the total of the
/// fills; the average fill price, a volume-weighted mean rounded down at
/// each fill, times the filled volume is at most the total value of the
/// fills and falls short of it by less than one price unit per fill times
/// the filled volume (so it is the volume-weighted mean to within one unit
/// per fill), and it lies between the lowest and the highest fill price; the
/// order is Filled once at most one volume unit is missing, else partly
/// filled, and it carries a fill time exactly when it is Filled.
pub proof fn law_fills_accumulate(o: OrderView, fills: Seq<(u64, u64, u64)>, lo: u64, hi: u64)
    requires
        o.filled_volume == 0,
        o.avg_fill_price == 0,
        o.filled_at_ns is None,
        fills_volume(fills) <= u64::MAX,
        forall|j: int| 0 <= j < fills.len() ==> (#[trigger] fills[j]).0 > 0 && lo <= fills[j].1 <= hi,
    ensures
        after_fills(o, fills).volume == o.volume,
        after_fills(o, fills).filled_volume == fills_volume(fills),
        after_fills(o, fills).avg_fill_price * after_fills(o, fills).filled_volume <= fills_value(fills),
        fills.len() > 0 ==> fills_value(fills) < (after_fills(o, fills).avg_fill_price + fills.len())
            * after_fills(o, fills).filled_volume,
        fills.len() > 0 ==> lo <= after_fills(o, fills).avg_fill_price <= hi,
        fills.len() > 0 ==> after_fills(o, fills).status == if fills_volume(fills) + 1 >= o.volume {
            OrderStatus::Filled
        } else {
            OrderStatus::PartiallyFilled
        },
        fills.len() > 0 ==> (after_fills(o, fills).filled_at_ns is Some <==> after_fills(o, fills).status
            == OrderStatus::Filled),
    decreases fills.len(),
{
    if fills.len() > 0 {
        let init = fills.drop_last();
        let l = fills.last();
        assert forall|j: int| 0 <= j < init.len() implies (#[trigger] init[j]).0 > 0 && lo <= init[j].1 <= hi by {
            assert(init[j] == fills[j]);
        }
        assert(fills[fills.len() - 1] == l);
        law_fills_accumulate(o, init, lo, hi);
        let prev = after_fills(o, init);
        law_fill_accumulates(prev, l.0, l.1, l.2);
        let r = with_fill(prev, l.0, l.1, l.2);
        let a = prev.avg_fill_price as int;
        let x = prev.filled_volume as int;
        let b = l.1 as int;
        let y = l.0 as int;
        let q = (a * x + b * y) / (x + y);
        assert(q * (x + y) <= a * x + b * y) by (nonlinear_arith)
            requires
                x + y > 0,
                q == (a * x + b * y) / (x + y),
                a * x + b * y >= 0,
        ;
        let m: nat = if a >= b { a as nat } else { b as nat };
        lemma_weighted_mean(a as nat, x as nat, b as nat, y as nat, m);
        assert(0 <= q) by (nonlinear_arith)
            requires
                x + y > 0,
                q == (a * x + b * y) / (x + y),
                a >= 0, x >= 0, b >= 0, y >= 0,
        ;
        assert(r.avg_fill_price == q);
        assert(r.filled_volume == x + y);
        assert(r.avg_fill_price * r.filled_volume == q * (x + y)) by (nonlinear_arith)
            requires
                r.avg_fill_price == q,
                r.filled_volume == x + y,
        ;
        assert(fills_value(fills) == fills_value(init) + y * b);
        assert(y * b == b * y) by (nonlinear_arith);
        assert(a * x <= fills_value(init));
        assert(after_fills(o, fills) == r);
        let n = init.len() as int;
        assert(fills_value(init) <= (a + n) * x);
        assert(a * x + b * y < (q + 1) * (x + y)) by (nonlinear_arith)
            requires
                x + y > 0,
                q == (a * x + b * y) / (x + y),
                a * x + b * y >= 0,
        ;
        assert(fills_value(init) + b * y < (q + n + 1) * (x + y)) by (nonlinear_arith)
            requires
                fills_value(init) <= (a + n) * x,
                a * x + b * y < (q + 1) * (x + y),
                n >= 0,
                x >= 0,
                y >= 0,
        ;
        assert((r.avg_fill_price + fills.len()) * r.filled_volume == (q + n + 1) * (x + y)) by (nonlinear_arith)
            requires
                r.avg_fill_price == q,
                r.filled_volume == x + y,
                fills.len() == n + 1,
        ;
    }
}
/// A fill-or-kill order is expired as soon as expirations are checked,
/// unless it is filled (at most one volume unit missing): an active,
/// stored order with fill-or-kill time in force that misses more than one
/// unit is among the expiring orders at any time, ends up Expired and is no
/// longer active; a filled one is not expired.
pub proof fn law_unfilled_fill_or_kill_expires(s: ManagerState, now_ns: u64, k: u64)
    requires
        s.active.contains_key(k),
        s.orders.contains_key(k),
        s.active[k].time_in_force == TimeInForce::FillOrKill,
    ensures
        s.active[k].filled_volume + 1 < s.active[k].volume ==> {
            &&& expiring_keys(s.active, now_ns).contains(k)
            &&& !after_expirations(s, now_ns).active.contains_key(k)
            &&& after_expirations(s, now_ns).orders[k].status == OrderStatus::Expired
        },
        s.active[k].filled_volume + 1 >= s.active[k].volume ==> {
            &&& !expiring_keys(s.active, now_ns).contains(k)
            &&& after_expirations(s, now_ns).active.contains_key(k)
        },
{
    if s.active[k].filled_volume + 1 < s.active[k].volume {
        assert(expiring_keys(s.active, now_ns).contains(k));
        law_expired_order_leaves_active(s, now_ns, k);
    } else {
        assert(!expiring_keys(s.active, now_ns).contains(k));
        assert(!expiring_keys(s.active, now_ns).intersect(s.orders.dom()).contains(k));
    }
}

} // verus!
