// Execution: order lifecycle, jitter, fragmentation strategies, stealth
// profiles, and the shared record of orders and execution statistics.
pub mod fragmentation;
pub mod jitter;
pub mod order_manager;
pub mod stealth;

use vstd::prelude::*;
use dashmap::DashMap;
use crate::execution::order_manager::{
    Order, OrderStatus, OrderView, order_entries, views_of, table_with_capacity, table_insert,
    table_get,
};

verus! {

/// Execution statistics. Slippage is in tenths of a pip, the detection
/// probability in millionths, volumes in the volume unit of
/// `config::constants` and values in volume units times price units.
#[derive(Debug, Clone, Copy, PartialEq, Eq, Structural)]
pub struct ExecutionStats {
    pub total_orders: u64,
    pub filled_orders: u64,
    pub cancelled_orders: u64,
    pub rejected_orders: u64,
    pub avg_fill_time_ns: u64,
    pub avg_slippage: u64,
    pub detection_probability_ppm: u64,
    pub total_volume: u128,
    pub total_value: u128,
}

/// All statistics at zero.
pub open spec fn zero_stats() -> ExecutionStats {
    ExecutionStats {
        total_orders: 0,
        filled_orders: 0,
        cancelled_orders: 0,
        rejected_orders: 0,
        avg_fill_time_ns: 0,
        avg_slippage: 0,
        detection_probability_ppm: 0,
        total_volume: 0,
        total_value: 0,
    }
}

impl Default for ExecutionStats {
    fn default() -> (s: Self)
        ensures
            s == zero_stats(),
    {
        ExecutionStats {
            total_orders: 0,
            filled_orders: 0,
            cancelled_orders: 0,
            rejected_orders: 0,
            avg_fill_time_ns: 0,
            avg_slippage: 0,
            detection_probability_ppm: 0,
            total_volume: 0,
            total_value: 0,
        }
    }
}

/// The orders seen by execution, by id, and the latest statistics.
pub struct ExecutionState {
    pub orders: DashMap<u64, Order>,
    pub stats: ExecutionStats,
}

/// `o` with its status set to `status`.
pub open spec fn with_status(o: OrderView, status: OrderStatus) -> OrderView {
    OrderView { status, ..o }
}

impl ExecutionState {
    /// The orders held, by id.
    pub open spec fn orders_view(&self) -> Map<u64, OrderView> {
        views_of(order_entries(self.orders))
    }

    /// No orders and zero statistics.
    pub fn new() -> (s: Self)
        ensures
            s.orders_view() == Map::<u64, OrderView>::empty(),
            s.stats == zero_stats(),
    {
        let s = ExecutionState { orders: table_with_capacity(10000), stats: ExecutionStats::default() };
        assert(s.orders_view() =~= Map::<u64, OrderView>::empty());
        s
    }

    /// Keeps `order` under its id, replacing any order with that id.
    pub fn record_order(&mut self, order: Order)
        ensures
            final(self).orders_view() == old(self).orders_view().insert(order.order_id, order@),
            final(self).stats == old(self).stats,
    {
        let id = order.order_id;
        let ghost o = order@;
        let _ = table_insert(&mut self.orders, id, order);
        assert(self.orders_view() =~= old(self).orders_view().insert(id, o));
    }

    /// Sets the status of the order with this id; nothing happens when there
    /// is none.
    pub fn update_order(&mut self, order_id: u64, status: OrderStatus)
        ensures
            final(self).orders_view() == if old(self).orders_view().contains_key(order_id) {
                old(self).orders_view().insert(
                    order_id,
                    with_status(old(self).orders_view()[order_id], status),
                )
            } else {
                old(self).orders_view()
            },
            final(self).stats == old(self).stats,
    {
        match table_get(&self.orders, order_id) {
            Some(order) => {
                let mut order = order;
                order.status = status;
                let ghost o = order@;
                let _ = table_insert(&mut self.orders, order_id, order);
                assert(self.orders_view() =~= old(self).orders_view().insert(order_id, o));
                assert(o == with_status(old(self).orders_view()[order_id], status));
            },
            None => {},
        }
    }

    /// Replaces the statistics.
    pub fn update_stats(&mut self, stats: ExecutionStats)
        ensures
            final(self).stats == stats,
            final(self).orders_view() == old(self).orders_view(),
    {
        self.stats = stats;
    }

    /// The latest statistics.
    pub fn get_stats(&self) -> (s: ExecutionStats)
        ensures
            s == self.stats,
    {
        self.stats
    }
}

} // verus!
