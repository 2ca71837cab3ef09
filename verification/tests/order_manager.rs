use hft_stealth::execution::{ExecutionState, ExecutionStats};
use hft_stealth::execution::order_manager::{Order, OrderManager, OrderSide, OrderStatus, TimeInForce};

const LOT: u64 = 100_000_000;
const PRICE_UNIT: u64 = 10_000;

#[test]
fn test_order_lifecycle() {
    let mut manager = OrderManager::new(1000);

    let order = Order::buy(1, LOT, 100 * PRICE_UNIT);
    let order_id = manager.submit(order);

    assert!(manager.accept(order_id));

    manager.fill(order_id, LOT / 2, 100 * PRICE_UNIT);
    let order = manager.get_order(order_id).unwrap();
    assert_eq!(order.status, OrderStatus::PartiallyFilled);
    assert_eq!(order.filled_volume, LOT / 2);

    manager.fill(order_id, LOT / 2, 100 * PRICE_UNIT);
    let order = manager.get_order(order_id).unwrap();
    assert_eq!(order.status, OrderStatus::Filled);

    let stats = manager.get_stats();
    assert_eq!(stats.filled_orders, 1);
}

#[test]
fn test_cancel_orders() {
    let mut manager = OrderManager::new(1000);

    let order1 = Order::buy(1, LOT, 100 * PRICE_UNIT);
    let order2 = Order::sell(1, LOT, 101 * PRICE_UNIT);

    manager.submit(order1);
    manager.submit(order2);

    assert_eq!(manager.get_active_orders().len(), 2);

    manager.cancel_all(1);
    assert_eq!(manager.get_active_orders().len(), 0);

    let stats = manager.get_stats();
    assert_eq!(stats.cancelled_orders, 2);
}

fn order_with_id(id: u64, instrument: u32) -> Order {
    let mut o = Order::buy(instrument, LOT, 100 * PRICE_UNIT);
    o.order_id = id;
    o
}

#[test]
fn submitted_order_is_pending_and_active() {
    let mut manager = OrderManager::new(10);
    let id = manager.submit_at(order_with_id(7, 3), 500);
    assert_eq!(id, 7);
    let o = manager.get_order(7).unwrap();
    assert_eq!(o.status, OrderStatus::Pending);
    assert_eq!(o.created_at_ns, 500);
    assert_eq!(manager.get_active_orders()[0].order_id, 7);
    assert_eq!(manager.get_stats().total_orders, 1);
    assert_eq!(manager.get_stats().active_orders, 1);
}

#[test]
fn cancel_is_final() {
    let mut manager = OrderManager::new(10);
    manager.submit_at(order_with_id(1, 1), 10);
    assert!(manager.cancel_at(1, 20));
    assert!(!manager.cancel_at(1, 30));
    assert!(manager.get_active_orders().is_empty());
    assert_eq!(manager.get_stats().cancelled_orders, 1);
}

#[test]
fn unknown_orders_are_refused() {
    let mut manager = OrderManager::new(10);
    assert!(!manager.accept_at(9, 1));
    assert!(!manager.fill_at(9, 1, 1, 1));
    assert!(!manager.cancel_at(9, 1));
    assert!(manager.get_order(9).is_none());
}

#[test]
fn fill_average_price_is_volume_weighted() {
    let mut manager = OrderManager::new(10);
    manager.submit_at(order_with_id(5, 1), 0);
    manager.fill_at(5, LOT / 4, 100, 10);
    manager.fill_at(5, LOT / 4, 200, 20);
    let o = manager.get_order(5).unwrap();
    assert_eq!(o.avg_fill_price, 150);
    assert_eq!(o.filled_volume, LOT / 2);
    assert_eq!(o.status, OrderStatus::PartiallyFilled);
    assert_eq!(o.remaining_volume(), LOT / 2);
    manager.fill_at(5, LOT / 2 - 1, 150, 30);
    let o = manager.get_order(5).unwrap();
    assert_eq!(o.status, OrderStatus::Filled);
    assert_eq!(o.filled_at_ns, Some(30));
    assert!(manager.get_active_orders().is_empty());
    let stats = manager.get_stats();
    assert_eq!(stats.filled_orders, 1);
    assert_eq!(stats.avg_fill_time_ns, 30);
    assert_eq!(stats.total_volume, (LOT - 1) as u128);
}

#[test]
fn reject_tags_reason_and_deactivates() {
    let mut manager = OrderManager::new(10);
    manager.submit_at(order_with_id(3, 1), 0);
    manager.reject(3, "price band");
    let o = manager.get_order(3).unwrap();
    assert_eq!(o.status, OrderStatus::Rejected);
    assert_eq!(o.tags.last().unwrap().0, "reject_reason");
    assert_eq!(o.tags.last().unwrap().1, "price band");
    assert!(manager.get_active_orders().is_empty());
    manager.reject(3, "size limit");
    let o = manager.get_order(3).unwrap();
    let reasons: Vec<&(String, String)> = o.tags.iter().filter(|t| t.0 == "reject_reason").collect();
    assert_eq!(reasons.len(), 1);
    assert_eq!(reasons[0].1, "size limit");
}

#[test]
fn orders_for_instrument_and_exposure() {
    let mut manager = OrderManager::new(10);
    manager.submit_at(order_with_id(1, 1), 0);
    manager.submit_at(order_with_id(2, 2), 0);
    manager.submit_at(order_with_id(3, 1), 0);
    let mut ids: Vec<u64> = manager.get_orders_for_instrument(1).iter().map(|o| o.order_id).collect();
    ids.sort();
    assert_eq!(ids, vec![1, 3]);
    assert_eq!(manager.total_exposure(), 3 * (LOT as u128) * (100 * PRICE_UNIT) as u128);
    assert_eq!(manager.cancel_all_at(1, 5), 2);
    assert_eq!(manager.get_active_orders().len(), 1);
}

#[test]
fn cleanup_removes_stale_stored_orders() {
    let mut manager = OrderManager::new(10);
    let mut old = order_with_id(1, 1);
    old.updated_at_ns = 100;
    let mut fresh = order_with_id(2, 1);
    fresh.updated_at_ns = 5_000;
    manager.submit_at(old, 0);
    manager.submit_at(fresh, 0);
    assert_eq!(manager.cleanup_at(1_000, 3_000), 1);
    assert!(manager.get_order(1).is_none());
    assert!(manager.get_order(2).is_some());
    assert_eq!(manager.get_active_orders().len(), 2);
}

#[test]
fn expirations_follow_time_in_force() {
    let mut manager = OrderManager::new(10);
    let mut ioc = order_with_id(1, 1);
    ioc.time_in_force = TimeInForce::ImmediateOrCancel;
    let mut dated = order_with_id(2, 1);
    dated.time_in_force = TimeInForce::GoodTillDate(1_000);
    let mut gtc = order_with_id(3, 1);
    gtc.time_in_force = TimeInForce::GoodTillCancel;
    manager.submit_at(ioc, 0);
    manager.submit_at(dated, 0);
    manager.submit_at(gtc, 0);
    let mut expired = manager.check_expirations_at(500);
    assert_eq!(expired, vec![1]);
    expired = manager.check_expirations_at(2_000);
    assert_eq!(expired, vec![2]);
    assert_eq!(manager.get_order(2).unwrap().status, OrderStatus::Expired);
    assert_eq!(manager.get_active_orders().len(), 1);
    let day = 86_400_000_000_000u64;
    let mut day_order = order_with_id(4, 1);
    day_order.time_in_force = TimeInForce::Day;
    manager.submit_at(day_order, 10);
    assert!(manager.check_expirations_at(10 + day).is_empty());
    assert_eq!(manager.check_expirations_at(11 + day), vec![4]);
}

#[test]
fn order_helpers() {
    let mut o = Order::sell(4, 10, 500);
    assert_eq!(o.side, OrderSide::Sell);
    assert_eq!(o.tick_size, 100);
    assert!(!o.is_filled());
    o.add_fill_at(9, 510, 1);
    assert!(o.is_filled());
    assert_eq!(o.slippage(500), 10);
    o.cancel_at(2);
    assert_eq!(o.status, OrderStatus::Cancelled);
    let copy = o.duplicate();
    assert_eq!(copy.updated_at_ns, 2);
}

#[test]
fn execution_state_records_and_updates_orders() {
    let mut state = ExecutionState::new();
    assert_eq!(state.orders.len(), 0);
    state.record_order(order_with_id(7, 1));
    state.record_order(order_with_id(8, 2));
    assert_eq!(state.orders.len(), 2);
    state.update_order(7, OrderStatus::Filled);
    assert_eq!(state.orders.get(&7).unwrap().status, OrderStatus::Filled);
    assert_eq!(state.orders.get(&8).unwrap().status, OrderStatus::New);
    state.update_order(99, OrderStatus::Cancelled);
    assert_eq!(state.orders.len(), 2);
    assert_eq!(state.get_stats(), ExecutionStats::default());
    let stats = ExecutionStats { total_orders: 2, filled_orders: 1, ..ExecutionStats::default() };
    state.update_stats(stats);
    assert_eq!(state.get_stats().total_orders, 2);
    assert_eq!(state.get_stats().filled_orders, 1);
}

#[test]
fn two_half_fills_average_and_complete() {
    let mut o = Order::buy(1, LOT, 100 * PRICE_UNIT);
    o.add_fill(LOT / 2, 100 * PRICE_UNIT);
    assert_eq!(o.status, OrderStatus::PartiallyFilled);
    assert!(o.filled_at_ns.is_none());
    o.add_fill(LOT / 2, 102 * PRICE_UNIT);
    assert_eq!(o.filled_volume, LOT);
    assert_eq!(o.avg_fill_price, 101 * PRICE_UNIT);
    assert_eq!(o.status, OrderStatus::Filled);
    assert!(o.filled_at_ns.is_some());
}
