// Market data: ticks, order books and their depth, and the bounded tick
// history kept per instrument.
pub mod depth;
pub mod order_book;
pub mod tick;

use vstd::prelude::*;
use std::collections::VecDeque;
use crate::market::tick::Tick;

verus! {

broadcast use vstd::std_specs::vecdeque::group_vec_dequeue_axioms;

/// Ticks kept per instrument.
pub const TICK_HISTORY_LIMIT: usize = 10_000;

/// The last `limit` elements of `s` (all of them when there are fewer).
pub open spec fn latest(s: Seq<Tick>, limit: nat) -> Seq<Tick> {
    if s.len() > limit {
        s.subrange(s.len() - limit, s.len() as int)
    } else {
        s
    }
}

/// Appends `tick` to an instrument's history and drops the oldest ticks
/// beyond `TICK_HISTORY_LIMIT`.
pub fn record_tick(history: &mut VecDeque<Tick>, tick: Tick)
    ensures
        final(history)@ == latest(old(history)@.push(tick), TICK_HISTORY_LIMIT as nat),
{
    history.push_back(tick);
    let ghost t = history@;
    while history.len() > TICK_HISTORY_LIMIT
        invariant
            t == old(history)@.push(tick),
            history@.len() <= t.len(),
            history@ == t.subrange(t.len() - history@.len(), t.len() as int),
            t.len() > TICK_HISTORY_LIMIT ==> history@.len() >= TICK_HISTORY_LIMIT,
            t.len() <= TICK_HISTORY_LIMIT ==> history@.len() == t.len(),
        decreases history@.len(),
    {
        let _ = history.pop_front();
        assert(history@ =~= t.subrange(t.len() - history@.len(), t.len() as int));
    }
    assert(t.len() <= TICK_HISTORY_LIMIT ==> t.subrange(0, t.len() as int) =~= t);
}

} // verus!
