// Market ticks. Prices are keys in units of 1e-4 and volumes are counted
// in 1e-8 lots (see `config::constants`).
use vstd::prelude::*;

verus! {

/// What a tick reports.
#[derive(Debug, Clone, Copy, PartialEq, Eq, Structural)]
pub enum TickType {
    Bid,
    Ask,
    Trade,
    Snapshot,
}

/// One market event for an instrument.
#[derive(Debug, Clone, Copy)]
pub struct Tick {
    pub instrument_id: u32,
    pub price: u64,
    pub volume: u64,
    pub tick_type: TickType,
    pub timestamp_ns: u64,
}

impl Default for Tick {
    fn default() -> (t: Self)
        ensures
            t.instrument_id == 0,
            t.price == 0,
            t.volume == 0,
            t.tick_type == TickType::Trade,
            t.timestamp_ns == 0,
    {
        Tick { instrument_id: 0, price: 0, volume: 0, tick_type: TickType::Trade, timestamp_ns: 0 }
    }
}

} // verus!
