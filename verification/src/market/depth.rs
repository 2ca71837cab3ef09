// Market depth: the top levels of a book with their running volumes.
use vstd::prelude::*;
use crate::market::order_book::{OrderBook, is_top_levels};

verus! {

/// One level of depth.
#[derive(Debug, Clone, Copy, PartialEq, Eq, Structural)]
pub struct DepthLevel {
    pub price: u64,
    pub volume: u64,
    /// Volume of this level and all better ones.
    pub cumulative_volume: u128,
    pub order_count: u32,
}

/// Depth of a book: bids from the best down, asks from the best up.
/// The imbalance (in millionths) is not computed and stays 0.
#[derive(Debug, Clone)]
pub struct DepthProfile {
    pub instrument_id: u32,
    pub bids: Vec<DepthLevel>,
    pub asks: Vec<DepthLevel>,
    pub imbalance_ppm: i64,
    pub timestamp_ns: u64,
}

/// Sum of the volumes of the first `n` levels.
pub open spec fn volume_through(levels: Seq<(u64, u64)>, n: int) -> nat
    decreases n,
{
    if n <= 0 {
        0
    } else {
        volume_through(levels, n - 1) + levels[n - 1].1 as nat
    }
}

/// `depth` lists `levels` in order with their running volumes.
pub open spec fn is_depth_of(depth: Seq<DepthLevel>, levels: Seq<(u64, u64)>) -> bool {
    &&& depth.len() == levels.len()
    &&& forall|i: int|
        0 <= i < depth.len() ==> {
            &&& (#[trigger] depth[i]).price == levels[i].0
            &&& depth[i].volume == levels[i].1
            &&& depth[i].cumulative_volume == volume_through(levels, i + 1)
            &&& depth[i].order_count == 0
        }
}

/// Levels with their running volumes.
fn accumulate(levels: Vec<(u64, u64)>) -> (r: Vec<DepthLevel>)
    ensures
        is_depth_of(r@, levels@),
{
    let mut r: Vec<DepthLevel> = Vec::with_capacity(levels.len());
    let mut cumulative: u128 = 0;
    let mut i: usize = 0;
    while i < levels.len()
        invariant
            0 <= i <= levels@.len(),
            r@.len() == i,
            cumulative == volume_through(levels@, i as int),
            cumulative <= i * 0xffff_ffff_ffff_ffff,
            forall|k: int|
                0 <= k < i ==> {
                    &&& (#[trigger] r@[k]).price == levels@[k].0
                    &&& r@[k].volume == levels@[k].1
                    &&& r@[k].cumulative_volume == volume_through(levels@, k + 1)
                    &&& r@[k].order_count == 0
                },
        decreases levels@.len() - i,
    {
        let (price, volume) = levels[i];
        cumulative = cumulative + volume as u128;
        r.push(DepthLevel { price, volume, cumulative_volume: cumulative, order_count: 0 });
        i = i + 1;
    }
    r
}

impl DepthProfile {
    /// The best `max_depth` levels of each side of `book` with running
    /// volumes.
    pub fn from_book(book: &OrderBook, max_depth: usize) -> (p: Self)
        ensures
            p.instrument_id == book.instrument_id,
            p.timestamp_ns == book.timestamp_ns,
            p.imbalance_ppm == 0,
            exists|b: Seq<(u64, u64)>, a: Seq<(u64, u64)>|
                is_top_levels(book.bids@, max_depth, true, b) && is_top_levels(
                    book.asks@,
                    max_depth,
                    false,
                    a,
                ) && is_depth_of(p.bids@, b) && is_depth_of(p.asks@, a),
    {
        let (bid_levels, ask_levels) = book.top_levels(max_depth);
        let ghost (b, a) = (bid_levels@, ask_levels@);
        let bids = accumulate(bid_levels);
        let asks = accumulate(ask_levels);
        let p = DepthProfile {
            instrument_id: book.instrument_id,
            bids,
            asks,
            imbalance_ppm: 0,
            timestamp_ns: book.timestamp_ns,
        };
        assert(is_top_levels(book.bids@, max_depth, true, b) && is_top_levels(
            book.asks@,
            max_depth,
            false,
            a,
        ) && is_depth_of(p.bids@, b) && is_depth_of(p.asks@, a));
        p
    }
}

} // verus!
