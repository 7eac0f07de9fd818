//! Normalized order-book data model.
//!
//! Prices and amounts are fixed-point numbers: an unsigned integer count of
//! 10^-8 units. The merged view keeps at most ten levels per side.

use vstd::prelude::*;

verus! {

/// Number of fractional decimal digits in a fixed-point price or amount.
pub const FIXED_POINT_DIGITS: u32 = 8;

/// One fixed-point unit is 10^-8, so one whole unit is this many ticks.
pub const FIXED_POINT_ONE: u64 = 100_000_000;

/// Most levels a merged summary keeps on each side.
pub const MAX_DEPTH: usize = 10;

/// The upstream venues this process understands.
#[derive(Clone, Copy, Debug, PartialEq, Eq, Structural)]
pub enum Exchange {
    Binance,
    Bitstamp,
}

impl Exchange {
    /// Wire identifier of the venue, as it appears in published summaries.
    pub fn name(&self) -> (r: &'static str)
        ensures
            self is Binance ==> r@ == "binance"@,
            self is Bitstamp ==> r@ == "bitstamp"@,
    {
        match self {
            Exchange::Binance => "binance",
            Exchange::Bitstamp => "bitstamp",
        }
    }
}

/// One price point at one venue.
#[derive(Clone, Copy, Debug, PartialEq, Eq, Structural)]
pub struct Level {
    /// Venue the offer lives on.
    pub exchange: Exchange,
    /// Fixed-point price; always positive.
    pub price: u64,
    /// Fixed-point amount on offer; may be zero.
    pub amount: u64,
}

/// A merged order-book snapshot.
#[derive(Clone, Debug, PartialEq)]
pub struct Summary {
    /// Best ask price minus best bid price when both sides are non-empty,
    /// else zero. May be negative when the books cross between venues.
    pub spread: i128,
    /// Buy side, best (highest price) first.
    pub bids: Vec<Level>,
    /// Sell side, best (lowest price) first.
    pub asks: Vec<Level>,
}

/// Mathematical shape of a [`Summary`].
#[verifier::ext_equal]
pub struct SummaryView {
    pub spread: int,
    pub bids: Seq<Level>,
    pub asks: Seq<Level>,
}

impl View for Summary {
    type V = SummaryView;

    open spec fn view(&self) -> SummaryView {
        SummaryView { spread: self.spread as int, bids: self.bids@, asks: self.asks@ }
    }
}

impl SummaryView {
    /// The snapshot no venue has reported yet: both sides empty, zero spread.
    pub open spec fn empty() -> SummaryView {
        SummaryView { spread: 0, bids: Seq::empty(), asks: Seq::empty() }
    }
}

impl Default for Summary {
    /// Builds the empty snapshot.
    fn default() -> (s: Summary)
        ensures
            s@ == SummaryView::empty(),
    {
        let s = Summary { spread: 0, bids: Vec::new(), asks: Vec::new() };
        proof {
            assert(s@.bids =~= Seq::<Level>::empty());
            assert(s@.asks =~= Seq::<Level>::empty());
            assert(s@ =~= SummaryView::empty());
        }
        s
    }
}

} // verus!
