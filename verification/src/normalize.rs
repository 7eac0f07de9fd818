//! Conversion of a decoded vendor snapshot into a normalized [`Summary`].
//!
//! A vendor snapshot arrives as two sequences of `(price, amount)` decimal
//! strings, already ordered by the venue (bids descending, asks ascending).
//! Conversion parses every retained pair, tags each level with the venue,
//! and computes the spread; a single bad number rejects the whole snapshot,
//! so partial decodes are never published.

use vstd::prelude::*;

use crate::book::{Exchange, Level, Summary, SummaryView};
use crate::decimal::spec_parse_fixed;
use crate::decimal::parse_fixed;

verus! {

/// Why a vendor snapshot was rejected.
#[derive(Clone, Copy, Debug, PartialEq, Eq, Structural)]
pub enum DecodeError {
    /// The message is not a well-formed frame of the vendor's shape.
    Malformed,
    /// A price or amount string is not a well-formed decimal in range.
    InvalidNumber,
    /// A price parsed to zero; prices must be positive.
    NonPositivePrice,
}

/// One undecoded price level: a pair of decimal strings as the venue sent it.
#[derive(Clone, Debug, PartialEq)]
pub struct RawLevel {
    pub price: Vec<u8>,
    pub amount: Vec<u8>,
}

impl View for RawLevel {
    type V = (Seq<u8>, Seq<u8>);

    open spec fn view(&self) -> (Seq<u8>, Seq<u8>) {
        (self.price@, self.amount@)
    }
}

/// One undecoded vendor snapshot: both sides in venue order.
#[derive(Clone, Debug, PartialEq)]
pub struct RawBook {
    pub bids: Vec<RawLevel>,
    pub asks: Vec<RawLevel>,
}

pub open spec fn raw_views(s: Seq<RawLevel>) -> Seq<(Seq<u8>, Seq<u8>)> {
    s.map_values(|r: RawLevel| r@)
}

/// How one `(price, amount)` pair decodes: both strings must parse, and the
/// price must be positive.
pub open spec fn spec_parse_level(ex: Exchange, raw: (Seq<u8>, Seq<u8>)) -> Result<
    Level,
    DecodeError,
> {
    match spec_parse_fixed(raw.0) {
        Option::None => Result::Err(DecodeError::InvalidNumber),
        Option::Some(p) => if p == 0 {
            Result::Err(DecodeError::NonPositivePrice)
        } else {
            match spec_parse_fixed(raw.1) {
                Option::None => Result::Err(DecodeError::InvalidNumber),
                Option::Some(a) => Result::Ok(Level { exchange: ex, price: p, amount: a }),
            }
        },
    }
}

/// How one side decodes: each pair in order, stopping at the first error.
pub open spec fn spec_parse_side(ex: Exchange, side: Seq<(Seq<u8>, Seq<u8>)>) -> Result<
    Seq<Level>,
    DecodeError,
>
    decreases side.len(),
{
    if side.len() == 0 {
        Result::Ok(Seq::empty())
    } else {
        match spec_parse_level(ex, side[0]) {
            Result::Err(e) => Result::Err(e),
            Result::Ok(l) => match spec_parse_side(ex, side.drop_first()) {
                Result::Err(e) => Result::Err(e),
                Result::Ok(rest) => Result::Ok(seq![l] + rest),
            },
        }
    }
}

/// The retained prefix of a side: everything up to `cap` pairs.
pub open spec fn spec_capped(side: Seq<(Seq<u8>, Seq<u8>)>, cap: int) -> Seq<(Seq<u8>, Seq<u8>)> {
    if side.len() <= cap {
        side
    } else {
        side.take(cap)
    }
}

/// How a whole snapshot decodes: bids first, then asks, then the spread from
/// the two best levels (zero when either side is empty).
pub open spec fn spec_summary_from_sides(
    ex: Exchange,
    bids: Seq<(Seq<u8>, Seq<u8>)>,
    asks: Seq<(Seq<u8>, Seq<u8>)>,
) -> Result<SummaryView, DecodeError> {
    match spec_parse_side(ex, bids) {
        Result::Err(e) => Result::Err(e),
        Result::Ok(bl) => match spec_parse_side(ex, asks) {
            Result::Err(e) => Result::Err(e),
            Result::Ok(al) => Result::Ok(
                SummaryView {
                    spread: if bl.len() > 0 && al.len() > 0 {
                        al[0].price - bl[0].price
                    } else {
                        0
                    },
                    bids: bl,
                    asks: al,
                },
            ),
        },
    }
}

/// Parses one `(price, amount)` pair into a tagged level.
pub fn parse_level(ex: Exchange, raw: &RawLevel) -> (r: Result<Level, DecodeError>)
    ensures
        r == spec_parse_level(ex, raw@),
{
    match parse_fixed(raw.price.as_slice()) {
        Option::None => Result::Err(DecodeError::InvalidNumber),
        Option::Some(p) => {
            if p == 0 {
                Result::Err(DecodeError::NonPositivePrice)
            } else {
                match parse_fixed(raw.amount.as_slice()) {
                    Option::None => Result::Err(DecodeError::InvalidNumber),
                    Option::Some(a) => Result::Ok(Level { exchange: ex, price: p, amount: a }),
                }
            }
        },
    }
}

/// Unfolds [`spec_parse_side`] one pair at a time, front to back.
proof fn lemma_parse_side_step(ex: Exchange, side: Seq<(Seq<u8>, Seq<u8>)>, i: int)
    requires
        0 <= i < side.len(),
    ensures
        spec_parse_side(ex, side.skip(i)) == match spec_parse_level(ex, side[i]) {
            Result::Err(e) => Result::<Seq<Level>, DecodeError>::Err(e),
            Result::Ok(l) => match spec_parse_side(ex, side.skip(i + 1)) {
                Result::Err(e) => Result::<Seq<Level>, DecodeError>::Err(e),
                Result::Ok(rest) => Result::Ok(seq![l] + rest),
            },
        },
{
    assert(side.skip(i).len() > 0);
    assert(side.skip(i)[0] == side[i]);
    assert(side.skip(i).drop_first() =~= side.skip(i + 1));
}

/// Parses the first `cap` pairs of one side, in order.
pub fn parse_side(ex: Exchange, side: &Vec<RawLevel>, cap: usize) -> (r: Result<
    Vec<Level>,
    DecodeError,
>)
    ensures
        r matches Result::Ok(ls) ==> spec_parse_side(ex, spec_capped(raw_views(side@), cap as int))
            == Result::<Seq<Level>, DecodeError>::Ok(ls@),
        r matches Result::Err(e) ==> spec_parse_side(
            ex,
            spec_capped(raw_views(side@), cap as int),
        ) == Result::<Seq<Level>, DecodeError>::Err(e),
{
    let m: usize = if cap < side.len() {
        cap
    } else {
        side.len()
    };
    let ghost capped: Seq<(Seq<u8>, Seq<u8>)> = spec_capped(raw_views(side@), cap as int);
    proof {
        assert(capped =~= raw_views(side@).take(m as int));
    }
    let mut out: Vec<Level> = Vec::new();
    proof {
        assert(out@ =~= Seq::<Level>::empty());
        assert(capped.skip(0) =~= capped);
        match spec_parse_side(ex, capped) {
            Result::Ok(rest) => {
                assert(Seq::<Level>::empty() + rest =~= rest);
            },
            Result::Err(_) => {},
        }
    }
    let mut i: usize = 0;
    while i < m
        invariant
            0 <= i <= m <= side@.len(),
            capped == spec_capped(raw_views(side@), cap as int),
            capped =~= raw_views(side@).take(m as int),
            capped.len() == m,
            spec_parse_side(ex, capped) == match spec_parse_side(ex, capped.skip(i as int)) {
                Result::Err(e) => Result::<Seq<Level>, DecodeError>::Err(e),
                Result::Ok(rest) => Result::Ok(out@ + rest),
            },
        decreases m - i,
    {
        let ghost prev_out = out@;
        proof {
            lemma_parse_side_step(ex, capped, i as int);
            assert(capped[i as int] == raw_views(side@)[i as int]);
            assert(raw_views(side@)[i as int] == side@[i as int]@);
        }
        match parse_level(ex, &side[i]) {
            Result::Err(e) => {
                return Result::Err(e);
            },
            Result::Ok(l) => {
                out.push(l);
                proof {
                    match spec_parse_side(ex, capped.skip(i as int + 1)) {
                        Result::Ok(rest) => {
                            assert(prev_out + (seq![l] + rest) =~= out@ + rest);
                        },
                        Result::Err(_) => {},
                    }
                }
            },
        }
        i = i + 1;
    }
    proof {
        assert(capped.skip(m as int) =~= Seq::empty());
        assert(spec_parse_side(ex, capped.skip(m as int)) == Result::<
            Seq<Level>,
            DecodeError,
        >::Ok(Seq::empty()));
        assert(out@ + Seq::<Level>::empty() =~= out@);
    }
    Result::Ok(out)
}

/// Converts a vendor snapshot into a normalized summary, keeping at most
/// `bid_cap` bids and `ask_cap` asks. The levels are not re-sorted here: the
/// venue's order is kept, and the merger alone decides the final order.
pub fn summary_from_sides(ex: Exchange, book: &RawBook, bid_cap: usize, ask_cap: usize) -> (r:
    Result<Summary, DecodeError>)
    ensures
        r matches Result::Ok(s) ==> spec_summary_from_sides(
            ex,
            spec_capped(raw_views(book.bids@), bid_cap as int),
            spec_capped(raw_views(book.asks@), ask_cap as int),
        ) == Result::<SummaryView, DecodeError>::Ok(s@),
        r matches Result::Err(e) ==> spec_summary_from_sides(
            ex,
            spec_capped(raw_views(book.bids@), bid_cap as int),
            spec_capped(raw_views(book.asks@), ask_cap as int),
        ) == Result::<SummaryView, DecodeError>::Err(e),
{
    let bids = match parse_side(ex, &book.bids, bid_cap) {
        Result::Err(e) => {
            return Result::Err(e);
        },
        Result::Ok(bl) => bl,
    };
    let asks = match parse_side(ex, &book.asks, ask_cap) {
        Result::Err(e) => {
            return Result::Err(e);
        },
        Result::Ok(al) => al,
    };
    let spread: i128 = if bids.len() > 0 && asks.len() > 0 {
        asks[0].price as i128 - bids[0].price as i128
    } else {
        0
    };
    Result::Ok(Summary { spread, bids, asks })
}

} // verus!
