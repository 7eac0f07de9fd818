//! Bitstamp-shaped upstream feed.
//!
//! Bitstamp requires an explicit subscribe envelope naming the order-book
//! channel for the symbol, and then ships the top hundred levels per side;
//! conversion keeps only the first ten of each.

use vstd::prelude::*;

use crate::book::{Exchange, Summary, SummaryView, MAX_DEPTH};
use crate::normalize::{
    DecodeError,
    RawBook,
    raw_views,
    spec_capped,
    spec_summary_from_sides,
    summary_from_sides,
};
use crate::json::{event_data, is_event_data, parse_bitstamp_message, spec_bitstamp_message};
use crate::wire::append_bytes;

verus! {

/// Bytes of `{"event":"bts:subscribe","data":{"channel":"order_book_`,
/// everything of the subscribe envelope before the symbol.
pub open spec fn subscribe_prefix() -> Seq<u8> {
    seq![
        123u8, 34u8, 101u8, 118u8, 101u8, 110u8, 116u8, 34u8, 58u8, 34u8, 98u8, 116u8, 115u8,
        58u8, 115u8, 117u8, 98u8, 115u8, 99u8, 114u8, 105u8, 98u8, 101u8, 34u8, 44u8, 34u8,
        100u8, 97u8, 116u8, 97u8, 34u8, 58u8, 123u8, 34u8, 99u8, 104u8, 97u8, 110u8, 110u8,
        101u8, 108u8, 34u8, 58u8, 34u8, 111u8, 114u8, 100u8, 101u8, 114u8, 95u8, 98u8, 111u8,
        111u8, 107u8, 95u8,
    ]
}

/// Bytes of `"}}`, the end of the subscribe envelope.
pub open spec fn subscribe_suffix() -> Seq<u8> {
    seq![34u8, 125u8, 125u8]
}

/// Builds the subscribe envelope for one symbol's order-book channel:
/// `{"event":"bts:subscribe","data":{"channel":"order_book_<symbol>"}}`.
pub fn subscribe_message(symbol: &[u8]) -> (r: Vec<u8>)
    ensures
        r@ == subscribe_prefix() + symbol@ + subscribe_suffix(),
{
    let mut r: Vec<u8> = Vec::new();
    proof {
        assert(r@ =~= Seq::<u8>::empty());
    }
    let prefix: Vec<u8> = vec![
        123u8, 34u8, 101u8, 118u8, 101u8, 110u8, 116u8, 34u8, 58u8, 34u8, 98u8, 116u8, 115u8,
        58u8, 115u8, 117u8, 98u8, 115u8, 99u8, 114u8, 105u8, 98u8, 101u8, 34u8, 44u8, 34u8,
        100u8, 97u8, 116u8, 97u8, 34u8, 58u8, 123u8, 34u8, 99u8, 104u8, 97u8, 110u8, 110u8,
        101u8, 108u8, 34u8, 58u8, 34u8, 111u8, 114u8, 100u8, 101u8, 114u8, 95u8, 98u8, 111u8,
        111u8, 107u8, 95u8,
    ];
    append_bytes(&mut r, prefix.as_slice());
    proof {
        assert(prefix@ =~= subscribe_prefix());
        assert(r@ =~= subscribe_prefix());
    }
    append_bytes(&mut r, symbol);
    let suffix: Vec<u8> = vec![34u8, 125u8, 125u8];
    append_bytes(&mut r, suffix.as_slice());
    proof {
        assert(suffix@ =~= subscribe_suffix());
        assert(r@ =~= subscribe_prefix() + symbol@ + subscribe_suffix());
    }
    r
}

/// Converts one decoded order-book payload into a normalized summary,
/// tagging every level with the bitstamp identifier. Only the first ten
/// levels of each side are retained.
pub fn summary_from_order_book(book: &RawBook) -> (r: Result<Summary, DecodeError>)
    ensures
        r matches Result::Ok(s) ==> spec_summary_from_sides(
            Exchange::Bitstamp,
            spec_capped(raw_views(book.bids@), MAX_DEPTH as int),
            spec_capped(raw_views(book.asks@), MAX_DEPTH as int),
        ) == Result::<SummaryView, DecodeError>::Ok(s@),
        r matches Result::Err(e) ==> spec_summary_from_sides(
            Exchange::Bitstamp,
            spec_capped(raw_views(book.bids@), MAX_DEPTH as int),
            spec_capped(raw_views(book.asks@), MAX_DEPTH as int),
        ) == Result::<SummaryView, DecodeError>::Err(e),
{
    summary_from_sides(Exchange::Bitstamp, book, MAX_DEPTH, MAX_DEPTH)
}

/// How a raw frame decodes end to end: the envelope grammar first, then —
/// for `data` events only — the side conversion of the nested book. A frame
/// whose event tag is missing or different is not for this pipeline and
/// decodes to nothing.
pub open spec fn spec_decode_bitstamp(s: Seq<u8>) -> Result<Option<SummaryView>, DecodeError> {
    match spec_bitstamp_message(s) {
        Option::None => Result::Err(DecodeError::Malformed),
        Option::Some((ev, data)) => {
            if ev != Option::Some(event_data()) {
                Result::Ok(Option::None)
            } else {
                match data {
                    Option::None => Result::Err(DecodeError::Malformed),
                    Option::Some((b, a)) => match spec_summary_from_sides(
                        Exchange::Bitstamp,
                        spec_capped(b, MAX_DEPTH as int),
                        spec_capped(a, MAX_DEPTH as int),
                    ) {
                        Result::Err(e) => Result::Err(e),
                        Result::Ok(v) => Result::Ok(Option::Some(v)),
                    },
                }
            }
        },
    }
}

/// Decodes one inbound text frame: `Ok(None)` for frames that are not
/// `data` events, a normalized summary for those that are.
pub fn decode_message(text: &[u8]) -> (r: Result<Option<Summary>, DecodeError>)
    ensures
        (match r {
            Result::Ok(Option::Some(sm)) => spec_decode_bitstamp(text@) == Result::<
                Option<SummaryView>,
                DecodeError,
            >::Ok(Option::Some(sm@)),
            Result::Ok(Option::None) => spec_decode_bitstamp(text@) == Result::<
                Option<SummaryView>,
                DecodeError,
            >::Ok(Option::None),
            Result::Err(e) => spec_decode_bitstamp(text@) == Result::<
                Option<SummaryView>,
                DecodeError,
            >::Err(e),
        }),
{
    match parse_bitstamp_message(text) {
        Option::None => Result::Err(DecodeError::Malformed),
        Option::Some((ev, data)) => {
            let is_data = match &ev {
                Option::Some(v) => is_event_data(v),
                Option::None => false,
            };
            if !is_data {
                return Result::Ok(Option::None);
            }
            match data {
                Option::None => Result::Err(DecodeError::Malformed),
                Option::Some(book) => match summary_from_order_book(&book) {
                    Result::Ok(sm) => Result::Ok(Option::Some(sm)),
                    Result::Err(e) => Result::Err(e),
                },
            }
        },
    }
}

} // verus!
