//! Binance-shaped upstream feed.
//!
//! Binance pushes depth snapshots unsolicited on a per-symbol stream URL; no
//! subscribe message is sent. Every snapshot carries exactly the top ten
//! levels per side, so conversion keeps each side whole and applies no cap
//! of its own.

use vstd::prelude::*;

use crate::book::{Exchange, Summary, SummaryView};
use crate::json::{parse_binance_message, spec_binance_message};
use crate::normalize::{DecodeError, RawBook, raw_views, spec_summary_from_sides, summary_from_sides};
use crate::wire::append_bytes;

verus! {

/// Bytes of `"/ws/"`, the stream path before the symbol.
pub open spec fn ws_path() -> Seq<u8> {
    seq![47u8, 119u8, 115u8, 47u8]
}

/// Bytes of `"@depth10@100ms"`, the depth-stream qualifier after the symbol.
pub open spec fn depth_qualifier() -> Seq<u8> {
    seq![64u8, 100u8, 101u8, 112u8, 116u8, 104u8, 49u8, 48u8, 64u8, 49u8, 48u8, 48u8, 109u8, 115u8]
}

/// Builds the websocket URL for one symbol's depth stream:
/// `<base>/ws/<symbol>@depth10@100ms`.
pub fn stream_url(base: &[u8], symbol: &[u8]) -> (r: Vec<u8>)
    ensures
        r@ == base@ + ws_path() + symbol@ + depth_qualifier(),
{
    let mut r: Vec<u8> = Vec::new();
    proof {
        assert(r@ =~= Seq::<u8>::empty());
    }
    append_bytes(&mut r, base);
    proof {
        assert(r@ =~= base@);
    }
    let path: Vec<u8> = vec![47u8, 119u8, 115u8, 47u8];
    append_bytes(&mut r, path.as_slice());
    append_bytes(&mut r, symbol);
    let qualifier: Vec<u8> = vec![
        64u8,
        100u8,
        101u8,
        112u8,
        116u8,
        104u8,
        49u8,
        48u8,
        64u8,
        49u8,
        48u8,
        48u8,
        109u8,
        115u8,
    ];
    append_bytes(&mut r, qualifier.as_slice());
    proof {
        assert(path@ =~= ws_path());
        assert(qualifier@ =~= depth_qualifier());
        assert(r@ =~= base@ + ws_path() + symbol@ + depth_qualifier());
    }
    r
}

/// Converts one decoded depth message into a normalized summary, tagging
/// every level with the binance identifier. Both sides are kept whole.
pub fn summary_from_depth(book: &RawBook) -> (r: Result<Summary, DecodeError>)
    ensures
        r matches Result::Ok(s) ==> spec_summary_from_sides(
            Exchange::Binance,
            raw_views(book.bids@),
            raw_views(book.asks@),
        ) == Result::<SummaryView, DecodeError>::Ok(s@),
        r matches Result::Err(e) ==> spec_summary_from_sides(
            Exchange::Binance,
            raw_views(book.bids@),
            raw_views(book.asks@),
        ) == Result::<SummaryView, DecodeError>::Err(e),
{
    let r = summary_from_sides(Exchange::Binance, book, book.bids.len(), book.asks.len());
    proof {
        assert(crate::normalize::spec_capped(raw_views(book.bids@), book.bids@.len() as int)
            == raw_views(book.bids@));
        assert(crate::normalize::spec_capped(raw_views(book.asks@), book.asks@.len() as int)
            == raw_views(book.asks@));
    }
    r
}

/// How a raw frame decodes end to end: the message grammar first, then the
/// side conversion. A frame the grammar rejects is malformed; a frame whose
/// numbers fail to parse carries that error out.
pub open spec fn spec_decode_binance(s: Seq<u8>) -> Result<SummaryView, DecodeError> {
    match spec_binance_message(s) {
        Option::None => Result::Err(DecodeError::Malformed),
        Option::Some((b, a)) => spec_summary_from_sides(Exchange::Binance, b, a),
    }
}

/// Decodes one inbound text frame into a normalized summary.
pub fn decode_message(text: &[u8]) -> (r: Result<Summary, DecodeError>)
    ensures
        r matches Result::Ok(sm) ==> spec_decode_binance(text@) == Result::<
            SummaryView,
            DecodeError,
        >::Ok(sm@),
        r matches Result::Err(e) ==> spec_decode_binance(text@) == Result::<
            SummaryView,
            DecodeError,
        >::Err(e),
{
    match parse_binance_message(text) {
        Option::None => Result::Err(DecodeError::Malformed),
        Option::Some(book) => summary_from_depth(&book),
    }
}

} // verus!
