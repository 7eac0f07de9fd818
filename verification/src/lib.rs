//! A verified core for a live order-book aggregator.
//!
//! Two upstream venue feeds are normalized into fixed-point summaries, a
//! latest-per-source merger combines them into one sorted, depth-capped
//! snapshot, and a fan-out policy decides what each streaming subscriber
//! sees. All I/O — websockets, broadcast buses, the RPC transport — stays
//! outside this crate; callers hand in decoded byte strings and events and
//! take back plain values.

use vstd::prelude::*;

pub mod binance;
pub mod bitstamp;
pub mod book;
pub mod decimal;
pub mod json;
pub mod merger;
pub mod normalize;
pub mod wire;

use crate::book::Summary;
use crate::decimal::{all_digits, digits_val, is_digit, lemma_digits_val_nonneg,
    lemma_digits_val_step, lemma_digits_val_take_bound};
use crate::merger::Top10SummaryMerger;

verus! {

/// Default TCP port of the streaming RPC endpoint.
pub const DEFAULT_GRPC_PORT: u16 = 7016;

/// ASCII code of `'+'`, the one sign a port numeral may carry.
pub const PLUS: u8 = 43;

/// What a port numeral is worth: an optional `'+'`, then digits whose value
/// fits a `u16`.
pub open spec fn spec_parse_port(s: Seq<u8>) -> Option<u16> {
    let t = if s.len() > 0 && s[0] == PLUS {
        s.drop_first()
    } else {
        s
    };
    if t.len() > 0 && all_digits(t) && digits_val(t) <= u16::MAX {
        Option::Some(digits_val(t) as u16)
    } else {
        Option::None
    }
}

/// Parses a port numeral, as found in an environment override.
pub fn parse_port(s: &[u8]) -> (r: Option<u16>)
    ensures
        r == spec_parse_port(s@),
{
    let start: usize = if s.len() > 0 && s[0] == PLUS {
        1
    } else {
        0
    };
    let ghost t = if start == 1 {
        s@.drop_first()
    } else {
        s@
    };
    proof {
        assert(t =~= s@.skip(start as int));
        if start == 1 {
            assert(t =~= s@.drop_first());
        }
    }
    if s.len() == start {
        return Option::None;
    }
    let mut acc: u32 = 0;
    let mut i: usize = start;
    while i < s.len()
        invariant
            start <= i <= s@.len(),
            start == 0 || start == 1,
            start == 1 ==> s@.len() > 0 && s@[0] == PLUS,
            start == 0 ==> !(s@.len() > 0 && s@[0] == PLUS),
            t == s@.skip(start as int),
            t == (if s@.len() > 0 && s@[0] == PLUS { s@.drop_first() } else { s@ }),
            forall|k: int| start <= k < i ==> is_digit(s@[k]),
            acc == digits_val(t.take(i - start)),
            acc <= u16::MAX,
        decreases s@.len() - i,
    {
        let b = s[i];
        if b < crate::decimal::DIGIT_ZERO || b > crate::decimal::DIGIT_ZERO + 9 {
            assert(!is_digit(t[i - start]));
            return Option::None;
        }
        proof {
            lemma_digits_val_step(t, i - start);
        }
        acc = acc * 10 + ((b - crate::decimal::DIGIT_ZERO) as u32);
        i = i + 1;
        if acc > u16::MAX as u32 {
            proof {
                if all_digits(t) {
                    lemma_digits_val_take_bound(t, i - start);
                    lemma_digits_val_nonneg(t);
                }
            }
            return Option::None;
        }
    }
    proof {
        assert forall|k: int| 0 <= k < t.len() implies is_digit(t[k]) by {
            assert(t[k] == s@[k + start]);
        }
        assert(t.take(i - start) =~= t);
    }
    Option::Some(acc as u16)
}

/// One observation on a broadcast bus, as the surrounding runtime reports it.
#[derive(Debug)]
pub enum RecvEvent {
    /// A summary arrived.
    Message(Summary),
    /// This receiver fell behind and messages were dropped for it.
    Lagged,
    /// The publisher is gone.
    Closed,
}

/// What a bus consumer does with one observation.
#[derive(Debug, PartialEq)]
pub enum RecvAction {
    /// Hand the summary on.
    Forward(Summary),
    /// Ignore the observation and keep receiving.
    Skip,
    /// Stop consuming.
    Stop,
}

/// The latest-value policy shared by every bus consumer: a message is
/// forwarded, a lag notice is dropped silently (the next message carries the
/// newest state, so nothing correct is lost), and a closed bus ends the
/// consumer.
pub open spec fn spec_recv_action(e: RecvEvent) -> RecvAction {
    match e {
        RecvEvent::Message(s) => RecvAction::Forward(s),
        RecvEvent::Lagged => RecvAction::Skip,
        RecvEvent::Closed => RecvAction::Stop,
    }
}

/// Decides what a bus consumer does with one observation.
pub fn recv_action(e: RecvEvent) -> (a: RecvAction)
    ensures
        a == spec_recv_action(e),
{
    match e {
        RecvEvent::Message(s) => RecvAction::Forward(s),
        RecvEvent::Lagged => RecvAction::Skip,
        RecvEvent::Closed => RecvAction::Stop,
    }
}

/// The fan-out server's state: the merged-summary source every call
/// subscribes to.
#[derive(Debug)]
pub struct GrcServer {
    pub events: Top10SummaryMerger,
}

impl GrcServer {
    /// A server publishing the given merger's output.
    pub fn new(events: Top10SummaryMerger) -> (r: GrcServer)
        ensures
            r.events.slots@ == events.slots@,
    {
        GrcServer { events }
    }

    /// Decides what one subscriber's stream does with one observation of the
    /// merged bus: forward summaries, skip lag notices without disconnecting,
    /// end the stream when the bus closes.
    pub fn book_summary_step(&self, e: RecvEvent) -> (a: RecvAction)
        ensures
            a == spec_recv_action(e),
    {
        recv_action(e)
    }
}

} // verus!
