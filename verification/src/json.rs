//! Decoding of the vendors' JSON depth messages.
//!
//! Both feeds deliver one JSON object per frame. The decoder reads the
//! fields the pipeline needs — `bids` and `asks` as arrays of two-element
//! string arrays, bitstamp's `event` tag and nested `data` object — and
//! skips any other member. Strings decode the simple escapes only; a
//! `\u` escape, a control byte inside a string, or a duplicated field of
//! interest rejects the message. Numbers are recognized and skipped, never
//! evaluated: prices travel as strings.
//!
//! Every parsing function carries explicit fuel to bound its recursion; the
//! entry points supply more fuel than any message of that length can burn,
//! so the fuel never runs out on input the grammar accepts.

use vstd::prelude::*;

use crate::decimal::is_digit;
use crate::normalize::{RawBook, RawLevel, raw_views};

verus! {

/// One `(price, amount)` string pair as it sits in a side array.
pub type RawPair = (Seq<u8>, Seq<u8>);

pub open spec fn is_json_ws(b: u8) -> bool {
    b == 32 || b == 9 || b == 10 || b == 13
}

/// First position at or after `i` holding no whitespace.
pub open spec fn spec_skip_ws(s: Seq<u8>, i: int) -> int
    decreases s.len() - i,
{
    if 0 <= i < s.len() && is_json_ws(s[i]) {
        spec_skip_ws(s, i + 1)
    } else {
        i
    }
}

/// What a single-character escape decodes to, if it is accepted.
pub open spec fn spec_escape(c: u8) -> Option<u8> {
    if c == 34 {
        Option::Some(34u8)
    } else if c == 92 {
        Option::Some(92u8)
    } else if c == 47 {
        Option::Some(47u8)
    } else if c == 98 {
        Option::Some(8u8)
    } else if c == 102 {
        Option::Some(12u8)
    } else if c == 110 {
        Option::Some(10u8)
    } else if c == 114 {
        Option::Some(13u8)
    } else if c == 116 {
        Option::Some(9u8)
    } else {
        Option::None
    }
}

/// Decodes a string body starting just after the opening quote: the decoded
/// bytes and the position just after the closing quote.
pub open spec fn spec_string_body(s: Seq<u8>, i: int) -> Option<(Seq<u8>, int)>
    decreases s.len() - i,
{
    if !(0 <= i < s.len()) {
        Option::None
    } else if s[i] == 34 {
        Option::Some((Seq::empty(), i + 1))
    } else if s[i] == 92 {
        if i + 1 < s.len() {
            match spec_escape(s[i + 1]) {
                Option::None => Option::None,
                Option::Some(d) => match spec_string_body(s, i + 2) {
                    Option::None => Option::None,
                    Option::Some((t, j)) => Option::Some((seq![d] + t, j)),
                },
            }
        } else {
            Option::None
        }
    } else if s[i] >= 32 {
        match spec_string_body(s, i + 1) {
            Option::None => Option::None,
            Option::Some((t, j)) => Option::Some((seq![s[i]] + t, j)),
        }
    } else {
        Option::None
    }
}

/// First position at or after `i` holding no digit.
pub open spec fn spec_skip_digits(s: Seq<u8>, i: int) -> int
    decreases s.len() - i,
{
    if 0 <= i < s.len() && is_digit(s[i]) {
        spec_skip_digits(s, i + 1)
    } else {
        i
    }
}

/// Recognizes a numeric token — sign, digits, fraction, exponent — and
/// returns the position after it. The value is never computed here.
pub open spec fn spec_skip_number(s: Seq<u8>, i: int) -> Option<int> {
    let j = if 0 <= i < s.len() && s[i] == 45 {
        i + 1
    } else {
        i
    };
    if j < s.len() && is_digit(s[j]) {
        let k = spec_skip_digits(s, j);
        let k2 = if k < s.len() && s[k] == 46 {
            if k + 1 < s.len() && is_digit(s[k + 1]) {
                spec_skip_digits(s, k + 1)
            } else {
                -1
            }
        } else {
            k
        };
        if k2 < 0 {
            Option::None
        } else {
            let k3 = if k2 < s.len() && (s[k2] == 101 || s[k2] == 69) {
                let k4 = if k2 + 1 < s.len() && (s[k2 + 1] == 43 || s[k2 + 1] == 45) {
                    k2 + 2
                } else {
                    k2 + 1
                };
                if k4 < s.len() && is_digit(s[k4]) {
                    spec_skip_digits(s, k4)
                } else {
                    -1
                }
            } else {
                k2
            };
            if k3 < 0 {
                Option::None
            } else {
                Option::Some(k3)
            }
        }
    } else {
        Option::None
    }
}

/// Skips one JSON value starting at `i` (no leading whitespace); the
/// position after it.
pub open spec fn spec_skip_value(s: Seq<u8>, i: int, fuel: nat) -> Option<int>
    decreases fuel,
{
    if fuel == 0 {
        Option::None
    } else if !(0 <= i < s.len()) {
        Option::None
    } else if s[i] == 34 {
        match spec_string_body(s, i + 1) {
            Option::None => Option::None,
            Option::Some((t, j)) => Option::Some(j),
        }
    } else if s[i] == 123 {
        spec_skip_members(s, i + 1, true, (fuel - 1) as nat)
    } else if s[i] == 91 {
        spec_skip_elements(s, i + 1, true, (fuel - 1) as nat)
    } else if s[i] == 116 {
        if i + 4 <= s.len() && s[i + 1] == 114 && s[i + 2] == 117 && s[i + 3] == 101 {
            Option::Some(i + 4)
        } else {
            Option::None
        }
    } else if s[i] == 102 {
        if i + 5 <= s.len() && s[i + 1] == 97 && s[i + 2] == 108 && s[i + 3] == 115 && s[i + 4]
            == 101 {
            Option::Some(i + 5)
        } else {
            Option::None
        }
    } else if s[i] == 110 {
        if i + 4 <= s.len() && s[i + 1] == 117 && s[i + 2] == 108 && s[i + 3] == 108 {
            Option::Some(i + 4)
        } else {
            Option::None
        }
    } else {
        spec_skip_number(s, i)
    }
}

/// Skips array elements from just after `[` (when `first`) or a comma.
pub open spec fn spec_skip_elements(s: Seq<u8>, i: int, first: bool, fuel: nat) -> Option<int>
    decreases fuel,
{
    if fuel == 0 {
        Option::None
    } else {
        let j = spec_skip_ws(s, i);
        if !(j < s.len()) {
            Option::None
        } else if first && s[j] == 93 {
            Option::Some(j + 1)
        } else {
            match spec_skip_value(s, j, (fuel - 1) as nat) {
                Option::None => Option::None,
                Option::Some(k) => {
                    let m = spec_skip_ws(s, k);
                    if m < s.len() && s[m] == 44 {
                        spec_skip_elements(s, m + 1, false, (fuel - 1) as nat)
                    } else if m < s.len() && s[m] == 93 {
                        Option::Some(m + 1)
                    } else {
                        Option::None
                    }
                },
            }
        }
    }
}

/// Skips object members from just after `{` (when `first`) or a comma.
pub open spec fn spec_skip_members(s: Seq<u8>, i: int, first: bool, fuel: nat) -> Option<int>
    decreases fuel,
{
    if fuel == 0 {
        Option::None
    } else {
        let j = spec_skip_ws(s, i);
        if !(j < s.len()) {
            Option::None
        } else if first && s[j] == 125 {
            Option::Some(j + 1)
        } else if s[j] == 34 {
            match spec_string_body(s, j + 1) {
                Option::None => Option::None,
                Option::Some((key, k)) => {
                    let c = spec_skip_ws(s, k);
                    if c < s.len() && s[c] == 58 {
                        let v = spec_skip_ws(s, c + 1);
                        match spec_skip_value(s, v, (fuel - 1) as nat) {
                            Option::None => Option::None,
                            Option::Some(k2) => {
                                let m = spec_skip_ws(s, k2);
                                if m < s.len() && s[m] == 44 {
                                    spec_skip_members(s, m + 1, false, (fuel - 1) as nat)
                                } else if m < s.len() && s[m] == 125 {
                                    Option::Some(m + 1)
                                } else {
                                    Option::None
                                }
                            },
                        }
                    } else {
                        Option::None
                    }
                },
            }
        } else {
            Option::None
        }
    }
}

/// Decodes one `["price","amount"]` pair starting at `i` (no leading
/// whitespace): the two decoded strings and the position after `]`.
pub open spec fn spec_parse_pair(s: Seq<u8>, i: int) -> Option<(RawPair, int)> {
    if 0 <= i < s.len() && s[i] == 91 {
        let a = spec_skip_ws(s, i + 1);
        if a < s.len() && s[a] == 34 {
            match spec_string_body(s, a + 1) {
                Option::None => Option::None,
                Option::Some((p, j)) => {
                    let c = spec_skip_ws(s, j);
                    if c < s.len() && s[c] == 44 {
                        let b0 = spec_skip_ws(s, c + 1);
                        if b0 < s.len() && s[b0] == 34 {
                            match spec_string_body(s, b0 + 1) {
                                Option::None => Option::None,
                                Option::Some((q, k)) => {
                                    let e = spec_skip_ws(s, k);
                                    if e < s.len() && s[e] == 93 {
                                        Option::Some(((p, q), e + 1))
                                    } else {
                                        Option::None
                                    }
                                },
                            }
                        } else {
                            Option::None
                        }
                    } else {
                        Option::None
                    }
                },
            }
        } else {
            Option::None
        }
    } else {
        Option::None
    }
}

/// Decodes the pairs of one side array from just after `[` (when `first`)
/// or a comma: the pairs in order and the position after `]`.
pub open spec fn spec_parse_pairs(s: Seq<u8>, i: int, first: bool, fuel: nat) -> Option<
    (Seq<RawPair>, int),
>
    decreases fuel,
{
    if fuel == 0 {
        Option::None
    } else {
        let j = spec_skip_ws(s, i);
        if !(j < s.len()) {
            Option::None
        } else if first && s[j] == 93 {
            Option::Some((Seq::empty(), j + 1))
        } else {
            match spec_parse_pair(s, j) {
                Option::None => Option::None,
                Option::Some((pr, k)) => {
                    let m = spec_skip_ws(s, k);
                    if m < s.len() && s[m] == 44 {
                        match spec_parse_pairs(s, m + 1, false, (fuel - 1) as nat) {
                            Option::None => Option::None,
                            Option::Some((rest, e)) => Option::Some((seq![pr] + rest, e)),
                        }
                    } else if m < s.len() && s[m] == 93 {
                        Option::Some((seq![pr], m + 1))
                    } else {
                        Option::None
                    }
                },
            }
        }
    }
}

/// Bytes of the member key `bids`.
pub open spec fn key_bids() -> Seq<u8> {
    seq![98u8, 105u8, 100u8, 115u8]
}

/// Bytes of the member key `asks`.
pub open spec fn key_asks() -> Seq<u8> {
    seq![97u8, 115u8, 107u8, 115u8]
}

/// Bytes of the member key `event`.
pub open spec fn key_event() -> Seq<u8> {
    seq![101u8, 118u8, 101u8, 110u8, 116u8]
}

/// Bytes of the member key `data`.
pub open spec fn key_data() -> Seq<u8> {
    seq![100u8, 97u8, 116u8, 97u8]
}

/// Bytes of the event value `data`.
pub open spec fn event_data() -> Seq<u8> {
    seq![100u8, 97u8, 116u8, 97u8]
}

/// Scans the members of a book object from just after `{` (when `first`)
/// or a comma, collecting the `bids` and `asks` side arrays and skipping
/// everything else. A duplicated or missing side rejects the object.
pub open spec fn spec_book_members(
    s: Seq<u8>,
    i: int,
    first: bool,
    bids: Option<Seq<RawPair>>,
    asks: Option<Seq<RawPair>>,
    fuel: nat,
) -> Option<(Seq<RawPair>, Seq<RawPair>, int)>
    decreases fuel,
{
    if fuel == 0 {
        Option::None
    } else {
        let j = spec_skip_ws(s, i);
        if !(j < s.len()) {
            Option::None
        } else if first && s[j] == 125 {
            match (bids, asks) {
                (Option::Some(b), Option::Some(a)) => Option::Some((b, a, j + 1)),
                _ => Option::None,
            }
        } else if s[j] == 34 {
            match spec_string_body(s, j + 1) {
                Option::None => Option::None,
                Option::Some((key, k)) => {
                    let c = spec_skip_ws(s, k);
                    if c < s.len() && s[c] == 58 {
                        let v = spec_skip_ws(s, c + 1);
                        if key == key_bids() {
                            if bids is Some {
                                Option::None
                            } else if v < s.len() && s[v] == 91 {
                                match spec_parse_pairs(s, v + 1, true, (fuel - 1) as nat) {
                                    Option::None => Option::None,
                                    Option::Some((side, k2)) => spec_book_tail(
                                        s,
                                        k2,
                                        Option::Some(side),
                                        asks,
                                        (fuel - 1) as nat,
                                    ),
                                }
                            } else {
                                Option::None
                            }
                        } else if key == key_asks() {
                            if asks is Some {
                                Option::None
                            } else if v < s.len() && s[v] == 91 {
                                match spec_parse_pairs(s, v + 1, true, (fuel - 1) as nat) {
                                    Option::None => Option::None,
                                    Option::Some((side, k2)) => spec_book_tail(
                                        s,
                                        k2,
                                        bids,
                                        Option::Some(side),
                                        (fuel - 1) as nat,
                                    ),
                                }
                            } else {
                                Option::None
                            }
                        } else {
                            match spec_skip_value(s, v, (fuel - 1) as nat) {
                                Option::None => Option::None,
                                Option::Some(k2) => spec_book_tail(
                                    s,
                                    k2,
                                    bids,
                                    asks,
                                    (fuel - 1) as nat,
                                ),
                            }
                        }
                    } else {
                        Option::None
                    }
                },
            }
        } else {
            Option::None
        }
    }
}

/// After one member of a book object: a comma continues the scan, a closing
/// brace ends it when both sides were seen.
pub open spec fn spec_book_tail(
    s: Seq<u8>,
    i: int,
    bids: Option<Seq<RawPair>>,
    asks: Option<Seq<RawPair>>,
    fuel: nat,
) -> Option<(Seq<RawPair>, Seq<RawPair>, int)>
    decreases fuel,
{
    if fuel == 0 {
        Option::None
    } else {
        let m = spec_skip_ws(s, i);
        if m < s.len() && s[m] == 44 {
            spec_book_members(s, m + 1, false, bids, asks, (fuel - 1) as nat)
        } else if m < s.len() && s[m] == 125 {
            match (bids, asks) {
                (Option::Some(b), Option::Some(a)) => Option::Some((b, a, m + 1)),
                _ => Option::None,
            }
        } else {
            Option::None
        }
    }
}

/// Fuel that no message of this length can burn: every unit of fuel spent
/// consumes input or ends the parse.
pub open spec fn json_fuel(s: Seq<u8>) -> nat {
    (2 * s.len() + 4) as nat
}

/// A whole binance-shaped depth message: one book object and nothing else.
pub open spec fn spec_binance_message(s: Seq<u8>) -> Option<(Seq<RawPair>, Seq<RawPair>)> {
    let j = spec_skip_ws(s, 0);
    if j < s.len() && s[j] == 123 {
        match spec_book_members(s, j + 1, true, Option::None, Option::None, json_fuel(s)) {
            Option::None => Option::None,
            Option::Some((b, a, e)) => {
                if spec_skip_ws(s, e) == s.len() {
                    Option::Some((b, a))
                } else {
                    Option::None
                }
            },
        }
    } else {
        Option::None
    }
}

/// Scans the members of a bitstamp envelope from just after `{` (when
/// `first`) or a comma: the string `event` tag, if one is present, and the
/// nested `data` book object, if one is present. Every other member is
/// skipped; a duplicated `event` or `data` rejects the envelope.
pub open spec fn spec_envelope_members(
    s: Seq<u8>,
    i: int,
    first: bool,
    event: Option<Seq<u8>>,
    data: Option<(Seq<RawPair>, Seq<RawPair>)>,
    fuel: nat,
) -> Option<(Option<Seq<u8>>, Option<(Seq<RawPair>, Seq<RawPair>)>, int)>
    decreases fuel,
{
    if fuel == 0 {
        Option::None
    } else {
        let j = spec_skip_ws(s, i);
        if !(j < s.len()) {
            Option::None
        } else if first && s[j] == 125 {
            Option::Some((event, data, j + 1))
        } else if s[j] == 34 {
            match spec_string_body(s, j + 1) {
                Option::None => Option::None,
                Option::Some((key, k)) => {
                    let c = spec_skip_ws(s, k);
                    if c < s.len() && s[c] == 58 {
                        let v = spec_skip_ws(s, c + 1);
                        if key == key_event() {
                            if event is Some {
                                Option::None
                            } else if v < s.len() && s[v] == 34 {
                                match spec_string_body(s, v + 1) {
                                    Option::None => Option::None,
                                    Option::Some((ev, k2)) => spec_envelope_tail(
                                        s,
                                        k2,
                                        Option::Some(ev),
                                        data,
                                        (fuel - 1) as nat,
                                    ),
                                }
                            } else {
                                // A non-string event can never read `data`:
                                // skip it and leave the tag unset.
                                match spec_skip_value(s, v, (fuel - 1) as nat) {
                                    Option::None => Option::None,
                                    Option::Some(k2) => spec_envelope_tail(
                                        s,
                                        k2,
                                        event,
                                        data,
                                        (fuel - 1) as nat,
                                    ),
                                }
                            }
                        } else if key == key_data() {
                            if data is Some {
                                Option::None
                            } else {
                                let parsed = if v < s.len() && s[v] == 123 {
                                    spec_book_members(
                                        s,
                                        v + 1,
                                        true,
                                        Option::None,
                                        Option::None,
                                        (fuel - 1) as nat,
                                    )
                                } else {
                                    Option::None
                                };
                                match parsed {
                                    Option::Some((b, a, k2)) => spec_envelope_tail(
                                        s,
                                        k2,
                                        event,
                                        Option::Some((b, a)),
                                        (fuel - 1) as nat,
                                    ),
                                    // Anything that is not a book — an ack's
                                    // empty object, say — is skipped whole,
                                    // and the nested book stays unset.
                                    Option::None => match spec_skip_value(
                                        s,
                                        v,
                                        (fuel - 1) as nat,
                                    ) {
                                        Option::None => Option::None,
                                        Option::Some(k2) => spec_envelope_tail(
                                            s,
                                            k2,
                                            event,
                                            data,
                                            (fuel - 1) as nat,
                                        ),
                                    },
                                }
                            }
                        } else {
                            match spec_skip_value(s, v, (fuel - 1) as nat) {
                                Option::None => Option::None,
                                Option::Some(k2) => spec_envelope_tail(
                                    s,
                                    k2,
                                    event,
                                    data,
                                    (fuel - 1) as nat,
                                ),
                            }
                        }
                    } else {
                        Option::None
                    }
                },
            }
        } else {
            Option::None
        }
    }
}

/// After one member of a bitstamp envelope: a comma continues the scan, a
/// closing brace ends it.
pub open spec fn spec_envelope_tail(
    s: Seq<u8>,
    i: int,
    event: Option<Seq<u8>>,
    data: Option<(Seq<RawPair>, Seq<RawPair>)>,
    fuel: nat,
) -> Option<(Option<Seq<u8>>, Option<(Seq<RawPair>, Seq<RawPair>)>, int)>
    decreases fuel,
{
    if fuel == 0 {
        Option::None
    } else {
        let m = spec_skip_ws(s, i);
        if m < s.len() && s[m] == 44 {
            spec_envelope_members(s, m + 1, false, event, data, (fuel - 1) as nat)
        } else if m < s.len() && s[m] == 125 {
            Option::Some((event, data, m + 1))
        } else {
            Option::None
        }
    }
}

/// A whole bitstamp-shaped envelope: one object and nothing else.
pub open spec fn spec_bitstamp_message(s: Seq<u8>) -> Option<
    (Option<Seq<u8>>, Option<(Seq<RawPair>, Seq<RawPair>)>),
> {
    let j = spec_skip_ws(s, 0);
    if j < s.len() && s[j] == 123 {
        match spec_envelope_members(s, j + 1, true, Option::None, Option::None, json_fuel(s)) {
            Option::None => Option::None,
            Option::Some((ev, data, e)) => {
                if spec_skip_ws(s, e) == s.len() {
                    Option::Some((ev, data))
                } else {
                    Option::None
                }
            },
        }
    } else {
        Option::None
    }
}


/// The spec view of an executable position result.
pub open spec fn opt_pos(o: Option<usize>) -> Option<int> {
    match o {
        Option::Some(j) => Option::Some(j as int),
        Option::None => Option::None,
    }
}

/// The spec view of an executable side accumulator.
pub open spec fn side_views(o: Option<Vec<RawLevel>>) -> Option<Seq<RawPair>> {
    match o {
        Option::Some(v) => Option::Some(raw_views(v@)),
        Option::None => Option::None,
    }
}

fn skip_ws(s: &[u8], i: usize) -> (r: usize)
    requires
        i <= s@.len(),
    ensures
        i <= r <= s@.len(),
        r as int == spec_skip_ws(s@, i as int),
{
    let mut j = i;
    while j < s.len() && (s[j] == 32 || s[j] == 9 || s[j] == 10 || s[j] == 13)
        invariant
            i <= j <= s@.len(),
            spec_skip_ws(s@, i as int) == spec_skip_ws(s@, j as int),
        decreases s@.len() - j,
    {
        j = j + 1;
    }
    j
}

fn escape(c: u8) -> (r: Option<u8>)
    ensures
        r == spec_escape(c),
{
    if c == 34 {
        Option::Some(34u8)
    } else if c == 92 {
        Option::Some(92u8)
    } else if c == 47 {
        Option::Some(47u8)
    } else if c == 98 {
        Option::Some(8u8)
    } else if c == 102 {
        Option::Some(12u8)
    } else if c == 110 {
        Option::Some(10u8)
    } else if c == 114 {
        Option::Some(13u8)
    } else if c == 116 {
        Option::Some(9u8)
    } else {
        Option::None
    }
}

fn string_body(s: &[u8], i: usize) -> (r: Option<(Vec<u8>, usize)>)
    requires
        i <= s@.len(),
    ensures
        (match r {
            Option::Some((t, j)) => spec_string_body(s@, i as int) == Option::Some(
                (t@, j as int),
            ) && i <= j <= s@.len(),
            Option::None => spec_string_body(s@, i as int) is None,
        }),
    decreases s@.len() - i,
{
    if i >= s.len() {
        return Option::None;
    }
    let b = s[i];
    if b == 34 {
        let t: Vec<u8> = Vec::new();
        proof {
            assert(t@ =~= Seq::<u8>::empty());
        }
        Option::Some((t, i + 1))
    } else if b == 92 {
        if i + 1 < s.len() {
            match escape(s[i + 1]) {
                Option::None => Option::None,
                Option::Some(d) => match string_body(s, i + 2) {
                    Option::None => Option::None,
                    Option::Some((mut t, j)) => {
                        let ghost prev = t@;
                        t.insert(0, d);
                        proof {
                            assert(t@ =~= seq![d] + prev);
                        }
                        Option::Some((t, j))
                    },
                },
            }
        } else {
            Option::None
        }
    } else if b >= 32 {
        match string_body(s, i + 1) {
            Option::None => Option::None,
            Option::Some((mut t, j)) => {
                let ghost prev = t@;
                t.insert(0, b);
                proof {
                    assert(t@ =~= seq![b] + prev);
                }
                Option::Some((t, j))
            },
        }
    } else {
        Option::None
    }
}

fn skip_digits(s: &[u8], i: usize) -> (r: usize)
    requires
        i <= s@.len(),
    ensures
        i <= r <= s@.len(),
        r as int == spec_skip_digits(s@, i as int),
{
    let mut j = i;
    while j < s.len() && s[j] >= 48 && s[j] <= 57
        invariant
            i <= j <= s@.len(),
            spec_skip_digits(s@, i as int) == spec_skip_digits(s@, j as int),
        decreases s@.len() - j,
    {
        j = j + 1;
    }
    j
}

fn skip_number(s: &[u8], i: usize) -> (r: Option<usize>)
    requires
        i <= s@.len(),
    ensures
        opt_pos(r) == spec_skip_number(s@, i as int),
        r matches Option::Some(j) ==> j <= s@.len(),
{
    let j = if i < s.len() && s[i] == 45 {
        i + 1
    } else {
        i
    };
    if j < s.len() && s[j] >= 48 && s[j] <= 57 {
        let k = skip_digits(s, j);
        if k < s.len() && s[k] == 46 {
            if k + 1 < s.len() && s[k + 1] >= 48 && s[k + 1] <= 57 {
                let k2 = skip_digits(s, k + 1);
                skip_exponent(s, k2)
            } else {
                Option::None
            }
        } else {
            skip_exponent(s, k)
        }
    } else {
        Option::None
    }
}

/// Recognizes the optional exponent of a numeric token starting at `i`.
fn skip_exponent(s: &[u8], i: usize) -> (r: Option<usize>)
    requires
        i <= s@.len(),
    ensures
        (match r {
            Option::Some(j) => j <= s@.len() && ({
                let k3 = if i < s@.len() && (s@[i as int] == 101 || s@[i as int] == 69) {
                    let k4 = if i + 1 < s@.len() && (s@[i as int + 1] == 43 || s@[i as int + 1]
                        == 45) {
                        i + 2
                    } else {
                        i + 1
                    };
                    if k4 < s@.len() && is_digit(s@[k4 as int]) {
                        spec_skip_digits(s@, k4 as int)
                    } else {
                        -1
                    }
                } else {
                    i as int
                };
                k3 == j as int
            }),
            Option::None => ({
                let k3 = if i < s@.len() && (s@[i as int] == 101 || s@[i as int] == 69) {
                    let k4 = if i + 1 < s@.len() && (s@[i as int + 1] == 43 || s@[i as int + 1]
                        == 45) {
                        i + 2
                    } else {
                        i + 1
                    };
                    if k4 < s@.len() && is_digit(s@[k4 as int]) {
                        spec_skip_digits(s@, k4 as int)
                    } else {
                        -1
                    }
                } else {
                    i as int
                };
                k3 < 0
            }),
        }),
{
    if i < s.len() && (s[i] == 101 || s[i] == 69) {
        let k4 = if i + 1 < s.len() && (s[i + 1] == 43 || s[i + 1] == 45) {
            i + 2
        } else {
            i + 1
        };
        if k4 < s.len() && s[k4] >= 48 && s[k4] <= 57 {
            Option::Some(skip_digits(s, k4))
        } else {
            Option::None
        }
    } else {
        Option::Some(i)
    }
}

fn skip_value(s: &[u8], i: usize, fuel: u128) -> (r: Option<usize>)
    requires
        i <= s@.len(),
    ensures
        opt_pos(r) == spec_skip_value(s@, i as int, fuel as nat),
        r matches Option::Some(j) ==> j <= s@.len(),
    decreases fuel,
{
    if fuel == 0 {
        Option::None
    } else if i >= s.len() {
        Option::None
    } else if s[i] == 34 {
        match string_body(s, i + 1) {
            Option::None => Option::None,
            Option::Some((t, j)) => Option::Some(j),
        }
    } else if s[i] == 123 {
        skip_members(s, i + 1, true, fuel - 1)
    } else if s[i] == 91 {
        skip_elements(s, i + 1, true, fuel - 1)
    } else if s[i] == 116 {
        if s.len() - i >= 4 && s[i + 1] == 114 && s[i + 2] == 117 && s[i + 3] == 101 {
            Option::Some(i + 4)
        } else {
            Option::None
        }
    } else if s[i] == 102 {
        if s.len() - i >= 5 && s[i + 1] == 97 && s[i + 2] == 108 && s[i + 3] == 115 && s[i + 4]
            == 101 {
            Option::Some(i + 5)
        } else {
            Option::None
        }
    } else if s[i] == 110 {
        if s.len() - i >= 4 && s[i + 1] == 117 && s[i + 2] == 108 && s[i + 3] == 108 {
            Option::Some(i + 4)
        } else {
            Option::None
        }
    } else {
        skip_number(s, i)
    }
}

fn skip_elements(s: &[u8], i: usize, first: bool, fuel: u128) -> (r: Option<usize>)
    requires
        i <= s@.len(),
    ensures
        opt_pos(r) == spec_skip_elements(s@, i as int, first, fuel as nat),
        r matches Option::Some(j) ==> j <= s@.len(),
    decreases fuel,
{
    if fuel == 0 {
        return Option::None;
    }
    let j = skip_ws(s, i);
    if j >= s.len() {
        Option::None
    } else if first && s[j] == 93 {
        Option::Some(j + 1)
    } else {
        match skip_value(s, j, fuel - 1) {
            Option::None => Option::None,
            Option::Some(k) => {
                let m = skip_ws(s, k);
                if m < s.len() && s[m] == 44 {
                    skip_elements(s, m + 1, false, fuel - 1)
                } else if m < s.len() && s[m] == 93 {
                    Option::Some(m + 1)
                } else {
                    Option::None
                }
            },
        }
    }
}

fn skip_members(s: &[u8], i: usize, first: bool, fuel: u128) -> (r: Option<usize>)
    requires
        i <= s@.len(),
    ensures
        opt_pos(r) == spec_skip_members(s@, i as int, first, fuel as nat),
        r matches Option::Some(j) ==> j <= s@.len(),
    decreases fuel,
{
    if fuel == 0 {
        return Option::None;
    }
    let j = skip_ws(s, i);
    if j >= s.len() {
        Option::None
    } else if first && s[j] == 125 {
        Option::Some(j + 1)
    } else if s[j] == 34 {
        match string_body(s, j + 1) {
            Option::None => Option::None,
            Option::Some((key, k)) => {
                let c = skip_ws(s, k);
                if c < s.len() && s[c] == 58 {
                    let v = skip_ws(s, c + 1);
                    match skip_value(s, v, fuel - 1) {
                        Option::None => Option::None,
                        Option::Some(k2) => {
                            let m = skip_ws(s, k2);
                            if m < s.len() && s[m] == 44 {
                                skip_members(s, m + 1, false, fuel - 1)
                            } else if m < s.len() && s[m] == 125 {
                                Option::Some(m + 1)
                            } else {
                                Option::None
                            }
                        },
                    }
                } else {
                    Option::None
                }
            },
        }
    } else {
        Option::None
    }
}

fn parse_pair(s: &[u8], i: usize) -> (r: Option<(RawLevel, usize)>)
    requires
        i <= s@.len(),
    ensures
        (match r {
            Option::Some((pr, j)) => spec_parse_pair(s@, i as int) == Option::Some(
                (pr@, j as int),
            ) && j <= s@.len(),
            Option::None => spec_parse_pair(s@, i as int) is None,
        }),
{
    if i < s.len() && s[i] == 91 {
        let a = skip_ws(s, i + 1);
        if a < s.len() && s[a] == 34 {
            match string_body(s, a + 1) {
                Option::None => Option::None,
                Option::Some((p, j)) => {
                    let c = skip_ws(s, j);
                    if c < s.len() && s[c] == 44 {
                        let b0 = skip_ws(s, c + 1);
                        if b0 < s.len() && s[b0] == 34 {
                            match string_body(s, b0 + 1) {
                                Option::None => Option::None,
                                Option::Some((q, k)) => {
                                    let e = skip_ws(s, k);
                                    if e < s.len() && s[e] == 93 {
                                        Option::Some((RawLevel { price: p, amount: q }, e + 1))
                                    } else {
                                        Option::None
                                    }
                                },
                            }
                        } else {
                            Option::None
                        }
                    } else {
                        Option::None
                    }
                },
            }
        } else {
            Option::None
        }
    } else {
        Option::None
    }
}

fn parse_pairs(s: &[u8], i: usize, first: bool, fuel: u128) -> (r: Option<(Vec<RawLevel>, usize)>)
    requires
        i <= s@.len(),
    ensures
        (match r {
            Option::Some((side, j)) => spec_parse_pairs(s@, i as int, first, fuel as nat)
                == Option::Some((raw_views(side@), j as int)) && j <= s@.len(),
            Option::None => spec_parse_pairs(s@, i as int, first, fuel as nat) is None,
        }),
    decreases fuel,
{
    if fuel == 0 {
        return Option::None;
    }
    let j = skip_ws(s, i);
    if j >= s.len() {
        Option::None
    } else if first && s[j] == 93 {
        let side: Vec<RawLevel> = Vec::new();
        proof {
            assert(raw_views(side@) =~= Seq::<RawPair>::empty());
        }
        Option::Some((side, j + 1))
    } else {
        match parse_pair(s, j) {
            Option::None => Option::None,
            Option::Some((pr, k)) => {
                let m = skip_ws(s, k);
                if m < s.len() && s[m] == 44 {
                    match parse_pairs(s, m + 1, false, fuel - 1) {
                        Option::None => Option::None,
                        Option::Some((mut rest, e)) => {
                            let ghost rest_prev = rest@;
                            let ghost pr_view = pr@;
                            rest.insert(0, pr);
                            proof {
                                assert(raw_views(rest@) =~= seq![pr_view] + raw_views(rest_prev));
                            }
                            Option::Some((rest, e))
                        },
                    }
                } else if m < s.len() && s[m] == 93 {
                    let mut side: Vec<RawLevel> = Vec::new();
                    let ghost pr_view = pr@;
                    side.push(pr);
                    proof {
                        assert(raw_views(side@) =~= seq![pr_view]);
                    }
                    Option::Some((side, m + 1))
                } else {
                    Option::None
                }
            },
        }
    }
}


/// The spec view of an executable event accumulator.
pub open spec fn event_views(o: Option<Vec<u8>>) -> Option<Seq<u8>> {
    match o {
        Option::Some(v) => Option::Some(v@),
        Option::None => Option::None,
    }
}

/// The spec view of an executable nested-book accumulator.
pub open spec fn book_views(o: Option<RawBook>) -> Option<(Seq<RawPair>, Seq<RawPair>)> {
    match o {
        Option::Some(bk) => Option::Some((raw_views(bk.bids@), raw_views(bk.asks@))),
        Option::None => Option::None,
    }
}

fn is_key_bids(key: &Vec<u8>) -> (r: bool)
    ensures
        r == (key@ == key_bids()),
{
    if key.len() == 4 && key[0] == 98 && key[1] == 105 && key[2] == 100 && key[3] == 115 {
        proof {
            assert(key@ =~= key_bids());
        }
        true
    } else {
        false
    }
}

fn is_key_asks(key: &Vec<u8>) -> (r: bool)
    ensures
        r == (key@ == key_asks()),
{
    if key.len() == 4 && key[0] == 97 && key[1] == 115 && key[2] == 107 && key[3] == 115 {
        proof {
            assert(key@ =~= key_asks());
        }
        true
    } else {
        false
    }
}

fn is_key_event(key: &Vec<u8>) -> (r: bool)
    ensures
        r == (key@ == key_event()),
{
    if key.len() == 5 && key[0] == 101 && key[1] == 118 && key[2] == 101 && key[3] == 110
        && key[4] == 116 {
        proof {
            assert(key@ =~= key_event());
        }
        true
    } else {
        false
    }
}

fn is_key_data(key: &Vec<u8>) -> (r: bool)
    ensures
        r == (key@ == key_data()),
{
    if key.len() == 4 && key[0] == 100 && key[1] == 97 && key[2] == 116 && key[3] == 97 {
        proof {
            assert(key@ =~= key_data());
        }
        true
    } else {
        false
    }
}

/// Whether an event tag reads `data`.
pub fn is_event_data(v: &Vec<u8>) -> (r: bool)
    ensures
        r == (v@ == event_data()),
{
    if v.len() == 4 && v[0] == 100 && v[1] == 97 && v[2] == 116 && v[3] == 97 {
        proof {
            assert(v@ =~= event_data());
        }
        true
    } else {
        false
    }
}

fn book_members(
    s: &[u8],
    i: usize,
    first: bool,
    bids: Option<Vec<RawLevel>>,
    asks: Option<Vec<RawLevel>>,
    fuel: u128,
) -> (r: Option<(Vec<RawLevel>, Vec<RawLevel>, usize)>)
    requires
        i <= s@.len(),
    ensures
        (match r {
            Option::Some((b, a, j)) => spec_book_members(
                s@,
                i as int,
                first,
                side_views(bids),
                side_views(asks),
                fuel as nat,
            ) == Option::Some((raw_views(b@), raw_views(a@), j as int)) && j <= s@.len(),
            Option::None => spec_book_members(
                s@,
                i as int,
                first,
                side_views(bids),
                side_views(asks),
                fuel as nat,
            ) is None,
        }),
    decreases fuel,
{
    if fuel == 0 {
        return Option::None;
    }
    let j = skip_ws(s, i);
    if j >= s.len() {
        Option::None
    } else if first && s[j] == 125 {
        match (bids, asks) {
            (Option::Some(b), Option::Some(a)) => Option::Some((b, a, j + 1)),
            _ => Option::None,
        }
    } else if s[j] == 34 {
        match string_body(s, j + 1) {
            Option::None => Option::None,
            Option::Some((key, k)) => {
                let c = skip_ws(s, k);
                if c < s.len() && s[c] == 58 {
                    let v = skip_ws(s, c + 1);
                    if is_key_bids(&key) {
                        if bids.is_some() {
                            Option::None
                        } else if v < s.len() && s[v] == 91 {
                            match parse_pairs(s, v + 1, true, fuel - 1) {
                                Option::None => Option::None,
                                Option::Some((side, k2)) => book_tail(
                                    s,
                                    k2,
                                    Option::Some(side),
                                    asks,
                                    fuel - 1,
                                ),
                            }
                        } else {
                            Option::None
                        }
                    } else if is_key_asks(&key) {
                        if asks.is_some() {
                            Option::None
                        } else if v < s.len() && s[v] == 91 {
                            match parse_pairs(s, v + 1, true, fuel - 1) {
                                Option::None => Option::None,
                                Option::Some((side, k2)) => book_tail(
                                    s,
                                    k2,
                                    bids,
                                    Option::Some(side),
                                    fuel - 1,
                                ),
                            }
                        } else {
                            Option::None
                        }
                    } else {
                        match skip_value(s, v, fuel - 1) {
                            Option::None => Option::None,
                            Option::Some(k2) => book_tail(s, k2, bids, asks, fuel - 1),
                        }
                    }
                } else {
                    Option::None
                }
            },
        }
    } else {
        Option::None
    }
}

fn book_tail(
    s: &[u8],
    i: usize,
    bids: Option<Vec<RawLevel>>,
    asks: Option<Vec<RawLevel>>,
    fuel: u128,
) -> (r: Option<(Vec<RawLevel>, Vec<RawLevel>, usize)>)
    requires
        i <= s@.len(),
    ensures
        (match r {
            Option::Some((b, a, j)) => spec_book_tail(
                s@,
                i as int,
                side_views(bids),
                side_views(asks),
                fuel as nat,
            ) == Option::Some((raw_views(b@), raw_views(a@), j as int)) && j <= s@.len(),
            Option::None => spec_book_tail(
                s@,
                i as int,
                side_views(bids),
                side_views(asks),
                fuel as nat,
            ) is None,
        }),
    decreases fuel,
{
    if fuel == 0 {
        return Option::None;
    }
    let m = skip_ws(s, i);
    if m < s.len() && s[m] == 44 {
        book_members(s, m + 1, false, bids, asks, fuel - 1)
    } else if m < s.len() && s[m] == 125 {
        match (bids, asks) {
            (Option::Some(b), Option::Some(a)) => Option::Some((b, a, m + 1)),
            _ => Option::None,
        }
    } else {
        Option::None
    }
}

fn envelope_members(
    s: &[u8],
    i: usize,
    first: bool,
    event: Option<Vec<u8>>,
    data: Option<RawBook>,
    fuel: u128,
) -> (r: Option<(Option<Vec<u8>>, Option<RawBook>, usize)>)
    requires
        i <= s@.len(),
    ensures
        (match r {
            Option::Some((ev, bk, j)) => spec_envelope_members(
                s@,
                i as int,
                first,
                event_views(event),
                book_views(data),
                fuel as nat,
            ) == Option::Some((event_views(ev), book_views(bk), j as int)) && j <= s@.len(),
            Option::None => spec_envelope_members(
                s@,
                i as int,
                first,
                event_views(event),
                book_views(data),
                fuel as nat,
            ) is None,
        }),
    decreases fuel,
{
    if fuel == 0 {
        return Option::None;
    }
    let j = skip_ws(s, i);
    if j >= s.len() {
        Option::None
    } else if first && s[j] == 125 {
        Option::Some((event, data, j + 1))
    } else if s[j] == 34 {
        match string_body(s, j + 1) {
            Option::None => Option::None,
            Option::Some((key, k)) => {
                let c = skip_ws(s, k);
                if c < s.len() && s[c] == 58 {
                    let v = skip_ws(s, c + 1);
                    if is_key_event(&key) {
                        if event.is_some() {
                            Option::None
                        } else if v < s.len() && s[v] == 34 {
                            match string_body(s, v + 1) {
                                Option::None => Option::None,
                                Option::Some((ev, k2)) => envelope_tail(
                                    s,
                                    k2,
                                    Option::Some(ev),
                                    data,
                                    fuel - 1,
                                ),
                            }
                        } else {
                            match skip_value(s, v, fuel - 1) {
                                Option::None => Option::None,
                                Option::Some(k2) => envelope_tail(s, k2, event, data, fuel - 1),
                            }
                        }
                    } else if is_key_data(&key) {
                        if data.is_some() {
                            Option::None
                        } else {
                            let parsed = if v < s.len() && s[v] == 123 {
                                book_members(s, v + 1, true, Option::None, Option::None, fuel - 1)
                            } else {
                                Option::None
                            };
                            match parsed {
                                Option::Some((b, a, k2)) => envelope_tail(
                                    s,
                                    k2,
                                    event,
                                    Option::Some(RawBook { bids: b, asks: a }),
                                    fuel - 1,
                                ),
                                Option::None => match skip_value(s, v, fuel - 1) {
                                    Option::None => Option::None,
                                    Option::Some(k2) => envelope_tail(s, k2, event, data, fuel - 1),
                                },
                            }
                        }
                    } else {
                        match skip_value(s, v, fuel - 1) {
                            Option::None => Option::None,
                            Option::Some(k2) => envelope_tail(s, k2, event, data, fuel - 1),
                        }
                    }
                } else {
                    Option::None
                }
            },
        }
    } else {
        Option::None
    }
}

fn envelope_tail(
    s: &[u8],
    i: usize,
    event: Option<Vec<u8>>,
    data: Option<RawBook>,
    fuel: u128,
) -> (r: Option<(Option<Vec<u8>>, Option<RawBook>, usize)>)
    requires
        i <= s@.len(),
    ensures
        (match r {
            Option::Some((ev, bk, j)) => spec_envelope_tail(
                s@,
                i as int,
                event_views(event),
                book_views(data),
                fuel as nat,
            ) == Option::Some((event_views(ev), book_views(bk), j as int)) && j <= s@.len(),
            Option::None => spec_envelope_tail(
                s@,
                i as int,
                event_views(event),
                book_views(data),
                fuel as nat,
            ) is None,
        }),
    decreases fuel,
{
    if fuel == 0 {
        return Option::None;
    }
    let m = skip_ws(s, i);
    if m < s.len() && s[m] == 44 {
        envelope_members(s, m + 1, false, event, data, fuel - 1)
    } else if m < s.len() && s[m] == 125 {
        Option::Some((event, data, m + 1))
    } else {
        Option::None
    }
}

/// Decodes a whole binance-shaped depth message into its two raw sides.
pub fn parse_binance_message(s: &[u8]) -> (r: Option<RawBook>)
    ensures
        (match r {
            Option::Some(book) => spec_binance_message(s@) == Option::Some(
                (raw_views(book.bids@), raw_views(book.asks@)),
            ),
            Option::None => spec_binance_message(s@) is None,
        }),
{
    let fuel: u128 = 2 * (s.len() as u128) + 4;
    proof {
        assert(fuel as nat == json_fuel(s@));
    }
    let j = skip_ws(s, 0);
    if j < s.len() && s[j] == 123 {
        match book_members(s, j + 1, true, Option::None, Option::None, fuel) {
            Option::None => Option::None,
            Option::Some((b, a, e)) => {
                let t = skip_ws(s, e);
                if t == s.len() {
                    Option::Some(RawBook { bids: b, asks: a })
                } else {
                    Option::None
                }
            },
        }
    } else {
        Option::None
    }
}

/// Decodes a whole bitstamp-shaped envelope into its event tag and nested
/// book, where present.
pub fn parse_bitstamp_message(s: &[u8]) -> (r: Option<(Option<Vec<u8>>, Option<RawBook>)>)
    ensures
        (match r {
            Option::Some((ev, bk)) => spec_bitstamp_message(s@) == Option::Some(
                (event_views(ev), book_views(bk)),
            ),
            Option::None => spec_bitstamp_message(s@) is None,
        }),
{
    let fuel: u128 = 2 * (s.len() as u128) + 4;
    proof {
        assert(fuel as nat == json_fuel(s@));
    }
    let j = skip_ws(s, 0);
    if j < s.len() && s[j] == 123 {
        match envelope_members(s, j + 1, true, Option::None, Option::None, fuel) {
            Option::None => Option::None,
            Option::Some((ev, bk, e)) => {
                let t = skip_ws(s, e);
                if t == s.len() {
                    Option::Some((ev, bk))
                } else {
                    Option::None
                }
            },
        }
    } else {
        Option::None
    }
}

} // verus!
