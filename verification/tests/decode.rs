use merged_order_book::binance;
use merged_order_book::bitstamp;
use merged_order_book::book::Exchange;
use merged_order_book::normalize::DecodeError;

#[test]
fn binance_decodes_depth_message() {
    let msg = br#"{"lastUpdateId":160,"bids":[["0.07140100","23.30750000"],["0.07138900","10.50000000"]],"asks":[["0.07143800","14.56878000"],["0.07150000","2.50000000"]]}"#;
    let s = binance::decode_message(msg).expect("decode");
    assert_eq!(s.bids.len(), 2);
    assert_eq!(s.asks.len(), 2);
    assert_eq!(s.bids[0].exchange, Exchange::Binance);
    assert_eq!(s.bids[0].price, 7140100);
    assert_eq!(s.bids[0].amount, 2330750000);
    assert_eq!(s.asks[0].price, 7143800);
    assert_eq!(s.spread, 7143800 - 7140100);
}

#[test]
fn binance_field_order_and_whitespace_are_free() {
    let msg = b" { \"asks\" : [ [\"0.3\" , \"1.0\"] ] , \"bids\":[[\"0.2\",\"2.0\"]], \"extra\": {\"x\": [1, -2.5e3, true, false, null, \"s\"]} } ";
    let s = binance::decode_message(msg).expect("decode");
    assert_eq!(s.bids[0].price, 20000000);
    assert_eq!(s.asks[0].price, 30000000);
}

#[test]
fn binance_empty_sides_give_zero_spread() {
    let msg = br#"{"bids":[],"asks":[]}"#;
    let s = binance::decode_message(msg).expect("decode");
    assert!(s.bids.is_empty());
    assert!(s.asks.is_empty());
    assert_eq!(s.spread, 0);
}

#[test]
fn binance_rejects_bad_price_string() {
    // One non-numeric price rejects the whole message; nothing partial.
    let msg = br#"{"bids":[["0.07140100","23.3075"],["oops","1.0"]],"asks":[["0.0715","2.5"]]}"#;
    assert_eq!(binance::decode_message(msg), Err(DecodeError::InvalidNumber));
}

#[test]
fn binance_rejects_zero_price() {
    let msg = br#"{"bids":[["0.00000000","23.3075"]],"asks":[]}"#;
    assert_eq!(binance::decode_message(msg), Err(DecodeError::NonPositivePrice));
}

#[test]
fn binance_rejects_missing_side() {
    let msg = br#"{"bids":[["0.2","1.0"]]}"#;
    assert_eq!(binance::decode_message(msg), Err(DecodeError::Malformed));
}

#[test]
fn binance_rejects_duplicate_side() {
    let msg = br#"{"bids":[],"bids":[],"asks":[]}"#;
    assert_eq!(binance::decode_message(msg), Err(DecodeError::Malformed));
}

#[test]
fn binance_rejects_garbage() {
    assert_eq!(binance::decode_message(b"not json"), Err(DecodeError::Malformed));
    assert_eq!(binance::decode_message(b""), Err(DecodeError::Malformed));
    assert_eq!(binance::decode_message(b"[1,2,3]"), Err(DecodeError::Malformed));
    assert_eq!(
        binance::decode_message(br#"{"bids":[],"asks":[]} trailing"#),
        Err(DecodeError::Malformed)
    );
}

#[test]
fn bitstamp_decodes_data_event() {
    let msg = br#"{"data":{"timestamp":"1652103479","microtimestamp":"1652103479857384","bids":[["0.07138988","0.60000000"],["0.07138900","1.20000000"]],"asks":[["0.07143677","2.56878000"],["0.07150000","10.10000000"]]},"channel":"order_book_ethbtc","event":"data"}"#;
    let s = bitstamp::decode_message(msg).expect("decode").expect("data event");
    assert_eq!(s.bids.len(), 2);
    assert_eq!(s.bids[0].exchange, Exchange::Bitstamp);
    assert_eq!(s.bids[0].price, 7138988);
    assert_eq!(s.asks[0].price, 7143677);
    assert_eq!(s.spread, 7143677 - 7138988);
}

#[test]
fn bitstamp_keeps_only_ten_levels_per_side() {
    let mut bids = String::new();
    for i in 0..15 {
        if i > 0 {
            bids.push(',');
        }
        bids.push_str(&format!("[\"0.07{:06}\",\"1.0\"]", 999999 - i));
    }
    let msg = format!(
        "{{\"event\":\"data\",\"data\":{{\"bids\":[{}],\"asks\":[[\"0.08\",\"1.0\"]]}}}}",
        bids
    );
    let s = bitstamp::decode_message(msg.as_bytes()).expect("decode").expect("data event");
    assert_eq!(s.bids.len(), 10);
    assert_eq!(s.bids[0].price, 7999999);
    assert_eq!(s.bids[9].price, 7999990);
}

#[test]
fn binance_keeps_every_level_the_feed_sent() {
    // The binance feed always carries exactly ten levels per side, so its
    // conversion applies no cap of its own; only the merger truncates.
    let mut bids = String::new();
    for i in 0..12 {
        if i > 0 {
            bids.push(',');
        }
        bids.push_str(&format!("[\"0.07{:06}\",\"1.0\"]", 999999 - i));
    }
    let msg = format!("{{\"bids\":[{}],\"asks\":[]}}", bids);
    let s = binance::decode_message(msg.as_bytes()).expect("decode");
    assert_eq!(s.bids.len(), 12);
}

#[test]
fn bitstamp_ignores_other_events() {
    let msg = br#"{"event":"bts:subscription_succeeded","channel":"order_book_ethbtc","data":{}}"#;
    assert_eq!(bitstamp::decode_message(msg), Ok(None));
}

#[test]
fn bitstamp_missing_event_is_not_data() {
    let msg = br#"{"channel":"order_book_ethbtc","data":{"bids":[],"asks":[]}}"#;
    assert_eq!(bitstamp::decode_message(msg), Ok(None));
}

#[test]
fn bitstamp_data_event_without_book_is_malformed() {
    let msg = br#"{"event":"data","channel":"order_book_ethbtc"}"#;
    assert_eq!(bitstamp::decode_message(msg), Err(DecodeError::Malformed));
}

#[test]
fn bitstamp_bad_amount_rejects_message() {
    let msg = br#"{"event":"data","data":{"bids":[["0.07138988","6e-1"]],"asks":[]}}"#;
    assert_eq!(bitstamp::decode_message(msg), Err(DecodeError::InvalidNumber));
}

#[test]
fn string_escapes_decode_in_skipped_fields() {
    let msg = br#"{"note":"a\"b\\c\nd","bids":[["0.2","1.0"]],"asks":[]}"#;
    let s = binance::decode_message(msg).expect("decode");
    assert_eq!(s.bids[0].price, 20000000);
    // A unicode escape is not part of the accepted grammar.
    let msg2 = br#"{"note":"\u0041","bids":[],"asks":[]}"#;
    assert_eq!(binance::decode_message(msg2), Err(DecodeError::Malformed));
}
