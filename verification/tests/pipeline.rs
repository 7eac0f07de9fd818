//! The whole decode-and-merge path on raw vendor frames, end to end.

use merged_order_book::binance;
use merged_order_book::bitstamp;
use merged_order_book::book::Exchange;
use merged_order_book::merger::Top10SummaryMerger;

const BINANCE_FRAME: &[u8] = br#"{"lastUpdateId":160,"bids":[["0.07140100","23.30750000"],["0.07138900","10.50000000"]],"asks":[["0.07143800","14.56878000"],["0.07150000","2.50000000"]]}"#;

const BITSTAMP_FRAME: &[u8] = br#"{"data":{"timestamp":"1652103479","bids":[["0.07138988","0.60000000"],["0.07138900","1.20000000"]],"asks":[["0.07143677","2.56878000"],["0.07150000","10.10000000"]]},"channel":"order_book_ethbtc","event":"data"}"#;

#[test]
fn frames_merge_into_the_expected_book() {
    let from_binance = binance::decode_message(BINANCE_FRAME).expect("binance frame");
    let from_bitstamp = bitstamp::decode_message(BITSTAMP_FRAME)
        .expect("bitstamp frame")
        .expect("data event");

    let mut m = Top10SummaryMerger::new(2);
    m.on_update(0, from_binance);
    let merged = m.on_update(1, from_bitstamp);

    let expect = [
        (Exchange::Binance, 7140100u64, 2330750000u64),
        (Exchange::Bitstamp, 7138988, 60000000),
        (Exchange::Binance, 7138900, 1050000000),
        (Exchange::Bitstamp, 7138900, 120000000),
    ];
    assert_eq!(merged.bids.len(), expect.len());
    for (lvl, (ex, price, amount)) in merged.bids.iter().zip(expect.iter()) {
        assert_eq!(lvl.exchange, *ex);
        assert_eq!(lvl.price, *price);
        assert_eq!(lvl.amount, *amount);
    }

    let expect_asks = [
        (Exchange::Bitstamp, 7143677u64, 256878000u64),
        (Exchange::Binance, 7143800, 1456878000),
        (Exchange::Bitstamp, 7150000, 1010000000),
        (Exchange::Binance, 7150000, 250000000),
    ];
    assert_eq!(merged.asks.len(), expect_asks.len());
    for (lvl, (ex, price, amount)) in merged.asks.iter().zip(expect_asks.iter()) {
        assert_eq!(lvl.exchange, *ex);
        assert_eq!(lvl.price, *price);
        assert_eq!(lvl.amount, *amount);
    }

    assert_eq!(merged.spread, 7143677 - 7140100);
}

#[test]
fn a_bad_frame_leaves_the_book_unchanged() {
    let mut m = Top10SummaryMerger::new(2);
    m.on_update(0, binance::decode_message(BINANCE_FRAME).expect("binance frame"));

    // A frame with a non-numeric price is rejected whole: the caller gets an
    // error, publishes nothing, and the next good frame merges as usual.
    let bad = br#"{"bids":[["garbage","1.0"]],"asks":[]}"#;
    assert!(binance::decode_message(bad).is_err());

    let merged = m.on_update(
        1,
        bitstamp::decode_message(BITSTAMP_FRAME).expect("bitstamp frame").expect("data event"),
    );
    assert_eq!(merged.bids.len(), 4);
    assert_eq!(merged.spread, 7143677 - 7140100);
}
