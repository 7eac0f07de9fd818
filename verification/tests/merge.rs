use merged_order_book::book::{Exchange, Level, Summary};
use merged_order_book::binance;
use merged_order_book::bitstamp;
use merged_order_book::merger::{merge_summaries, Top10SummaryMerger};
use merged_order_book::normalize::{RawBook, RawLevel};

fn raw(price: &str, amount: &str) -> RawLevel {
    RawLevel { price: price.as_bytes().to_vec(), amount: amount.as_bytes().to_vec() }
}

fn lvl(exchange: Exchange, price: u64, amount: u64) -> Level {
    Level { exchange, price, amount }
}

fn binance_summary(bids: Vec<RawLevel>, asks: Vec<RawLevel>) -> Summary {
    binance::summary_from_depth(&RawBook { bids, asks }).expect("binance summary")
}

fn bitstamp_summary(bids: Vec<RawLevel>, asks: Vec<RawLevel>) -> Summary {
    bitstamp::summary_from_order_book(&RawBook { bids, asks }).expect("bitstamp summary")
}

fn scenario_a_binance() -> Summary {
    binance_summary(
        vec![raw("0.07140100", "23.30750000"), raw("0.07138900", "10.50000000")],
        vec![raw("0.07143800", "14.56878000"), raw("0.07150000", "2.50000000")],
    )
}

fn scenario_a_bitstamp() -> Summary {
    bitstamp_summary(
        vec![raw("0.07138988", "0.60000000"), raw("0.07138900", "1.20000000")],
        vec![raw("0.07143677", "2.56878000"), raw("0.07150000", "10.10000000")],
    )
}

#[test]
fn scenario_initial_merge() {
    let mut m = Top10SummaryMerger::new(2);
    m.on_update(0, scenario_a_binance());
    let merged = m.on_update(1, scenario_a_bitstamp());

    assert_eq!(
        merged.bids,
        vec![
            lvl(Exchange::Binance, 7140100, 2330750000),
            lvl(Exchange::Bitstamp, 7138988, 60000000),
            lvl(Exchange::Binance, 7138900, 1050000000),
            lvl(Exchange::Bitstamp, 7138900, 120000000),
        ]
    );
    assert_eq!(
        merged.asks,
        vec![
            lvl(Exchange::Bitstamp, 7143677, 256878000),
            lvl(Exchange::Binance, 7143800, 1456878000),
            lvl(Exchange::Bitstamp, 7150000, 1010000000),
            lvl(Exchange::Binance, 7150000, 250000000),
        ]
    );
    assert_eq!(merged.spread, 7143677 - 7140100);
}

#[test]
fn scenario_bitstamp_lowers_best_ask() {
    let mut m = Top10SummaryMerger::new(2);
    m.on_update(0, scenario_a_binance());
    m.on_update(1, scenario_a_bitstamp());
    let merged = m.on_update(
        1,
        bitstamp_summary(
            vec![raw("0.07138988", "0.60000000"), raw("0.07138900", "1.20000000")],
            vec![raw("0.07143300", "10.10000000"), raw("0.07143677", "2.56878000")],
        ),
    );

    assert_eq!(
        merged.asks,
        vec![
            lvl(Exchange::Bitstamp, 7143300, 1010000000),
            lvl(Exchange::Bitstamp, 7143677, 256878000),
            lvl(Exchange::Binance, 7143800, 1456878000),
            lvl(Exchange::Binance, 7150000, 250000000),
        ]
    );
    assert_eq!(
        merged.bids,
        vec![
            lvl(Exchange::Binance, 7140100, 2330750000),
            lvl(Exchange::Bitstamp, 7138988, 60000000),
            lvl(Exchange::Binance, 7138900, 1050000000),
            lvl(Exchange::Bitstamp, 7138900, 120000000),
        ]
    );
    assert_eq!(merged.spread, 7143300 - 7140100);
}

#[test]
fn scenario_binance_raises_best_bid() {
    let mut m = Top10SummaryMerger::new(2);
    m.on_update(0, scenario_a_binance());
    m.on_update(
        1,
        bitstamp_summary(
            vec![raw("0.07138988", "0.60000000"), raw("0.07138900", "1.20000000")],
            vec![raw("0.07143300", "10.10000000"), raw("0.07143677", "2.56878000")],
        ),
    );
    let merged = m.on_update(
        0,
        binance_summary(
            vec![raw("0.07143000", "10.50000000"), raw("0.07140100", "23.30750000")],
            vec![raw("0.07143800", "14.56878000"), raw("0.07150000", "2.50000000")],
        ),
    );

    assert_eq!(
        merged.bids,
        vec![
            lvl(Exchange::Binance, 7143000, 1050000000),
            lvl(Exchange::Binance, 7140100, 2330750000),
            lvl(Exchange::Bitstamp, 7138988, 60000000),
            lvl(Exchange::Bitstamp, 7138900, 120000000),
        ]
    );
    assert_eq!(
        merged.asks,
        vec![
            lvl(Exchange::Bitstamp, 7143300, 1010000000),
            lvl(Exchange::Bitstamp, 7143677, 256878000),
            lvl(Exchange::Binance, 7143800, 1456878000),
            lvl(Exchange::Binance, 7150000, 250000000),
        ]
    );
    assert_eq!(merged.spread, 7143300 - 7143000);
}

#[test]
fn merge_caps_each_side_at_ten() {
    let mut bids: Vec<RawLevel> = Vec::new();
    let mut asks: Vec<RawLevel> = Vec::new();
    for i in 0..10 {
        bids.push(raw(&format!("0.0712{:04}", 9999 - i), "1.0"));
        asks.push(raw(&format!("0.0713{:04}", i), "1.0"));
    }
    let a = binance_summary(bids.clone(), asks.clone());
    let b = bitstamp_summary(bids, asks);

    let mut m = Top10SummaryMerger::new(2);
    m.on_update(0, a);
    let merged = m.on_update(1, b);
    assert_eq!(merged.bids.len(), 10);
    assert_eq!(merged.asks.len(), 10);
}

#[test]
fn merge_orders_sides_and_breaks_ties_by_amount() {
    let a = binance_summary(
        vec![raw("0.2", "1.0"), raw("0.1", "9.0")],
        vec![raw("0.3", "1.0"), raw("0.4", "9.0")],
    );
    let b = bitstamp_summary(
        vec![raw("0.2", "5.0"), raw("0.1", "2.0")],
        vec![raw("0.3", "5.0"), raw("0.4", "2.0")],
    );
    let mut m = Top10SummaryMerger::new(2);
    m.on_update(0, a);
    let merged = m.on_update(1, b);

    // Bids: price descending, ties by amount descending.
    for w in merged.bids.windows(2) {
        assert!(
            w[0].price > w[1].price || (w[0].price == w[1].price && w[0].amount >= w[1].amount)
        );
    }
    // Asks: price ascending, ties by amount descending.
    for w in merged.asks.windows(2) {
        assert!(
            w[0].price < w[1].price || (w[0].price == w[1].price && w[0].amount >= w[1].amount)
        );
    }
    assert_eq!(merged.bids[0], lvl(Exchange::Bitstamp, 20000000, 500000000));
    assert_eq!(merged.bids[1], lvl(Exchange::Binance, 20000000, 100000000));
    assert_eq!(merged.asks[0], lvl(Exchange::Bitstamp, 30000000, 500000000));
    assert_eq!(merged.asks[1], lvl(Exchange::Binance, 30000000, 100000000));
}

#[test]
fn merge_spread_reads_best_levels() {
    let mut m = Top10SummaryMerger::new(2);
    let merged = m.on_update(
        0,
        binance_summary(vec![raw("0.5", "1.0")], vec![raw("0.75", "1.0")]),
    );
    assert_eq!(merged.spread, merged.asks[0].price as i128 - merged.bids[0].price as i128);
    assert_eq!(merged.spread, 25000000);
}

#[test]
fn merge_spread_can_cross_venues_negative() {
    let mut m = Top10SummaryMerger::new(2);
    m.on_update(0, binance_summary(vec![raw("0.8", "1.0")], vec![raw("0.9", "1.0")]));
    let merged = m.on_update(
        1,
        bitstamp_summary(vec![raw("0.1", "1.0")], vec![raw("0.2", "1.0")]),
    );
    // Best ask 0.2 (bitstamp) sits below best bid 0.8 (binance).
    assert_eq!(merged.spread, 20000000 - 80000000);
}

#[test]
fn merged_exchanges_track_delivering_sources() {
    let mut m = Top10SummaryMerger::new(2);
    let first = m.on_update(
        0,
        binance_summary(vec![raw("0.5", "1.0")], vec![raw("0.75", "1.0")]),
    );
    assert!(first.bids.iter().chain(first.asks.iter()).all(|l| l.exchange == Exchange::Binance));

    let second = m.on_update(
        1,
        bitstamp_summary(vec![raw("0.4", "1.0")], vec![raw("0.8", "1.0")]),
    );
    assert!(second.bids.iter().any(|l| l.exchange == Exchange::Binance));
    assert!(second.bids.iter().any(|l| l.exchange == Exchange::Bitstamp));
    assert!(second.asks.iter().any(|l| l.exchange == Exchange::Binance));
    assert!(second.asks.iter().any(|l| l.exchange == Exchange::Bitstamp));
}

#[test]
fn merge_is_idempotent() {
    let mut m = Top10SummaryMerger::new(2);
    m.on_update(0, scenario_a_binance());
    let once = m.on_update(1, scenario_a_bitstamp());
    let twice = m.on_update(1, scenario_a_bitstamp());
    assert_eq!(once, twice);
}

#[test]
fn empty_slots_merge_to_empty_summary() {
    let slots = vec![Summary::default(), Summary::default()];
    let merged = merge_summaries(&slots);
    assert!(merged.bids.is_empty());
    assert!(merged.asks.is_empty());
    assert_eq!(merged.spread, 0);
}

#[test]
fn stale_slot_keeps_contributing() {
    let mut m = Top10SummaryMerger::new(2);
    m.on_update(0, binance_summary(vec![raw("0.5", "1.0")], vec![raw("0.9", "1.0")]));
    m.on_update(1, bitstamp_summary(vec![raw("0.4", "1.0")], vec![raw("0.8", "1.0")]));
    // Only bitstamp updates from now on; the binance slot stays as last seen.
    let merged = m.on_update(
        1,
        bitstamp_summary(vec![raw("0.45", "2.0")], vec![raw("0.85", "2.0")]),
    );
    assert!(merged.bids.iter().any(|l| l.exchange == Exchange::Binance && l.price == 50000000));
    assert!(merged.bids.iter().any(|l| l.exchange == Exchange::Bitstamp && l.price == 45000000));
}
