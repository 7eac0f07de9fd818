use merged_order_book::binance;
use merged_order_book::bitstamp;
use merged_order_book::book::{Exchange, Summary};
use merged_order_book::decimal::parse_fixed;
use merged_order_book::merger::Top10SummaryMerger;
use merged_order_book::{parse_port, recv_action, GrcServer, RecvAction, RecvEvent, DEFAULT_GRPC_PORT};

#[test]
fn fixed_point_parses_exact_values() {
    assert_eq!(parse_fixed(b"0.07140100"), Some(7140100));
    assert_eq!(parse_fixed(b"23.30750000"), Some(2330750000));
    assert_eq!(parse_fixed(b"0"), Some(0));
    assert_eq!(parse_fixed(b"1"), Some(100000000));
    assert_eq!(parse_fixed(b"0.5"), Some(50000000));
    assert_eq!(parse_fixed(b"007.25"), Some(725000000));
    // Digits past the eighth place are fine when they are zeros.
    assert_eq!(parse_fixed(b"0.100000000000"), Some(10000000));
    // The largest representable value, exactly.
    assert_eq!(parse_fixed(b"184467440737.09551615"), Some(u64::MAX));
}

#[test]
fn fixed_point_rejects_malformed_numbers() {
    assert_eq!(parse_fixed(b""), None);
    assert_eq!(parse_fixed(b"."), None);
    assert_eq!(parse_fixed(b"1."), None);
    assert_eq!(parse_fixed(b".5"), None);
    assert_eq!(parse_fixed(b"1.2.3"), None);
    assert_eq!(parse_fixed(b"-1"), None);
    assert_eq!(parse_fixed(b"+1"), None);
    assert_eq!(parse_fixed(b"1e5"), None);
    assert_eq!(parse_fixed(b"1,5"), None);
    // More precision than 10^-8 cannot be represented.
    assert_eq!(parse_fixed(b"0.000000001"), None);
    // One tick past the largest representable value.
    assert_eq!(parse_fixed(b"184467440737.09551616"), None);
    assert_eq!(parse_fixed(b"999999999999999999999"), None);
}

#[test]
fn port_numerals_parse_like_the_environment_override() {
    assert_eq!(parse_port(b"7016"), Some(7016));
    assert_eq!(parse_port(b"+80"), Some(80));
    assert_eq!(parse_port(b"007016"), Some(7016));
    assert_eq!(parse_port(b"65535"), Some(65535));
    assert_eq!(parse_port(b"65536"), None);
    assert_eq!(parse_port(b""), None);
    assert_eq!(parse_port(b"+"), None);
    assert_eq!(parse_port(b"12a"), None);
    assert_eq!(parse_port(b"-1"), None);
    assert_eq!(DEFAULT_GRPC_PORT, 7016);
}

#[test]
fn binance_stream_url_is_assembled() {
    let url = binance::stream_url(b"wss://stream.binance.com:9443", b"ethbtc");
    assert_eq!(url, b"wss://stream.binance.com:9443/ws/ethbtc@depth10@100ms".to_vec());
}

#[test]
fn bitstamp_subscribe_envelope_is_assembled() {
    let msg = bitstamp::subscribe_message(b"ethbtc");
    assert_eq!(
        msg,
        br#"{"event":"bts:subscribe","data":{"channel":"order_book_ethbtc"}}"#.to_vec()
    );
}

#[test]
fn exchange_names_match_the_wire() {
    assert_eq!(Exchange::Binance.name(), "binance");
    assert_eq!(Exchange::Bitstamp.name(), "bitstamp");
}

#[test]
fn default_summary_is_empty() {
    let s = Summary::default();
    assert!(s.bids.is_empty());
    assert!(s.asks.is_empty());
    assert_eq!(s.spread, 0);
}

#[test]
fn bus_policy_forwards_skips_and_stops() {
    let mut m = Top10SummaryMerger::new(1);
    let sm = m.on_update(0, Summary::default());
    match recv_action(RecvEvent::Message(sm.clone())) {
        RecvAction::Forward(f) => assert_eq!(f, sm),
        other => panic!("expected forward, got {:?}", other),
    }
    // A lagged subscriber keeps its stream: the notice is simply skipped.
    assert_eq!(recv_action(RecvEvent::Lagged), RecvAction::Skip);
    assert_eq!(recv_action(RecvEvent::Closed), RecvAction::Stop);

    let server = GrcServer::new(m);
    assert_eq!(server.book_summary_step(RecvEvent::Lagged), RecvAction::Skip);
    assert_eq!(server.book_summary_step(RecvEvent::Closed), RecvAction::Stop);
}
