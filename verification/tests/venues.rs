use crypto_in_one_rs::book::DeltaOutcome;
use crypto_in_one_rs::decimal::Dec;
use crypto_in_one_rs::error::{FeedErrorKind, HttpError, SocketError};
use crypto_in_one_rs::exchanges::binance::{
    get_binance_symbol_table, BinanceDepth, BinanceExchangeInfo, BinanceFilter, BinanceSymbol,
};
use crypto_in_one_rs::exchanges::bybit::{
    BybitDepth, BybitDepthData, BybitOrderbook, KeepaliveTimer, Pong, KEEPALIVE_INTERVAL_MS,
};
use crypto_in_one_rs::exchanges::formatter::{
    Exchange, Instrument, Level, Orderbook, OrderbookFormatter, SymbolInfo,
};
use crypto_in_one_rs::exchanges::okx::{OkxDepth, OkxDepthData, OkxOrderbook};
use crypto_in_one_rs::fanin::Aggregator;

fn lv(p: &str, q: &str) -> (String, String) {
    (p.to_string(), q.to_string())
}

fn bybit_msg(kind: &str, u: u64, b: Vec<(String, String)>, a: Vec<(String, String)>) -> BybitDepth {
    BybitDepth {
        topic: "orderbook.50.BTCUSDT".to_string(),
        data_type: kind.to_string(),
        ts: 1700000000000,
        data: BybitDepthData { s: "BTCUSDT".to_string(), b, a, u, seq: u },
    }
}

fn level(ex: Exchange, mantissa: i128, scale: u32, qm: i128, qs: u32) -> Level {
    Level {
        exchange: ex,
        price: Dec { mantissa, scale },
        quantity: Dec { mantissa: qm, scale: qs },
    }
}

#[test]
fn bybit_snapshot_then_zero_delta_scenario() {
    let mut table = BybitOrderbook::from(vec!["BTCUSDT".to_string()]);
    let snap = bybit_msg(
        "snapshot",
        1,
        vec![lv("100.5", "2"), lv("100.0", "3")],
        vec![lv("101.0", "1")],
    );
    let ob = table.on_depth(&snap).unwrap().unwrap();
    assert_eq!(ob.exchange, Exchange::Bybit);
    assert_eq!(ob.symbol, "BTCUSDT");
    assert_eq!(ob.updated, 1700000000000);
    assert_eq!(
        ob.bids,
        vec![
            level(Exchange::Bybit, 1005, 1, 2, 0),
            level(Exchange::Bybit, 1000, 1, 3, 0)
        ]
    );
    assert_eq!(ob.asks, vec![level(Exchange::Bybit, 1010, 1, 1, 0)]);

    let delta = bybit_msg("delta", 2, vec![lv("100.0", "0")], vec![]);
    let ob = table.on_depth(&delta).unwrap().unwrap();
    assert_eq!(ob.bids, vec![level(Exchange::Bybit, 1005, 1, 2, 0)]);
    assert_eq!(ob.asks, vec![level(Exchange::Bybit, 1010, 1, 1, 0)]);
}

#[test]
fn bybit_gap_is_surfaced_and_recovered() {
    let mut table = BybitOrderbook::from(vec!["BTCUSDT".to_string()]);
    table
        .on_depth(&bybit_msg("snapshot", 5, vec![lv("100.5", "2")], vec![]))
        .unwrap();
    // 7 != 5 + 1: the gap is surfaced, never silently ignored
    let e = table
        .on_depth(&bybit_msg("delta", 7, vec![lv("100.0", "1")], vec![]))
        .unwrap_err();
    assert_eq!(e.kind, FeedErrorKind::ProtocolSequence);
    assert_eq!(e.venue, Exchange::Bybit);
    // a delta after the clear is discarded, also surfaced
    let e = table
        .on_depth(&bybit_msg("delta", 8, vec![lv("100.0", "1")], vec![]))
        .unwrap_err();
    assert_eq!(e.kind, FeedErrorKind::ProtocolSequence);
    // a fresh snapshot recovers the stream
    let ob = table
        .on_depth(&bybit_msg("snapshot", 9, vec![lv("100.0", "1")], vec![]))
        .unwrap()
        .unwrap();
    assert_eq!(ob.bids.len(), 1);
}

#[test]
fn bybit_decode_error_does_not_affect_another_handler() {
    let mut sick = BybitOrderbook::from(vec!["BTCUSDT".to_string()]);
    let mut healthy = BybitOrderbook::from(vec!["BTCUSDT".to_string()]);
    sick.on_depth(&bybit_msg("snapshot", 1, vec![lv("100.5", "2")], vec![]))
        .unwrap();
    healthy
        .on_depth(&bybit_msg("snapshot", 1, vec![lv("100.5", "2")], vec![]))
        .unwrap();
    // a non-decimal payload surfaces as a decode error on one handler
    let e = sick
        .on_depth(&bybit_msg("delta", 2, vec![lv("100.5", "junk")], vec![]))
        .unwrap_err();
    assert_eq!(e.kind, FeedErrorKind::Decode);
    assert_eq!(e.venue, Exchange::Bybit);
    // the other handler keeps streaming undisturbed
    let ob = healthy
        .on_depth(&bybit_msg("delta", 2, vec![lv("99.0", "4")], vec![]))
        .unwrap()
        .unwrap();
    assert_eq!(ob.bids.len(), 2);
}

#[test]
fn bybit_unknown_symbol_is_a_decode_error() {
    let mut table = BybitOrderbook::from(vec!["ETHUSDT".to_string()]);
    let e = table
        .on_depth(&bybit_msg("snapshot", 1, vec![lv("100.5", "2")], vec![]))
        .unwrap_err();
    assert_eq!(e.kind, FeedErrorKind::Decode);
}

#[test]
fn bybit_other_message_types_are_ignored() {
    let mut table = BybitOrderbook::from(vec!["BTCUSDT".to_string()]);
    let r = table.on_depth(&bybit_msg("weird", 1, vec![], vec![])).unwrap();
    assert!(r.is_none());
}

#[test]
fn bybit_update_orderbook_reports_outcomes() {
    let mut table = BybitOrderbook::from(vec!["BTCUSDT".to_string()]);
    let d = BybitDepthData { s: "BTCUSDT".to_string(), b: vec![lv("1", "1")], a: vec![], u: 3, seq: 3 };
    assert_eq!(
        table.update_orderbook(&d).unwrap(),
        DeltaOutcome::DiscardedUninitialized
    );
    let s = BybitDepthData { s: "BTCUSDT".to_string(), b: vec![lv("1", "1")], a: vec![], u: 2, seq: 2 };
    table.init_orderbook(&s).unwrap();
    assert_eq!(table.update_orderbook(&d).unwrap(), DeltaOutcome::Applied);
}

#[test]
fn okx_follows_the_same_contract() {
    let mut table = OkxOrderbook::from(vec!["BTC-USDT".to_string()]);
    let snap = OkxDepth {
        topic: "books".to_string(),
        data_type: "snapshot".to_string(),
        ts: 7,
        data: OkxDepthData {
            s: "BTC-USDT".to_string(),
            b: vec![lv("100.5", "2"), lv("100.0", "3")],
            a: vec![lv("101.0", "1")],
            u: 1,
            seq: 1,
        },
    };
    let ob = table.on_depth(&snap).unwrap().unwrap();
    assert_eq!(ob.exchange, Exchange::Okx);
    assert_eq!(ob.bids.len(), 2);
    let gap = OkxDepth {
        topic: "books".to_string(),
        data_type: "delta".to_string(),
        ts: 8,
        data: OkxDepthData {
            s: "BTC-USDT".to_string(),
            b: vec![lv("100.0", "0")],
            a: vec![],
            u: 9,
            seq: 9,
        },
    };
    let e = table.on_depth(&gap).unwrap_err();
    assert_eq!(e.kind, FeedErrorKind::ProtocolSequence);
    assert_eq!(e.venue, Exchange::Okx);
}

#[test]
fn binance_normalizes_sorted_snapshots() {
    let data = BinanceDepth {
        e: "depthUpdate".to_string(),
        E: 123,
        T: 122,
        s: "BTCUSDT".to_string(),
        U: 1,
        u: 2,
        pu: 0,
        b: vec![lv("100.5", "2"), lv("100.0", "3")],
        a: vec![lv("101.0", "1"), lv("101.5", "4")],
    };
    let ob = OrderbookFormatter::from_binance(&data).unwrap();
    assert_eq!(ob.exchange, Exchange::Binance);
    assert_eq!(ob.symbol, "BTCUSDT");
    assert_eq!(ob.updated, 123);
    assert_eq!(
        ob.bids,
        vec![
            level(Exchange::Binance, 1005, 1, 2, 0),
            level(Exchange::Binance, 1000, 1, 3, 0)
        ]
    );
    assert_eq!(
        ob.asks,
        vec![
            level(Exchange::Binance, 1010, 1, 1, 0),
            level(Exchange::Binance, 1015, 1, 4, 0)
        ]
    );
}

#[test]
fn binance_rejects_unsorted_or_malformed_messages() {
    let mut data = BinanceDepth {
        e: "depthUpdate".to_string(),
        E: 123,
        T: 122,
        s: "BTCUSDT".to_string(),
        U: 1,
        u: 2,
        pu: 0,
        b: vec![lv("100.0", "3"), lv("100.5", "2")],
        a: vec![lv("101.0", "1")],
    };
    let e = OrderbookFormatter::from_binance(&data).unwrap_err();
    assert_eq!(e.kind, FeedErrorKind::Decode);
    assert_eq!(e.venue, Exchange::Binance);
    data.b = vec![lv("100.5", "oops")];
    let e = OrderbookFormatter::from_binance(&data).unwrap_err();
    assert_eq!(e.kind, FeedErrorKind::Decode);
}

#[test]
fn keepalive_fires_only_after_the_interval() {
    let mut t = KeepaliveTimer::new(0, KEEPALIVE_INTERVAL_MS);
    assert!(!t.poll(14999));
    // more than 15 seconds without a client pong: one must be queued
    assert!(t.poll(15001));
    let frame = Pong::new();
    assert_eq!(frame.op, "pong");
    // the timer restarted from the pong just sent
    assert!(!t.poll(15002));
    assert!(!t.poll(30000));
    assert!(t.poll(30001));
}

#[test]
fn aggregator_is_bounded_and_fifo() {
    let mk = |sym: &str| Orderbook {
        exchange: Exchange::Bybit,
        symbol: sym.to_string(),
        updated: 0,
        bids: vec![],
        asks: vec![],
    };
    let mut agg = Aggregator::new(2);
    assert!(agg.take_next().is_none());
    assert!(agg.offer(mk("A")));
    assert!(agg.offer(mk("B")));
    // full: the producer must hold the update, nothing is dropped
    assert!(!agg.offer(mk("C")));
    assert_eq!(agg.len(), 2);
    assert_eq!(agg.take_next().unwrap().symbol, "A");
    assert!(agg.offer(mk("C")));
    assert_eq!(agg.take_next().unwrap().symbol, "B");
    assert_eq!(agg.take_next().unwrap().symbol, "C");
    assert!(agg.take_next().is_none());
}

#[test]
fn symbol_table_keeps_live_perpetuals_and_parses_filters() {
    let info = BinanceExchangeInfo {
        symbols: vec![
            BinanceSymbol {
                symbol: "BTCUSDT".to_string(),
                contract_type: "PERPETUAL".to_string(),
                status: "TRADING".to_string(),
                filters: vec![
                    BinanceFilter::PRICE_FILTER { tick_size: "0.10".to_string() },
                    BinanceFilter::LOT_SIZE {
                        max_qty: "1000".to_string(),
                        min_qty: "0.001".to_string(),
                        step_size: "0.001".to_string(),
                    },
                    BinanceFilter::MIN_NOTIONAL { notional: "5".to_string() },
                    BinanceFilter::Unknown,
                ],
            },
            BinanceSymbol {
                symbol: "OLDCOIN".to_string(),
                contract_type: "PERPETUAL".to_string(),
                status: "SETTLING".to_string(),
                filters: vec![],
            },
        ],
    };
    let table = get_binance_symbol_table(&info).unwrap();
    assert_eq!(table.len(), 1);
    let (sym, si) = &table[0];
    assert_eq!(sym, "BTCUSDT");
    assert_eq!(si.price_tick_size, Dec { mantissa: 10, scale: 2 });
    assert_eq!(si.limit_max_qty, Dec { mantissa: 1000, scale: 0 });
    assert_eq!(si.limit_min_qty, Dec { mantissa: 1, scale: 3 });
    assert_eq!(si.min_notional, Dec { mantissa: 5, scale: 0 });
    // untouched constraints stay zero
    assert_eq!(si.market_max_qty, Dec { mantissa: 0, scale: 0 });
}

#[test]
fn symbol_table_surfaces_malformed_filters() {
    let info = BinanceExchangeInfo {
        symbols: vec![BinanceSymbol {
            symbol: "BTCUSDT".to_string(),
            contract_type: "PERPETUAL".to_string(),
            status: "TRADING".to_string(),
            filters: vec![BinanceFilter::PRICE_FILTER { tick_size: "ten".to_string() }],
        }],
    };
    let e = get_binance_symbol_table(&info).unwrap_err();
    assert_eq!(e.kind, FeedErrorKind::MetadataFetch);
    assert_eq!(e.venue, Exchange::Binance);
}

#[test]
fn symbol_info_starts_at_zero() {
    let si = SymbolInfo::new(Exchange::Binance, Instrument::USDM, "BTCUSDT".to_string());
    assert_eq!(si.symbol, "BTCUSDT");
    assert_eq!(si.price_tick_size, Dec { mantissa: 0, scale: 0 });
    assert_eq!(si.min_notional, Dec { mantissa: 0, scale: 0 });
}

#[test]
fn duplicate_symbols_are_tracked_once() {
    let table = BybitOrderbook::from(vec!["BTCUSDT".to_string(), "BTCUSDT".to_string()]);
    assert_eq!(table.books.len(), 1);
    assert_eq!(table.books[0].0, "BTCUSDT");
    assert!(!table.books[0].1.initialized);
}

#[test]
fn error_details_name_their_cause() {
    let mut table = BybitOrderbook::from(vec!["ETHUSDT".to_string()]);
    let e = table
        .on_depth(&bybit_msg("snapshot", 1, vec![], vec![]))
        .unwrap_err();
    assert_eq!(e.detail, "unknown symbol");
    let mut table = BybitOrderbook::from(vec!["BTCUSDT".to_string()]);
    table
        .on_depth(&bybit_msg("snapshot", 1, vec![lv("1", "1")], vec![]))
        .unwrap();
    let e = table
        .on_depth(&bybit_msg("delta", 2, vec![lv("x", "1")], vec![]))
        .unwrap_err();
    assert_eq!(e.detail, "malformed decimal level");
    let e = table.on_depth(&bybit_msg("delta", 9, vec![], vec![])).unwrap_err();
    assert_eq!(e.detail, "sequence gap");
    let e = table.on_depth(&bybit_msg("delta", 9, vec![], vec![])).unwrap_err();
    assert_eq!(e.detail, "delta before snapshot");
}

#[test]
fn error_descriptions_carry_their_labels() {
    let e = SocketError::BybitConnectionError("socket closed".to_string());
    assert_eq!(e.describe(), "BybitConnectionError: socket closed");
    let e = SocketError::OkxSerdeJsonError("bad json".to_string());
    assert_eq!(e.describe(), "OkxSerdeJsonError: bad json");
    let e = HttpError::BinanceSymbolError;
    assert_eq!(e.describe(), "BinanceSymbolError");
    let e = HttpError::BinanceApiError("status 500".to_string());
    assert_eq!(e.describe(), "BinanceApiError: status 500");
}
