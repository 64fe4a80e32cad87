use price_oracle::state::{PriceStorage, Series, HISTORY_CAPACITY};
use price_oracle::types::{Bar, Price};

const T: u64 = 1_700_000_040;

fn price(value: u64, timestamp: u64) -> Price {
    Price { value, confidence: Some(1), timestamp, source: "feed".to_string() }
}

fn same_price(a: &Price, b: &Price) -> bool {
    a.value == b.value
        && a.confidence == b.confidence
        && a.timestamp == b.timestamp
        && a.source == b.source
}

fn btc() -> String {
    "BTC".to_string()
}

#[test]
fn new_store_is_empty() {
    let store = PriceStorage::new();
    assert!(store.get_all_symbols().is_empty());
    assert!(store.get_all_prices().is_empty());
    assert!(store.symbols_is_empty());
    assert!(store.updaters_is_empty());
    assert!(store.get_all_managers().is_empty());
    assert_eq!(store.policy.aggregation, "LAST");
    assert_eq!(store.policy.retain_history, 30);
    assert_eq!(store.version, 0);
    assert_eq!(store.total_updates, 0);
    assert_eq!(store.last_update_time, 0);
    assert_eq!(HISTORY_CAPACITY, 2880);
}

#[test]
fn ingest_sets_latest_history_and_open_bars() {
    let mut store = PriceStorage::new();
    store.add_price_with_history(btc(), price(100, T + 7));
    let latest = store.get_price(&btc()).unwrap();
    assert!(same_price(&latest, &price(100, T + 7)));
    assert_eq!(store.get_history_count(&btc()), 1);
    assert!(same_price(&store.get_history(&btc())[0], &price(100, T + 7)));
    let minute = store.get_open_bar(&btc(), "1m").unwrap();
    assert_eq!(minute, Bar { timestamp: T, open: 100, high: 100, low: 100, close: 100, volume: None });
    let five = store.get_open_bar(&btc(), "5m").unwrap();
    assert_eq!(five.timestamp, (T + 7) / 300 * 300);
    let hour = store.get_open_bar(&btc(), "1h").unwrap();
    assert_eq!(hour.timestamp, (T + 7) / 3600 * 3600);
    assert_eq!(store.get_open_bar(&btc(), "1d"), None);
    assert!(store.get_bars(&btc(), "1m", 0, u64::MAX).is_empty());
}

#[test]
fn ingest_does_not_touch_counters_or_registries() {
    let mut store = PriceStorage::new();
    store.add_price_with_history(btc(), price(100, T));
    assert_eq!(store.version, 0);
    assert_eq!(store.total_updates, 0);
    assert_eq!(store.last_update_time, 0);
    assert!(store.symbols_is_empty());
    assert!(!store.symbol_exists(&btc()));
}

#[test]
fn end_to_end_minute_rollover() {
    let mut store = PriceStorage::new();
    store.add_price_with_history(btc(), price(100, T));
    store.add_price_with_history(btc(), price(120, T + 30));
    assert!(store.get_bars(&btc(), "1m", 0, u64::MAX).is_empty());
    store.add_price_with_history(btc(), price(90, T + 61));
    let finished = store.get_bars(&btc(), "1m", 0, u64::MAX);
    assert_eq!(
        finished,
        vec![Bar { timestamp: T, open: 100, high: 120, low: 100, close: 120, volume: None }]
    );
    assert_eq!(store.get_bars(&btc(), "1m", T, T + 59), finished);
    assert_eq!(
        store.get_open_bar(&btc(), "1m"),
        Some(Bar { timestamp: T + 60, open: 90, high: 90, low: 90, close: 90, volume: None })
    );
    assert!(store.get_bars(&btc(), "1m", T + 60, T + 119).is_empty());
    store.add_price_with_history(btc(), price(95, T + 125));
    assert_eq!(
        store.get_bars(&btc(), "1m", 0, u64::MAX),
        vec![
            Bar { timestamp: T, open: 100, high: 120, low: 100, close: 120, volume: None },
            Bar { timestamp: T + 60, open: 90, high: 90, low: 90, close: 90, volume: None },
        ]
    );
    assert_eq!(
        store.get_open_bar(&btc(), "1m"),
        Some(Bar { timestamp: T + 120, open: 95, high: 95, low: 95, close: 95, volume: None })
    );
    assert_eq!(store.get_history_count(&btc()), 4);
    assert!(same_price(&store.get_price(&btc()).unwrap(), &price(95, T + 125)));
}

#[test]
fn resolutions_roll_over_each_at_its_own_pace() {
    let mut store = PriceStorage::new();
    let start: u64 = 1_699_999_200;
    assert_eq!(start % 3600, 0);
    store.add_price_with_history(btc(), price(10, start));
    store.add_price_with_history(btc(), price(20, start + 299));
    store.add_price_with_history(btc(), price(30, start + 300));
    assert_eq!(store.get_bars(&btc(), "1m", 0, u64::MAX).len(), 2);
    assert_eq!(
        store.get_bars(&btc(), "5m", 0, u64::MAX),
        vec![Bar { timestamp: start, open: 10, high: 20, low: 10, close: 20, volume: None }]
    );
    assert!(store.get_bars(&btc(), "1h", 0, u64::MAX).is_empty());
    assert_eq!(
        store.get_open_bar(&btc(), "1h"),
        Some(Bar { timestamp: start, open: 10, high: 30, low: 10, close: 30, volume: None })
    );
    store.add_price_with_history(btc(), price(5, start + 3600));
    assert_eq!(
        store.get_bars(&btc(), "1h", 0, u64::MAX),
        vec![Bar { timestamp: start, open: 10, high: 30, low: 10, close: 30, volume: None }]
    );
}

#[test]
fn late_observation_is_left_out_of_aggregation() {
    let mut store = PriceStorage::new();
    store.add_price_with_history(btc(), price(100, T + 60));
    store.add_price_with_history(btc(), price(1, T + 10));
    assert!(store.get_bars(&btc(), "1m", 0, u64::MAX).is_empty());
    assert_eq!(
        store.get_open_bar(&btc(), "1m"),
        Some(Bar { timestamp: T + 60, open: 100, high: 100, low: 100, close: 100, volume: None })
    );
    assert!(same_price(&store.get_price(&btc()).unwrap(), &price(1, T + 10)));
    assert_eq!(store.get_history_count(&btc()), 2);
    assert!(same_price(&store.get_history(&btc())[1], &price(1, T + 10)));
}

#[test]
fn gap_between_buckets_yields_no_filler_bars() {
    let mut store = PriceStorage::new();
    store.add_price_with_history(btc(), price(100, T));
    store.add_price_with_history(btc(), price(200, T + 600));
    assert_eq!(
        store.get_bars(&btc(), "1m", 0, u64::MAX),
        vec![Bar { timestamp: T, open: 100, high: 100, low: 100, close: 100, volume: None }]
    );
}

#[test]
fn history_keeps_the_last_capacity_prices() {
    let mut store = PriceStorage::new();
    let total = HISTORY_CAPACITY as u64 + 5;
    for i in 0..total {
        store.add_price_with_history(btc(), price(i + 1, T + i));
    }
    assert_eq!(store.get_history_count(&btc()), HISTORY_CAPACITY);
    let history = store.get_history(&btc());
    assert_eq!(history.len(), HISTORY_CAPACITY);
    assert_eq!(history[0].value, 6);
    assert_eq!(history[HISTORY_CAPACITY - 1].value, total);
    for pair in history.windows(2) {
        assert_eq!(pair[0].value + 1, pair[1].value);
    }
}

#[test]
fn unknown_symbol_reads_as_absent() {
    let store = PriceStorage::new();
    let eth = "ETH".to_string();
    assert!(store.get_price(&eth).is_none());
    assert!(store.get_history(&eth).is_empty());
    assert_eq!(store.get_history_count(&eth), 0);
    assert!(store.get_bars(&eth, "1m", 0, u64::MAX).is_empty());
    assert_eq!(store.get_open_bar(&eth, "1m"), None);
}

#[test]
fn unknown_resolution_reads_as_empty() {
    let mut store = PriceStorage::new();
    store.add_price_with_history(btc(), price(100, T));
    store.add_price_with_history(btc(), price(100, T + 60));
    assert!(store.get_bars(&btc(), "2m", 0, u64::MAX).is_empty());
    assert_eq!(store.get_bars(&btc(), "1m", 0, u64::MAX).len(), 1);
}

#[test]
fn prices_of_many_symbols_in_request_order() {
    let mut store = PriceStorage::new();
    store.add_price_with_history("ETH".to_string(), price(2, T));
    store.add_price_with_history(btc(), price(1, T));
    let asked = vec![btc(), "DOGE".to_string(), "ETH".to_string(), btc()];
    let got = store.get_prices(&asked);
    assert_eq!(got.len(), 4);
    assert_eq!(got[0].as_ref().unwrap().value, 1);
    assert!(got[1].is_none());
    assert_eq!(got[2].as_ref().unwrap().value, 2);
    assert_eq!(got[3].as_ref().unwrap().value, 1);
}

#[test]
fn symbols_and_prices_are_listed_in_ascending_byte_order() {
    let mut store = PriceStorage::new();
    for (i, symbol) in ["SOL", "BTC", "eth", "ETH", "BT", "BTCUSD", "AAVE"].iter().enumerate() {
        store.add_price_with_history(symbol.to_string(), price(i as u64 + 1, T));
    }
    store.add_price_with_history("BTC".to_string(), price(77, T + 1));
    let expected = vec!["AAVE", "BT", "BTC", "BTCUSD", "ETH", "SOL", "eth"];
    assert_eq!(store.get_all_symbols(), expected);
    let entries = store.get_all_prices();
    let listed: Vec<&str> = entries.iter().map(|entry| entry.0.as_str()).collect();
    assert_eq!(listed, expected);
    let values: Vec<u64> = entries.iter().map(|entry| entry.1.value).collect();
    assert_eq!(values, vec![7, 5, 77, 6, 4, 1, 3]);
}

#[test]
fn remove_symbol_takes_every_part_away() {
    let mut store = PriceStorage::new();
    store.upsert_symbol(&btc());
    store.add_price_with_history(btc(), price(100, T));
    store.add_price_with_history(btc(), price(100, T + 60));
    store.add_price_with_history("ETH".to_string(), price(5, T));
    store.remove_symbol(&btc());
    assert!(store.get_price(&btc()).is_none());
    assert_eq!(store.get_history_count(&btc()), 0);
    assert!(store.get_bars(&btc(), "1m", 0, u64::MAX).is_empty());
    assert_eq!(store.get_open_bar(&btc(), "1m"), None);
    assert!(!store.symbol_exists(&btc()));
    assert_eq!(store.get_all_symbols(), vec!["ETH"]);
    store.add_price_with_history(btc(), price(3, T + 120));
    assert_eq!(store.get_history_count(&btc()), 1);
    assert!(store.get_bars(&btc(), "1m", 0, u64::MAX).is_empty());
}

#[test]
fn remove_of_unknown_symbol_changes_nothing() {
    let mut store = PriceStorage::new();
    store.add_price_with_history(btc(), price(100, T));
    store.remove_symbol(&"ETH".to_string());
    assert_eq!(store.get_all_symbols(), vec!["BTC"]);
}

#[test]
fn registry_of_symbols() {
    let mut store = PriceStorage::new();
    assert!(store.symbols_is_empty());
    store.upsert_symbol(&btc());
    store.upsert_symbol(&btc());
    assert!(!store.symbols_is_empty());
    assert!(store.symbol_exists(&btc()));
    assert!(!store.symbol_exists(&"ETH".to_string()));
    assert!(store.get_price(&btc()).is_none());
}

#[test]
fn managers_and_updaters() {
    let mut store = PriceStorage::new();
    store.add_manager("aaaaa-aa");
    assert!(store.is_manager("aaaaa-aa"));
    assert!(!store.is_manager("2vxsx-fae"));
    store.set_managers(vec!["zz".to_string(), "bb".to_string(), "zz".to_string()]);
    assert!(!store.is_manager("aaaaa-aa"));
    assert_eq!(store.get_all_managers(), vec!["bb", "zz"]);
    assert!(store.updaters_is_empty());
    store.set_updaters(vec!["u1".to_string()]);
    assert!(!store.updaters_is_empty());
    assert!(store.is_updater("u1"));
    assert!(!store.is_updater("u2"));
    assert_eq!(store.get_all_updaters(), vec!["u1"]);
    store.set_updaters(Vec::new());
    assert!(store.updaters_is_empty());
}

#[test]
fn metrics_report_counters_and_symbol_count() {
    let mut store = PriceStorage::new();
    store.add_price_with_history(btc(), price(100, T));
    store.add_price_with_history("ETH".to_string(), price(100, T));
    store.version = 4;
    store.total_updates = 9;
    store.last_update_time = T;
    let metrics = store.get_metrics(123);
    assert_eq!(metrics.total_symbols, 2);
    assert_eq!(metrics.total_updates, 9);
    assert_eq!(metrics.last_update_time, T);
    assert_eq!(metrics.canister_cycles, 123);
    assert_eq!(metrics.version, 4);
}

#[test]
fn series_on_its_own() {
    let mut series = Series::open(price(10, T));
    series.record(price(12, T + 1));
    series.record(price(8, T + 60));
    assert_eq!(series.latest().value, 8);
    assert_eq!(series.history().len(), 3);
    assert_eq!(
        series.archive().get_bars("1m", 0, u64::MAX),
        vec![Bar { timestamp: T, open: 10, high: 12, low: 10, close: 12, volume: None }]
    );
    series.update_ohlc_and_archive(&price(9, T + 61));
    assert_eq!(series.latest().value, 8);
    assert_eq!(series.history().len(), 3);
    assert_eq!(
        series.get_open_bar("1m"),
        Some(Bar { timestamp: T + 60, open: 8, high: 9, low: 8, close: 9, volume: None })
    );
}

#[test]
fn archive_stays_in_bucket_order_whatever_the_arrival_order() {
    let mut store = PriceStorage::new();
    let offsets: [u64; 12] = [0, 130, 60, 61, 400, 10, 399, 7300, 3700, 7301, 90_000, 86_399];
    for (i, offset) in offsets.iter().enumerate() {
        store.add_price_with_history(btc(), price(i as u64 + 1, T + offset));
    }
    for resolution in ["1m", "5m", "1h"] {
        let bars = store.get_bars(&btc(), resolution, 0, u64::MAX);
        for pair in bars.windows(2) {
            assert!(pair[0].timestamp < pair[1].timestamp);
        }
        let open = store.get_open_bar(&btc(), resolution).unwrap();
        for bar in &bars {
            assert!(bar.timestamp < open.timestamp);
        }
    }
    let minutes: Vec<u64> =
        store.get_bars(&btc(), "1m", 0, u64::MAX).iter().map(|bar| bar.timestamp - T).collect();
    assert_eq!(minutes, vec![0, 120, 360, 7260]);
    assert_eq!(store.get_open_bar(&btc(), "1m").unwrap().timestamp, T + 89_940 + 60);
    assert_eq!(store.get_history_count(&btc()), 12);
}
