use price_oracle::service::{
    check_update, get_available_resolutions, get_snapshot_cert, init, push_prices, remove_symbols,
    set_allowed_updaters, set_managers, set_policy, upsert_symbols, BatchOutcome, Rejection,
    ServiceError, MAX_BATCH,
};
use price_oracle::merkle::build_merkle_tree;
use price_oracle::state::PriceStorage;
use price_oracle::types::{Bar, Policy, Price, PriceUpdate};

const NOW: u64 = 1_700_000_000;

fn update(symbol: &str, value: u64, timestamp: u64) -> PriceUpdate {
    PriceUpdate {
        symbol: symbol.to_string(),
        price: Price { value, confidence: Some(1), timestamp, source: "pyth".to_string() },
    }
}

fn good() -> PriceUpdate {
    update("BTC", 50_000, NOW)
}

#[test]
fn accepts_a_well_formed_update() {
    let store = PriceStorage::new();
    assert_eq!(check_update(&store, &good(), NOW), None);
}

#[test]
fn rejects_empty_or_long_symbol() {
    let store = PriceStorage::new();
    assert_eq!(check_update(&store, &update("", 1, NOW), NOW), Some(Rejection::Symbol));
    let fifty = "S".repeat(50);
    let fifty_one = "S".repeat(51);
    assert_eq!(check_update(&store, &update(&fifty, 1, NOW), NOW), None);
    assert_eq!(check_update(&store, &update(&fifty_one, 1, NOW), NOW), Some(Rejection::Symbol));
}

#[test]
fn symbol_length_counts_bytes() {
    let store = PriceStorage::new();
    let seventeen_euros = "\u{20ac}".repeat(17);
    assert_eq!(seventeen_euros.len(), 51);
    assert_eq!(check_update(&store, &update(&seventeen_euros, 1, NOW), NOW), Some(Rejection::Symbol));
    let sixteen_euros = "\u{20ac}".repeat(16);
    assert_eq!(check_update(&store, &update(&sixteen_euros, 1, NOW), NOW), None);
}

#[test]
fn rejects_zero_or_huge_value() {
    let store = PriceStorage::new();
    assert_eq!(check_update(&store, &update("BTC", 0, NOW), NOW), Some(Rejection::Value));
    let mut at_bound = update("BTC", 1_000_000_000_000_000, NOW);
    assert_eq!(check_update(&store, &at_bound, NOW), None);
    at_bound.price.value += 1;
    assert_eq!(check_update(&store, &at_bound, NOW), Some(Rejection::Value));
}

#[test]
fn rejects_stamps_outside_the_window() {
    let store = PriceStorage::new();
    assert_eq!(check_update(&store, &update("BTC", 1, NOW + 60), NOW), None);
    assert_eq!(check_update(&store, &update("BTC", 1, NOW + 61), NOW), Some(Rejection::Timestamp));
    assert_eq!(check_update(&store, &update("BTC", 1, NOW - 300), NOW), None);
    assert_eq!(check_update(&store, &update("BTC", 1, NOW - 301), NOW), Some(Rejection::Timestamp));
}

#[test]
fn window_at_the_ends_of_time() {
    let store = PriceStorage::new();
    assert_eq!(check_update(&store, &update("BTC", 1, 0), 0), None);
    assert_eq!(check_update(&store, &update("BTC", 1, 60), 0), None);
    assert_eq!(check_update(&store, &update("BTC", 1, 61), 0), Some(Rejection::Timestamp));
    assert_eq!(check_update(&store, &update("BTC", 1, 0), 300), None);
    assert_eq!(check_update(&store, &update("BTC", 1, 0), 301), Some(Rejection::Timestamp));
    assert_eq!(check_update(&store, &update("BTC", 1, u64::MAX), u64::MAX), None);
    assert_eq!(check_update(&store, &update("BTC", 1, u64::MAX), u64::MAX - 60), None);
    assert_eq!(
        check_update(&store, &update("BTC", 1, u64::MAX), u64::MAX - 61),
        Some(Rejection::Timestamp)
    );
    assert_eq!(check_update(&store, &update("BTC", 1, u64::MAX - 300), u64::MAX), None);
    assert_eq!(
        check_update(&store, &update("BTC", 1, u64::MAX - 301), u64::MAX),
        Some(Rejection::Timestamp)
    );
}

#[test]
fn rejects_unregistered_symbol_once_symbols_are_registered() {
    let mut store = PriceStorage::new();
    assert_eq!(check_update(&store, &update("ETH", 1, NOW), NOW), None);
    store.upsert_symbol(&"BTC".to_string());
    assert_eq!(check_update(&store, &update("ETH", 1, NOW), NOW), Some(Rejection::NotRegistered));
    assert_eq!(check_update(&store, &good(), NOW), None);
}

#[test]
fn rejects_bad_confidence() {
    let store = PriceStorage::new();
    let mut item = update("BTC", 100, NOW);
    item.price.confidence = Some(0);
    assert_eq!(check_update(&store, &item, NOW), Some(Rejection::Confidence));
    item.price.confidence = Some(101);
    assert_eq!(check_update(&store, &item, NOW), Some(Rejection::Confidence));
    item.price.confidence = Some(100);
    assert_eq!(check_update(&store, &item, NOW), None);
    item.price.confidence = None;
    assert_eq!(check_update(&store, &item, NOW), None);
}

#[test]
fn rejects_empty_or_long_source() {
    let store = PriceStorage::new();
    let mut item = good();
    item.price.source = String::new();
    assert_eq!(check_update(&store, &item, NOW), Some(Rejection::Source));
    item.price.source = "s".repeat(100);
    assert_eq!(check_update(&store, &item, NOW), None);
    item.price.source = "s".repeat(101);
    assert_eq!(check_update(&store, &item, NOW), Some(Rejection::Source));
}

#[test]
fn first_failed_test_names_the_rejection() {
    let mut store = PriceStorage::new();
    store.upsert_symbol(&"BTC".to_string());
    let mut item = update("", 0, NOW + 1000);
    item.price.confidence = Some(0);
    item.price.source = String::new();
    assert_eq!(check_update(&store, &item, NOW), Some(Rejection::Symbol));
    item.symbol = "ETH".to_string();
    assert_eq!(check_update(&store, &item, NOW), Some(Rejection::Value));
    item.price.value = 5;
    assert_eq!(check_update(&store, &item, NOW), Some(Rejection::Timestamp));
    item.price.timestamp = NOW;
    assert_eq!(check_update(&store, &item, NOW), Some(Rejection::NotRegistered));
    item.symbol = "BTC".to_string();
    assert_eq!(check_update(&store, &item, NOW), Some(Rejection::Confidence));
    item.price.confidence = None;
    assert_eq!(check_update(&store, &item, NOW), Some(Rejection::Source));
}

#[test]
fn batch_counts_exactly_the_acceptable_items() {
    let mut store = PriceStorage::new();
    let batch = vec![
        good(),
        update("", 1, NOW),
        update("ETH", 0, NOW),
        update("ETH", 3_000, NOW - 10),
        update("SOL", 1, NOW + 3600),
        update("BTC", 50_500, NOW + 20),
    ];
    let outcome = push_prices(&mut store, "anyone", batch, NOW);
    assert_eq!(outcome, Ok(BatchOutcome { accepted: 3, version: 1 }));
    assert_eq!(store.version, 1);
    assert_eq!(store.total_updates, 3);
    assert_eq!(store.last_update_time, NOW);
    assert_eq!(store.get_all_symbols(), vec!["BTC", "ETH"]);
    assert_eq!(store.get_price(&"BTC".to_string()).unwrap().value, 50_500);
    assert_eq!(store.get_history_count(&"BTC".to_string()), 2);
    assert_eq!(store.get_price(&"ETH".to_string()).unwrap().value, 3_000);
    assert!(store.get_price(&"SOL".to_string()).is_none());
}

#[test]
fn batch_without_acceptable_items_leaves_version() {
    let mut store = PriceStorage::new();
    let outcome = push_prices(&mut store, "anyone", vec![update("BTC", 0, NOW)], NOW);
    assert_eq!(outcome, Ok(BatchOutcome { accepted: 0, version: 0 }));
    assert_eq!(store.version, 0);
    assert_eq!(store.total_updates, 0);
    assert_eq!(store.last_update_time, 0);
    assert!(store.get_all_symbols().is_empty());
}

#[test]
fn empty_batch_changes_nothing() {
    let mut store = PriceStorage::new();
    assert_eq!(
        push_prices(&mut store, "anyone", Vec::new(), NOW),
        Ok(BatchOutcome { accepted: 0, version: 0 })
    );
    assert_eq!(store.last_update_time, 0);
}

#[test]
fn version_moves_once_per_batch_that_brought_something() {
    let mut store = PriceStorage::new();
    for round in 1..=3u64 {
        let batch = vec![update("BTC", 10, NOW + round), update("BTC", 11, NOW + round)];
        let outcome = push_prices(&mut store, "anyone", batch, NOW + round).unwrap();
        assert_eq!(outcome.accepted, 2);
        assert_eq!(outcome.version, round);
    }
    assert_eq!(store.total_updates, 6);
    assert_eq!(store.last_update_time, NOW + 3);
    let _ = push_prices(&mut store, "anyone", vec![update("BTC", 0, NOW)], NOW + 4);
    assert_eq!(store.version, 3);
    assert_eq!(store.last_update_time, NOW + 3);
}

#[test]
fn counters_stop_at_their_greatest_value() {
    let mut store = PriceStorage::new();
    store.version = u64::MAX;
    store.total_updates = u64::MAX - 1;
    let batch = vec![good(), good()];
    let outcome = push_prices(&mut store, "anyone", batch, NOW).unwrap();
    assert_eq!(outcome.accepted, 2);
    assert_eq!(store.version, u64::MAX);
    assert_eq!(store.total_updates, u64::MAX);
}

#[test]
fn batch_over_the_cap_is_refused_whole() {
    let mut store = PriceStorage::new();
    let batch: Vec<PriceUpdate> = (0..MAX_BATCH + 1).map(|_| good()).collect();
    assert_eq!(push_prices(&mut store, "anyone", batch, NOW), Err(ServiceError::TooManyUpdates));
    assert!(store.get_all_symbols().is_empty());
    assert_eq!(store.version, 0);
    let batch: Vec<PriceUpdate> = (0..MAX_BATCH).map(|_| good()).collect();
    assert_eq!(
        push_prices(&mut store, "anyone", batch, NOW),
        Ok(BatchOutcome { accepted: 1000, version: 1 })
    );
    assert_eq!(store.get_history_count(&"BTC".to_string()), 1000);
}

#[test]
fn listed_updaters_shut_others_out() {
    let mut store = PriceStorage::new();
    store.set_updaters(vec!["alice".to_string()]);
    assert_eq!(push_prices(&mut store, "bob", vec![good()], NOW), Err(ServiceError::Unauthorized));
    assert!(store.get_all_symbols().is_empty());
    assert_eq!(store.version, 0);
    assert_eq!(store.total_updates, 0);
    assert_eq!(
        push_prices(&mut store, "alice", vec![good()], NOW),
        Ok(BatchOutcome { accepted: 1, version: 1 })
    );
}

#[test]
fn cap_is_checked_before_the_caller() {
    let mut store = PriceStorage::new();
    store.set_updaters(vec!["alice".to_string()]);
    let batch: Vec<PriceUpdate> = (0..MAX_BATCH + 1).map(|_| good()).collect();
    assert_eq!(push_prices(&mut store, "bob", batch, NOW), Err(ServiceError::TooManyUpdates));
}

#[test]
fn batch_feeds_bars_through_rollover() {
    let mut store = PriceStorage::new();
    let t: u64 = 1_700_000_040;
    let batch = vec![update("BTC", 100, t), update("BTC", 130, t + 30), update("BTC", 90, t + 61)];
    let outcome = push_prices(&mut store, "anyone", batch, t + 61).unwrap();
    assert_eq!(outcome.accepted, 3);
    assert_eq!(
        store.get_bars(&"BTC".to_string(), "1m", t, t + 59),
        vec![Bar { timestamp: t, open: 100, high: 130, low: 100, close: 130, volume: None }]
    );
    assert_eq!(
        store.get_open_bar(&"BTC".to_string(), "1m"),
        Some(Bar { timestamp: t + 60, open: 90, high: 90, low: 90, close: 90, volume: None })
    );
}

#[test]
fn deployer_becomes_manager() {
    let mut store = PriceStorage::new();
    init(&mut store, "deployer");
    assert!(store.is_manager("deployer"));
    assert_eq!(store.get_all_managers(), vec!["deployer"]);
}

#[test]
fn administration_is_for_managers() {
    let mut store = PriceStorage::new();
    init(&mut store, "deployer");
    let names = vec!["x".to_string()];
    assert_eq!(set_allowed_updaters(&mut store, "mallory", names.clone()), Err(ServiceError::Unauthorized));
    assert_eq!(set_managers(&mut store, "mallory", names.clone()), Err(ServiceError::Unauthorized));
    assert_eq!(upsert_symbols(&mut store, "mallory", names.clone()), Err(ServiceError::Unauthorized));
    assert_eq!(remove_symbols(&mut store, "mallory", names.clone()), Err(ServiceError::Unauthorized));
    let policy = Policy { aggregation: "MEDIAN".to_string(), retain_history: 7 };
    assert_eq!(set_policy(&mut store, "mallory", policy), Err(ServiceError::Unauthorized));
    assert!(store.updaters_is_empty());
    assert!(store.symbols_is_empty());
    assert_eq!(store.get_all_managers(), vec!["deployer"]);
    assert_eq!(store.policy.aggregation, "LAST");
    assert_eq!(store.policy.retain_history, 30);
}

#[test]
fn manager_administers() {
    let mut store = PriceStorage::new();
    init(&mut store, "deployer");
    assert_eq!(set_allowed_updaters(&mut store, "deployer", vec!["u".to_string()]), Ok(()));
    assert!(store.is_updater("u"));
    assert_eq!(
        upsert_symbols(&mut store, "deployer", vec!["BTC".to_string(), "ETH".to_string()]),
        Ok(())
    );
    assert!(store.symbol_exists(&"BTC".to_string()));
    assert!(store.symbol_exists(&"ETH".to_string()));
    let _ = push_prices(&mut store, "u", vec![update("BTC", 5, NOW), update("ETH", 6, NOW)], NOW);
    assert_eq!(remove_symbols(&mut store, "deployer", vec!["BTC".to_string(), "SOL".to_string()]), Ok(()));
    assert!(!store.symbol_exists(&"BTC".to_string()));
    assert!(store.symbol_exists(&"ETH".to_string()));
    assert!(store.get_price(&"BTC".to_string()).is_none());
    assert_eq!(store.get_price(&"ETH".to_string()).unwrap().value, 6);
    let policy = Policy { aggregation: "MEDIAN".to_string(), retain_history: 7 };
    assert_eq!(set_policy(&mut store, "deployer", policy), Ok(()));
    assert_eq!(store.policy.aggregation, "MEDIAN");
    assert_eq!(store.policy.retain_history, 7);
    assert_eq!(set_managers(&mut store, "deployer", vec!["next".to_string()]), Ok(()));
    assert!(!store.is_manager("deployer"));
    assert!(store.is_manager("next"));
    assert_eq!(upsert_symbols(&mut store, "deployer", Vec::new()), Err(ServiceError::Unauthorized));
}

#[test]
fn resolutions_on_offer() {
    assert_eq!(get_available_resolutions(), vec!["1m", "5m", "1h"]);
}

#[test]
fn snapshot_is_certified_in_symbol_order() {
    let mut store = PriceStorage::new();
    let _ = push_prices(
        &mut store,
        "anyone",
        vec![update("SOL", 150, NOW), update("BTC", 50_000, NOW), update("ETH", 3_000, NOW)],
        NOW,
    );
    let (entries, root) = get_snapshot_cert(&store);
    let listed: Vec<&str> = entries.iter().map(|entry| entry.0.as_str()).collect();
    assert_eq!(listed, vec!["BTC", "ETH", "SOL"]);
    assert_eq!(root.into_vec(), build_merkle_tree(&entries));
    let mut other = PriceStorage::new();
    let _ = push_prices(
        &mut other,
        "anyone",
        vec![update("ETH", 3_000, NOW), update("SOL", 150, NOW), update("BTC", 50_000, NOW)],
        NOW,
    );
    let (_, other_root) = get_snapshot_cert(&other);
    let (_, root_again) = get_snapshot_cert(&store);
    assert_eq!(other_root.into_vec(), root_again.into_vec());
}

#[test]
fn snapshot_of_empty_store() {
    let store = PriceStorage::new();
    let (entries, root) = get_snapshot_cert(&store);
    assert!(entries.is_empty());
    assert_eq!(root.into_vec(), vec![0u8; 32]);
}
