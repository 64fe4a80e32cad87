use price_oracle::ohlc::{aggregate_prices_to_bar, OHLCBuilder};
use price_oracle::types::{Bar, Price};

fn price(value: u64, timestamp: u64) -> Price {
    Price { value, confidence: None, timestamp, source: "test".to_string() }
}

#[test]
fn ohlc_empty_builder_builds_no_bar() {
    let builder = OHLCBuilder::new(120);
    assert_eq!(builder.get_start_time(), 120);
    assert_eq!(builder.peek(), None);
    assert_eq!(builder.build(), None);
}

#[test]
fn ohlc_single_observation() {
    let mut builder = OHLCBuilder::new(60);
    builder.add_price(&price(42, 61));
    assert_eq!(
        builder.build(),
        Some(Bar { timestamp: 60, open: 42, high: 42, low: 42, close: 42, volume: None })
    );
}

#[test]
fn ohlc_sequence_opens_first_closes_last() {
    let mut builder = OHLCBuilder::new(600);
    for value in [5u64, 9, 3, 7] {
        builder.add_price(&price(value, 601));
    }
    let bar = builder.build().unwrap();
    assert_eq!(bar, Bar { timestamp: 600, open: 5, high: 9, low: 3, close: 7, volume: None });
    assert!(bar.low <= bar.open && bar.open <= bar.high);
    assert!(bar.low <= bar.close && bar.close <= bar.high);
}

#[test]
fn ohlc_bar_is_stamped_with_bucket_start_not_observation() {
    let mut builder = OHLCBuilder::new(3600);
    builder.add_price(&price(1, 3999));
    assert_eq!(builder.build().unwrap().timestamp, 3600);
}

#[test]
fn ohlc_peek_leaves_builder_as_it_is() {
    let mut builder = OHLCBuilder::new(0);
    builder.add_price(&price(10, 1));
    let seen = builder.peek();
    builder.add_price(&price(4, 2));
    assert_eq!(seen, Some(Bar { timestamp: 0, open: 10, high: 10, low: 10, close: 10, volume: None }));
    assert_eq!(
        builder.build(),
        Some(Bar { timestamp: 0, open: 10, high: 10, low: 4, close: 4, volume: None })
    );
}

#[test]
fn ohlc_extreme_values() {
    let mut builder = OHLCBuilder::new(0);
    builder.add_price(&price(u64::MAX, 1));
    assert_eq!(
        builder.peek(),
        Some(Bar {
            timestamp: 0,
            open: u64::MAX,
            high: u64::MAX,
            low: u64::MAX,
            close: u64::MAX,
            volume: None
        })
    );
    builder.add_price(&price(0, 2));
    assert_eq!(
        builder.build(),
        Some(Bar { timestamp: 0, open: u64::MAX, high: u64::MAX, low: 0, close: 0, volume: None })
    );
}

#[test]
fn aggregate_of_nothing_is_none() {
    assert_eq!(aggregate_prices_to_bar(&[], 60), None);
}

#[test]
fn aggregate_summarises_in_order() {
    let prices = vec![price(100, 61), price(90, 70), price(130, 75), price(110, 119)];
    assert_eq!(
        aggregate_prices_to_bar(&prices, 60),
        Some(Bar { timestamp: 60, open: 100, high: 130, low: 90, close: 110, volume: None })
    );
}
