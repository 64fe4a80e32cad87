use price_oracle::archive::ArchiveTier;
use price_oracle::merkle::build_merkle_tree;
use price_oracle::pyth::{PriceAccount, PriceStatus};
use price_oracle::ring_buffer::RingBuffer;
use price_oracle::state::PriceStorage;
use price_oracle::table::KeyedTable;
use price_oracle::types::{Bar, Price};
use sha2::{Digest, Sha256};
use std::collections::{BTreeMap, VecDeque};

/// A small generator of numbers that gives the same run every time.
struct Numbers(u64);

impl Numbers {
    fn next(&mut self) -> u64 {
        self.0 = self.0.wrapping_mul(6364136223846793005).wrapping_add(1442695040888963407);
        self.0 >> 11
    }

    fn below(&mut self, bound: u64) -> u64 {
        self.next() % bound
    }

    fn text(&mut self, longest: u64) -> String {
        let alphabet: Vec<char> = "abAB01-_ \u{e9}\u{20ac}\u{10348}".chars().collect();
        let len = self.below(longest + 1);
        (0..len).map(|_| alphabet[self.below(alphabet.len() as u64) as usize]).collect()
    }
}

#[test]
fn ring_agrees_with_a_queue() {
    let mut numbers = Numbers(1);
    for capacity in 0..9usize {
        let mut ring: RingBuffer<u64> = RingBuffer::new(capacity);
        let mut queue: VecDeque<u64> = VecDeque::new();
        for _ in 0..60 {
            let item = numbers.next();
            ring.push(item);
            if capacity > 0 {
                if queue.len() == capacity {
                    queue.pop_front();
                }
                queue.push_back(item);
            }
            let held: Vec<u64> = ring.iter().into_iter().copied().collect();
            let expected: Vec<u64> = queue.iter().copied().collect();
            assert_eq!(held, expected);
            assert_eq!(ring.len(), queue.len());
            assert_eq!(ring.is_empty(), queue.is_empty());
            for index in 0..capacity + 1 {
                assert_eq!(ring.get(index), queue.get(index));
            }
        }
    }
}

#[test]
fn table_agrees_with_an_ordered_map() {
    let mut numbers = Numbers(2);
    let mut table: KeyedTable<u64> = KeyedTable::new();
    let mut map: BTreeMap<String, u64> = BTreeMap::new();
    for step in 0..2000u64 {
        let key = numbers.text(3);
        match numbers.below(4) {
            0 | 1 => assert_eq!(table.insert(key.clone(), step), map.insert(key, step)),
            2 => assert_eq!(table.remove(&key), map.remove(&key)),
            _ => {
                assert_eq!(table.get(&key), map.get(&key));
                assert_eq!(table.contains_key(&key), map.contains_key(&key));
                match (table.get_mut(&key), map.get_mut(&key)) {
                    (Some(ours), Some(theirs)) => {
                        *ours += 1;
                        *theirs += 1;
                    }
                    (None, None) => {}
                    _ => panic!("the table and the map disagree on {:?}", key),
                }
            }
        }
        assert_eq!(table.len(), map.len());
        assert_eq!(table.is_empty(), map.is_empty());
        if step % 50 == 0 {
            let keys: Vec<String> = map.keys().cloned().collect();
            assert_eq!(table.keys(), keys);
            for (index, (key, value)) in map.iter().enumerate() {
                assert_eq!(table.key_at(index), key);
                assert_eq!(table.value_at(index), value);
            }
        }
    }
}

#[test]
fn tier_range_agrees_with_collect_and_stable_sort() {
    let mut numbers = Numbers(3);
    for _ in 0..40 {
        let mut tier = ArchiveTier::new(60);
        let mut appended: Vec<Bar> = Vec::new();
        let count = numbers.below(40);
        for serial in 0..count {
            let timestamp = numbers.below(5 * 86_400);
            let bar = Bar {
                timestamp,
                open: serial,
                high: serial,
                low: serial,
                close: serial,
                volume: None,
            };
            tier.add_bar(bar);
            appended.push(bar);
        }
        let mut stored = 0;
        for segment in &tier.segments {
            let day = segment.start_timestamp;
            assert_eq!(day % 86_400, 0);
            assert!(!segment.bars.is_empty());
            assert_eq!(segment.end_timestamp, segment.bars.last().unwrap().timestamp);
            for bar in &segment.bars {
                assert_eq!(bar.timestamp / 86_400 * 86_400, day);
                assert_eq!(*bar, appended[stored]);
                stored += 1;
            }
        }
        assert_eq!(stored, appended.len());
        for _ in 0..10 {
            let start = numbers.below(5 * 86_400);
            let end = numbers.below(6 * 86_400);
            let mut expected: Vec<Bar> = Vec::new();
            for segment in &tier.segments {
                if segment.start_timestamp <= end && segment.end_timestamp >= start {
                    for bar in &segment.bars {
                        if bar.timestamp >= start && bar.timestamp <= end {
                            expected.push(*bar);
                        }
                    }
                }
            }
            expected.sort_by_key(|bar| bar.timestamp);
            assert_eq!(tier.get_bars_in_range(start, end), expected);
        }
        let mut all = appended.clone();
        all.sort_by_key(|bar| bar.timestamp);
        assert_eq!(tier.get_bars_in_range(0, u64::MAX), all);
    }
}

fn reference_root(pairs: &[(String, Price)]) -> Vec<u8> {
    if pairs.is_empty() {
        return vec![0; 32];
    }
    let mut level: Vec<Vec<u8>> = pairs
        .iter()
        .map(|(symbol, price)| {
            let mut hasher = Sha256::new();
            hasher.update(symbol.as_bytes());
            hasher.update(price.value.to_be_bytes());
            hasher.update(price.timestamp.to_be_bytes());
            hasher.update(price.source.as_bytes());
            if let Some(confidence) = price.confidence {
                hasher.update(confidence.to_be_bytes());
            }
            hasher.finalize().to_vec()
        })
        .collect();
    while level.len() > 1 {
        let mut above: Vec<Vec<u8>> = Vec::new();
        for chunk in level.chunks(2) {
            if chunk.len() == 2 {
                let mut hasher = Sha256::new();
                hasher.update(&chunk[0]);
                hasher.update(&chunk[1]);
                above.push(hasher.finalize().to_vec());
            } else {
                above.push(chunk[0].clone());
            }
        }
        level = above;
    }
    level.remove(0)
}

#[test]
fn root_agrees_with_a_second_construction() {
    let mut numbers = Numbers(4);
    for size in 0..40usize {
        let pairs: Vec<(String, Price)> = (0..size)
            .map(|_| {
                let confidence = if numbers.below(2) == 0 { None } else { Some(numbers.next()) };
                (
                    numbers.text(6),
                    Price {
                        value: numbers.next(),
                        confidence,
                        timestamp: numbers.next(),
                        source: numbers.text(8),
                    },
                )
            })
            .collect();
        assert_eq!(build_merkle_tree(&pairs), reference_root(&pairs));
    }
}

#[test]
fn parse_agrees_with_std_byte_conversions() {
    let mut numbers = Numbers(5);
    for _ in 0..200 {
        let len = 240 + numbers.below(20) as usize;
        let mut data: Vec<u8> = (0..len).map(|_| numbers.below(256) as u8).collect();
        data[0..4].copy_from_slice(&0xa1b2c3d4u32.to_le_bytes());
        data[8..12].copy_from_slice(&3u32.to_le_bytes());
        let account = PriceAccount::parse(&data).unwrap();
        let u32_at = |at: usize| u32::from_le_bytes(data[at..at + 4].try_into().unwrap());
        let u64_at = |at: usize| u64::from_le_bytes(data[at..at + 8].try_into().unwrap());
        let i64_at = |at: usize| i64::from_le_bytes(data[at..at + 8].try_into().unwrap());
        let status_at = |at: usize| match u32_at(at) {
            1 => PriceStatus::Trading,
            2 => PriceStatus::Halted,
            3 => PriceStatus::Auction,
            _ => PriceStatus::Unknown,
        };
        assert_eq!(account.magic, u32_at(0));
        assert_eq!(account.ver, u32_at(4));
        assert_eq!(account.atype, u32_at(8));
        assert_eq!(account.size, u32_at(12));
        assert_eq!(account.ptype, u32_at(16));
        assert_eq!(account.exponent, i32::from_le_bytes(data[20..24].try_into().unwrap()));
        assert_eq!(account.num, u32_at(24));
        assert_eq!(account.unused, u32_at(28));
        assert_eq!(account.curr_slot, u64_at(32));
        assert_eq!(account.valid_slot, u64_at(40));
        assert_eq!((account.twap.val, account.twap.numer, account.twap.denom), (i64_at(48), i64_at(56), i64_at(64)));
        assert_eq!((account.twac.val, account.twac.numer, account.twac.denom), (i64_at(72), i64_at(80), i64_at(88)));
        assert_eq!(account.drv1, u64_at(96));
        assert_eq!(account.drv2.price, i64_at(104));
        assert_eq!(account.drv2.conf, u64_at(112));
        assert_eq!(account.drv2.status, status_at(120));
        assert_eq!(account.drv2.corp_act, u32_at(124));
        assert_eq!(account.drv2.pub_slot, u64_at(128));
        assert_eq!(&account.prod[..], &data[136..168]);
        assert_eq!(&account.next[..], &data[168..200]);
        assert_eq!(account.agg_pub_slot, u64_at(200));
        assert_eq!(account.agg.price, i64_at(208));
        assert_eq!(account.agg.conf, u64_at(216));
        assert_eq!(account.agg.status, status_at(224));
        assert_eq!(account.agg.corp_act, u32_at(228));
        assert_eq!(account.agg.pub_slot, u64_at(232));
        assert_eq!(account.is_valid(), i64_at(208) != 0);
    }
}

/// One resolution as a plain state machine: the bars finished so far and
/// the bar in progress.
struct Resolution {
    seconds: u64,
    finished: Vec<Bar>,
    open: Option<Bar>,
}

impl Resolution {
    fn take(&mut self, price: &Price) {
        let start = price.timestamp / self.seconds * self.seconds;
        let fresh = Bar {
            timestamp: start,
            open: price.value,
            high: price.value,
            low: price.value,
            close: price.value,
            volume: None,
        };
        match self.open {
            None => self.open = Some(fresh),
            Some(bar) if start == bar.timestamp => {
                self.open = Some(Bar {
                    high: bar.high.max(price.value),
                    low: bar.low.min(price.value),
                    close: price.value,
                    ..bar
                })
            }
            Some(bar) if start > bar.timestamp => {
                self.finished.push(bar);
                self.open = Some(fresh);
            }
            Some(_) => {}
        }
    }
}

#[test]
fn store_agrees_with_a_plain_state_machine() {
    let mut numbers = Numbers(6);
    let names = ["1m", "5m", "1h"];
    let symbols = ["BTC", "ETH", "SOL"];
    let mut store = PriceStorage::new();
    let mut models: BTreeMap<&str, Vec<Resolution>> = BTreeMap::new();
    let mut clock: u64 = 1_700_000_000;
    for _ in 0..3000 {
        let symbol = symbols[numbers.below(3) as usize];
        clock += numbers.below(400);
        let jitter = numbers.below(200);
        let price = Price {
            value: 1 + numbers.below(1000),
            confidence: None,
            timestamp: clock - jitter,
            source: "s".to_string(),
        };
        let model = models.entry(symbol).or_insert_with(|| {
            vec![
                Resolution { seconds: 60, finished: Vec::new(), open: None },
                Resolution { seconds: 300, finished: Vec::new(), open: None },
                Resolution { seconds: 3600, finished: Vec::new(), open: None },
            ]
        });
        for resolution in model.iter_mut() {
            resolution.take(&price);
        }
        store.add_price_with_history(symbol.to_string(), price);
    }
    for (symbol, model) in &models {
        for (name, resolution) in names.iter().zip(model.iter()) {
            assert_eq!(store.get_bars(&symbol.to_string(), name, 0, u64::MAX), resolution.finished);
            assert_eq!(store.get_open_bar(&symbol.to_string(), name), resolution.open);
        }
    }
}
