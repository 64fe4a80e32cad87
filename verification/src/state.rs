//! The store: per symbol the latest price, the window of recent prices,
//! the bars in progress and the archive of finished bars; beside them the
//! registries of symbols, managers and updaters, and the global counters.

use crate::archive::{
    all_bars, archive_with, is_range_answer, lemma_all_bars_of_tier_with, standard_tiers,
    strictly_ascending, Archive, TierModel,
};
use crate::ohlc::{absorb, bar_of, first_bar, values_of, OHLCBuilder};
use crate::ring_buffer::{keep_last, RingBuffer};
use crate::table::{ascending, same_key, KeyedTable};
use crate::types::{Bar, OracleMetrics, Policy, Price, Symbol};
use vstd::prelude::*;

verus! {

/// Slots in the window of recent prices of one symbol.
pub const HISTORY_CAPACITY: usize = 2880;

/// Seconds per bar of the tier "1m".
pub const MINUTE: u64 = 60;

/// Seconds per bar of the tier "5m".
pub const FIVE_MINUTES: u64 = 300;

/// Seconds per bar of the tier "1h".
pub const HOUR: u64 = 3600;

/// Start of the bucket of `seconds` seconds that `timestamp` falls in.
pub open spec fn bucket_of(timestamp: u64, seconds: u64) -> u64 {
    ((timestamp / seconds) * seconds) as u64
}

/// One resolution of one symbol after an observation: its bar in progress
/// and the archive.
pub struct Rolled {
    pub archive: Map<Seq<char>, TierModel>,
    pub open: Option<Bar>,
}

/// What an observation does to one resolution. In the bucket of the bar in
/// progress it joins that bar. In a later bucket it finishes that bar into
/// the tier called `name` and opens the bar of its own bucket. In an earlier
/// bucket, one already closed, it is left out of aggregation. With no bar
/// in progress it opens one.
pub open spec fn rolled(
    archive: Map<Seq<char>, TierModel>,
    open: Option<Bar>,
    name: Seq<char>,
    seconds: u64,
    price: Price,
) -> Rolled {
    let start = bucket_of(price.timestamp, seconds);
    match open {
        None => Rolled { archive, open: Some(first_bar(start, price.value)) },
        Some(bar) => if start == bar.timestamp {
            Rolled { archive, open: Some(absorb(open, start, price.value)) }
        } else if start > bar.timestamp {
            Rolled {
                archive: archive_with(archive, name, bar),
                open: Some(first_bar(start, price.value)),
            }
        } else {
            Rolled { archive, open }
        },
    }
}

/// One resolution after `prices` passed through it in order.
pub open spec fn rolled_all(
    archive: Map<Seq<char>, TierModel>,
    open: Option<Bar>,
    name: Seq<char>,
    seconds: u64,
    prices: Seq<Price>,
) -> Rolled
    decreases prices.len(),
{
    if prices.len() == 0 {
        Rolled { archive, open }
    } else {
        let before = rolled_all(archive, open, name, seconds, prices.drop_last());
        rolled(before.archive, before.open, name, seconds, prices.last())
    }
}

/// Streaming aggregation needs no replay: observations of one bucket that
/// pass through a resolution with no bar in progress leave the archive as
/// it is, and the bar in progress is the bar of all of them.
pub proof fn lemma_bucket_builds_its_bar(
    archive: Map<Seq<char>, TierModel>,
    name: Seq<char>,
    seconds: u64,
    prices: Seq<Price>,
    start: u64,
)
    requires
        prices.len() > 0,
        forall|i: int|
            0 <= i < prices.len() ==> bucket_of((#[trigger] prices[i]).timestamp, seconds) == start,
    ensures
        rolled_all(archive, None, name, seconds, prices).archive == archive,
        rolled_all(archive, None, name, seconds, prices).open == bar_of(start, values_of(prices)),
    decreases prices.len(),
{
    let front = prices.drop_last();
    assert(values_of(prices).drop_last() =~= values_of(front));
    assert(bucket_of(prices[prices.len() - 1].timestamp, seconds) == start);
    if front.len() > 0 {
        assert forall|i: int| 0 <= i < front.len() implies bucket_of(
            (#[trigger] front[i]).timestamp,
            seconds,
        ) == start by {
            assert(front[i] == prices[i]);
        }
        lemma_bucket_builds_its_bar(archive, name, seconds, front, start);
        crate::ohlc::lemma_bar_of_summarises(start, values_of(front));
    }
}

/// The first observation of a later bucket finishes the bar in progress
/// into the tier of its resolution and opens the bar of its own bucket; an
/// observation of an earlier bucket changes nothing.
pub proof fn lemma_rollover(
    archive: Map<Seq<char>, TierModel>,
    bar: Bar,
    name: Seq<char>,
    seconds: u64,
    price: Price,
)
    ensures
        bucket_of(price.timestamp, seconds) > bar.timestamp ==> rolled(
            archive,
            Some(bar),
            name,
            seconds,
            price,
        ) == (Rolled {
            archive: archive_with(archive, name, bar),
            open: Some(first_bar(bucket_of(price.timestamp, seconds), price.value)),
        }),
        bucket_of(price.timestamp, seconds) < bar.timestamp ==> rolled(
            archive,
            Some(bar),
            name,
            seconds,
            price,
        ) == (Rolled { archive, open: Some(bar) }),
{
}

/// What the store holds of one symbol.
pub struct SeriesModel {
    /// The last observation accepted.
    pub latest: Price,
    /// The recent observations, oldest first.
    pub history: Seq<Price>,
    /// How many observations the window keeps.
    pub capacity: nat,
    /// The finished bars, tier by tier.
    pub archive: Map<Seq<char>, TierModel>,
    /// The bar in progress of the tier "1m".
    pub minute: Option<Bar>,
    /// The bar in progress of the tier "5m".
    pub five_minutes: Option<Bar>,
    /// The bar in progress of the tier "1h".
    pub hour: Option<Bar>,
}

/// The series of a symbol with its first observation.
pub open spec fn first_series(price: Price) -> SeriesModel {
    SeriesModel {
        latest: price,
        history: seq![price],
        capacity: HISTORY_CAPACITY as nat,
        archive: standard_tiers(),
        minute: Some(first_bar(bucket_of(price.timestamp, MINUTE), price.value)),
        five_minutes: Some(first_bar(bucket_of(price.timestamp, FIVE_MINUTES), price.value)),
        hour: Some(first_bar(bucket_of(price.timestamp, HOUR), price.value)),
    }
}

/// `series` after one more observation: it becomes the latest, enters the
/// window, and passes through the three resolutions in turn.
pub open spec fn series_with(series: SeriesModel, price: Price) -> SeriesModel {
    let minute = rolled(series.archive, series.minute, "1m"@, MINUTE, price);
    let five = rolled(minute.archive, series.five_minutes, "5m"@, FIVE_MINUTES, price);
    let hour = rolled(five.archive, series.hour, "1h"@, HOUR, price);
    SeriesModel {
        latest: price,
        history: keep_last(series.history.push(price), series.capacity),
        capacity: series.capacity,
        archive: hour.archive,
        minute: minute.open,
        five_minutes: five.open,
        hour: hour.open,
    }
}

/// Whether the tier called `name` holds its bars by strictly ascending
/// stamp, all of them before the bar in progress.
pub open spec fn tier_in_order(
    archive: Map<Seq<char>, TierModel>,
    open: Option<Bar>,
    name: Seq<char>,
) -> bool {
    archive.contains_key(name) ==> {
        &&& strictly_ascending(all_bars(archive[name].segments))
        &&& match open {
            Some(bar) => forall|i: int|
                0 <= i < all_bars(archive[name].segments).len() ==> (#[trigger] all_bars(
                    archive[name].segments,
                )[i]).timestamp < bar.timestamp,
            None => all_bars(archive[name].segments).len() == 0,
        }
    }
}

/// Whether every tier of `series` holds its bars by strictly ascending
/// stamp, all of them before the bar in progress of its resolution.
pub open spec fn series_in_order(series: SeriesModel) -> bool {
    &&& tier_in_order(series.archive, series.minute, "1m"@)
    &&& tier_in_order(series.archive, series.five_minutes, "5m"@)
    &&& tier_in_order(series.archive, series.hour, "1h"@)
}

/// An observation that passes through one resolution keeps the tier of
/// that resolution in order, and leaves every other tier as it is.
pub proof fn lemma_rolled_keeps_order(
    archive: Map<Seq<char>, TierModel>,
    open: Option<Bar>,
    name: Seq<char>,
    seconds: u64,
    price: Price,
)
    requires
        tier_in_order(archive, open, name),
    ensures
        tier_in_order(
            rolled(archive, open, name, seconds, price).archive,
            rolled(archive, open, name, seconds, price).open,
            name,
        ),
        forall|other: Seq<char>|
            other != name ==> (rolled(archive, open, name, seconds, price).archive.contains_key(
                other,
            ) <==> archive.contains_key(other)) && (archive.contains_key(other) ==> #[trigger] rolled(
                archive,
                open,
                name,
                seconds,
                price,
            ).archive[other] == archive[other]),
{
    let after = rolled(archive, open, name, seconds, price);
    if archive.contains_key(name) {
        match open {
            Some(bar) => {
                if bucket_of(price.timestamp, seconds) > bar.timestamp {
                    lemma_all_bars_of_tier_with(archive[name].segments, bar);
                }
            },
            None => {},
        }
    }
}

/// The series of a first observation is in order.
pub proof fn lemma_first_series_in_order(price: Price)
    ensures
        series_in_order(first_series(price)),
{
    reveal_strlit("1m");
    reveal_strlit("5m");
    reveal_strlit("1h");
    let tiers = standard_tiers();
    assert(all_bars(tiers["1m"@].segments) =~= Seq::<Bar>::empty());
    assert(all_bars(tiers["5m"@].segments) =~= Seq::<Bar>::empty());
    assert(all_bars(tiers["1h"@].segments) =~= Seq::<Bar>::empty());
}

/// Whatever is observed, and in whatever order, a series stays in order:
/// no bar is ever archived behind a bar of a later bucket.
pub proof fn lemma_series_with_keeps_order(series: SeriesModel, price: Price)
    requires
        series_in_order(series),
    ensures
        series_in_order(series_with(series, price)),
{
    reveal_strlit("1m");
    reveal_strlit("5m");
    reveal_strlit("1h");
    assert("1m"@[0] == '1' && "5m"@[0] == '5' && "1h"@[0] == '1');
    assert("1m"@[1] == 'm' && "1h"@[1] == 'h');
    let minute = rolled(series.archive, series.minute, "1m"@, MINUTE, price);
    lemma_rolled_keeps_order(series.archive, series.minute, "1m"@, MINUTE, price);
    assert(tier_in_order(minute.archive, series.five_minutes, "5m"@));
    assert(tier_in_order(minute.archive, series.hour, "1h"@));
    let five = rolled(minute.archive, series.five_minutes, "5m"@, FIVE_MINUTES, price);
    lemma_rolled_keeps_order(minute.archive, series.five_minutes, "5m"@, FIVE_MINUTES, price);
    assert(tier_in_order(five.archive, minute.open, "1m"@));
    assert(tier_in_order(five.archive, series.hour, "1h"@));
    let hour = rolled(five.archive, series.hour, "1h"@, HOUR, price);
    lemma_rolled_keeps_order(five.archive, series.hour, "1h"@, HOUR, price);
    assert(tier_in_order(hour.archive, minute.open, "1m"@));
    assert(tier_in_order(hour.archive, five.open, "5m"@));
}

/// The bar in progress of the resolution called `name`; none for a name
/// that is no resolution.
pub open spec fn open_bar(series: SeriesModel, name: Seq<char>) -> Option<Bar> {
    if name == "1m"@ {
        series.minute
    } else if name == "5m"@ {
        series.five_minutes
    } else if name == "1h"@ {
        series.hour
    } else {
        None
    }
}

/// Passes one observation through the builder of one resolution.
fn roll(
    builder: &mut OHLCBuilder,
    archive: &mut Archive,
    name: &str,
    seconds: u64,
    price: &Price,
)
    requires
        seconds > 0,
    ensures
        final(builder).bar() == rolled(
            old(archive)@,
            old(builder).bar(),
            name@,
            seconds,
            *price,
        ).open,
        final(archive)@ == rolled(old(archive)@, old(builder).bar(), name@, seconds, *price).archive,
{
    assert((price.timestamp / seconds) * seconds <= price.timestamp) by (nonlinear_arith)
        requires
            seconds > 0,
    ;
    let start: u64 = (price.timestamp / seconds) * seconds;
    match builder.peek() {
        None => {
            let mut fresh = OHLCBuilder::new(start);
            fresh.add_price(price);
            *builder = fresh;
        },
        Some(bar) => {
            if start == bar.timestamp {
                builder.add_price(price);
            } else if start > bar.timestamp {
                archive.add_bar_to_tier(name, bar);
                let mut fresh = OHLCBuilder::new(start);
                fresh.add_price(price);
                *builder = fresh;
            }
        },
    }
}

/// All that is kept of one symbol.
#[derive(Debug)]
pub struct Series {
    latest: Price,
    history: RingBuffer<Price>,
    archive: Archive,
    minute: OHLCBuilder,
    five_minutes: OHLCBuilder,
    hour: OHLCBuilder,
}

impl View for Series {
    type V = SeriesModel;

    closed spec fn view(&self) -> SeriesModel {
        SeriesModel {
            latest: self.latest,
            history: self.history@,
            capacity: self.history.spec_capacity(),
            archive: self.archive@,
            minute: self.minute.bar(),
            five_minutes: self.five_minutes.bar(),
            hour: self.hour.bar(),
        }
    }
}

impl Series {
    /// The series of a symbol whose first observation is `price`.
    pub fn open(price: Price) -> (series: Self)
        ensures
            series@ == first_series(price),
    {
        let mut history: RingBuffer<Price> = RingBuffer::new(HISTORY_CAPACITY);
        history.push(price.clone());
        let mut archive = Archive::new();
        let mut minute = OHLCBuilder::new(0);
        let mut five_minutes = OHLCBuilder::new(0);
        let mut hour = OHLCBuilder::new(0);
        roll(&mut minute, &mut archive, "1m", MINUTE, &price);
        roll(&mut five_minutes, &mut archive, "5m", FIVE_MINUTES, &price);
        roll(&mut hour, &mut archive, "1h", HOUR, &price);
        assert(history@ =~= seq![price]);
        Series { latest: price, history, archive, minute, five_minutes, hour }
    }

    /// Takes one more observation: it becomes the latest and enters the
    /// window and the bars in progress.
    pub fn record(&mut self, price: Price)
        ensures
            final(self)@ == series_with(old(self)@, price),
    {
        self.history.push(price.clone());
        self.update_ohlc_and_archive(&price);
        self.latest = price;
    }

    /// Passes `price` through the three resolutions in turn; a bar whose
    /// bucket has ended goes to the archive.
    pub fn update_ohlc_and_archive(&mut self, price: &Price)
        ensures
            final(self)@ == (SeriesModel {
                latest: old(self)@.latest,
                history: old(self)@.history,
                ..series_with(old(self)@, *price)
            }),
    {
        roll(&mut self.minute, &mut self.archive, "1m", MINUTE, price);
        roll(&mut self.five_minutes, &mut self.archive, "5m", FIVE_MINUTES, price);
        roll(&mut self.hour, &mut self.archive, "1h", HOUR, price);
    }

    /// The last observation taken.
    pub fn latest(&self) -> (price: &Price)
        ensures
            *price == self@.latest,
    {
        &self.latest
    }

    /// The window of recent observations.
    pub fn history(&self) -> (window: &RingBuffer<Price>)
        ensures
            window@ == self@.history,
            window.spec_capacity() == self@.capacity,
    {
        &self.history
    }

    /// The archive of finished bars.
    pub fn archive(&self) -> (archive: &Archive)
        ensures
            archive@ == self@.archive,
    {
        &self.archive
    }

    /// The bar in progress of the resolution called `resolution`; none for
    /// a name that is no resolution.
    pub fn get_open_bar(&self, resolution: &str) -> (bar: Option<Bar>)
        ensures
            bar == open_bar(self@, resolution@),
    {
        if same_key(resolution, "1m") {
            self.minute.peek()
        } else if same_key(resolution, "5m") {
            self.five_minutes.peek()
        } else if same_key(resolution, "1h") {
            self.hour.peek()
        } else {
            None
        }
    }
}

/// What a store holds.
pub struct StoreModel {
    /// The series, by symbol.
    pub series: Map<Seq<char>, SeriesModel>,
    /// The symbols registered; none registered admits every symbol.
    pub symbols: Set<Seq<char>>,
    /// Who may administer the store.
    pub managers: Set<Seq<char>>,
    /// Who may submit prices; none listed admits every caller.
    pub updaters: Set<Seq<char>>,
    pub policy: Policy,
    /// Counts the batches that brought at least one observation.
    pub version: u64,
    /// Counts the observations accepted.
    pub total_updates: u64,
    /// When the last observation was accepted.
    pub last_update_time: u64,
}

/// `store` after `price` was ingested for `symbol`: the series of the symbol
/// takes it, or is opened with it; nothing else changes.
pub open spec fn ingested(store: StoreModel, symbol: Seq<char>, price: Price) -> StoreModel {
    StoreModel {
        series: store.series.insert(
            symbol,
            if store.series.contains_key(symbol) {
                series_with(store.series[symbol], price)
            } else {
                first_series(price)
            },
        ),
        ..store
    }
}

/// Whether `keys` lists exactly the members of `set`, in ascending order.
pub open spec fn is_listing_of(keys: Seq<Seq<char>>, set: Set<Seq<char>>) -> bool {
    &&& ascending(keys)
    &&& forall|k: Seq<char>| keys.contains(k) <==> set.contains(k)
}

/// The keys of `names`, in their order.
pub open spec fn texts(names: Seq<String>) -> Seq<Seq<char>> {
    names.map_values(|name: String| name@)
}

/// The symbols of `entries`, in their order.
pub open spec fn symbols_of(entries: Seq<(Symbol, Price)>) -> Seq<Seq<char>> {
    entries.map_values(|entry: (Symbol, Price)| entry.0@)
}

/// `n + 1`, but never past the largest value a counter can hold.
pub open spec fn counted(n: u64) -> u64 {
    if n < u64::MAX {
        (n + 1) as u64
    } else {
        n
    }
}

/// The store of a price oracle.
#[derive(Debug)]
pub struct PriceStorage {
    /// All that is kept of each symbol that has a price.
    pub series: KeyedTable<Series>,
    /// The symbols registered.
    pub symbols: KeyedTable<()>,
    /// Who may administer the store, by the text of the principal.
    pub managers: KeyedTable<()>,
    /// Who may submit prices, by the text of the principal.
    pub updaters: KeyedTable<()>,
    pub policy: Policy,
    pub version: u64,
    pub total_updates: u64,
    pub last_update_time: u64,
}

impl View for PriceStorage {
    type V = StoreModel;

    open spec fn view(&self) -> StoreModel {
        StoreModel {
            series: self.series@.map_values(|series: Series| series@),
            symbols: self.symbols@.dom(),
            managers: self.managers@.dom(),
            updaters: self.updaters@.dom(),
            policy: self.policy,
            version: self.version,
            total_updates: self.total_updates,
            last_update_time: self.last_update_time,
        }
    }
}

/// A table that holds exactly `names` as its keys.
fn registry_of(names: &Vec<String>) -> (registry: KeyedTable<()>)
    ensures
        registry@.dom() == texts(names@).to_set(),
{
    let mut registry: KeyedTable<()> = KeyedTable::new();
    let mut i: usize = 0;
    assert(registry@.dom() =~= texts(names@).take(0).to_set());
    while i < names.len()
        invariant
            i <= names.len(),
            registry@.dom() == texts(names@).take(i as int).to_set(),
        decreases names.len() - i,
    {
        registry.insert(names[i].clone(), ());
        proof {
            let all = texts(names@);
            assert(all.take(i + 1) =~= all.take(i as int).push(all[i as int]));
            all.take(i as int).lemma_push_to_set_commute(all[i as int]);
            assert(registry@.dom() =~= all.take(i + 1).to_set());
        }
        i = i + 1;
    }
    assert(texts(names@).take(i as int) =~= texts(names@));
    registry
}

impl PriceStorage {
    /// An empty store: no series, nobody registered, counters at zero, and
    /// the policy of keeping the last price with thirty days of history.
    pub fn new() -> (store: Self)
        ensures
            store@.series == Map::<Seq<char>, SeriesModel>::empty(),
            store@.symbols == Set::<Seq<char>>::empty(),
            store@.managers == Set::<Seq<char>>::empty(),
            store@.updaters == Set::<Seq<char>>::empty(),
            store@.policy.aggregation@ == "LAST"@,
            store@.policy.retain_history == 30,
            store@.version == 0,
            store@.total_updates == 0,
            store@.last_update_time == 0,
    {
        let store = PriceStorage {
            series: KeyedTable::new(),
            symbols: KeyedTable::new(),
            managers: KeyedTable::new(),
            updaters: KeyedTable::new(),
            policy: Policy { aggregation: "LAST".to_string(), retain_history: 30 },
            version: 0,
            total_updates: 0,
            last_update_time: 0,
        };
        assert(store@.series =~= Map::<Seq<char>, SeriesModel>::empty());
        assert(store@.symbols =~= Set::<Seq<char>>::empty());
        assert(store@.managers =~= Set::<Seq<char>>::empty());
        assert(store@.updaters =~= Set::<Seq<char>>::empty());
        store
    }

    /// Ingests one observation for `symbol`: it becomes the latest price
    /// of the symbol, enters its window of recent prices, and passes through
    /// its bars in progress. The series of a symbol not seen before is
    /// opened. Nothing is validated here.
    pub fn add_price_with_history(&mut self, symbol: Symbol, price: Price)
        ensures
            final(self)@ == ingested(old(self)@, symbol@, price),
    {
        match self.series.get_mut(symbol.as_str()) {
            Some(series) => {
                series.record(price);
            },
            None => {
                let series = Series::open(price);
                self.series.insert(symbol, series);
            },
        }
        assert(self@.series =~= ingested(old(self)@, symbol@, price).series);
    }

    /// The latest price of `symbol`, if the store has one.
    pub fn get_price(&self, symbol: &Symbol) -> (price: Option<Price>)
        ensures
            price == (if self@.series.contains_key(symbol@) {
                Some(self@.series[symbol@].latest)
            } else {
                None
            }),
    {
        match self.series.get(symbol.as_str()) {
            Some(series) => Some(series.latest().clone()),
            None => None,
        }
    }

    /// The latest price of each of `symbols`, in their order.
    pub fn get_prices(&self, symbols: &[Symbol]) -> (prices: Vec<Option<Price>>)
        ensures
            prices@.len() == symbols@.len(),
            forall|i: int|
                0 <= i < symbols@.len() ==> #[trigger] prices@[i] == (if self@.series.contains_key(
                    symbols@[i]@,
                ) {
                    Some(self@.series[symbols@[i]@].latest)
                } else {
                    None
                }),
    {
        let mut prices: Vec<Option<Price>> = Vec::new();
        let mut i: usize = 0;
        while i < symbols.len()
            invariant
                i <= symbols.len(),
                prices@.len() == i,
                forall|k: int|
                    0 <= k < i ==> #[trigger] prices@[k] == (if self@.series.contains_key(
                        symbols@[k]@,
                    ) {
                        Some(self@.series[symbols@[k]@].latest)
                    } else {
                        None
                    }),
            decreases symbols.len() - i,
        {
            prices.push(self.get_price(&symbols[i]));
            i = i + 1;
        }
        prices
    }

    /// The symbols that have a price, in ascending order.
    pub fn get_all_symbols(&self) -> (symbols: Vec<Symbol>)
        ensures
            is_listing_of(texts(symbols@), self@.series.dom()),
    {
        let symbols = self.series.keys();
        assert(self@.series.dom() =~= self.series@.dom());
        symbols
    }

    /// Every symbol that has a price beside its latest price, in ascending
    /// order of the symbols.
    pub fn get_all_prices(&self) -> (entries: Vec<(Symbol, Price)>)
        ensures
            is_listing_of(symbols_of(entries@), self@.series.dom()),
            forall|i: int|
                0 <= i < entries@.len() ==> (#[trigger] entries@[i]).1
                    == self@.series[entries@[i].0@].latest,
    {
        let mut entries: Vec<(Symbol, Price)> = Vec::new();
        let count: usize = self.series.len();
        let mut i: usize = 0;
        assert(self@.series.dom() =~= self.series@.dom());
        while i < count
            invariant
                i <= count,
                count == self.series.spec_keys().len(),
                self.series.listed(),
                symbols_of(entries@) == self.series.spec_keys().take(i as int),
                forall|k: int|
                    0 <= k < i ==> (#[trigger] entries@[k]).1 == self@.series[entries@[k].0@].latest,
            decreases count - i,
        {
            let symbol: Symbol = self.series.key_at(i).clone();
            let price: Price = self.series.value_at(i).latest().clone();
            let ghost before = entries@;
            proof {
                assert(self.series@.contains_key(self.series.spec_keys()[i as int]));
            }
            entries.push((symbol, price));
            proof {
                assert(symbols_of(entries@) =~= symbols_of(before).push(symbol@));
                assert(self.series.spec_keys().take(i + 1) =~= self.series.spec_keys().take(
                    i as int,
                ).push(symbol@));
                assert forall|k: int| 0 <= k < i + 1 implies (#[trigger] entries@[k]).1
                    == self@.series[entries@[k].0@].latest by {
                    if k < i {
                        assert(entries@[k] == before[k]);
                    }
                }
            }
            i = i + 1;
        }
        assert(self.series.spec_keys().take(i as int) =~= self.series.spec_keys());
        entries
    }

    /// The finished bars of `symbol` at `resolution` stamped within the
    /// closed range from `start` to `end`, by ascending stamp. A symbol
    /// without series and a name that is no tier give no bars.
    pub fn get_bars(&self, symbol: &Symbol, resolution: &str, start: u64, end: u64) -> (bars: Vec<
        Bar,
    >)
        ensures
            self@.series.contains_key(symbol@) && self@.series[symbol@].archive.contains_key(
                resolution@,
            ) ==> is_range_answer(
                bars@,
                self@.series[symbol@].archive[resolution@].segments,
                start,
                end,
            ),
            !(self@.series.contains_key(symbol@) && self@.series[symbol@].archive.contains_key(
                resolution@,
            )) ==> bars@ == Seq::<Bar>::empty(),
    {
        match self.series.get(symbol.as_str()) {
            Some(series) => series.archive().get_bars(resolution, start, end),
            None => Vec::new(),
        }
    }

    /// The bar in progress of `symbol` at `resolution`; none for a symbol
    /// without series and for a name that is no resolution.
    pub fn get_open_bar(&self, symbol: &Symbol, resolution: &str) -> (bar: Option<Bar>)
        ensures
            bar == (if self@.series.contains_key(symbol@) {
                open_bar(self@.series[symbol@], resolution@)
            } else {
                None
            }),
    {
        match self.series.get(symbol.as_str()) {
            Some(series) => series.get_open_bar(resolution),
            None => None,
        }
    }

    /// The recent prices of `symbol`, oldest first; none for a symbol
    /// without series.
    pub fn get_history(&self, symbol: &Symbol) -> (prices: Vec<Price>)
        ensures
            prices@ == (if self@.series.contains_key(symbol@) {
                self@.series[symbol@].history
            } else {
                Seq::<Price>::empty()
            }),
    {
        let mut prices: Vec<Price> = Vec::new();
        match self.series.get(symbol.as_str()) {
            Some(series) => {
                let window: Vec<&Price> = series.history().iter();
                let ghost kept = series@.history;
                let mut i: usize = 0;
                while i < window.len()
                    invariant
                        i <= window.len(),
                        window@.len() == kept.len(),
                        forall|k: int| 0 <= k < window@.len() ==> *#[trigger] window@[k] == kept[k],
                        prices@ == kept.take(i as int),
                    decreases window.len() - i,
                {
                    prices.push(window[i].clone());
                    assert(kept.take(i + 1) =~= kept.take(i as int).push(kept[i as int]));
                    i = i + 1;
                }
                assert(kept.take(i as int) =~= kept);
            },
            None => {},
        }
        prices
    }

    /// How many recent prices of `symbol` are kept.
    pub fn get_history_count(&self, symbol: &Symbol) -> (count: usize)
        ensures
            count == (if self@.series.contains_key(symbol@) {
                self@.series[symbol@].history.len()
            } else {
                0
            }),
    {
        match self.series.get(symbol.as_str()) {
            Some(series) => series.history().len(),
            None => 0,
        }
    }

    /// Forgets `symbol`: its series goes, all parts at once, and it leaves
    /// the registry of symbols.
    pub fn remove_symbol(&mut self, symbol: &Symbol)
        ensures
            final(self)@ == (StoreModel {
                series: old(self)@.series.remove(symbol@),
                symbols: old(self)@.symbols.remove(symbol@),
                ..old(self)@
            }),
    {
        self.series.remove(symbol.as_str());
        self.symbols.remove(symbol.as_str());
        assert(self@.series =~= old(self)@.series.remove(symbol@));
        assert(self@.symbols =~= old(self)@.symbols.remove(symbol@));
    }

    /// Registers `symbol`.
    pub fn upsert_symbol(&mut self, symbol: &Symbol)
        ensures
            final(self)@ == (StoreModel {
                symbols: old(self)@.symbols.insert(symbol@),
                ..old(self)@
            }),
    {
        self.symbols.insert(symbol.clone(), ());
        assert(self@.symbols =~= old(self)@.symbols.insert(symbol@));
    }

    /// Whether `symbol` is registered.
    pub fn symbol_exists(&self, symbol: &Symbol) -> (registered: bool)
        ensures
            registered == self@.symbols.contains(symbol@),
    {
        self.symbols.contains_key(symbol.as_str())
    }

    /// Whether no symbol is registered.
    pub fn symbols_is_empty(&self) -> (empty: bool)
        ensures
            empty == (self@.symbols == Set::<Seq<char>>::empty()),
    {
        let empty = self.symbols.is_empty();
        proof {
            if empty {
                assert(self@.symbols =~= Set::<Seq<char>>::empty());
            } else {
                assert(self.symbols@.dom().len() != 0);
            }
        }
        empty
    }

    /// Makes `principal` a manager.
    pub fn add_manager(&mut self, principal: &str)
        ensures
            final(self)@ == (StoreModel {
                managers: old(self)@.managers.insert(principal@),
                ..old(self)@
            }),
    {
        self.managers.insert(principal.to_string(), ());
        assert(self@.managers =~= old(self)@.managers.insert(principal@));
    }

    /// Whether `principal` is a manager.
    pub fn is_manager(&self, principal: &str) -> (held: bool)
        ensures
            held == self@.managers.contains(principal@),
    {
        self.managers.contains_key(principal)
    }

    /// Replaces the managers by `principals`.
    pub fn set_managers(&mut self, principals: Vec<String>)
        ensures
            final(self)@ == (StoreModel {
                managers: texts(principals@).to_set(),
                ..old(self)@
            }),
    {
        self.managers = registry_of(&principals);
    }

    /// The managers, in ascending order.
    pub fn get_all_managers(&self) -> (principals: Vec<String>)
        ensures
            is_listing_of(texts(principals@), self@.managers),
    {
        self.managers.keys()
    }

    /// Whether `principal` is listed as an updater.
    pub fn is_updater(&self, principal: &str) -> (held: bool)
        ensures
            held == self@.updaters.contains(principal@),
    {
        self.updaters.contains_key(principal)
    }

    /// Whether no updater is listed.
    pub fn updaters_is_empty(&self) -> (empty: bool)
        ensures
            empty == (self@.updaters == Set::<Seq<char>>::empty()),
    {
        let empty = self.updaters.is_empty();
        proof {
            if empty {
                assert(self@.updaters =~= Set::<Seq<char>>::empty());
            } else {
                assert(self.updaters@.dom().len() != 0);
            }
        }
        empty
    }

    /// Replaces the updaters by `principals`.
    pub fn set_updaters(&mut self, principals: Vec<String>)
        ensures
            final(self)@ == (StoreModel {
                updaters: texts(principals@).to_set(),
                ..old(self)@
            }),
    {
        self.updaters = registry_of(&principals);
    }

    /// The updaters, in ascending order.
    pub fn get_all_updaters(&self) -> (principals: Vec<String>)
        ensures
            is_listing_of(texts(principals@), self@.updaters),
    {
        self.updaters.keys()
    }

    /// The counters of the store beside the balance handed in.
    pub fn get_metrics(&self, canister_cycles: u64) -> (metrics: OracleMetrics)
        ensures
            metrics.total_symbols == self@.series.dom().len(),
            metrics.total_updates == self@.total_updates,
            metrics.last_update_time == self@.last_update_time,
            metrics.canister_cycles == canister_cycles,
            metrics.version == self@.version,
    {
        let count: usize = self.series.len();
        assert(self@.series.dom() =~= self.series@.dom());
        OracleMetrics {
            total_symbols: count as u64,
            total_updates: self.total_updates,
            last_update_time: self.last_update_time,
            canister_cycles,
            version: self.version,
        }
    }
}

} // verus!
