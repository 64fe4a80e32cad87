//! The feeder: which Pyth accounts feed which symbols, the counters of its
//! rounds, and the quote that the bytes of an account carry.

use crate::pyth::{
    le_i32, le_i64, parse_failure, quote_at, read_i64, ParseError, PriceAccount, PriceStatus,
    ACCOUNT_BYTES, HEADER_BYTES,
};
use crate::state::counted;
use crate::table::KeyedTable;
use base64::Engine;
use vstd::prelude::*;

verus! {

/// Seconds between two rounds where nothing else is configured.
pub const DEFAULT_INTERVAL_SECS: u64 = 10;

/// Bytes of an account in the newer layout, which carries the price alone.
pub const COMPACT_ACCOUNT_BYTES: usize = 134;

/// Where the price stands in an account of the newer layout.
pub const COMPACT_PRICE_OFFSET: usize = 109;

/// The exponent of every price in the newer layout.
pub const COMPACT_EXPONENT: i32 = -8;

/// The text of the principal that stands for a caller without identity.
pub open spec fn anonymous_text() -> Seq<char> {
    "2vxsx-fae"@
}

/// One feed: the Pyth account that quotes a symbol.
#[derive(Debug)]
pub struct PythFeed {
    pub symbol: String,
    pub account: String,
    pub enabled: bool,
}

impl Clone for PythFeed {
    fn clone(&self) -> (res: Self)
        ensures
            res == *self,
    {
        PythFeed {
            symbol: self.symbol.clone(),
            account: self.account.clone(),
            enabled: self.enabled,
        }
    }
}

/// Counters of the feeder.
#[derive(Debug, Clone, Copy, PartialEq, Eq, Structural)]
pub struct FeederMetrics {
    pub total_updates: u64,
    pub successful_updates: u64,
    pub failed_updates: u64,
    pub last_update_time: u64,
    pub active_feeds: u32,
    pub timer_running: bool,
}

/// Where the feeder sends prices and asks for accounts, by the text of
/// each principal, and how often.
#[derive(Debug)]
pub struct FeederConfig {
    pub oracle_canister_id: String,
    pub sol_rpc_canister_id: String,
    pub update_interval_secs: u64,
}

impl Clone for FeederConfig {
    fn clone(&self) -> (res: Self)
        ensures
            res == *self,
    {
        FeederConfig {
            oracle_canister_id: self.oracle_canister_id.clone(),
            sol_rpc_canister_id: self.sol_rpc_canister_id.clone(),
            update_interval_secs: self.update_interval_secs,
        }
    }
}

/// What a feeder is set up with.
#[derive(Debug)]
pub struct InitArgs {
    pub oracle_canister_id: Option<String>,
    pub sol_rpc_canister_id: String,
    pub update_interval_secs: Option<u64>,
}

/// Why the feeder refuses a call.
#[derive(Debug, Clone, Copy, PartialEq, Eq, Structural)]
pub enum FeederError {
    /// The caller has no identity.
    Anonymous,
}

/// A price as an account quotes it: `price` and `conf` are to be scaled by
/// ten to the power of `exponent`.
#[derive(Debug, Clone, Copy, PartialEq, Eq, Structural)]
pub struct Quote {
    pub price: i64,
    pub conf: u64,
    pub exponent: i32,
}

/// Why an account yields no quote.
#[derive(Debug, PartialEq, Eq)]
pub enum QuoteError {
    /// The text is no base64; `reason` says why in words.
    Base64 { reason: String },
    /// The bytes are no price account.
    Parse(ParseError),
    /// An account of the newer layout quotes the price zero.
    PriceIsZero,
    /// The aggregate quote carries no price.
    NotValid { status: PriceStatus },
}

/// All that the feeder keeps.
#[derive(Debug)]
pub struct FeederState {
    pub config: FeederConfig,
    /// The feeds, by symbol.
    pub feeds: KeyedTable<PythFeed>,
    pub metrics: FeederMetrics,
    /// The text of the principal that manages the feeder.
    pub manager: String,
}

/// The feeds of `feeds` that are enabled, in their order.
pub open spec fn enabled_of(feeds: Seq<PythFeed>) -> Seq<PythFeed> {
    feeds.filter(|feed: PythFeed| feed.enabled)
}

/// The counters before anything was counted.
pub open spec fn no_metrics() -> FeederMetrics {
    FeederMetrics {
        total_updates: 0,
        successful_updates: 0,
        failed_updates: 0,
        last_update_time: 0,
        active_feeds: 0,
        timer_running: false,
    }
}

/// The text of the anonymous principal.
pub fn anonymous() -> (text: String)
    ensures
        text@ == anonymous_text(),
{
    "2vxsx-fae".to_string()
}

impl FeederState {
    /// A feeder with no feeds, the counters at zero, and the anonymous
    /// principal in every place of a principal.
    pub fn new() -> (state: Self)
        ensures
            state.config.oracle_canister_id@ == anonymous_text(),
            state.config.sol_rpc_canister_id@ == anonymous_text(),
            state.config.update_interval_secs == DEFAULT_INTERVAL_SECS,
            state.feeds@ == Map::<Seq<char>, PythFeed>::empty(),
            state.metrics == no_metrics(),
            state.manager@ == anonymous_text(),
    {
        FeederState {
            config: FeederConfig {
                oracle_canister_id: anonymous(),
                sol_rpc_canister_id: anonymous(),
                update_interval_secs: DEFAULT_INTERVAL_SECS,
            },
            feeds: KeyedTable::new(),
            metrics: FeederMetrics {
                total_updates: 0,
                successful_updates: 0,
                failed_updates: 0,
                last_update_time: 0,
                active_feeds: 0,
                timer_running: false,
            },
            manager: anonymous(),
        }
    }
}

/// Sets the feeder up: the oracle defaults to the anonymous principal, the
/// interval to `DEFAULT_INTERVAL_SECS`.
pub fn init(state: &mut FeederState, args: InitArgs)
    ensures
        final(state).config.oracle_canister_id@ == (match args.oracle_canister_id {
            Some(oracle) => oracle@,
            None => anonymous_text(),
        }),
        final(state).config.sol_rpc_canister_id == args.sol_rpc_canister_id,
        final(state).config.update_interval_secs == (match args.update_interval_secs {
            Some(seconds) => seconds,
            None => DEFAULT_INTERVAL_SECS,
        }),
        final(state).feeds == old(state).feeds,
        final(state).metrics == old(state).metrics,
        final(state).manager == old(state).manager,
{
    let oracle: String = match args.oracle_canister_id {
        Some(oracle) => oracle,
        None => anonymous(),
    };
    let seconds: u64 = match args.update_interval_secs {
        Some(seconds) => seconds,
        None => DEFAULT_INTERVAL_SECS,
    };
    state.config = FeederConfig {
        oracle_canister_id: oracle,
        sol_rpc_canister_id: args.sol_rpc_canister_id,
        update_interval_secs: seconds,
    };
}

/// The configuration.
pub fn get_config(state: &FeederState) -> (config: FeederConfig)
    ensures
        config == state.config,
{
    state.config.clone()
}

/// Replaces the configuration.
pub fn set_config(state: &mut FeederState, config: FeederConfig)
    ensures
        final(state).config == config,
        final(state).feeds == old(state).feeds,
        final(state).metrics == old(state).metrics,
        final(state).manager == old(state).manager,
{
    state.config = config;
}

/// Puts `feed` under its symbol, in place of a feed that was there.
pub fn add_feed(state: &mut FeederState, feed: PythFeed)
    ensures
        final(state).feeds@ == old(state).feeds@.insert(feed.symbol@, feed),
        final(state).config == old(state).config,
        final(state).metrics == old(state).metrics,
        final(state).manager == old(state).manager,
{
    state.feeds.insert(feed.symbol.clone(), feed);
}

/// Takes the feed of `symbol` away and hands it back, if there was one.
pub fn remove_feed(state: &mut FeederState, symbol: &str) -> (removed: Option<PythFeed>)
    ensures
        final(state).feeds@ == old(state).feeds@.remove(symbol@),
        removed == (if old(state).feeds@.contains_key(symbol@) {
            Some(old(state).feeds@[symbol@])
        } else {
            None
        }),
        final(state).config == old(state).config,
        final(state).metrics == old(state).metrics,
        final(state).manager == old(state).manager,
{
    state.feeds.remove(symbol)
}

/// The feed of `symbol`, if there is one.
pub fn get_feed(state: &FeederState, symbol: &str) -> (feed: Option<PythFeed>)
    ensures
        feed == (if state.feeds@.contains_key(symbol@) {
            Some(state.feeds@[symbol@])
        } else {
            None
        }),
{
    match state.feeds.get(symbol) {
        Some(feed) => Some(feed.clone()),
        None => None,
    }
}

/// All feeds, in ascending order of their symbols.
pub fn get_all_feeds(state: &FeederState) -> (feeds: Vec<PythFeed>)
    ensures
        feeds@ == state.feeds.spec_values(),
        state.feeds.listed(),
{
    let mut feeds: Vec<PythFeed> = Vec::new();
    let count: usize = state.feeds.len();
    let mut i: usize = 0;
    while i < count
        invariant
            i <= count,
            count == state.feeds.spec_keys().len(),
            state.feeds.listed(),
            feeds@ == state.feeds.spec_values().take(i as int),
        decreases count - i,
    {
        feeds.push(state.feeds.value_at(i).clone());
        assert(state.feeds.spec_values().take(i + 1) =~= state.feeds.spec_values().take(
            i as int,
        ).push(state.feeds.spec_values()[i as int]));
        i = i + 1;
    }
    assert(state.feeds.spec_values().take(i as int) =~= state.feeds.spec_values());
    feeds
}

/// The feeds that are enabled, in ascending order of their symbols.
pub fn get_enabled_feeds(state: &FeederState) -> (feeds: Vec<PythFeed>)
    ensures
        feeds@ == enabled_of(state.feeds.spec_values()),
        state.feeds.listed(),
{
    let mut feeds: Vec<PythFeed> = Vec::new();
    let count: usize = state.feeds.len();
    let mut i: usize = 0;
    proof {
        reveal(Seq::filter);
        assert(state.feeds.spec_values().take(0) =~= Seq::<PythFeed>::empty());
    }
    while i < count
        invariant
            i <= count,
            count == state.feeds.spec_keys().len(),
            state.feeds.listed(),
            feeds@ == enabled_of(state.feeds.spec_values().take(i as int)),
        decreases count - i,
    {
        let feed: &PythFeed = state.feeds.value_at(i);
        proof {
            let all = state.feeds.spec_values();
            assert(all.take(i + 1) =~= all.take(i as int).push(all[i as int]));
            all.take(i as int).lemma_filter_push(all[i as int], |feed: PythFeed| feed.enabled);
        }
        if feed.enabled {
            feeds.push(feed.clone());
        }
        i = i + 1;
    }
    assert(state.feeds.spec_values().take(i as int) =~= state.feeds.spec_values());
    feeds
}

/// The counters.
pub fn get_metrics(state: &FeederState) -> (metrics: FeederMetrics)
    ensures
        metrics == state.metrics,
{
    state.metrics
}

/// Replaces the counters by what `updater` makes of them.
pub fn update_metrics<F>(state: &mut FeederState, updater: F) where
    F: FnOnce(FeederMetrics) -> FeederMetrics,

    requires
        updater.requires((old(state).metrics,)),
    ensures
        updater.ensures((old(state).metrics,), final(state).metrics),
        final(state).config == old(state).config,
        final(state).feeds == old(state).feeds,
        final(state).manager == old(state).manager,
{
    state.metrics = updater(state.metrics);
}

/// The text of the principal that manages the feeder.
pub fn get_manager(state: &FeederState) -> (manager: String)
    ensures
        manager == state.manager,
{
    state.manager.clone()
}

/// Replaces the manager.
pub fn set_manager(state: &mut FeederState, manager: String)
    ensures
        final(state).manager == manager,
        final(state).config == old(state).config,
        final(state).feeds == old(state).feeds,
        final(state).metrics == old(state).metrics,
{
    state.manager = manager;
}

/// Whether `principal` manages the feeder.
pub fn is_manager(state: &FeederState, principal: &str) -> (held: bool)
    ensures
        held == (state.manager@ == principal@),
{
    crate::table::same_key(state.manager.as_str(), principal)
}

/// The counters with the number of enabled feeds counted anew.
pub open spec fn recounted(metrics: FeederMetrics, feeds: Seq<PythFeed>) -> FeederMetrics {
    FeederMetrics { active_feeds: enabled_of(feeds).len() as u32, ..metrics }
}

/// Counts the enabled feeds anew.
fn recount(state: &mut FeederState)
    ensures
        final(state).metrics == recounted(old(state).metrics, old(state).feeds.spec_values()),
        final(state).feeds == old(state).feeds,
        final(state).config == old(state).config,
        final(state).manager == old(state).manager,
{
    let enabled: usize = get_enabled_feeds(state).len();
    let active: u32 = #[verifier::truncate]
    (enabled as u32);
    state.metrics.active_feeds = active;
}

/// Adds a feed for a caller with an identity, and counts the enabled feeds
/// anew.
pub fn add_pyth_feed(
    state: &mut FeederState,
    caller: &str,
    symbol: String,
    account: String,
    enabled: bool,
) -> (outcome: Result<(), FeederError>)
    ensures
        match outcome {
            Err(_) => caller@ == anonymous_text() && *final(state) == *old(state),
            Ok(_) => {
                &&& caller@ != anonymous_text()
                &&& final(state).feeds@ == old(state).feeds@.insert(
                    symbol@,
                    PythFeed { symbol, account, enabled },
                )
                &&& final(state).metrics == recounted(
                    old(state).metrics,
                    final(state).feeds.spec_values(),
                )
                &&& final(state).config == old(state).config
                &&& final(state).manager == old(state).manager
            },
        },
{
    if crate::table::same_key(caller, anonymous().as_str()) {
        return Err(FeederError::Anonymous);
    }
    add_feed(state, PythFeed { symbol, account, enabled });
    recount(state);
    Ok(())
}

/// Removes the feed of `symbol` for a caller with an identity, says whether
/// there was one, and counts the enabled feeds anew.
pub fn remove_pyth_feed(state: &mut FeederState, caller: &str, symbol: String) -> (outcome: Result<
    bool,
    FeederError,
>)
    ensures
        match outcome {
            Err(_) => caller@ == anonymous_text() && *final(state) == *old(state),
            Ok(removed) => {
                &&& caller@ != anonymous_text()
                &&& removed == old(state).feeds@.contains_key(symbol@)
                &&& final(state).feeds@ == old(state).feeds@.remove(symbol@)
                &&& final(state).metrics == recounted(
                    old(state).metrics,
                    final(state).feeds.spec_values(),
                )
                &&& final(state).config == old(state).config
                &&& final(state).manager == old(state).manager
            },
        },
{
    if crate::table::same_key(caller, anonymous().as_str()) {
        return Err(FeederError::Anonymous);
    }
    let removed: bool = remove_feed(state, symbol.as_str()).is_some();
    recount(state);
    Ok(removed)
}

/// Enables or disables the feed of `symbol` for a caller with an identity,
/// and says whether there is such a feed; if so, the enabled feeds are
/// counted anew.
pub fn toggle_feed(state: &mut FeederState, caller: &str, symbol: String, enabled: bool) -> (outcome:
    Result<bool, FeederError>)
    ensures
        match outcome {
            Err(_) => caller@ == anonymous_text() && *final(state) == *old(state),
            Ok(found) => {
                &&& caller@ != anonymous_text()
                &&& found == old(state).feeds@.contains_key(symbol@)
                &&& final(state).config == old(state).config
                &&& final(state).manager == old(state).manager
                &&& found ==> final(state).feeds@ == old(state).feeds@.insert(
                    symbol@,
                    PythFeed { enabled, ..old(state).feeds@[symbol@] },
                ) && final(state).metrics == recounted(
                    old(state).metrics,
                    final(state).feeds.spec_values(),
                )
                &&& !found ==> *final(state) == *old(state)
            },
        },
{
    if crate::table::same_key(caller, anonymous().as_str()) {
        return Err(FeederError::Anonymous);
    }
    match state.feeds.get_mut(symbol.as_str()) {
        Some(feed) => {
            feed.enabled = enabled;
        },
        None => {
            return Ok(false);
        },
    }
    recount(state);
    Ok(true)
}

/// Replaces the configuration for a caller with an identity.
pub fn set_feeder_config(state: &mut FeederState, caller: &str, config: FeederConfig) -> (outcome:
    Result<(), FeederError>)
    ensures
        match outcome {
            Err(_) => caller@ == anonymous_text() && *final(state) == *old(state),
            Ok(_) => {
                &&& caller@ != anonymous_text()
                &&& final(state).config == config
                &&& final(state).feeds == old(state).feeds
                &&& final(state).metrics == old(state).metrics
                &&& final(state).manager == old(state).manager
            },
        },
{
    if crate::table::same_key(caller, anonymous().as_str()) {
        return Err(FeederError::Anonymous);
    }
    set_config(state, config);
    Ok(())
}

/// Whether rounds go on after an upgrade: they do once an oracle other
/// than the anonymous principal is configured.
pub fn resumes_after_upgrade(state: &FeederState) -> (resumes: bool)
    ensures
        resumes == (state.config.oracle_canister_id@ != anonymous_text()),
{
    !crate::table::same_key(state.config.oracle_canister_id.as_str(), anonymous().as_str())
}

/// The counters after one feed of a round was fetched.
pub open spec fn fetch_counted(metrics: FeederMetrics, succeeded: bool) -> FeederMetrics {
    if succeeded {
        FeederMetrics { successful_updates: counted(metrics.successful_updates), ..metrics }
    } else {
        FeederMetrics { failed_updates: counted(metrics.failed_updates), ..metrics }
    }
}

/// Counts one feed of a round as fetched or as failed.
pub fn record_fetch(state: &mut FeederState, succeeded: bool)
    ensures
        final(state).metrics == fetch_counted(old(state).metrics, succeeded),
        final(state).config == old(state).config,
        final(state).feeds == old(state).feeds,
        final(state).manager == old(state).manager,
{
    if succeeded {
        if state.metrics.successful_updates < u64::MAX {
            state.metrics.successful_updates = state.metrics.successful_updates + 1;
        }
    } else {
        if state.metrics.failed_updates < u64::MAX {
            state.metrics.failed_updates = state.metrics.failed_updates + 1;
        }
    }
}

/// Counts a round that went through all enabled feeds, at the time `now`.
pub fn finish_round(state: &mut FeederState, now: u64)
    ensures
        final(state).metrics == (FeederMetrics {
            total_updates: counted(old(state).metrics.total_updates),
            last_update_time: now,
            ..old(state).metrics
        }),
        final(state).config == old(state).config,
        final(state).feeds == old(state).feeds,
        final(state).manager == old(state).manager,
{
    if state.metrics.total_updates < u64::MAX {
        state.metrics.total_updates = state.metrics.total_updates + 1;
    }
    state.metrics.last_update_time = now;
}

/// The bytes that `text` encodes as base64 in the standard alphabet with
/// padding; none where `text` is no such encoding.
pub uninterp spec fn base64_decoded(text: Seq<char>) -> Option<Seq<u8>>;

/// Why the `base64` crate could not decode a text: opaque here.
#[verifier::external_type_specification]
#[verifier::external_body]
pub struct ExDecodeError(base64::DecodeError);

/// `Engine::decode` of the `base64` crate on its engine `STANDARD`: the
/// bytes that `text` encodes, or the reason why it encodes none. The bytes
/// are only named here.
#[verifier::external_body]
fn decode_base64(text: &str) -> (decoded: Result<Vec<u8>, base64::DecodeError>)
    ensures
        match decoded {
            Ok(bytes) => base64_decoded(text@) == Some(bytes@),
            Err(_) => base64_decoded(text@) is None,
        },
{
    base64::engine::general_purpose::STANDARD.decode(text)
}

/// `to_string` on a `DecodeError` of the `base64` crate: the reason in
/// words. Nothing is claimed of the text.
#[verifier::external_body]
fn decode_error_text(error: base64::DecodeError) -> String {
    error.to_string()
}

/// The quote that the bytes of an account carry. An account of
/// `COMPACT_ACCOUNT_BYTES` bytes is in the newer layout: its price stands
/// at `COMPACT_PRICE_OFFSET`, scaled by `COMPACT_EXPONENT`, and must not be
/// zero. All other bytes are read as a price account, whose aggregate
/// quote must carry a price.
pub open spec fn quote_of(bytes: Seq<u8>) -> Result<Quote, QuoteError> {
    if bytes.len() == COMPACT_ACCOUNT_BYTES {
        if le_i64(bytes, COMPACT_PRICE_OFFSET as int) == 0 {
            Err(QuoteError::PriceIsZero)
        } else {
            Ok(
                Quote {
                    price: le_i64(bytes, COMPACT_PRICE_OFFSET as int),
                    conf: 0,
                    exponent: COMPACT_EXPONENT,
                },
            )
        }
    } else {
        match parse_failure(bytes) {
            Some(failure) => Err(QuoteError::Parse(failure)),
            None => if quote_at(bytes, HEADER_BYTES as int).price == 0 {
                Err(QuoteError::NotValid { status: quote_at(bytes, HEADER_BYTES as int).status })
            } else {
                Ok(
                    Quote {
                        price: quote_at(bytes, HEADER_BYTES as int).price,
                        conf: quote_at(bytes, HEADER_BYTES as int).conf,
                        exponent: le_i32(bytes, 20),
                    },
                )
            },
        }
    }
}

/// Whether `len` bytes can be read for a quote: they are an account of the
/// newer layout, or too few for a header, or enough for a whole account.
pub open spec fn readable(len: nat) -> bool {
    len == COMPACT_ACCOUNT_BYTES || len < HEADER_BYTES || len >= ACCOUNT_BYTES
}

/// Reads the quote that the bytes of an account carry. Bytes that hold a
/// header but not the whole aggregate quote must not be handed in.
pub fn quote_of_account(bytes: &[u8]) -> (quote: Result<Quote, QuoteError>)
    requires
        readable(bytes@.len()),
    ensures
        quote == quote_of(bytes@),
{
    if bytes.len() == COMPACT_ACCOUNT_BYTES {
        let raw: i64 = read_i64(bytes, COMPACT_PRICE_OFFSET);
        if raw == 0 {
            return Err(QuoteError::PriceIsZero);
        }
        return Ok(Quote { price: raw, conf: 0, exponent: COMPACT_EXPONENT });
    }
    match PriceAccount::parse(bytes) {
        Err(failure) => Err(QuoteError::Parse(failure)),
        Ok(account) => {
            if !account.is_valid() {
                return Err(QuoteError::NotValid { status: account.agg.status });
            }
            Ok(Quote { price: account.agg.price, conf: account.agg.conf, exponent: account.exponent })
        },
    }
}

/// Reads the quote of an account from the base64 text of its bytes. The
/// answer is none where the text decodes to bytes that hold a header but
/// not the whole aggregate quote, which cannot be read.
pub fn read_quote(text: &str) -> (answer: Option<Result<Quote, QuoteError>>)
    ensures
        match base64_decoded(text@) {
            None => answer matches Some(Err(QuoteError::Base64 { .. })),
            Some(bytes) => answer == (if readable(bytes.len()) {
                Some(quote_of(bytes))
            } else {
                None
            }),
        },
{
    match decode_base64(text) {
        Err(error) => Some(Err(QuoteError::Base64 { reason: decode_error_text(error) })),
        Ok(bytes) => {
            let len: usize = bytes.len();
            if len == COMPACT_ACCOUNT_BYTES || len < HEADER_BYTES || len >= ACCOUNT_BYTES {
                Some(quote_of_account(bytes.as_slice()))
            } else {
                None
            }
        },
    }
}

} // verus!
