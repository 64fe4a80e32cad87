//! What callers ask of the store. Each operation first checks who calls;
//! a caller without the right is refused before anything changes.

use crate::merkle::{buffer_bytes, create_certified_snapshot, merkle_root};
use crate::state::{counted, ingested, is_listing_of, symbols_of, texts, PriceStorage, StoreModel};
use crate::types::{Policy, Price, PriceUpdate, Symbol};
use serde_bytes::ByteBuf;
use vstd::prelude::*;
use vstd::utf8::encode_utf8;

verus! {

/// The most observations one batch may bring.
pub const MAX_BATCH: usize = 1000;

/// The most bytes a symbol may have.
pub const MAX_SYMBOL_BYTES: usize = 50;

/// The most bytes the name of a source may have.
pub const MAX_SOURCE_BYTES: usize = 100;

/// The greatest value taken for a price.
pub const MAX_VALUE: u64 = 1_000_000_000_000_000;

/// How many seconds ahead of the present an observation may be stamped.
pub const MAX_FUTURE_DRIFT: u64 = 60;

/// How many seconds behind the present an observation may be stamped.
pub const MAX_STALENESS: u64 = 300;

/// Why a call is refused as a whole.
#[derive(Clone, Copy, Debug, PartialEq, Eq, Structural)]
pub enum ServiceError {
    /// The batch brings more than `MAX_BATCH` observations.
    TooManyUpdates,
    /// The caller lacks the role that the operation asks for.
    Unauthorized,
}

/// Why one observation of a batch is skipped.
#[derive(Clone, Copy, Debug, PartialEq, Eq, Structural)]
pub enum Rejection {
    /// The symbol is empty or too long.
    Symbol,
    /// The value is zero or beyond `MAX_VALUE`.
    Value,
    /// The stamp is too far ahead of the present, or too far behind it.
    Timestamp,
    /// Symbols are registered and this one is not among them.
    NotRegistered,
    /// A confidence is given and is zero or greater than the value.
    Confidence,
    /// The name of the source is empty or too long.
    Source,
}

/// What a batch did.
#[derive(Clone, Copy, Debug, PartialEq, Eq, Structural)]
pub struct BatchOutcome {
    /// How many observations of the batch were accepted.
    pub accepted: u64,
    /// The version of the store after the batch.
    pub version: u64,
}

/// Whether a symbol is empty or longer than `MAX_SYMBOL_BYTES` bytes.
pub open spec fn bad_symbol(symbol: Seq<char>) -> bool {
    encode_utf8(symbol).len() == 0 || encode_utf8(symbol).len() > MAX_SYMBOL_BYTES
}

/// Whether a value is zero or beyond `MAX_VALUE`.
pub open spec fn bad_value(value: u64) -> bool {
    value == 0 || value > MAX_VALUE
}

/// Whether a stamp lies more than `MAX_FUTURE_DRIFT` seconds ahead of
/// `now` or more than `MAX_STALENESS` seconds behind it.
pub open spec fn bad_timestamp(timestamp: u64, now: u64) -> bool {
    timestamp > now + MAX_FUTURE_DRIFT || timestamp + MAX_STALENESS < now
}

/// Whether symbols are registered and `symbol` is none of them.
pub open spec fn not_registered(symbol: Seq<char>, symbols: Set<Seq<char>>) -> bool {
    symbols != Set::<Seq<char>>::empty() && !symbols.contains(symbol)
}

/// Whether a confidence is given and is zero or greater than the value.
pub open spec fn bad_confidence(confidence: Option<u64>, value: u64) -> bool {
    confidence matches Some(c) && (c == 0 || c > value)
}

/// Whether the name of a source is empty or longer than
/// `MAX_SOURCE_BYTES` bytes.
pub open spec fn bad_source(source: Seq<char>) -> bool {
    encode_utf8(source).len() == 0 || encode_utf8(source).len() > MAX_SOURCE_BYTES
}

/// The first of the six tests that `update` fails at the time `now`, in
/// the order of the variants of `Rejection`; none if it passes them all.
pub open spec fn rejection_of(update: PriceUpdate, now: u64, symbols: Set<Seq<char>>) -> Option<
    Rejection,
> {
    if bad_symbol(update.symbol@) {
        Some(Rejection::Symbol)
    } else if bad_value(update.price.value) {
        Some(Rejection::Value)
    } else if bad_timestamp(update.price.timestamp, now) {
        Some(Rejection::Timestamp)
    } else if not_registered(update.symbol@, symbols) {
        Some(Rejection::NotRegistered)
    } else if bad_confidence(update.price.confidence, update.price.value) {
        Some(Rejection::Confidence)
    } else if bad_source(update.price.source@) {
        Some(Rejection::Source)
    } else {
        None
    }
}

/// Whether `update` passes all six tests.
pub open spec fn acceptable(update: PriceUpdate, now: u64, symbols: Set<Seq<char>>) -> bool {
    rejection_of(update, now, symbols) is None
}

/// The test that picks the acceptable observations of a batch.
pub open spec fn acceptance(now: u64, symbols: Set<Seq<char>>) -> spec_fn(PriceUpdate) -> bool {
    |update: PriceUpdate| acceptable(update, now, symbols)
}

/// How many observations of `updates` pass all six tests.
pub open spec fn accepted_count(updates: Seq<PriceUpdate>, now: u64, symbols: Set<Seq<char>>) -> nat {
    updates.filter(acceptance(now, symbols)).len()
}

/// `store` after one accepted observation: it is ingested and counted, and
/// the time of the last update is the present.
pub open spec fn accepted_one(store: StoreModel, update: PriceUpdate, now: u64) -> StoreModel {
    StoreModel {
        total_updates: counted(store.total_updates),
        last_update_time: now,
        ..ingested(store, update.symbol@, update.price)
    }
}

/// `store` after each acceptable observation of `updates` was accepted, in
/// order; the others are skipped and stop nothing.
pub open spec fn taken(store: StoreModel, updates: Seq<PriceUpdate>, now: u64) -> StoreModel
    decreases updates.len(),
{
    if updates.len() == 0 {
        store
    } else {
        let before = taken(store, updates.drop_last(), now);
        if acceptable(updates.last(), now, store.symbols) {
            accepted_one(before, updates.last(), now)
        } else {
            before
        }
    }
}

/// `store` after the batch `updates`: its acceptable observations are
/// taken, and the version moves on by one if there was any.
pub open spec fn after_batch(store: StoreModel, updates: Seq<PriceUpdate>, now: u64) -> StoreModel {
    let after = taken(store, updates, now);
    StoreModel {
        version: if accepted_count(updates, now, store.symbols) > 0 {
            counted(after.version)
        } else {
            after.version
        },
        ..after
    }
}

/// Whether `caller` may submit prices: nobody is listed, or the caller is.
pub open spec fn may_push(store: StoreModel, caller: Seq<char>) -> bool {
    store.updaters == Set::<Seq<char>>::empty() || store.updaters.contains(caller)
}

/// Taking observations leaves the registries, the policy and the version
/// as they are, and counts each observation it accepts.
pub proof fn lemma_taken_counts(store: StoreModel, updates: Seq<PriceUpdate>, now: u64)
    ensures
        taken(store, updates, now).symbols == store.symbols,
        taken(store, updates, now).managers == store.managers,
        taken(store, updates, now).updaters == store.updaters,
        taken(store, updates, now).policy == store.policy,
        taken(store, updates, now).version == store.version,
        store.total_updates + accepted_count(updates, now, store.symbols) <= u64::MAX ==> taken(
            store,
            updates,
            now,
        ).total_updates == store.total_updates + accepted_count(updates, now, store.symbols),
        accepted_count(updates, now, store.symbols) == 0 ==> taken(store, updates, now) == store,
        accepted_count(updates, now, store.symbols) > 0 ==> taken(
            store,
            updates,
            now,
        ).last_update_time == now,
        accepted_count(updates, now, store.symbols) <= updates.len(),
    decreases updates.len(),
{
    reveal(Seq::filter);
    if updates.len() > 0 {
        lemma_taken_counts(store, updates.drop_last(), now);
    }
}

/// A batch moves the version on by exactly one if it brought at least one
/// acceptable observation, and leaves it otherwise; the observations it
/// accepts are those that pass all six tests.
pub proof fn lemma_batch_version(store: StoreModel, updates: Seq<PriceUpdate>, now: u64)
    requires
        store.version < u64::MAX,
    ensures
        accepted_count(updates, now, store.symbols) > 0 ==> after_batch(store, updates, now).version
            == store.version + 1,
        accepted_count(updates, now, store.symbols) == 0 ==> after_batch(store, updates, now)
            == store,
{
    lemma_taken_counts(store, updates, now);
}

/// The verdict on one observation at the time `now`: the first test it
/// fails, or none.
pub fn check_update(storage: &PriceStorage, update: &PriceUpdate, now: u64) -> (verdict: Option<
    Rejection,
>)
    ensures
        verdict == rejection_of(*update, now, storage@.symbols),
{
    let symbol_bytes: usize = update.symbol.as_str().as_bytes().len();
    if symbol_bytes == 0 || symbol_bytes > MAX_SYMBOL_BYTES {
        return Some(Rejection::Symbol);
    }
    if update.price.value == 0 || update.price.value > MAX_VALUE {
        return Some(Rejection::Value);
    }
    let too_early: bool = match now.checked_add(MAX_FUTURE_DRIFT) {
        Some(latest) => update.price.timestamp > latest,
        None => false,
    };
    let too_late: bool = match update.price.timestamp.checked_add(MAX_STALENESS) {
        Some(expiry) => expiry < now,
        None => false,
    };
    if too_early || too_late {
        return Some(Rejection::Timestamp);
    }
    if !storage.symbols_is_empty() && !storage.symbol_exists(&update.symbol) {
        return Some(Rejection::NotRegistered);
    }
    match update.price.confidence {
        Some(confidence) => {
            if confidence == 0 || confidence > update.price.value {
                return Some(Rejection::Confidence);
            }
        },
        None => {},
    }
    let source_bytes: usize = update.price.source.as_str().as_bytes().len();
    if source_bytes == 0 || source_bytes > MAX_SOURCE_BYTES {
        return Some(Rejection::Source);
    }
    None
}

/// Takes a batch of observations from `caller` at the time `now`. A batch
/// of more than `MAX_BATCH` observations, and one from a caller who may not
/// submit, is refused and changes nothing. Otherwise each observation that
/// passes the six tests is ingested and counted; the others are skipped.
pub fn push_prices(
    storage: &mut PriceStorage,
    caller: &str,
    updates: Vec<PriceUpdate>,
    now: u64,
) -> (outcome: Result<BatchOutcome, ServiceError>)
    ensures
        match outcome {
            Err(ServiceError::TooManyUpdates) => updates@.len() > MAX_BATCH && *final(storage)
                == *old(storage),
            Err(ServiceError::Unauthorized) => updates@.len() <= MAX_BATCH && !may_push(
                old(storage)@,
                caller@,
            ) && *final(storage) == *old(storage),
            Ok(done) => {
                &&& updates@.len() <= MAX_BATCH
                &&& may_push(old(storage)@, caller@)
                &&& done.accepted == accepted_count(updates@, now, old(storage)@.symbols)
                &&& done.version == final(storage)@.version
                &&& final(storage)@ == after_batch(old(storage)@, updates@, now)
            },
        },
{
    if updates.len() > MAX_BATCH {
        return Err(ServiceError::TooManyUpdates);
    }
    if !storage.updaters_is_empty() && !storage.is_updater(caller) {
        return Err(ServiceError::Unauthorized);
    }
    let mut accepted: u64 = 0;
    let mut i: usize = 0;
    let ghost symbols = storage@.symbols;
    proof {
        reveal(Seq::filter);
        assert(updates@.take(0) =~= Seq::<PriceUpdate>::empty());
    }
    while i < updates.len()
        invariant
            i <= updates.len(),
            updates@.len() <= MAX_BATCH,
            symbols == old(storage)@.symbols,
            storage@ == taken(old(storage)@, updates@.take(i as int), now),
            accepted == accepted_count(updates@.take(i as int), now, symbols),
            accepted <= i,
        decreases updates.len() - i,
    {
        proof {
            let seen = updates@.take(i as int);
            assert(updates@.take(i + 1) =~= seen.push(updates@[i as int]));
            assert(updates@.take(i + 1).drop_last() =~= seen);
            seen.lemma_filter_push(updates@[i as int], acceptance(now, symbols));
            lemma_taken_counts(old(storage)@, seen, now);
        }
        let verdict = check_update(storage, &updates[i], now);
        if verdict.is_none() {
            storage.add_price_with_history(updates[i].symbol.clone(), updates[i].price.clone());
            storage.total_updates = if storage.total_updates < u64::MAX {
                storage.total_updates + 1
            } else {
                storage.total_updates
            };
            storage.last_update_time = now;
            accepted = accepted + 1;
        }
        i = i + 1;
    }
    assert(updates@.take(i as int) =~= updates@);
    if accepted > 0 {
        storage.version = if storage.version < u64::MAX {
            storage.version + 1
        } else {
            storage.version
        };
    }
    Ok(BatchOutcome { accepted, version: storage.version })
}

/// Makes the deployer the first manager.
pub fn init(storage: &mut PriceStorage, deployer: &str)
    ensures
        final(storage)@ == (StoreModel {
            managers: old(storage)@.managers.insert(deployer@),
            ..old(storage)@
        }),
{
    storage.add_manager(deployer);
}

/// Replaces the updaters by `principals`, for a manager.
pub fn set_allowed_updaters(
    storage: &mut PriceStorage,
    caller: &str,
    principals: Vec<String>,
) -> (outcome: Result<(), ServiceError>)
    ensures
        match outcome {
            Ok(_) => old(storage)@.managers.contains(caller@) && final(storage)@ == (StoreModel {
                updaters: texts(principals@).to_set(),
                ..old(storage)@
            }),
            Err(refusal) => refusal == ServiceError::Unauthorized && !old(
                storage,
            )@.managers.contains(caller@) && *final(storage) == *old(storage),
        },
{
    if !storage.is_manager(caller) {
        return Err(ServiceError::Unauthorized);
    }
    storage.set_updaters(principals);
    Ok(())
}

/// Replaces the managers by `principals`, for a manager.
pub fn set_managers(storage: &mut PriceStorage, caller: &str, principals: Vec<String>) -> (outcome:
    Result<(), ServiceError>)
    ensures
        match outcome {
            Ok(_) => old(storage)@.managers.contains(caller@) && final(storage)@ == (StoreModel {
                managers: texts(principals@).to_set(),
                ..old(storage)@
            }),
            Err(refusal) => refusal == ServiceError::Unauthorized && !old(
                storage,
            )@.managers.contains(caller@) && *final(storage) == *old(storage),
        },
{
    if !storage.is_manager(caller) {
        return Err(ServiceError::Unauthorized);
    }
    storage.set_managers(principals);
    Ok(())
}

/// Registers each of `symbols`, for a manager.
pub fn upsert_symbols(storage: &mut PriceStorage, caller: &str, symbols: Vec<Symbol>) -> (outcome:
    Result<(), ServiceError>)
    ensures
        match outcome {
            Ok(_) => old(storage)@.managers.contains(caller@) && final(storage)@ == (StoreModel {
                symbols: old(storage)@.symbols.union(texts(symbols@).to_set()),
                ..old(storage)@
            }),
            Err(refusal) => refusal == ServiceError::Unauthorized && !old(
                storage,
            )@.managers.contains(caller@) && *final(storage) == *old(storage),
        },
{
    if !storage.is_manager(caller) {
        return Err(ServiceError::Unauthorized);
    }
    let mut i: usize = 0;
    proof {
        assert(texts(symbols@).take(0).to_set() =~= Set::<Seq<char>>::empty());
        assert(storage@.symbols =~= old(storage)@.symbols.union(
            texts(symbols@).take(0).to_set(),
        ));
    }
    while i < symbols.len()
        invariant
            i <= symbols.len(),
            storage@ == (StoreModel {
                symbols: old(storage)@.symbols.union(texts(symbols@).take(i as int).to_set()),
                ..old(storage)@
            }),
        decreases symbols.len() - i,
    {
        storage.upsert_symbol(&symbols[i]);
        proof {
            let all = texts(symbols@);
            assert(all.take(i + 1) =~= all.take(i as int).push(all[i as int]));
            all.take(i as int).lemma_push_to_set_commute(all[i as int]);
            assert(storage@.symbols =~= old(storage)@.symbols.union(all.take(i + 1).to_set()));
        }
        i = i + 1;
    }
    assert(texts(symbols@).take(i as int) =~= texts(symbols@));
    Ok(())
}

/// Forgets each of `symbols` with all that is kept of it, for a manager.
pub fn remove_symbols(storage: &mut PriceStorage, caller: &str, symbols: Vec<Symbol>) -> (outcome:
    Result<(), ServiceError>)
    ensures
        match outcome {
            Ok(_) => old(storage)@.managers.contains(caller@) && final(storage)@ == (StoreModel {
                series: old(storage)@.series.remove_keys(texts(symbols@).to_set()),
                symbols: old(storage)@.symbols.difference(texts(symbols@).to_set()),
                ..old(storage)@
            }),
            Err(refusal) => refusal == ServiceError::Unauthorized && !old(
                storage,
            )@.managers.contains(caller@) && *final(storage) == *old(storage),
        },
{
    if !storage.is_manager(caller) {
        return Err(ServiceError::Unauthorized);
    }
    let mut i: usize = 0;
    proof {
        let none = texts(symbols@).take(0).to_set();
        assert(none =~= Set::<Seq<char>>::empty());
        assert(storage@.symbols =~= old(storage)@.symbols.difference(none));
        assert(storage@.series =~= old(storage)@.series.remove_keys(none));
    }
    while i < symbols.len()
        invariant
            i <= symbols.len(),
            storage@ == (StoreModel {
                series: old(storage)@.series.remove_keys(texts(symbols@).take(i as int).to_set()),
                symbols: old(storage)@.symbols.difference(texts(symbols@).take(i as int).to_set()),
                ..old(storage)@
            }),
        decreases symbols.len() - i,
    {
        storage.remove_symbol(&symbols[i]);
        proof {
            let all = texts(symbols@);
            assert(all.take(i + 1) =~= all.take(i as int).push(all[i as int]));
            all.take(i as int).lemma_push_to_set_commute(all[i as int]);
            assert(storage@.symbols =~= old(storage)@.symbols.difference(all.take(i + 1).to_set()));
            assert(storage@.series =~= old(storage)@.series.remove_keys(all.take(i + 1).to_set()));
        }
        i = i + 1;
    }
    assert(texts(symbols@).take(i as int) =~= texts(symbols@));
    Ok(())
}

/// Replaces the policy, for a manager.
pub fn set_policy(storage: &mut PriceStorage, caller: &str, new_policy: Policy) -> (outcome: Result<
    (),
    ServiceError,
>)
    ensures
        match outcome {
            Ok(_) => old(storage)@.managers.contains(caller@) && final(storage)@ == (StoreModel {
                policy: new_policy,
                ..old(storage)@
            }),
            Err(refusal) => refusal == ServiceError::Unauthorized && !old(
                storage,
            )@.managers.contains(caller@) && *final(storage) == *old(storage),
        },
{
    if !storage.is_manager(caller) {
        return Err(ServiceError::Unauthorized);
    }
    storage.policy = new_policy;
    Ok(())
}

/// The names of the resolutions at which bars are kept.
pub fn get_available_resolutions() -> (names: Vec<String>)
    ensures
        texts(names@) == seq!["1m"@, "5m"@, "1h"@],
{
    let mut names: Vec<String> = Vec::new();
    names.push("1m".to_string());
    names.push("5m".to_string());
    names.push("1h".to_string());
    assert(texts(names@) =~= seq!["1m"@, "5m"@, "1h"@]);
    names
}

/// The latest price of every symbol, in ascending order of the symbols,
/// beside the root that commits to them in that order.
pub fn get_snapshot_cert(storage: &PriceStorage) -> (certified: (Vec<(Symbol, Price)>, ByteBuf))
    ensures
        is_listing_of(symbols_of(certified.0@), storage@.series.dom()),
        forall|i: int|
            0 <= i < certified.0@.len() ==> (#[trigger] certified.0@[i]).1
                == storage@.series[certified.0@[i].0@].latest,
        buffer_bytes(certified.1) == merkle_root(certified.0@),
{
    let snapshot = storage.get_all_prices();
    create_certified_snapshot(snapshot)
}

} // verus!
