//! The filter engine: per fetched line it decides retain or drop from the
//! allow-list, the skip-list exemption and the value threshold. The
//! admission policy is asymmetric on purpose: only item lines have a price
//! floor, currency lines have none.
use vstd::prelude::*;

use crate::classify::spec_query_type;
use crate::classify::MainType;
use crate::keys::spec_filter_key;
use crate::keys::spec_skip_key;
use crate::redis::list_key_state;
use crate::redis::RedisInstance;

verus! {

/// Threshold below which an exempted item line is dropped, in
/// milli-units of the primary currency.
pub const DEFAULT_ITEM_THRESHOLD_MILLI: i64 = 10000;

/// Time-to-live, in seconds, that the probe refreshes on every write.
pub const DEFAULT_TTL_SECONDS: i64 = 3600;

/// The decision table of the filter engine: an allow-listed line is
/// retained; otherwise an exempted line is retained unless it is an item
/// line at or below the threshold; everything else is dropped.
pub open spec fn spec_retain(
    mt: MainType,
    allowed: bool,
    exempted: bool,
    value: int,
    threshold: int,
) -> bool {
    allowed || (exempted && (mt == MainType::Currency || value > threshold))
}

/// Decide retain or drop for one line.
pub fn should_retain(
    main_type: MainType,
    is_allowed: bool,
    is_exempted: bool,
    primary_value: i64,
    threshold: i64,
) -> (r: bool)
    ensures
        r == spec_retain(main_type, is_allowed, is_exempted, primary_value as int, threshold as int),
{
    is_allowed || (is_exempted && (main_type == MainType::Currency || primary_value > threshold))
}

/// The allow-list dominates: an allow-listed line is retained whatever
/// its exemption or value.
pub proof fn lemma_allowed_dominates(mt: MainType, exempted: bool, value: int, threshold: int)
    ensures
        spec_retain(mt, true, exempted, value, threshold),
{
}

/// An exempted item line is retained exactly when its value is above the
/// threshold.
pub proof fn lemma_item_threshold(value: int, threshold: int)
    ensures
        spec_retain(MainType::Item, false, true, value, threshold) <==> value > threshold,
{
}

/// An exempted currency line is retained whatever its value.
pub proof fn lemma_currency_exempt(value: int, threshold: int)
    ensures
        spec_retain(MainType::Currency, false, true, value, threshold),
{
}

/// A line neither allow-listed nor exempted is dropped.
pub proof fn lemma_default_drop(mt: MainType, value: int, threshold: int)
    ensures
        !spec_retain(mt, false, false, value, threshold),
{
}

/// Outcome of an "add filter" or "add skip" operation.
#[derive(Debug, Clone, Copy, PartialEq, Eq, Structural)]
pub enum AddOutcome {
    /// The entry was appended to the list.
    Added,
    /// The entry was already in the list, nothing was written.
    AlreadyExists,
    /// The key holds something that is not a list, nothing was written.
    Failed,
}

/// The list a key holds, or the empty list when it holds none.
pub open spec fn list_or_empty(st: RedisInstance, k: Seq<char>) -> Seq<Seq<char>> {
    match st.list_at(k) {
        Some(l) => l,
        None => Seq::empty(),
    }
}

/// Append `name` to the allow-list of `filter_type`'s category unless it
/// is already there. The key is derived through the classifier.
pub fn add_data_filter(redis: &mut RedisInstance, filter_type: &str, name: &str) -> (r: AddOutcome)
    requires
        old(redis).wf(),
    ensures
        final(redis).wf(),
        ({
            let fk = spec_filter_key(spec_query_type(filter_type@), filter_type@);
            if old(redis).list_contains(fk, name@) {
                r == AddOutcome::AlreadyExists && *final(redis) == *old(redis)
            } else if old(redis).has_key(fk) && old(redis).list_at(fk) is None {
                r == AddOutcome::Failed && final(redis).at_key(fk) == old(redis).at_key(fk)
                    && RedisInstance::unchanged_except(*old(redis), *final(redis), fk)
            } else {
                r == AddOutcome::Added && RedisInstance::unchanged_except(
                    *old(redis),
                    *final(redis),
                    fk,
                ) && final(redis).at_key(fk) == list_key_state(
                    list_or_empty(*old(redis), fk).push(name@),
                    old(redis).ttl_at(fk),
                )
            }
        }),
{
    let main_category = crate::classify::get_query_type(String::from_str(filter_type));
    let redis_key = crate::keys::filter_key(main_category.as_str(), filter_type);
    let ghost fk = spec_filter_key(spec_query_type(filter_type@), filter_type@);
    let existance = redis.exist_in_list(redis_key.as_str(), name);
    if existance.is_ok() && existance.unwrap() == true {
        AddOutcome::AlreadyExists
    } else {
        let res = redis.push_list(redis_key.as_str(), name);
        proof {
            old(redis).lemma_key_state_shape(fk);
            if !old(redis).has_key(fk) {
                assert(list_or_empty(*old(redis), fk).push(name@) =~= seq![name@]);
            }
        }
        match res {
            Ok(_) => AddOutcome::Added,
            Err(_) => AddOutcome::Failed,
        }
    }
}

/// Append `name` (a category) to the skip-list kept under
/// `<filter_type>:skip` unless it is already there; a successful add
/// refreshes the list's time-to-live.
pub fn add_skip_check(
    redis: &mut RedisInstance,
    filter_type: &str,
    name: &str,
    ttl: i64,
) -> (r: AddOutcome)
    requires
        old(redis).wf(),
    ensures
        final(redis).wf(),
        ({
            let sk = spec_skip_key(filter_type@);
            if old(redis).list_contains(sk, name@) {
                r == AddOutcome::AlreadyExists && *final(redis) == *old(redis)
            } else if old(redis).has_key(sk) && old(redis).list_at(sk) is None {
                r == AddOutcome::Failed && final(redis).at_key(sk) == old(redis).at_key(sk)
                    && RedisInstance::unchanged_except(*old(redis), *final(redis), sk)
            } else {
                r == AddOutcome::Added && RedisInstance::unchanged_except(
                    *old(redis),
                    *final(redis),
                    sk,
                ) && final(redis).at_key(sk) == list_key_state(
                    list_or_empty(*old(redis), sk).push(name@),
                    Some(ttl),
                )
            }
        }),
{
    let skip_key = crate::keys::skip_key(filter_type);
    let ghost sk = spec_skip_key(filter_type@);
    let existance = redis.exist_in_list(skip_key.as_str(), name);
    if existance.is_ok() && existance.unwrap() == true {
        AddOutcome::AlreadyExists
    } else {
        let res = redis.push_list(skip_key.as_str(), name);
        proof {
            old(redis).lemma_key_state_shape(sk);
            if !old(redis).has_key(sk) {
                assert(list_or_empty(*old(redis), sk).push(name@) =~= seq![name@]);
            }
        }
        match res {
            Ok(_) => {
                let ghost mid = *redis;
                let _ = redis.set_expire(skip_key.as_str(), ttl);
                proof {
                    assert(final(redis).at_key(sk) =~= list_key_state(
                        list_or_empty(*old(redis), sk).push(name@),
                        Some(ttl),
                    ));
                    assert forall|k2: Seq<char>| k2 != sk implies #[trigger] final(redis).at_key(
                        k2,
                    ) == old(redis).at_key(k2) by {
                        assert(mid.at_key(k2) == old(redis).at_key(k2));
                        assert(final(redis).at_key(k2) == mid.at_key(k2));
                    }
                }
                AddOutcome::Added
            },
            Err(_) => AddOutcome::Failed,
        }
    }
}

} // verus!
