//! The ratio tracker: the current exchange ratio between the two in-game
//! currencies, kept per scope in the store and used to derive every line's
//! secondary valuation.
use vstd::prelude::*;

use crate::keys::ratio_key;
use crate::keys::spec_ratio_key;
use crate::models::MAX_AMOUNT_MILLI;
use crate::numbers::i64_to_string;
use crate::numbers::parse_i64;
use crate::numbers::spec_int_chars;
use crate::numbers::spec_parse_int;
use crate::redis::RedisInstance;

verus! {

/// The secondary valuation of an amount under a ratio, in milli-units:
/// `primary / ratio`, and the sentinel zero when no positive ratio is
/// known — never a division by zero.
pub open spec fn spec_secondary(primary: int, ratio: int) -> int {
    if ratio <= 0 {
        0
    } else {
        primary * 1000 / ratio
    }
}

/// The ratio currently recorded for a scope: the parsed `ratio` field of
/// the scope's ratio record, and the sentinel zero when the record or the
/// field is absent or does not parse.
pub open spec fn spec_store_ratio(st: RedisInstance, league: Seq<char>) -> int {
    match st.hash_at(spec_ratio_key(league), "ratio"@) {
        Some(s) => match spec_parse_int(s) {
            Some(v) => v,
            None => 0,
        },
        None => 0,
    }
}

/// The recorded ratio always fits in a signed 64-bit word.
pub proof fn lemma_store_ratio_bounds(st: RedisInstance, league: Seq<char>)
    ensures
        i64::MIN <= spec_store_ratio(st, league) <= i64::MAX,
{
    let rk = spec_ratio_key(league);
    if st.hash_at(rk, "ratio"@) is Some {
        let s = st.hash_at(rk, "ratio"@).unwrap();
        if spec_parse_int(s) is Some {
            if s.len() > 0 && s[0] == '-' {
                crate::numbers::lemma_digits_val_nonneg(s.subrange(1, s.len() as int));
            } else {
                crate::numbers::lemma_digits_val_nonneg(s);
            }
        }
    }
}

/// Missing ratio: when no ratio record exists for a scope, the current
/// ratio reads as the sentinel zero, and every secondary valuation
/// derived from it is zero — never a division by zero.
pub proof fn lemma_missing_ratio(st: RedisInstance, league: Seq<char>, v: int)
    requires
        st.hash_at(spec_ratio_key(league), "ratio"@) is None,
    ensures
        spec_store_ratio(st, league) == 0,
        spec_secondary(v, spec_store_ratio(st, league)) == 0,
{
}

/// Derive the secondary valuation of an amount.
pub fn compute_divine_equivalent(primary: i64, ratio: i64) -> (r: i64)
    requires
        0 <= primary <= MAX_AMOUNT_MILLI,
    ensures
        r as int == spec_secondary(primary as int, ratio as int),
{
    if ratio <= 0 {
        0
    } else {
        (primary * 1000) / ratio
    }
}

/// Read the current ratio of a scope from the store.
pub fn get_divine_to_chaos_ratio(league: &str, redis: &mut RedisInstance) -> (r: i64)
    requires
        old(redis).wf(),
    ensures
        *final(redis) == *old(redis),
        r as int == spec_store_ratio(*old(redis), league@),
{
    let rk = ratio_key(league);
    let divine_to_chaos = redis.get_hash(rk.as_str(), "ratio");
    match divine_to_chaos {
        Ok(divine_to_chaos) => match parse_i64(divine_to_chaos.as_str()) {
            Some(v) => v,
            None => 0,
        },
        Err(_) => 0,
    }
}

/// Write `chaos` as the scope's current ratio with the given timestamp,
/// refreshing the record's time-to-live. The record's other fields are
/// kept; a key of the wrong kind is left alone, as the store refuses it.
pub fn record_ratio(redis: &mut RedisInstance, league: &str, chaos: i64, now: &str, ttl: i64)
    requires
        old(redis).wf(),
    ensures
        final(redis).wf(),
        RedisInstance::unchanged_except(*old(redis), *final(redis), spec_ratio_key(league@)),
        ({
            let rk = spec_ratio_key(league@);
            if old(redis).hash_fields_at(rk) is Some || !old(redis).has_key(rk) {
                &&& final(redis).hash_at(rk, "ratio"@) == Some(spec_int_chars(chaos as int))
                &&& final(redis).hash_at(rk, "update_time"@) == Some(now@)
                &&& (forall|f2: Seq<char>|
                    f2 != "ratio"@ && f2 != "update_time"@ ==> #[trigger] final(redis).hash_at(
                        rk,
                        f2,
                    ) == old(redis).hash_at(rk, f2))
                &&& final(redis).ttl_at(rk) == Some(ttl)
                &&& final(redis).has_key(rk)
            } else {
                final(redis).at_key(rk) == old(redis).at_key(rk)
            }
        }),
{
    let rk = ratio_key(league);
    let ratio_str = i64_to_string(chaos);
    proof {
        reveal_strlit("ratio");
        reveal_strlit("update_time");
        assert("ratio"@.len() != "update_time"@.len());
    }
    let _ = redis.push_hash_expire(rk.as_str(), "ratio", ratio_str.as_str(), ttl);
    let _ = redis.push_hash_expire(rk.as_str(), "update_time", now, ttl);
}

} // verus!
