//! Bootstrap seeding: install the default allow-lists, the skip-list and
//! the initial ratio record into the store.
use vstd::prelude::*;

use crate::keys::filter_key;
use crate::keys::skip_key;
use crate::keys::spec_filter_key;
use crate::keys::spec_ratio_key;
use crate::keys::spec_skip_key;
use crate::models::lines_view;
use crate::models::DefaultData;
use crate::models::Line;
use crate::numbers::spec_int_chars;
use crate::pipeline::spec_has_divine;
use crate::pipeline::spec_ratio_after;
use crate::ratio::record_ratio;
use crate::redis::absent_key_state;
use crate::redis::list_key_state;
use crate::redis::KeyState;
use crate::redis::RedisInstance;
use crate::strutil::str_eq;

verus! {

/// One seeded allow-list: the category's filter key holds exactly the
/// defaults, with the time-to-live recorded — or nothing at all when the
/// defaults are empty.
pub open spec fn spec_filter_seeded(
    pre: RedisInstance,
    post: RedisInstance,
    main: Seq<char>,
    cat: Seq<char>,
    defaults: Seq<Seq<char>>,
    ttl: i64,
) -> bool {
    let fk = spec_filter_key(main, cat);
    &&& post.wf()
    &&& RedisInstance::unchanged_except(pre, post, fk)
    &&& (if defaults.len() == 0 {
        post.at_key(fk) == absent_key_state()
    } else {
        post.at_key(fk) == list_key_state(defaults, Some(ttl))
    })
}

/// Replace one category's allow-list with its seeded defaults.
pub fn seed_filter_list(
    redis: &mut RedisInstance,
    main: &str,
    category: &str,
    defaults: &Vec<String>,
    ttl: i64,
)
    requires
        old(redis).wf(),
    ensures
        spec_filter_seeded(
            *old(redis),
            *final(redis),
            main@,
            category@,
            defaults.deep_view(),
            ttl,
        ),
{
    let fk = filter_key(main, category);
    let _ = redis.set_list_expire(fk.as_str(), defaults, ttl);
}

/// The state one key is left in by seeding the given entries in order,
/// when some entry's filter key is that key: the last such entry wins.
pub open spec fn spec_seeded_at(
    entries: Seq<DefaultData>,
    main: Seq<char>,
    k: Seq<char>,
    ttl: i64,
) -> Option<KeyState>
    decreases entries.len(),
{
    if entries.len() == 0 {
        None
    } else if spec_filter_key(main, entries.last().name@) == k {
        if entries.last().default.deep_view().len() == 0 {
            Some(absent_key_state())
        } else {
            Some(list_key_state(entries.last().default.deep_view(), Some(ttl)))
        }
    } else {
        spec_seeded_at(entries.drop_last(), main, k, ttl)
    }
}

/// A whole main type's allow-lists seeded entry by entry, in order: each
/// seeded category's filter key holds the defaults of its last entry, and
/// every other key is untouched.
pub open spec fn spec_filters_seeded(
    pre: RedisInstance,
    post: RedisInstance,
    main: Seq<char>,
    entries: Seq<DefaultData>,
    ttl: i64,
) -> bool {
    &&& post.wf()
    &&& (forall|k: Seq<char>|
        #[trigger] post.at_key(k) == (match spec_seeded_at(entries, main, k, ttl) {
            Some(st) => st,
            None => pre.at_key(k),
        }))
}

/// Seed the allow-lists of every given category under one main type.
pub fn seed_filters(redis: &mut RedisInstance, main: &str, entries: &Vec<DefaultData>, ttl: i64)
    requires
        old(redis).wf(),
    ensures
        final(redis).wf(),
        spec_filters_seeded(*old(redis), *final(redis), main@, entries@, ttl),
{
    let n = entries.len();
    let mut i: usize = 0;
    while i < n
        invariant
            i <= n,
            n == entries@.len(),
            redis.wf(),
            spec_filters_seeded(*old(redis), *redis, main@, entries@.subrange(0, i as int), ttl),
        decreases n - i,
    {
        let ghost pre = entries@.subrange(0, i as int);
        let ghost cur = entries@.subrange(0, i + 1 as int);
        proof {
            assert(cur.drop_last() =~= pre);
            assert(cur.last() == entries@[i as int]);
        }
        let ghost mid = *redis;
        let entry = &entries[i];
        let ghost fki = spec_filter_key(main@, entry.name@);
        seed_filter_list(redis, main, entry.name.as_str(), &entry.default, ttl);
        proof {
            assert forall|k: Seq<char>| #[trigger] redis.at_key(k) == (match spec_seeded_at(
                cur,
                main@,
                k,
                ttl,
            ) {
                Some(st) => st,
                None => old(redis).at_key(k),
            }) by {
                if k != fki {
                    assert(redis.at_key(k) == mid.at_key(k));
                    assert(spec_seeded_at(cur, main@, k, ttl) == spec_seeded_at(
                        pre,
                        main@,
                        k,
                        ttl,
                    ));
                }
            }
        }
        i += 1;
    }
    proof {
        assert(entries@.subrange(0, n as int) =~= entries@);
        assert forall|k: Seq<char>| #[trigger] final(redis).at_key(k) == (match spec_seeded_at(
            entries@,
            main@,
            k,
            ttl,
        ) {
            Some(st) => st,
            None => old(redis).at_key(k),
        }) by {
            assert(spec_seeded_at(entries@, main@, k, ttl) == spec_seeded_at(
                entries@.subrange(0, n as int),
                main@,
                k,
                ttl,
            ));
        }
    }
}

/// Replace a main type's skip-list with the given category names.
pub fn seed_skip_list(redis: &mut RedisInstance, main: &str, names: &Vec<String>, ttl: i64)
    requires
        old(redis).wf(),
    ensures
        final(redis).wf(),
        RedisInstance::unchanged_except(*old(redis), *final(redis), spec_skip_key(main@)),
        if names@.len() == 0 {
            final(redis).at_key(spec_skip_key(main@)) == absent_key_state()
        } else {
            final(redis).at_key(spec_skip_key(main@)) == list_key_state(
                names.deep_view(),
                Some(ttl),
            )
        },
{
    let sk = skip_key(main);
    let _ = redis.set_list_expire(sk.as_str(), names, ttl);
}

/// Write the initial ratio record of a scope from a fetched currency
/// feed: the last reference-currency line observed wins; a feed without
/// one writes nothing.
pub fn record_ratio_from_lines(
    redis: &mut RedisInstance,
    league: &str,
    lines: &Vec<Line>,
    now: &str,
    ttl: i64,
)
    requires
        old(redis).wf(),
        crate::pipeline::spec_lines_wf(lines_view(lines@)),
    ensures
        final(redis).wf(),
        RedisInstance::unchanged_except(*old(redis), *final(redis), spec_ratio_key(league@)),
        ({
            let rk = spec_ratio_key(league@);
            let lv = lines_view(lines@);
            if !spec_has_divine(lv) {
                *final(redis) == *old(redis)
            } else if old(redis).hash_fields_at(rk) is Some || !old(redis).has_key(rk) {
                &&& final(redis).hash_at(rk, "ratio"@) == Some(
                    spec_int_chars(
                        spec_ratio_after(crate::classify::MainType::Currency, lv, 0),
                    ),
                )
                &&& final(redis).hash_at(rk, "update_time"@) == Some(now@)
                &&& (forall|f2: Seq<char>|
                    f2 != "ratio"@ && f2 != "update_time"@ ==> #[trigger] final(redis).hash_at(
                        rk,
                        f2,
                    ) == old(redis).hash_at(rk, f2))
                &&& final(redis).ttl_at(rk) == Some(ttl)
            } else {
                final(redis).at_key(rk) == old(redis).at_key(rk)
            }
        }),
{
    let ghost rk = spec_ratio_key(league@);
    let ghost lv = lines_view(lines@);
    let n = lines.len();
    let mut i: usize = 0;
    while i < n
        invariant
            i <= n,
            n == lines@.len(),
            redis.wf(),
            RedisInstance::unchanged_except(*old(redis), *redis, rk),
            ({
                let prefix = lv.subrange(0, i as int);
                if !spec_has_divine(prefix) {
                    *redis == *old(redis)
                } else if old(redis).hash_fields_at(rk) is Some || !old(redis).has_key(rk) {
                    &&& redis.hash_at(rk, "ratio"@) == Some(
                        spec_int_chars(
                            spec_ratio_after(crate::classify::MainType::Currency, prefix, 0),
                        ),
                    )
                    &&& redis.hash_at(rk, "update_time"@) == Some(now@)
                    &&& (forall|f2: Seq<char>|
                        f2 != "ratio"@ && f2 != "update_time"@ ==> #[trigger] redis.hash_at(
                            rk,
                            f2,
                        ) == old(redis).hash_at(rk, f2))
                    &&& redis.ttl_at(rk) == Some(ttl)
                    &&& redis.hash_fields_at(rk) is Some
                } else {
                    redis.at_key(rk) == old(redis).at_key(rk)
                }
            }),
        decreases n - i,
    {
        let ghost prefix = lv.subrange(0, i as int);
        let ghost cur = lv.subrange(0, i + 1 as int);
        proof {
            assert(cur.drop_last() =~= prefix);
            assert(cur.last() == lines@[i as int]@);
        }
        let line = &lines[i];
        if str_eq(line.currency_type_name.as_str(), "Divine Orb") {
            proof {
                assert(spec_has_divine(cur)) by {
                    assert(cur[i as int].name == "Divine Orb"@);
                }
            }
            let ghost mid = *redis;
            record_ratio(redis, league, line.chaos_equivalent, now, ttl);
            proof {
                if spec_has_divine(prefix) {
                } else {
                    assert(mid == *old(redis));
                }
            }
        } else {
            proof {
                if spec_has_divine(cur) {
                    assert(spec_has_divine(prefix)) by {
                        let w = choose|w: int|
                            0 <= w < cur.len() && cur[w].name == "Divine Orb"@;
                        assert(prefix[w].name == "Divine Orb"@);
                    }
                }
            }
        }
        i += 1;
    }
    proof {
        assert(lv.subrange(0, n as int) =~= lv);
    }
}

} // verus!
