//! The refresh pipeline of one category: classify the fetched lines,
//! filter them through the allow-list / skip-list / threshold policy,
//! derive the secondary valuation through the tracked ratio, reconcile
//! with the stored snapshot and replace it wholesale.
use vstd::prelude::*;

use crate::classify::spec_query_type;
use crate::classify::MainType;
use crate::filter::list_or_empty;
use crate::filter::should_retain;
use crate::filter::spec_retain;
use crate::keys::data_key;
use crate::keys::filter_key;
use crate::keys::lemma_keys_distinct;
use crate::keys::ratio_key;
use crate::keys::skip_key;
use crate::keys::spec_data_key;
use crate::keys::spec_filter_key;
use crate::keys::spec_ratio_key;
use crate::keys::spec_skip_key;
use crate::models::item_line_as_line;
use crate::models::item_lines_view;
use crate::models::lines_view;
use crate::models::DataStore;
use crate::models::DataStoreV;
use crate::models::ItemLine;
use crate::models::ItemQueryResponse;
use crate::models::Line;
use crate::models::LineV;
use crate::models::QueryResponse;
use crate::models::MAX_AMOUNT_MILLI;
use crate::numbers::i64_to_string;
use crate::numbers::lemma_parse_int_round_trip;
use crate::numbers::spec_int_chars;
use crate::ratio::compute_divine_equivalent;
use crate::ratio::get_divine_to_chaos_ratio;
use crate::ratio::lemma_store_ratio_bounds;
use crate::ratio::spec_secondary;
use crate::ratio::spec_store_ratio;
use crate::record::from_record_string;
use crate::record::spec_decode;
use crate::record::spec_encode;
use crate::redis::absent_key_state;
use crate::redis::list_key_state;
use crate::redis::RedisInstance;
use crate::strutil::str_eq;

verus! {

/// Lines whose amounts the pipeline accepts: the primary value is not
/// negative and small enough that the derived valuation fits in 64 bits.
pub open spec fn spec_lines_wf(lines: Seq<LineV>) -> bool {
    forall|i: int|
        0 <= i < lines.len() ==> 0 <= (#[trigger] lines[i]).chaos <= MAX_AMOUNT_MILLI as int
}

/// Does the feed carry a line of the reference currency?
pub open spec fn spec_has_divine(lines: Seq<LineV>) -> bool {
    exists|i: int| 0 <= i < lines.len() && (#[trigger] lines[i]).name == "Divine Orb"@
}

/// The ratio in force after processing `lines`, starting from `r0`: each
/// reference-currency line of a currency refresh resets it to that line's
/// primary value; an item refresh never touches it.
pub open spec fn spec_ratio_after(mt: MainType, lines: Seq<LineV>, r0: int) -> int
    decreases lines.len(),
{
    if mt != MainType::Currency || lines.len() == 0 {
        r0
    } else if lines.last().name == "Divine Orb"@ {
        lines.last().chaos
    } else {
        spec_ratio_after(mt, lines.drop_last(), r0)
    }
}

/// The stored record a line becomes under a ratio at a time.
pub open spec fn spec_record_of(l: LineV, ratio: int, now: Seq<char>) -> DataStoreV {
    DataStoreV {
        name: l.name,
        chaos_equivalent: l.chaos,
        divine_equivalent: spec_secondary(l.chaos, ratio),
        pay_total_change: l.pay,
        receive_total_change: l.recv,
        update_time: now,
    }
}

/// The encoded records one refresh retains, in feed order. Each line is
/// judged by the filter engine and valued under the ratio in force when
/// it is processed.
pub open spec fn spec_outputs(
    mt: MainType,
    lines: Seq<LineV>,
    allow: Seq<Seq<char>>,
    exempt: bool,
    r0: int,
    threshold: int,
    now: Seq<char>,
) -> Seq<Seq<char>>
    decreases lines.len(),
{
    if lines.len() == 0 {
        Seq::empty()
    } else {
        let pre = spec_outputs(mt, lines.drop_last(), allow, exempt, r0, threshold, now);
        let l = lines.last();
        let ratio = spec_ratio_after(mt, lines.drop_last(), r0);
        if spec_retain(mt, allow.contains(l.name), exempt, l.chaos, threshold) {
            pre.push(spec_encode(spec_record_of(l, ratio, now)))
        } else {
            pre
        }
    }
}

/// A freshly written ratio record: exactly the parsed ratio and its
/// timestamp, with the time-to-live refreshed.
pub open spec fn spec_ratio_recorded(
    st: RedisInstance,
    league: Seq<char>,
    chaos: int,
    now: Seq<char>,
    ttl: i64,
) -> bool {
    let rk = spec_ratio_key(league);
    &&& st.hash_at(rk, "ratio"@) == Some(spec_int_chars(chaos))
    &&& st.hash_at(rk, "update_time"@) == Some(now)
    &&& (forall|f2: Seq<char>|
        f2 != "ratio"@ && f2 != "update_time"@ ==> #[trigger] st.hash_at(rk, f2) is None)
    &&& st.ttl_at(rk) == Some(ttl)
    &&& st.has_key(rk)
    &&& st.str_at(rk) is None
    &&& st.list_at(rk) is None
}

/// Everything one refresh does to the store, relating the store before
/// (`pre`) and after (`post`): only the scope's ratio record and the
/// category's snapshot change; the ratio record is rewritten exactly when
/// a currency refresh saw the reference currency; and the snapshot is
/// replaced wholesale by the retained records — a refresh that retained
/// nothing clears it.
pub open spec fn spec_refresh_rel(
    mt: MainType,
    pre: RedisInstance,
    post: RedisInstance,
    league: Seq<char>,
    main: Seq<char>,
    cat: Seq<char>,
    lines: Seq<LineV>,
    now: Seq<char>,
    threshold: int,
    ttl: i64,
) -> bool {
    let fk = spec_filter_key(main, cat);
    let sk = spec_skip_key(main);
    let rk = spec_ratio_key(league);
    let dk = spec_data_key(main, cat);
    let out = spec_outputs(
        mt,
        lines,
        list_or_empty(pre, fk),
        pre.list_contains(sk, cat),
        spec_store_ratio(pre, league),
        threshold,
        now,
    );
    &&& rk != dk
    &&& post.wf()
    &&& RedisInstance::unchanged_except2(pre, post, rk, dk)
    &&& (if mt == MainType::Currency && spec_has_divine(lines) {
        spec_ratio_recorded(
            post,
            league,
            spec_ratio_after(mt, lines, spec_store_ratio(pre, league)),
            now,
            ttl,
        )
    } else {
        post.at_key(rk) == pre.at_key(rk)
    })
    &&& (if out.len() == 0 {
        post.at_key(dk) == absent_key_state()
    } else {
        post.at_key(dk) == list_key_state(out, Some(ttl))
    })
}

/// The ratio stays within 64 bits throughout a refresh of well-formed
/// lines.
pub proof fn lemma_ratio_after_bounds(mt: MainType, lines: Seq<LineV>, r0: int)
    requires
        spec_lines_wf(lines),
        i64::MIN <= r0 <= i64::MAX,
    ensures
        i64::MIN <= spec_ratio_after(mt, lines, r0) <= i64::MAX,
    decreases lines.len(),
{
    if mt == MainType::Currency && lines.len() > 0 {
        assert(spec_lines_wf(lines.drop_last())) by {
            assert(forall|i: int|
                0 <= i < lines.len() - 1 ==> lines.drop_last()[i] == #[trigger] lines[i]);
        }
        lemma_ratio_after_bounds(mt, lines.drop_last(), r0);
        assert(0 <= lines.last().chaos <= MAX_AMOUNT_MILLI as int);
    }
}

/// Parse one currency line into its stored record under the current
/// ratio, and — when the line is the reference currency — rewrite the
/// scope's ratio record from scratch.
pub fn parse_data_line_to_datastore(
    league: &str,
    line: &Line,
    redis: &mut RedisInstance,
    now: &str,
    ttl: i64,
) -> (r: DataStore)
    requires
        old(redis).wf(),
        0 <= line@.chaos <= MAX_AMOUNT_MILLI as int,
    ensures
        final(redis).wf(),
        r@ == spec_record_of(line@, spec_store_ratio(*old(redis), league@), now@),
        if line@.name == "Divine Orb"@ {
            RedisInstance::unchanged_except(*old(redis), *final(redis), spec_ratio_key(league@))
                && spec_ratio_recorded(*final(redis), league@, line@.chaos, now@, ttl)
        } else {
            *final(redis) == *old(redis)
        },
{
    let pay_total_change = match &line.pay_spark_line {
        Some(pay_spark_line) => pay_spark_line.total_change,
        None => 0,
    };
    let receive_total_change = match &line.receive_spark_line {
        Some(receive_spark_line) => receive_spark_line.total_change,
        None => 0,
    };
    let divine_ratio = get_divine_to_chaos_ratio(league, redis);
    let divine_equivalent = compute_divine_equivalent(line.chaos_equivalent, divine_ratio);
    let data = DataStore::new(
        line.currency_type_name.clone(),
        line.chaos_equivalent,
        divine_equivalent,
        pay_total_change,
        receive_total_change,
        String::from_str(now),
    );
    proof {
        assert(data@ =~= spec_record_of(line@, spec_store_ratio(*old(redis), league@), now@));
    }
    if str_eq(data.name.as_str(), "Divine Orb") {
        let ghost rk = spec_ratio_key(league@);
        let rk_str = ratio_key(league);
        let ghost s1 = *redis;
        let _ = redis.delete(rk_str.as_str());
        let ghost s2 = *redis;
        let ratio_str = i64_to_string(data.chaos_equivalent);
        let _ = redis.push_hash_expire(rk_str.as_str(), "ratio", ratio_str.as_str(), ttl);
        let ghost s3 = *redis;
        let _ = redis.push_hash_expire(rk_str.as_str(), "update_time", now, ttl);
        proof {
            reveal_strlit("ratio");
            reveal_strlit("update_time");
            assert("ratio"@.len() != "update_time"@.len());
            assert forall|k2: Seq<char>| k2 != rk implies #[trigger] final(redis).at_key(k2)
                == old(redis).at_key(k2) by {
                assert(s2.at_key(k2) == s1.at_key(k2));
                assert(s3.at_key(k2) == s2.at_key(k2));
                assert(final(redis).at_key(k2) == s3.at_key(k2));
            }
        }
    }
    data
}

/// Parse one item line into its stored record under the current ratio;
/// the ratio record itself is only ever written by currency refreshes.
pub fn parse_data_line_to_datastore_item(
    league: &str,
    line: &ItemLine,
    redis: &mut RedisInstance,
    now: &str,
) -> (r: DataStore)
    requires
        old(redis).wf(),
        0 <= line@.chaos_value <= MAX_AMOUNT_MILLI as int,
    ensures
        *final(redis) == *old(redis),
        r@ == spec_record_of(
            item_line_as_line(line@),
            spec_store_ratio(*old(redis), league@),
            now@,
        ),
{
    let total_change = match &line.sparkline {
        Some(spark_line) => spark_line.total_change,
        None => 0,
    };
    let divine_ratio = get_divine_to_chaos_ratio(league, redis);
    let divine_equivalent = compute_divine_equivalent(line.chaos_value, divine_ratio);
    let data = DataStore::new(
        line.name.clone(),
        line.chaos_value,
        divine_equivalent,
        total_change,
        total_change,
        String::from_str(now),
    );
    proof {
        assert(data@ =~= spec_record_of(
            item_line_as_line(line@),
            spec_store_ratio(*old(redis), league@),
            now@,
        ));
    }
    data
}

/// The records of a category's stored snapshot: all of them when every
/// stored string decodes, and nothing when the snapshot is absent or any
/// entry is corrupt.
pub open spec fn spec_current_records(st: RedisInstance, cat: Seq<char>) -> Seq<DataStoreV> {
    let dk = spec_data_key(spec_query_type(cat), cat);
    match st.list_at(dk) {
        None => Seq::empty(),
        Some(l) => {
            if forall|i: int| 0 <= i < l.len() ==> (#[trigger] spec_decode(l[i])) is Some {
                l.map_values(|s: Seq<char>| spec_decode(s).unwrap())
            } else {
                Seq::empty()
            }
        },
    }
}

/// Read and decode a category's stored snapshot.
pub fn get_current_data_list(category: &str, redis: &mut RedisInstance) -> (r: Vec<DataStore>)
    requires
        old(redis).wf(),
    ensures
        *final(redis) == *old(redis),
        r@.map_values(|d: DataStore| d@) == spec_current_records(*old(redis), category@),
{
    let main = crate::classify::get_query_type(String::from_str(category));
    let redis_key = data_key(main.as_str(), category);
    let ghost dk = spec_data_key(spec_query_type(category@), category@);
    let res = redis.get_list(redis_key.as_str());
    match res {
        Ok(items) => {
            let ghost ld = items.deep_view();
            let n = items.len();
            let mut data_list: Vec<DataStore> = Vec::new();
            let mut i: usize = 0;
            while i < n
                invariant
                    i <= n,
                    n == items@.len(),
                    ld == items.deep_view(),
                    forall|j: int| 0 <= j < i ==> (#[trigger] spec_decode(ld[j])) is Some,
                    data_list@.map_values(|d: DataStore| d@) =~= ld.subrange(0, i as int)
                        .map_values(|s: Seq<char>| spec_decode(s).unwrap()),
                decreases n - i,
            {
                proof {
                    assert(ld[i as int] == items@[i as int]@);
                }
                match from_record_string(items[i].as_str()) {
                    Some(data_json) => {
                        let ghost before = data_list@.map_values(|d: DataStore| d@);
                        data_list.push(data_json);
                        proof {
                            assert(data_list@.map_values(|d: DataStore| d@) =~= before.push(
                                spec_decode(ld[i as int]).unwrap(),
                            ));
                            assert(ld.subrange(0, i + 1 as int).map_values(
                                |s: Seq<char>| spec_decode(s).unwrap(),
                            ) =~= ld.subrange(0, i as int).map_values(
                                |s: Seq<char>| spec_decode(s).unwrap(),
                            ).push(spec_decode(ld[i as int]).unwrap()));
                        }
                    },
                    None => {
                        let empty: Vec<DataStore> = Vec::new();
                        proof {
                            assert(!((#[trigger] spec_decode(ld[i as int])) is Some));
                            assert(empty@.map_values(|d: DataStore| d@) =~= Seq::<
                                DataStoreV,
                            >::empty());
                        }
                        return empty;
                    },
                }
                i += 1;
            }
            proof {
                assert(ld.subrange(0, n as int) =~= ld);
                if old(redis).list_at(dk) is None {
                    assert(ld =~= Seq::<Seq<char>>::empty());
                    assert(data_list@.map_values(|d: DataStore| d@) =~= Seq::<
                        DataStoreV,
                    >::empty());
                }
            }
            data_list
        },
        Err(_) => {
            let empty: Vec<DataStore> = Vec::new();
            proof {
                assert(empty@.map_values(|d: DataStore| d@) =~= Seq::<DataStoreV>::empty());
            }
            empty
        },
    }
}

/// Is a record with this name among the given records?
pub open spec fn spec_has_name(s: Seq<DataStore>, n: Seq<char>) -> bool {
    exists|i: int| 0 <= i < s.len() && (#[trigger] s[i]).name@ == n
}

/// Is a record with this name in the list?
pub fn exist_in_list(list: &Vec<DataStore>, value: &String) -> (r: bool)
    ensures
        r == spec_has_name(list@, value@),
{
    let n = list.len();
    let mut i: usize = 0;
    while i < n
        invariant
            i <= n,
            n == list@.len(),
            forall|j: int| 0 <= j < i ==> (#[trigger] list@[j]).name@ != value@,
        decreases n - i,
    {
        if str_eq(list[i].name.as_str(), value.as_str()) {
            return true;
        }
        i += 1;
    }
    proof {
        if spec_has_name(list@, value@) {
            let w = choose|w: int| 0 <= w < list@.len() && list@[w].name@ == value@;
            assert(list@[w].name@ != value@);
        }
    }
    false
}

/// Remove the first record with this name from the list.
pub fn pop_by_name(list: &mut Vec<DataStore>, value: &String)
    requires
        spec_has_name(old(list)@, value@),
    ensures
        exists|i: int|
            0 <= i < old(list)@.len() && (#[trigger] old(list)@[i]).name@ == value@ && (forall|
                j: int,
            |
                0 <= j < i ==> old(list)@[j].name@ != value@) && final(list)@ == old(
                list,
            )@.remove(i),
{
    let n = list.len();
    let mut index: usize = 0;
    while index < n
        invariant
            index <= n,
            n == list@.len(),
            *list == *old(list),
            forall|j: int| 0 <= j < index ==> (#[trigger] list@[j]).name@ != value@,
        decreases n - index,
    {
        if str_eq(list[index].name.as_str(), value.as_str()) {
            let ghost w = index as int;
            list.remove(index);
            proof {
                assert(0 <= w < old(list)@.len() && old(list)@[w].name@ == value@ && (forall|
                    j: int,
                |
                    0 <= j < w ==> old(list)@[j].name@ != value@) && final(list)@ == old(
                    list,
                )@.remove(w));
            }
            return ;
        }
        index += 1;
    }
    proof {
        let w = choose|w: int| 0 <= w < list@.len() && list@[w].name@ == value@;
        assert(list@[w].name@ != value@);
    }
}

/// A fresh, empty store instance for the default profile.
pub fn get_redis_instance() -> (r: RedisInstance)
    ensures
        r.wf(),
        forall|k: Seq<char>| #[trigger] r.at_key(k) == absent_key_state(),
{
    RedisInstance::new("local")
}

/// Idempotence of a refresh: repeating it on an unchanged feed leaves the
/// stored snapshot exactly as the first run wrote it — provided the feed
/// does not move the ratio (its reference-currency value, if any, equals
/// the ratio already stored) and the category is not named after the
/// skip-list key segment, which would alias the snapshot key.
pub proof fn lemma_refresh_idempotent(
    mt: MainType,
    s0: RedisInstance,
    s1: RedisInstance,
    s2: RedisInstance,
    league: Seq<char>,
    main: Seq<char>,
    cat: Seq<char>,
    lines: Seq<LineV>,
    now: Seq<char>,
    threshold: int,
    ttl: i64,
)
    requires
        spec_refresh_rel(mt, s0, s1, league, main, cat, lines, now, threshold, ttl),
        spec_refresh_rel(mt, s1, s2, league, main, cat, lines, now, threshold, ttl),
        spec_ratio_after(mt, lines, spec_store_ratio(s0, league)) == spec_store_ratio(s0, league),
        spec_lines_wf(lines),
        cat != "skip"@,
    ensures
        s2.at_key(spec_data_key(main, cat)) == s1.at_key(spec_data_key(main, cat)),
{
    let fk = spec_filter_key(main, cat);
    let sk = spec_skip_key(main);
    let rk = spec_ratio_key(league);
    let dk = spec_data_key(main, cat);
    let r0 = spec_store_ratio(s0, league);
    lemma_keys_distinct(main, cat, league);
    // the data key cannot be the skip key: the category is not "skip"
    reveal_strlit(":skip");
    reveal_strlit("skip");
    reveal_strlit(":");
    if sk == dk {
        assert(cat.len() == 4);
        assert(cat =~= "skip"@) by {
            assert forall|i: int| 0 <= i < 4 implies cat[i] == "skip"@[i] by {
                assert(dk[main.len() + 1 + i] == cat[i]);
                assert(sk[main.len() + 1 + i] == ":skip"@[i + 1]);
            }
        }
    }
    // the allow-list, the exemption and the ratio are the same for the
    // second run
    assert(s1.at_key(fk) == s0.at_key(fk));
    assert(s1.at_key(sk) == s0.at_key(sk));
    assert(spec_store_ratio(s1, league) == r0) by {
        if mt == MainType::Currency && spec_has_divine(lines) {
            crate::ratio::lemma_store_ratio_bounds(s0, league);
            lemma_ratio_after_bounds(mt, lines, r0);
            lemma_parse_int_round_trip(spec_ratio_after(mt, lines, r0));
        } else {
            assert(s1.at_key(rk) == s0.at_key(rk));
        }
    }
    let out = spec_outputs(
        mt,
        lines,
        list_or_empty(s0, fk),
        s0.list_contains(sk, cat),
        r0,
        threshold,
        now,
    );
    assert(spec_outputs(
        mt,
        lines,
        list_or_empty(s1, fk),
        s1.list_contains(sk, cat),
        spec_store_ratio(s1, league),
        threshold,
        now,
    ) == out);
}

/// Ratio correctness: after a currency refresh whose last
/// reference-currency line carries the positive value `r_new`, the stored
/// ratio is exactly `r_new`, and until it is rewritten every derived
/// secondary valuation divides by it.
pub proof fn lemma_ratio_correctness(
    s0: RedisInstance,
    s1: RedisInstance,
    league: Seq<char>,
    main: Seq<char>,
    cat: Seq<char>,
    lines: Seq<LineV>,
    now: Seq<char>,
    ttl: i64,
    r_new: int,
)
    requires
        spec_refresh_rel(MainType::Currency, s0, s1, league, main, cat, lines, now, 0, ttl),
        spec_has_divine(lines),
        spec_lines_wf(lines),
        spec_ratio_after(MainType::Currency, lines, spec_store_ratio(s0, league)) == r_new,
        0 < r_new,
    ensures
        spec_store_ratio(s1, league) == r_new,
        forall|v: int| #[trigger] spec_secondary(v, r_new) == v * 1000 / r_new,
{
    crate::ratio::lemma_store_ratio_bounds(s0, league);
    lemma_ratio_after_bounds(MainType::Currency, lines, spec_store_ratio(s0, league));
    lemma_parse_int_round_trip(r_new);
}

/// Refresh one currency category: filter the fetched lines, track the
/// reference-currency ratio, and replace the stored snapshot wholesale
/// with the retained records — with none retained, the snapshot is
/// cleared.
pub fn write_to_redis(
    league: &str,
    main_category: &str,
    category: &str,
    query_res: &QueryResponse,
    redis: &mut RedisInstance,
    now: &str,
    ttl: i64,
)
    requires
        old(redis).wf(),
        main_category@ == spec_query_type(category@),
        spec_ratio_key(league@) != spec_data_key(main_category@, category@),
        spec_lines_wf(lines_view(query_res.lines@)),
    ensures
        spec_refresh_rel(
            MainType::Currency,
            *old(redis),
            *final(redis),
            league@,
            main_category@,
            category@,
            lines_view(query_res.lines@),
            now@,
            0,
            ttl,
        ),
{
    let ghost lv = lines_view(query_res.lines@);
    let ghost fkv = spec_filter_key(main_category@, category@);
    let ghost skv = spec_skip_key(main_category@);
    let ghost rkv = spec_ratio_key(league@);
    let ghost dkv = spec_data_key(main_category@, category@);
    let ghost allow = list_or_empty(*old(redis), fkv);
    let ghost exempt = old(redis).list_contains(skv, category@);
    let ghost r0 = spec_store_ratio(*old(redis), league@);
    proof {
        lemma_keys_distinct(main_category@, category@, league@);
        lemma_store_ratio_bounds(*old(redis), league@);
    }
    let mut data_list: Vec<String> = Vec::new();
    let mut current_list = get_current_data_list(category, redis);
    let filter_redis_key = filter_key(main_category, category);
    let skip_redis_key = skip_key(main_category);
    let n = query_res.lines.len();
    let mut idx: usize = 0;
    while idx < n
        invariant
            idx <= n,
            n == query_res.lines@.len(),
            redis.wf(),
            RedisInstance::unchanged_except(*old(redis), *redis, rkv),
            ({
                let prefix = lv.subrange(0, idx as int);
                &&& (if spec_has_divine(prefix) {
                    spec_ratio_recorded(
                        *redis,
                        league@,
                        spec_ratio_after(MainType::Currency, prefix, r0),
                        now@,
                        ttl,
                    )
                } else {
                    redis.at_key(rkv) == old(redis).at_key(rkv)
                })
                &&& spec_store_ratio(*redis, league@) == spec_ratio_after(
                    MainType::Currency,
                    prefix,
                    r0,
                )
                &&& data_list.deep_view() =~= spec_outputs(
                    MainType::Currency,
                    prefix,
                    allow,
                    exempt,
                    r0,
                    0,
                    now@,
                )
            }),
        decreases n - idx,
    {
        let ghost prefix = lv.subrange(0, idx as int);
        let ghost curpfx = lv.subrange(0, idx + 1 as int);
        proof {
            assert(curpfx.drop_last() =~= prefix);
            assert(curpfx.last() == query_res.lines@[idx as int]@);
        }
        let line = &query_res.lines[idx];
        let existance = redis.exist_in_list(
            filter_redis_key.as_str(),
            line.currency_type_name.as_str(),
        );
        let skip_filter = redis.exist_in_list(skip_redis_key.as_str(), category);
        proof {
            assert(redis.at_key(fkv) == old(redis).at_key(fkv));
            assert(redis.at_key(skv) == old(redis).at_key(skv));
        }
        let ghost ratio_i = spec_ratio_after(MainType::Currency, prefix, r0);
        let ghost store_before = *redis;
        let data = parse_data_line_to_datastore(league, line, redis, now, ttl);
        proof {
            // the ratio invariant advances with this line
            if line@.name == "Divine Orb"@ {
                assert(spec_has_divine(curpfx)) by {
                    assert(curpfx[idx as int].name == "Divine Orb"@);
                }
                assert(spec_ratio_after(MainType::Currency, curpfx, r0) == line@.chaos);
                lemma_parse_int_round_trip(line@.chaos);
                assert(spec_store_ratio(*redis, league@) == line@.chaos);
            } else {
                assert(*redis == store_before);
                assert(spec_ratio_after(MainType::Currency, curpfx, r0) == ratio_i);
                if spec_has_divine(curpfx) {
                    assert(spec_has_divine(prefix)) by {
                        let w = choose|w: int|
                            0 <= w < curpfx.len() && curpfx[w].name == "Divine Orb"@;
                        assert(prefix[w].name == "Divine Orb"@);
                    }
                }
            }
            assert forall|k2: Seq<char>| k2 != rkv implies #[trigger] redis.at_key(k2)
                == old(redis).at_key(k2) by {
                assert(store_before.at_key(k2) == old(redis).at_key(k2));
                if line@.name == "Divine Orb"@ {
                    assert(redis.at_key(k2) == store_before.at_key(k2));
                }
            }
        }
        match existance {
            Ok(is_allowed) => {
                let is_exempted = match skip_filter {
                    Ok(skip) => skip,
                    Err(_) => false,
                };
                if should_retain(MainType::Currency, is_allowed, is_exempted, data.chaos_equivalent, 0)
                {
                    if exist_in_list(&current_list, &data.name) {
                        pop_by_name(&mut current_list, &data.name);
                    }
                    let ghost outs_before = data_list.deep_view();
                    data_list.push(data.to_record_string());
                    proof {
                        assert(data_list.deep_view() =~= outs_before.push(spec_encode(data@)));
                    }
                }
            },
            Err(_) => {},
        }
        proof {
            assert(data_list.deep_view() =~= spec_outputs(
                MainType::Currency,
                curpfx,
                allow,
                exempt,
                r0,
                0,
                now@,
            ));
        }
        idx += 1;
    }
    proof {
        assert(lv.subrange(0, n as int) =~= lv);
    }
    let ghost loop_end = *redis;
    let data_redis_key = data_key(main_category, category);
    let _ = redis.set_list_expire(data_redis_key.as_str(), &data_list, ttl);
    proof {
        let out = spec_outputs(MainType::Currency, lv, allow, exempt, r0, 0, now@);
        if out.len() == 0 {
            assert(final(redis).at_key(dkv) == absent_key_state());
        } else {
            assert(final(redis).at_key(dkv) =~= list_key_state(out, Some(ttl)));
        }
        assert forall|k2: Seq<char>| k2 != rkv && k2 != dkv implies #[trigger] final(redis).at_key(
            k2,
        ) == old(redis).at_key(k2) by {
            assert(loop_end.at_key(k2) == old(redis).at_key(k2));
            assert(final(redis).at_key(k2) == loop_end.at_key(k2));
        }
        assert(final(redis).at_key(rkv) == loop_end.at_key(rkv));
        if spec_has_divine(lv) {
            assert forall|f2: Seq<char>|
                f2 != "ratio"@ && f2 != "update_time"@ implies #[trigger] final(redis).hash_at(
                rkv,
                f2,
            ) is None by {
                assert(loop_end.hash_at(rkv, f2) is None);
            }
        }
    }
}

/// Refresh one item category: like a currency refresh, but exempted lines
/// must clear the value threshold and the ratio record is never written.
pub fn write_to_redis_item(
    league: &str,
    main_category: &str,
    category: &str,
    query_res: &ItemQueryResponse,
    redis: &mut RedisInstance,
    now: &str,
    threshold: i64,
    ttl: i64,
)
    requires
        old(redis).wf(),
        main_category@ == spec_query_type(category@),
        spec_ratio_key(league@) != spec_data_key(main_category@, category@),
        spec_lines_wf(item_lines_view(query_res.lines@)),
    ensures
        spec_refresh_rel(
            MainType::Item,
            *old(redis),
            *final(redis),
            league@,
            main_category@,
            category@,
            item_lines_view(query_res.lines@),
            now@,
            threshold as int,
            ttl,
        ),
{
    let ghost lv = item_lines_view(query_res.lines@);
    let ghost fkv = spec_filter_key(main_category@, category@);
    let ghost skv = spec_skip_key(main_category@);
    let ghost rkv = spec_ratio_key(league@);
    let ghost dkv = spec_data_key(main_category@, category@);
    let ghost allow = list_or_empty(*old(redis), fkv);
    let ghost exempt = old(redis).list_contains(skv, category@);
    let ghost r0 = spec_store_ratio(*old(redis), league@);
    proof {
        lemma_keys_distinct(main_category@, category@, league@);
        lemma_store_ratio_bounds(*old(redis), league@);
    }
    let mut data_list: Vec<String> = Vec::new();
    let mut current_list = get_current_data_list(category, redis);
    let filter_redis_key = filter_key(main_category, category);
    let skip_redis_key = skip_key(main_category);
    let n = query_res.lines.len();
    let mut idx: usize = 0;
    while idx < n
        invariant
            idx <= n,
            n == query_res.lines@.len(),
            redis.wf(),
            *redis == *old(redis),
            data_list.deep_view() =~= spec_outputs(
                MainType::Item,
                lv.subrange(0, idx as int),
                allow,
                exempt,
                r0,
                threshold as int,
                now@,
            ),
        decreases n - idx,
    {
        let ghost prefix = lv.subrange(0, idx as int);
        let ghost curpfx = lv.subrange(0, idx + 1 as int);
        proof {
            assert(curpfx.drop_last() =~= prefix);
            assert(curpfx.last() == item_line_as_line(query_res.lines@[idx as int]@));
        }
        let line = &query_res.lines[idx];
        let existance = redis.exist_in_list(filter_redis_key.as_str(), line.name.as_str());
        let skip_filter = redis.exist_in_list(skip_redis_key.as_str(), category);
        let data = parse_data_line_to_datastore_item(league, line, redis, now);
        match existance {
            Ok(is_allowed) => {
                let is_exempted = match skip_filter {
                    Ok(skip) => skip,
                    Err(_) => false,
                };
                if should_retain(
                    MainType::Item,
                    is_allowed,
                    is_exempted,
                    data.chaos_equivalent,
                    threshold,
                ) {
                    if exist_in_list(&current_list, &data.name) {
                        pop_by_name(&mut current_list, &data.name);
                    }
                    let ghost outs_before = data_list.deep_view();
                    data_list.push(data.to_record_string());
                    proof {
                        assert(data_list.deep_view() =~= outs_before.push(spec_encode(data@)));
                    }
                }
            },
            Err(_) => {},
        }
        proof {
            assert(spec_ratio_after(MainType::Item, prefix, r0) == r0);
            assert(data_list.deep_view() =~= spec_outputs(
                MainType::Item,
                curpfx,
                allow,
                exempt,
                r0,
                threshold as int,
                now@,
            ));
        }
        idx += 1;
    }
    proof {
        assert(lv.subrange(0, n as int) =~= lv);
    }
    let ghost loop_end = *redis;
    let data_redis_key = data_key(main_category, category);
    let _ = redis.set_list_expire(data_redis_key.as_str(), &data_list, ttl);
    proof {
        let out = spec_outputs(MainType::Item, lv, allow, exempt, r0, threshold as int, now@);
        if out.len() == 0 {
            assert(final(redis).at_key(dkv) == absent_key_state());
        } else {
            assert(final(redis).at_key(dkv) =~= list_key_state(out, Some(ttl)));
        }
        assert forall|k2: Seq<char>| k2 != rkv && k2 != dkv implies #[trigger] final(redis).at_key(
            k2,
        ) == old(redis).at_key(k2) by {
            assert(final(redis).at_key(k2) == loop_end.at_key(k2));
        }
        assert(final(redis).at_key(rkv) == loop_end.at_key(rkv));
    }
}

} // verus!
