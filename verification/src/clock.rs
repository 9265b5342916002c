//! Wall-clock timestamps for the refresh pipeline. The clock itself is
//! outside the verified world; the refresh entry points here stamp the
//! records with whatever time the clock hands back, and everything else
//! about the refresh is pinned for every possible timestamp.
use vstd::prelude::*;

use crate::classify::get_query_type;
use crate::classify::spec_query_type;
use crate::classify::MainType;
use crate::keys::spec_data_key;
use crate::keys::spec_ratio_key;
use crate::models::item_lines_view;
use crate::models::lines_view;
use crate::models::ItemQueryResponse;
use crate::models::QueryResponse;
use crate::pipeline::spec_lines_wf;
use crate::pipeline::spec_refresh_rel;
use crate::pipeline::write_to_redis;
use crate::pipeline::write_to_redis_item;
use crate::redis::RedisInstance;

verus! {

/// Relies on std::time::SystemTime::now, converted through chrono's
/// `From<SystemTime>` for `DateTime<Utc>` — which handles a clock set
/// before the Unix epoch without panicking — and rendered through
/// chrono's Display: the current wall-clock time as text. Nothing is
/// promised of it.
#[verifier::external_body]
fn now_utc_string() -> (r: String) {
    chrono::DateTime::<chrono::Utc>::from(std::time::SystemTime::now()).to_string()
}

/// Refresh a currency category, stamping the records with the current
/// wall-clock time: the refresh relation holds for some timestamp.
pub fn refresh_currency_now(
    league: &str,
    category: &str,
    query_res: &QueryResponse,
    redis: &mut RedisInstance,
    ttl: i64,
)
    requires
        old(redis).wf(),
        spec_ratio_key(league@) != spec_data_key(spec_query_type(category@), category@),
        spec_lines_wf(lines_view(query_res.lines@)),
    ensures
        exists|t: Seq<char>|
            #[trigger] spec_refresh_rel(
                MainType::Currency,
                *old(redis),
                *final(redis),
                league@,
                spec_query_type(category@),
                category@,
                lines_view(query_res.lines@),
                t,
                0,
                ttl,
            ),
{
    let now = now_utc_string();
    let main_category = get_query_type(String::from_str(category));
    write_to_redis(league, main_category.as_str(), category, query_res, redis, now.as_str(), ttl);
    proof {
        assert(spec_refresh_rel(
            MainType::Currency,
            *old(redis),
            *final(redis),
            league@,
            spec_query_type(category@),
            category@,
            lines_view(query_res.lines@),
            now@,
            0,
            ttl,
        ));
    }
}

/// Refresh an item category, stamping the records with the current
/// wall-clock time: the refresh relation holds for some timestamp.
pub fn refresh_item_now(
    league: &str,
    category: &str,
    query_res: &ItemQueryResponse,
    redis: &mut RedisInstance,
    threshold: i64,
    ttl: i64,
)
    requires
        old(redis).wf(),
        spec_ratio_key(league@) != spec_data_key(spec_query_type(category@), category@),
        spec_lines_wf(item_lines_view(query_res.lines@)),
    ensures
        exists|t: Seq<char>|
            #[trigger] spec_refresh_rel(
                MainType::Item,
                *old(redis),
                *final(redis),
                league@,
                spec_query_type(category@),
                category@,
                item_lines_view(query_res.lines@),
                t,
                threshold as int,
                ttl,
            ),
{
    let now = now_utc_string();
    let main_category = get_query_type(String::from_str(category));
    write_to_redis_item(
        league,
        main_category.as_str(),
        category,
        query_res,
        redis,
        now.as_str(),
        threshold,
        ttl,
    );
    proof {
        assert(spec_refresh_rel(
            MainType::Item,
            *old(redis),
            *final(redis),
            league@,
            spec_query_type(category@),
            category@,
            item_lines_view(query_res.lines@),
            now@,
            threshold as int,
            ttl,
        ));
    }
}

} // verus!
