use ninja_probe::classify::get_query_type;
use ninja_probe::classify::MainType;
use ninja_probe::digest::get_format_output;
use ninja_probe::filter::add_data_filter;
use ninja_probe::filter::add_skip_check;
use ninja_probe::filter::should_retain;
use ninja_probe::filter::AddOutcome;
use ninja_probe::filter::DEFAULT_ITEM_THRESHOLD_MILLI;
use ninja_probe::filter::DEFAULT_TTL_SECONDS;
use ninja_probe::models::DataStore;
use ninja_probe::models::ItemLine;
use ninja_probe::models::ItemQueryResponse;
use ninja_probe::models::Line;
use ninja_probe::models::PaySparkLine;
use ninja_probe::models::QueryResponse;
use ninja_probe::models::ReceiveSparkLine;
use ninja_probe::models::SparkLine;
use ninja_probe::pipeline::get_current_data_list;
use ninja_probe::pipeline::write_to_redis;
use ninja_probe::pipeline::write_to_redis_item;
use ninja_probe::ratio::compute_divine_equivalent;
use ninja_probe::ratio::get_divine_to_chaos_ratio;
use ninja_probe::redis::RedisInstance;

fn currency_line(name: &str, chaos_milli: i64, pay: i64, recv: i64) -> Line {
    Line {
        currency_type_name: String::from(name),
        chaos_equivalent: chaos_milli,
        pay_spark_line: Some(PaySparkLine { total_change: pay }),
        receive_spark_line: Some(ReceiveSparkLine { total_change: recv }),
    }
}

fn item_line(name: &str, chaos_milli: i64) -> ItemLine {
    ItemLine {
        name: String::from(name),
        chaos_value: chaos_milli,
        divine_value: 0,
        sparkline: Some(SparkLine { total_change: 100 }),
    }
}

#[test]
fn classifier_mapping() {
    assert_eq!(get_query_type(String::from("Currency")), "Currency");
    assert_eq!(get_query_type(String::from("Fragment")), "Currency");
    assert_eq!(get_query_type(String::from("DivinationCard")), "Item");
    assert_eq!(get_query_type(String::from("")), "Item");
}

#[test]
fn allow_list_dominates() {
    // an allow-listed line is retained whatever the exemption or value
    assert!(should_retain(MainType::Item, true, false, 0, DEFAULT_ITEM_THRESHOLD_MILLI));
    assert!(should_retain(MainType::Item, true, true, 0, DEFAULT_ITEM_THRESHOLD_MILLI));
    assert!(should_retain(MainType::Currency, true, false, -5, DEFAULT_ITEM_THRESHOLD_MILLI));
}

#[test]
fn item_threshold_applies_to_exempted_items() {
    // at or below the threshold the line is dropped, above it is kept
    assert!(!should_retain(MainType::Item, false, true, 5_000, 10_000));
    assert!(!should_retain(MainType::Item, false, true, 10_000, 10_000));
    assert!(should_retain(MainType::Item, false, true, 10_001, 10_000));
    assert!(should_retain(MainType::Item, false, true, 15_000, 10_000));
}

#[test]
fn exempted_currency_has_no_floor() {
    assert!(should_retain(MainType::Currency, false, true, 0, 10_000));
    assert!(should_retain(MainType::Currency, false, true, 1, 10_000));
}

#[test]
fn unlisted_lines_are_dropped() {
    assert!(!should_retain(MainType::Currency, false, false, 1_000_000, 10_000));
    assert!(!should_retain(MainType::Item, false, false, 1_000_000, 10_000));
}

#[test]
fn scenario_allow_listed_line_survives() {
    // category "Currency": one allow-listed line and one stranger
    let mut store = RedisInstance::new("local");
    assert_eq!(add_data_filter(&mut store, "Currency", "Chaos Orb"), AddOutcome::Added);
    assert_eq!(
        add_data_filter(&mut store, "Currency", "Chaos Orb"),
        AddOutcome::AlreadyExists
    );
    let feed = QueryResponse {
        lines: vec![
            currency_line("Chaos Orb", 1_000, 10, 20),
            currency_line("Mirror of Kalandra", 500_000_000, 0, 0),
        ],
    };
    write_to_redis(
        "Affliction",
        "Currency",
        "Currency",
        &feed,
        &mut store,
        "t0",
        DEFAULT_TTL_SECONDS,
    );
    let stored = get_current_data_list("Currency", &mut store);
    assert_eq!(stored.len(), 1);
    assert_eq!(stored[0].name, "Chaos Orb");
    assert_eq!(stored[0].chaos_equivalent, 1_000);
    assert_eq!(stored[0].pay_total_change, 10);
    assert_eq!(stored[0].receive_total_change, 20);
    assert_eq!(stored[0].update_time, "t0");
}

#[test]
fn scenario_skip_exempted_item_category_keeps_only_expensive_lines() {
    // category "DivinationCard" is skip-exempted; 15.0 survives, 5.0 is
    // too cheap
    let mut store = RedisInstance::new("local");
    assert_eq!(
        add_skip_check(&mut store, "Item", "DivinationCard", DEFAULT_TTL_SECONDS),
        AddOutcome::Added
    );
    let feed = ItemQueryResponse {
        lines: vec![item_line("The Doctor", 15_000), item_line("Rain of Chaos", 5_000)],
    };
    write_to_redis_item(
        "Affliction",
        "Item",
        "DivinationCard",
        &feed,
        &mut store,
        "t0",
        DEFAULT_ITEM_THRESHOLD_MILLI,
        DEFAULT_TTL_SECONDS,
    );
    let stored = get_current_data_list("DivinationCard", &mut store);
    assert_eq!(stored.len(), 1);
    assert_eq!(stored[0].name, "The Doctor");
    assert_eq!(stored[0].chaos_equivalent, 15_000);
}

#[test]
fn scenario_failed_fetch_leaves_snapshot_alone() {
    // a timed-out fetch yields a response with no lines at all, and the
    // caller routes it away from the pipeline: the stale snapshot stays
    let mut store = RedisInstance::new("local");
    assert_eq!(add_data_filter(&mut store, "Currency", "Chaos Orb"), AddOutcome::Added);
    let feed = QueryResponse { lines: vec![currency_line("Chaos Orb", 1_000, 0, 0)] };
    write_to_redis("Affliction", "Currency", "Currency", &feed, &mut store, "t0", 3600);
    let before = get_current_data_list("Currency", &mut store);
    assert_eq!(before.len(), 1);
    let failed = ninja_probe::models::ApiResponse::empty();
    if let Some(currency_response) = &failed.currency_response {
        write_to_redis(
            "Affliction",
            "Currency",
            "Currency",
            currency_response,
            &mut store,
            "t1",
            3600,
        );
    }
    let after = get_current_data_list("Currency", &mut store);
    assert_eq!(after.len(), 1);
    assert_eq!(after[0].name, "Chaos Orb");
    assert_eq!(after[0].update_time, "t0");
}

#[test]
fn empty_refresh_replaces_the_snapshot_wholesale() {
    // a successful refresh that retains nothing clears the snapshot, for
    // currency and item categories alike
    let mut store = RedisInstance::new("local");
    assert_eq!(add_data_filter(&mut store, "Currency", "Chaos Orb"), AddOutcome::Added);
    let feed = QueryResponse { lines: vec![currency_line("Chaos Orb", 1_000, 0, 0)] };
    write_to_redis("Affliction", "Currency", "Currency", &feed, &mut store, "t0", 3600);
    assert_eq!(get_current_data_list("Currency", &mut store).len(), 1);
    let empty = QueryResponse::empty();
    write_to_redis("Affliction", "Currency", "Currency", &empty, &mut store, "t1", 3600);
    assert_eq!(get_current_data_list("Currency", &mut store).len(), 0);
    assert_eq!(store.key_exists("Currency:Currency").unwrap(), false);

    assert_eq!(add_data_filter(&mut store, "DivinationCard", "The Doctor"), AddOutcome::Added);
    let item_feed = ItemQueryResponse { lines: vec![item_line("The Doctor", 15_000)] };
    write_to_redis_item(
        "Affliction",
        "Item",
        "DivinationCard",
        &item_feed,
        &mut store,
        "t0",
        10_000,
        3600,
    );
    assert_eq!(get_current_data_list("DivinationCard", &mut store).len(), 1);
    let item_empty = ItemQueryResponse::empty();
    write_to_redis_item(
        "Affliction",
        "Item",
        "DivinationCard",
        &item_empty,
        &mut store,
        "t1",
        10_000,
        3600,
    );
    assert_eq!(get_current_data_list("DivinationCard", &mut store).len(), 0);
    assert_eq!(store.key_exists("Item:DivinationCard").unwrap(), false);
}

#[test]
fn pipeline_is_idempotent_once_the_ratio_settled() {
    let mut store = RedisInstance::new("local");
    assert_eq!(add_data_filter(&mut store, "Currency", "Divine Orb"), AddOutcome::Added);
    assert_eq!(add_data_filter(&mut store, "Currency", "Chaos Orb"), AddOutcome::Added);
    let feed = QueryResponse {
        lines: vec![
            currency_line("Chaos Orb", 1_000, 0, 0),
            currency_line("Divine Orb", 250_000, 0, 0),
        ],
    };
    // the first run moves the ratio from the sentinel to 250.000
    write_to_redis("Affliction", "Currency", "Currency", &feed, &mut store, "t0", 3600);
    // from then on, an unchanged feed writes the identical snapshot
    write_to_redis("Affliction", "Currency", "Currency", &feed, &mut store, "t0", 3600);
    let second: Vec<DataStore> = get_current_data_list("Currency", &mut store);
    write_to_redis("Affliction", "Currency", "Currency", &feed, &mut store, "t0", 3600);
    let third = get_current_data_list("Currency", &mut store);
    assert_eq!(second.len(), third.len());
    for (a, b) in second.iter().zip(third.iter()) {
        assert_eq!(a.name, b.name);
        assert_eq!(a.chaos_equivalent, b.chaos_equivalent);
        assert_eq!(a.divine_equivalent, b.divine_equivalent);
        assert_eq!(a.pay_total_change, b.pay_total_change);
        assert_eq!(a.receive_total_change, b.receive_total_change);
        assert_eq!(a.update_time, b.update_time);
    }
}

#[test]
fn ratio_is_tracked_and_applied() {
    let mut store = RedisInstance::new("local");
    assert_eq!(add_data_filter(&mut store, "Currency", "Divine Orb"), AddOutcome::Added);
    let feed = QueryResponse { lines: vec![currency_line("Divine Orb", 250_000, 0, 0)] };
    write_to_redis("Affliction", "Currency", "Currency", &feed, &mut store, "t0", 3600);
    assert_eq!(get_divine_to_chaos_ratio("Affliction", &mut store), 250_000);
    // a later line worth 500 chaos is worth 2 divine
    assert_eq!(add_data_filter(&mut store, "Fragment", "Timeless Emblem"), AddOutcome::Added);
    let feed2 = QueryResponse { lines: vec![currency_line("Timeless Emblem", 500_000, 0, 0)] };
    write_to_redis("Affliction", "Currency", "Fragment", &feed2, &mut store, "t1", 3600);
    let stored = get_current_data_list("Fragment", &mut store);
    assert_eq!(stored.len(), 1);
    assert_eq!(stored[0].divine_equivalent, 2_000);
    // the divine line itself was valued under the sentinel ratio in force
    // before it was recorded
    let first = get_current_data_list("Currency", &mut store);
    assert_eq!(first[0].divine_equivalent, 0);
}

#[test]
fn missing_ratio_reads_as_zero_sentinel() {
    let mut store = RedisInstance::new("local");
    assert_eq!(get_divine_to_chaos_ratio("Affliction", &mut store), 0);
    assert_eq!(compute_divine_equivalent(5_000, 0), 0);
    assert_eq!(compute_divine_equivalent(5_000, -3), 0);
    // a refresh without a ratio record derives the sentinel, not a panic
    let mut store = RedisInstance::new("local");
    assert_eq!(add_data_filter(&mut store, "Currency", "Chaos Orb"), AddOutcome::Added);
    let feed = QueryResponse { lines: vec![currency_line("Chaos Orb", 1_000, 0, 0)] };
    write_to_redis("Standard", "Currency", "Currency", &feed, &mut store, "t0", 3600);
    let stored = get_current_data_list("Currency", &mut store);
    assert_eq!(stored[0].divine_equivalent, 0);
}

#[test]
fn add_filter_on_wrong_kind_fails() {
    let mut store = RedisInstance::new("local");
    store.set("Currency:Currency:filter", "oops").unwrap();
    assert_eq!(add_data_filter(&mut store, "Currency", "Chaos Orb"), AddOutcome::Failed);
    store.set("Item:skip", "oops").unwrap();
    assert_eq!(
        add_skip_check(&mut store, "Item", "DivinationCard", DEFAULT_TTL_SECONDS),
        AddOutcome::Failed
    );
}

#[test]
fn digest_of_two_currency_categories() {
    // two categories under Currency, each with one stored line
    let mut store = RedisInstance::new("local");
    let a = DataStore::new(String::from("Chaos Orb"), 100_000, 0, 1_000, 2_000, String::from("t0"));
    let b = DataStore::new(String::from("Sacred Orb"), 50_000, 0, -500, 0, String::from("t0"));
    store
        .set_list_expire("Currency:Currency", &vec![a.to_record_string()], 3600)
        .unwrap();
    store
        .set_list_expire("Currency:Fragment", &vec![b.to_record_string()], 3600)
        .unwrap();
    let output = get_format_output(&mut store);
    let expected = String::new()
        + "# Currency\n"
        + "## Currency\n"
        + "| name | Chaos Equivalent | Pay Total Change | Receive Total Change |\n"
        + "| --- | --- | --- | --- |\n"
        + "| Chaos Orb | 100.000 | 1.000 | 2.000 |\n"
        + "## Fragment\n"
        + "| name | Chaos Equivalent | Pay Total Change | Receive Total Change |\n"
        + "| --- | --- | --- | --- |\n"
        + "| Sacred Orb | 50.000 | -0.500 | 0.000 |\n"
        + "# Item\n";
    assert_eq!(output, expected);
    assert_eq!(output.matches("## ").count(), 2);
}

#[test]
fn digest_renders_empty_categories_with_headers() {
    let mut store = RedisInstance::new("local");
    let output = get_format_output(&mut store);
    assert_eq!(output, "# Currency\n# Item\n");
}
