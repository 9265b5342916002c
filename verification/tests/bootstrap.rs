use ninja_probe::clock::refresh_currency_now;
use ninja_probe::init::record_ratio_from_lines;
use ninja_probe::init::seed_filter_list;
use ninja_probe::init::seed_filters;
use ninja_probe::init::seed_skip_list;
use ninja_probe::job_handler::get_the_refresh_key_map;
use ninja_probe::models::DefaultData;
use ninja_probe::models::InitData;
use ninja_probe::models::Line;
use ninja_probe::models::QueryParams;
use ninja_probe::models::QueryResponse;
use ninja_probe::pipeline::get_current_data_list;
use ninja_probe::pipeline::get_redis_instance;
use ninja_probe::ratio::get_divine_to_chaos_ratio;
use ninja_probe::redis::RedisInstance;

#[test]
fn test_get_the_refresh_key_map() {
    let mut redis_instance = get_redis_instance();
    let refresh_key_map = get_the_refresh_key_map(&mut redis_instance);
    println!("{:?}", refresh_key_map);
}

#[test]
fn refresh_key_map_discovers_tracked_datasets() {
    let mut store = RedisInstance::new("local");
    // two tracked currency snapshots, one tracked item snapshot
    store.set("Currency:Currency", "x").unwrap();
    store.set("Currency:Fragment", "y").unwrap();
    store.set("Item:DivinationCard", "z").unwrap();
    // allow-list and skip-list keys are not datasets and must be left out
    store.push_list("Currency:Currency:filter", "Chaos Orb").unwrap();
    store.push_list("Item:skip", "DivinationCard").unwrap();
    let map = get_the_refresh_key_map(&mut store);
    assert_eq!(map.len(), 2);
    assert_eq!(map[0].0, "Currency");
    assert_eq!(map[0].1, vec!["Currency", "Fragment"]);
    assert_eq!(map[1].0, "Item");
    assert_eq!(map[1].1, vec!["DivinationCard"]);
}

#[test]
fn seeding_installs_defaults_and_skip_list() {
    let mut store = RedisInstance::new("local");
    seed_filter_list(
        &mut store,
        "Currency",
        "Currency",
        &vec![String::from("Chaos Orb"), String::from("Divine Orb")],
        3600,
    );
    assert_eq!(
        store.get_list("Currency:Currency:filter").unwrap(),
        vec!["Chaos Orb", "Divine Orb"]
    );
    // a second seeding replaces the list instead of appending
    seed_filter_list(&mut store, "Currency", "Currency", &vec![String::from("Chaos Orb")], 3600);
    assert_eq!(store.get_list("Currency:Currency:filter").unwrap(), vec!["Chaos Orb"]);
    // seeding with no defaults clears the key
    seed_filter_list(&mut store, "Currency", "Currency", &Vec::new(), 3600);
    assert_eq!(store.key_exists("Currency:Currency:filter").unwrap(), false);

    let entries = vec![
        DefaultData { name: String::from("DivinationCard"), default: vec![String::from("The Doctor")] },
        DefaultData { name: String::from("UniqueWeapon"), default: vec![String::from("Starforge")] },
    ];
    seed_filters(&mut store, "Item", &entries, 3600);
    assert_eq!(store.get_list("Item:DivinationCard:filter").unwrap(), vec!["The Doctor"]);
    assert_eq!(store.get_list("Item:UniqueWeapon:filter").unwrap(), vec!["Starforge"]);

    seed_skip_list(
        &mut store,
        "Item",
        &vec![String::from("DivinationCard"), String::from("UniqueWeapon")],
        3600,
    );
    assert_eq!(store.exist_in_list("Item:skip", "DivinationCard").unwrap(), true);
    assert_eq!(store.exist_in_list("Item:skip", "Oil").unwrap(), false);
}

#[test]
fn initial_ratio_comes_from_the_last_reference_line() {
    let mut store = RedisInstance::new("local");
    let lines = vec![
        Line {
            currency_type_name: String::from("Divine Orb"),
            chaos_equivalent: 200_000,
            pay_spark_line: None,
            receive_spark_line: None,
        },
        Line {
            currency_type_name: String::from("Chaos Orb"),
            chaos_equivalent: 1_000,
            pay_spark_line: None,
            receive_spark_line: None,
        },
        Line {
            currency_type_name: String::from("Divine Orb"),
            chaos_equivalent: 250_000,
            pay_spark_line: None,
            receive_spark_line: None,
        },
    ];
    record_ratio_from_lines(&mut store, "Affliction", &lines, "t0", 3600);
    assert_eq!(get_divine_to_chaos_ratio("Affliction", &mut store), 250_000);
    assert_eq!(store.get_hash("Affliction:D2C", "update_time").unwrap(), "t0");
    // a feed without the reference currency writes nothing
    let mut fresh = RedisInstance::new("local");
    record_ratio_from_lines(&mut fresh, "Affliction", &Vec::new(), "t0", 3600);
    assert_eq!(fresh.key_exists("Affliction:D2C").unwrap(), false);
}

#[test]
fn refresh_with_wall_clock_time_stamps_records() {
    let mut store = RedisInstance::new("local");
    seed_filter_list(&mut store, "Currency", "Currency", &vec![String::from("Chaos Orb")], 3600);
    let feed = QueryResponse {
        lines: vec![
            Line {
                currency_type_name: String::from("Chaos Orb"),
                chaos_equivalent: 1_000,
                pay_spark_line: None,
                receive_spark_line: None,
            },
        ],
    };
    refresh_currency_now("Affliction", "Currency", &feed, &mut store, 3600);
    let stored = get_current_data_list("Currency", &mut store);
    assert_eq!(stored.len(), 1);
    assert_eq!(stored[0].name, "Chaos Orb");
    // absent trends read as zero
    assert_eq!(stored[0].pay_total_change, 0);
    assert_eq!(stored[0].receive_total_change, 0);
    // the record carries a timestamp from the wall clock
    assert!(stored[0].update_time.len() > 0);
}

#[test]
fn model_carriers_hold_their_values() {
    let params = QueryParams::new(String::from("Affliction"), String::from("Currency"));
    assert_eq!(params.league, "Affliction");
    assert_eq!(params.category, "Currency");
    let init = InitData { league: String::from("Affliction"), currency: Vec::new(), item: Vec::new() };
    assert_eq!(init.get_league(), "Affliction");
}
