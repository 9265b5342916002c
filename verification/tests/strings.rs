use ninja_probe::init::seed_filters;
use ninja_probe::keys::{data_key, filter_key, ratio_key, skip_key};
use ninja_probe::models::DefaultData;
use ninja_probe::redis::RedisInstance;
use ninja_probe::strutil::{str_eq, str_split, str_starts_with};

#[test]
fn string_equality_and_prefixes() {
    assert!(str_eq("Divine Orb", "Divine Orb"));
    assert!(!str_eq("Divine Orb", "Divine orb"));
    assert!(!str_eq("abc", "abcd"));
    assert!(str_starts_with("Currency:Currency:filter", "Currency:"));
    assert!(!str_starts_with("Curr", "Currency:"));
    assert!(str_starts_with("anything", ""));
}

#[test]
fn splitting_on_colons() {
    assert_eq!(str_split("a:b:c", ':'), vec!["a", "b", "c"]);
    assert_eq!(str_split("abc", ':'), vec!["abc"]);
    assert_eq!(str_split("", ':'), vec![""]);
    assert_eq!(str_split(":a:", ':'), vec!["", "a", ""]);
}

#[test]
fn key_scheme() {
    assert_eq!(filter_key("Currency", "Fragment"), "Currency:Fragment:filter");
    assert_eq!(skip_key("Item"), "Item:skip");
    assert_eq!(data_key("Item", "DivinationCard"), "Item:DivinationCard");
    assert_eq!(ratio_key("Affliction"), "Affliction:D2C");
}

#[test]
fn seeding_duplicate_category_keeps_the_last_entry() {
    let mut store = RedisInstance::new("local");
    let entries = vec![
        DefaultData { name: String::from("Currency"), default: vec![String::from("Chaos Orb")] },
        DefaultData { name: String::from("Currency"), default: vec![String::from("Divine Orb")] },
    ];
    seed_filters(&mut store, "Currency", &entries, 3600);
    assert_eq!(store.get_list("Currency:Currency:filter").unwrap(), vec!["Divine Orb"]);
}
