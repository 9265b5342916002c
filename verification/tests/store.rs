use ninja_probe::redis::RedisInstance;
use ninja_probe::redis::StoreError;

#[test]
fn test_redis() {
    let mut redis_instance = RedisInstance::new("local");
    let key = "test";
    let _value = "test";
    let res = redis_instance.set_list_expire(
        key,
        &vec![String::from("test1"), String::from("test2")],
        60,
    );
    assert_eq!(res.is_ok(), true);
    let res = redis_instance.get_list(key);
    println!("{:?}", res.ok());
    let res = redis_instance.get_all_keys("Currency:*");
    println!("{:?}", res.ok());
    let res = redis_instance.get_all_keys_name("Data:*");
    println!("{:?}", res.ok());
}

#[test]
fn string_round_trip() {
    let mut store = RedisInstance::new("local");
    assert!(store.set("alpha", "one").is_ok());
    assert_eq!(store.get("alpha").unwrap(), "one");
    assert!(store.set("alpha", "two").is_ok());
    assert_eq!(store.get("alpha").unwrap(), "two");
    assert_eq!(store.key_exists("alpha").unwrap(), true);
    assert!(store.delete("alpha").is_ok());
    assert_eq!(store.key_exists("alpha").unwrap(), false);
    assert_eq!(store.get("alpha"), Err(StoreError::Absent));
}

#[test]
fn get_on_missing_key_is_absent() {
    let mut store = RedisInstance::new("local");
    assert_eq!(store.get("nothing"), Err(StoreError::Absent));
}

#[test]
fn get_on_list_key_is_wrong_kind() {
    let mut store = RedisInstance::new("local");
    store.push_list("l", "x").unwrap();
    assert_eq!(store.get("l"), Err(StoreError::WrongKind));
}

#[test]
fn empty_list_write_is_refused() {
    let mut store = RedisInstance::new("local");
    let empty: Vec<String> = Vec::new();
    assert_eq!(store.set_list("l", &empty), Err(StoreError::Empty));
    assert_eq!(store.key_exists("l").unwrap(), false);
}

#[test]
fn list_operations() {
    let mut store = RedisInstance::new("local");
    store.push_list("l", "a").unwrap();
    store.push_list("l", "b").unwrap();
    store.push_list("l", "a").unwrap();
    assert_eq!(store.get_list("l").unwrap(), vec!["a", "b", "a"]);
    assert_eq!(store.exist_in_list("l", "b").unwrap(), true);
    assert_eq!(store.exist_in_list("l", "c").unwrap(), false);
    // removal takes every occurrence
    store.remove_list("l", "a").unwrap();
    assert_eq!(store.get_list("l").unwrap(), vec!["b"]);
    // removing the last element drops the key itself
    store.remove_list("l", "b").unwrap();
    assert_eq!(store.key_exists("l").unwrap(), false);
    // reading an absent list yields the empty list
    assert_eq!(store.get_list("l").unwrap(), Vec::<String>::new());
    // a list read through a string key is refused
    store.set("s", "v").unwrap();
    assert_eq!(store.get_list("s"), Err(StoreError::WrongKind));
    // membership in a non-list reads as false, as the callers expect
    assert_eq!(store.exist_in_list("s", "v").unwrap(), false);
}

#[test]
fn hash_operations() {
    let mut store = RedisInstance::new("local");
    store.push_hash_expire("h", "ratio", "150", 3600).unwrap();
    store.push_hash_expire("h", "update_time", "t0", 3600).unwrap();
    assert_eq!(store.get_hash("h", "ratio").unwrap(), "150");
    assert_eq!(store.get_hash("h", "update_time").unwrap(), "t0");
    assert_eq!(store.get_hash("h", "other"), Err(StoreError::Absent));
    // a second write replaces the field
    store.push_hash_expire("h", "ratio", "200", 3600).unwrap();
    assert_eq!(store.get_hash("h", "ratio").unwrap(), "200");
    // removing one field keeps the other
    store.remove_hash("h", "ratio").unwrap();
    assert_eq!(store.get_hash("h", "ratio"), Err(StoreError::Absent));
    assert_eq!(store.get_hash("h", "update_time").unwrap(), "t0");
    // removing the last field drops the key
    store.remove_hash("h", "update_time").unwrap();
    assert_eq!(store.key_exists("h").unwrap(), false);
    // a hash write on a string key is refused
    store.set("s", "v").unwrap();
    assert_eq!(
        store.push_hash_expire("s", "f", "v", 60),
        Err(StoreError::WrongKind)
    );
}

#[test]
fn key_enumeration_by_prefix() {
    let mut store = RedisInstance::new("local");
    store.set("Currency:Currency", "a").unwrap();
    store.set("Currency:Fragment", "b").unwrap();
    store.set("Item:DivinationCard", "c").unwrap();
    let keys = store.get_all_keys("Currency:*").unwrap();
    assert_eq!(keys, vec!["Currency:Currency", "Currency:Fragment"]);
    // an exact pattern matches only itself
    let keys = store.get_all_keys("Item:DivinationCard").unwrap();
    assert_eq!(keys, vec!["Item:DivinationCard"]);
    // names are the segment at the pattern's own depth
    let names = store.get_all_keys_name("Currency:*").unwrap();
    assert_eq!(names, vec!["Currency", "Fragment"]);
    // keys with fewer segments than the pattern are skipped
    store.set("Currency", "d").unwrap();
    let names = store.get_all_keys_name("Currency:*").unwrap();
    assert_eq!(names, vec!["Currency", "Fragment"]);
}

#[test]
fn list_replace_semantics() {
    // the values-with-ttl list write replaces wholesale
    let mut store = RedisInstance::new("local");
    store.set_list_expire("l", &vec![String::from("a"), String::from("b")], 60).unwrap();
    assert_eq!(store.get_list("l").unwrap(), vec!["a", "b"]);
    store.set_list_expire("l", &vec![String::from("c")], 60).unwrap();
    assert_eq!(store.get_list("l").unwrap(), vec!["c"]);
    // replacing with nothing leaves the key absent
    store.set_list_expire("l", &Vec::new(), 60).unwrap();
    assert_eq!(store.key_exists("l").unwrap(), false);
    // a previous value of another kind is dropped too
    store.set("s", "v").unwrap();
    store.set_list_expire("s", &vec![String::from("x")], 60).unwrap();
    assert_eq!(store.get_list("s").unwrap(), vec!["x"]);
}

#[test]
fn set_with_expire_records_ttl_and_set_clears_it() {
    let mut store = RedisInstance::new("local");
    store.set_with_expire("k", "v", 60).unwrap();
    assert_eq!(store.get("k").unwrap(), "v");
    store.set("k", "w").unwrap();
    assert_eq!(store.get("k").unwrap(), "w");
    // a later expire on a missing key does nothing and still succeeds
    assert!(store.set_expire("missing", 60).is_ok());
    assert_eq!(store.key_exists("missing").unwrap(), false);
}
