use ninja_probe::models::DataStore;
use ninja_probe::numbers::i64_to_string;
use ninja_probe::numbers::milli_to_string;
use ninja_probe::numbers::parse_i64;
use ninja_probe::numbers::parse_len;
use ninja_probe::numbers::u64_to_string;
use ninja_probe::record::from_record_string;

#[test]
fn decimal_rendering() {
    assert_eq!(u64_to_string(0), "0");
    assert_eq!(u64_to_string(105), "105");
    assert_eq!(u64_to_string(u64::MAX), "18446744073709551615");
    assert_eq!(i64_to_string(0), "0");
    assert_eq!(i64_to_string(-5), "-5");
    assert_eq!(i64_to_string(i64::MIN), "-9223372036854775808");
    assert_eq!(i64_to_string(i64::MAX), "9223372036854775807");
}

#[test]
fn decimal_parsing() {
    assert_eq!(parse_i64("0"), Some(0));
    assert_eq!(parse_i64("-5"), Some(-5));
    assert_eq!(parse_i64("152500"), Some(152500));
    assert_eq!(parse_i64("-9223372036854775808"), Some(i64::MIN));
    assert_eq!(parse_i64("9223372036854775807"), Some(i64::MAX));
    assert_eq!(parse_i64("9223372036854775808"), None);
    assert_eq!(parse_i64(""), None);
    assert_eq!(parse_i64("-"), None);
    assert_eq!(parse_i64("12x"), None);
    assert_eq!(parse_i64("1 2"), None);
    assert_eq!(parse_len("42"), Some(42));
    assert_eq!(parse_len(""), None);
    assert_eq!(parse_len("-1"), None);
}

#[test]
fn parse_inverts_rendering() {
    for v in [0i64, 1, -1, 9, 10, -10, 152500, -3_000_000, i64::MIN, i64::MAX] {
        assert_eq!(parse_i64(i64_to_string(v).as_str()), Some(v));
    }
}

#[test]
fn milli_rendering() {
    assert_eq!(milli_to_string(15000), "15.000");
    assert_eq!(milli_to_string(152500), "152.500");
    assert_eq!(milli_to_string(0), "0.000");
    assert_eq!(milli_to_string(50), "0.050");
    assert_eq!(milli_to_string(5), "0.005");
    assert_eq!(milli_to_string(-1500), "-1.500");
}

#[test]
fn record_round_trip() {
    let d = DataStore::new(
        String::from("Chaos Orb"),
        152500,
        1000,
        -2500,
        300,
        String::from("2024-01-01 00:00:00 UTC"),
    );
    let s = d.to_record_string();
    assert_eq!(s, "9:Chaos Orb|152500|1000|-2500|300|2024-01-01 00:00:00 UTC");
    let back = from_record_string(s.as_str()).unwrap();
    assert_eq!(back.name, "Chaos Orb");
    assert_eq!(back.chaos_equivalent, 152500);
    assert_eq!(back.divine_equivalent, 1000);
    assert_eq!(back.pay_total_change, -2500);
    assert_eq!(back.receive_total_change, 300);
    assert_eq!(back.update_time, "2024-01-01 00:00:00 UTC");
}

#[test]
fn record_round_trip_with_separators_in_name() {
    let d = DataStore::new(
        String::from("odd|name:with|separators"),
        1,
        2,
        3,
        4,
        String::from("t|0"),
    );
    let s = d.to_record_string();
    let back = from_record_string(s.as_str()).unwrap();
    assert_eq!(back.name, "odd|name:with|separators");
    assert_eq!(back.update_time, "t|0");
    assert_eq!(back.chaos_equivalent, 1);
}

#[test]
fn corrupt_records_are_rejected() {
    assert_eq!(from_record_string("").is_none(), true);
    assert_eq!(from_record_string("junk").is_none(), true);
    assert_eq!(from_record_string("3:abc").is_none(), true);
    assert_eq!(from_record_string("3:abc|1|2|3").is_none(), true);
    assert_eq!(from_record_string("9:short|1|2|3|4|t").is_none(), true);
    assert_eq!(from_record_string("2:ab|x|2|3|4|t").is_none(), true);
}
