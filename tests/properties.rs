use weather_stats::{parse_measurement, CitiesWeather, CityEntry};

fn keys(v: &[(String, CityEntry)]) -> Vec<&str> {
    v.iter().map(|(k, _)| k.as_str()).collect()
}

#[test]
fn mean_lies_between_extremes() {
    let mut e = CityEntry::new(-5_250);
    for v in [7_125, -40_000, 0, 13, 99_999] {
        e.update(v);
        assert!(e.min() <= e.avg() && e.avg() <= e.max());
    }
    assert_eq!(e.min(), -40_000);
    assert_eq!(e.max(), 99_999);
}

#[test]
fn single_observation_is_its_own_summary() {
    let e = CityEntry::new(-12_345);
    assert_eq!(e.avg(), -12_345);
    assert_eq!(e.min(), -12_345);
    assert_eq!(e.max(), -12_345);
    assert_eq!(e.count(), 1);
}

#[test]
fn mean_is_sum_over_count_rounded() {
    let mut e = CityEntry::new(1);
    e.update(2);
    assert_eq!(e.count(), 2);
    assert_eq!(e.avg(), 2);
    let mut n = CityEntry::new(-1);
    n.update(-2);
    assert_eq!(n.avg(), -2);
    let mut t = CityEntry::new(10_000);
    t.update(10_000);
    t.update(10_001);
    assert_eq!(t.count(), 3);
    assert_eq!(t.avg(), 10_000);
}

#[test]
fn extreme_values_do_not_overflow() {
    let mut e = CityEntry::new(i64::MAX);
    e.update(i64::MAX);
    e.update(i64::MIN);
    assert_eq!(e.min(), i64::MIN);
    assert_eq!(e.max(), i64::MAX);
    assert_eq!(e.avg(), 3_074_457_345_618_258_602);
    assert_eq!(e.display_triplet(), (-92_233_720_368_547_758, 92_233_720_368_547_758, 30_744_573_456_182_586));
}

#[test]
fn rounding_to_tenths_is_idempotent_and_symmetric() {
    assert_eq!(CityEntry::new(20_000).display_triplet(), (200, 200, 200));
    assert_eq!(CityEntry::new(20_050).display_triplet(), (201, 201, 201));
    assert_eq!(CityEntry::new(20_100).display_triplet(), (201, 201, 201));
    assert_eq!(CityEntry::new(-20_050).display_triplet(), (-201, -201, -201));
    assert_eq!(CityEntry::new(20_049).display_triplet(), (200, 200, 200));
    assert_eq!(CityEntry::new(-20_049).to_string(), "-20.0/-20.0/-20.0");
    assert_eq!(CityEntry::new(-50).to_string(), "-0.1/-0.1/-0.1");
    assert_eq!(CityEntry::new(5).to_string(), "0.0/0.0/0.0");
}

#[test]
fn table_has_one_entry_per_distinct_key() {
    let mut t = CitiesWeather::new();
    let adds = [("a", 1_000), ("b", 2_000), ("a", -3_000), ("A", 4_000), ("a ", 5_000), ("b", 6_000)];
    for (k, v) in adds {
        t.add(k.to_string(), v);
    }
    let out = t.into_sorted_ascii_vec();
    assert_eq!(keys(&out), vec!["A", "a", "a ", "b"]);
    let a = &out[1].1;
    let mut lone = CityEntry::new(1_000);
    lone.update(-3_000);
    assert_eq!((a.min(), a.max(), a.avg(), a.count()), (lone.min(), lone.max(), lone.avg(), lone.count()));
    assert_eq!(out[3].1.count(), 2);
    assert_eq!(out[3].1.avg(), 4_000);
}

#[test]
fn empty_table_drains_to_nothing() {
    assert!(CitiesWeather::new().into_sorted_ascii_vec().is_empty());
    assert!(CitiesWeather::new().into_slow_unicode_vec().is_empty());
}

#[test]
fn byte_order_puts_uppercase_first() {
    let mut t = CitiesWeather::new();
    for k in ["Banana", "Apple", "apple"] {
        t.add(k.to_string(), 0);
    }
    assert_eq!(keys(&t.into_sorted_ascii_vec()), vec!["Apple", "Banana", "apple"]);
}

#[test]
fn collation_places_accented_letter_near_its_base() {
    let mut bytes = CitiesWeather::new();
    let mut coll = CitiesWeather::new();
    for k in ["Paris", "London", "Óębłąk"] {
        bytes.add(k.to_string(), 0);
        coll.add(k.to_string(), 0);
    }
    assert_eq!(keys(&coll.into_slow_unicode_vec()), vec!["London", "Óębłąk", "Paris"]);
    assert_eq!(keys(&bytes.into_sorted_ascii_vec()), vec!["London", "Paris", "Óębłąk"]);
}

#[test]
fn end_to_end_summary() {
    let mut t = CitiesWeather::new();
    for line in ["Paris;20.0", "London;15.0", "Paris;25.0", "Óębłąk;25.0", "Tokyo;abc;extra"] {
        let parts: Vec<&str> = line.split(';').collect();
        if parts.len() == 2 {
            if let Some(v) = parse_measurement(parts[1].trim()) {
                t.add(parts[0].to_string(), v);
            }
        }
    }
    let out = t.into_slow_unicode_vec();
    assert_eq!(out.len(), 3);
    let p = &out[2].1;
    assert_eq!((p.min(), p.max(), p.avg(), p.count()), (20_000, 25_000, 22_500, 2));
    let text: Vec<String> = out.iter().map(|(k, e)| format!("{}={}", k, e.to_string())).collect();
    assert_eq!(
        format!("{{{}}}", text.join(", ")),
        "{London=15.0/15.0/15.0, Óębłąk=25.0/25.0/25.0, Paris=20.0/25.0/22.5}"
    );
}

#[test]
fn malformed_value_is_rejected() {
    assert_eq!(parse_measurement("abc"), None);
    assert_eq!(parse_measurement("abc;extra"), None);
    let mut t = CitiesWeather::new();
    t.add("Paris".to_string(), 1_000);
    if let Some(v) = parse_measurement("abc") {
        t.add("Tokyo".to_string(), v);
    }
    assert_eq!(keys(&t.into_sorted_ascii_vec()), vec!["Paris"]);
}

#[test]
fn parse_measurement_accepts_decimals() {
    assert_eq!(parse_measurement("20.05"), Some(20_050));
    assert_eq!(parse_measurement("-3.5"), Some(-3_500));
    assert_eq!(parse_measurement("+1"), Some(1_000));
    assert_eq!(parse_measurement("20."), Some(20_000));
    assert_eq!(parse_measurement(".5"), Some(500));
    assert_eq!(parse_measurement("007.125"), Some(7_125));
    assert_eq!(parse_measurement("9223372036854775.807"), Some(i64::MAX));
    assert_eq!(parse_measurement("-9223372036854775.808"), Some(i64::MIN));
}

#[test]
fn parse_measurement_rejects_other_text() {
    for s in ["", "-", ".", "-.", "1.2345", "1e3", "NaN", "inf", "1,5", " 1", "1.2.3", "9223372036854775.808", "99999999999999999999"] {
        assert_eq!(parse_measurement(s), None, "{s}");
    }
}

#[test]
fn get_reports_each_key_accumulator() {
    let mut t = CitiesWeather::new();
    t.add("Paris".to_string(), 20_000);
    t.add("Paris".to_string(), 25_000);
    assert!(t.get(&"Tokyo".to_string()).is_none());
    let p = t.get(&"Paris".to_string()).unwrap();
    assert_eq!((p.min(), p.max(), p.avg(), p.count()), (20_000, 25_000, 22_500, 2));
}
