use weather_stats::{CitiesWeather, CityEntry};

#[test]
fn test_city_entry() {
    let mut entry = CityEntry::new(20_000);
    assert_eq!(entry.min(), 20_000);
    assert_eq!(entry.max(), 20_000);
    assert_eq!(entry.avg(), 20_000);

    entry.update(10_000);
    assert_eq!(entry.min(), 10_000);
    assert_eq!(entry.max(), 20_000);
    assert_eq!(entry.avg(), 15_000);

    entry.update(30_000);
    assert_eq!(entry.min(), 10_000);
    assert_eq!(entry.max(), 30_000);
    assert_eq!(entry.avg(), 20_000);
}

#[test]
fn test_display_format() {
    let mut entry = CityEntry::new(20_500);
    entry.update(10_400);
    entry.update(30_600);
    assert_eq!(entry.to_string(), "10.4/30.6/20.5");
}

#[test]
fn test_cities_weather_with_unicode() {
    let mut cities = CitiesWeather::new();
    cities.add("Paris".to_string(), 20_000);
    cities.add("London".to_string(), 15_000);
    cities.add("Paris".to_string(), 25_000);
    cities.add("Óębłąk".to_string(), 25_000);

    let sorted = cities.into_slow_unicode_vec();
    assert_eq!(sorted.len(), 3);
    assert_eq!(sorted[0].0, "London");
    assert_eq!(sorted[1].0, "Óębłąk");
    assert_eq!(sorted[2].0, "Paris");
    assert_eq!(sorted[2].1.avg(), 22_500);
}

#[test]
fn test_cities_weather_with_ascii() {
    let mut cities = CitiesWeather::new();
    cities.add("Paris".to_string(), 20_000);
    cities.add("London".to_string(), 15_000);
    cities.add("Paris".to_string(), 25_000);
    cities.add("Óębłąk".to_string(), 25_000);

    let sorted = cities.into_sorted_ascii_vec();
    assert_eq!(sorted.len(), 3);
    assert_eq!(sorted[0].0, "London");
    assert_eq!(sorted[1].0, "Paris");
    assert_eq!(sorted[2].0, "Óębłąk");
    assert_eq!(sorted[1].1.avg(), 22_500);
}
