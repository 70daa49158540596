use event_sphere_backend::date::Date;

#[test]
fn new_stores_fields_in_order() {
    let d = Date::new(7, 3, 2024);
    assert_eq!(d.day, 7);
    assert_eq!(d.month, 3);
    assert_eq!(d.year, 2024);
}

#[test]
fn parses_well_formed_date() {
    let d = Date::from_string("01-02-2024").unwrap();
    assert_eq!(d.day, 1);
    assert_eq!(d.month, 2);
    assert_eq!(d.year, 2024);
}

#[test]
fn parses_date_without_leading_zeros() {
    let d = Date::from_string("9-12-99").unwrap();
    assert_eq!(d.day, 9);
    assert_eq!(d.month, 12);
    assert_eq!(d.year, 99);
}

#[test]
fn parses_largest_u32_segment() {
    let d = Date::from_string("4294967295-1-1").unwrap();
    assert_eq!(d.day, u32::MAX);
}

#[test]
fn rejects_segment_past_u32_range() {
    assert!(Date::from_string("4294967296-1-1").is_none());
}

#[test]
fn rejects_missing_segment() {
    assert!(Date::from_string("01-02").is_none());
}

#[test]
fn rejects_extra_segment() {
    assert!(Date::from_string("1-2-3-4").is_none());
}

#[test]
fn rejects_empty_string() {
    assert!(Date::from_string("").is_none());
}

#[test]
fn rejects_empty_segment() {
    assert!(Date::from_string("01--2024").is_none());
    assert!(Date::from_string("-1-2024").is_none());
    assert!(Date::from_string("01-2-").is_none());
}

#[test]
fn rejects_non_digit_characters() {
    assert!(Date::from_string("a1-02-2024").is_none());
    assert!(Date::from_string("01-02-20x4").is_none());
    assert!(Date::from_string("01 -02-2024").is_none());
}
