use core::cmp::Ordering;
use chv::version::compare_versions;
use chv::version::sort_versions_desc;

#[test]
fn compare_shorter_prefix_is_lesser() {
    assert_eq!(compare_versions("25.1.0.0", "25.1"), Ordering::Greater);
    assert_eq!(compare_versions("25.1", "25.1.0.0"), Ordering::Less);
}

#[test]
fn compare_is_numeric_not_lexicographic() {
    assert_eq!(compare_versions("25.2", "25.10"), Ordering::Less);
    assert_eq!(compare_versions("25.10", "25.2"), Ordering::Greater);
}

#[test]
fn compare_equal_versions() {
    assert_eq!(compare_versions("25.1.2.3", "25.1.2.3"), Ordering::Equal);
    assert_eq!(compare_versions("", ""), Ordering::Equal);
}

#[test]
fn compare_drops_non_numeric_components() {
    // "x" is not numeric and is treated as absent, not as an error.
    assert_eq!(compare_versions("25.x.1", "25.1"), Ordering::Equal);
    assert_eq!(compare_versions("a.b.c", ""), Ordering::Equal);
    assert_eq!(compare_versions("25.x.2", "25.1"), Ordering::Greater);
}

#[test]
fn compare_drops_overflowing_components() {
    // A component too large for an unsigned 64-bit value fails to parse
    // and is dropped like any other non-numeric piece.
    assert_eq!(
        compare_versions("25.99999999999999999999", "25"),
        Ordering::Equal
    );
    assert_eq!(
        compare_versions("25.18446744073709551615", "25"),
        Ordering::Greater
    );
}

#[test]
fn compare_accepts_leading_plus() {
    assert_eq!(compare_versions("+25.1", "25.1"), Ordering::Equal);
}

#[test]
fn sort_versions_newest_first() {
    let v = vec![
        "25.8.1.1".to_string(),
        "25.12.5.44".to_string(),
        "24.3.9.9".to_string(),
        "25.12.1.1".to_string(),
    ];
    let sorted = sort_versions_desc(v);
    let got: Vec<&str> = sorted.iter().map(|s| s.as_str()).collect();
    assert_eq!(got, vec!["25.12.5.44", "25.12.1.1", "25.8.1.1", "24.3.9.9"]);
}
