use chv::catalog::catalog_from_tags;
use chv::catalog::parse_tag;
use chv::catalog::Channel;

#[test]
fn parse_tag_stable() {
    let e = parse_tag("v25.12.5.44-stable").unwrap();
    assert_eq!(e.version, "25.12.5.44");
    assert_eq!(e.channel, Channel::Stable);
}

#[test]
fn parse_tag_lts() {
    let e = parse_tag("v24.8.10.6-lts").unwrap();
    assert_eq!(e.version, "24.8.10.6");
    assert_eq!(e.channel, Channel::Lts);
}

#[test]
fn parse_tag_rejects_unknown_channel() {
    assert!(parse_tag("v1.2.3.4-beta").is_none());
    assert!(parse_tag("v1.2.3.4").is_none());
}

#[test]
fn parse_tag_rejects_missing_marker() {
    assert!(parse_tag("25.12.5.44-stable").is_none());
    assert!(parse_tag("").is_none());
}

#[test]
fn catalog_sorted_newest_first_with_discards() {
    let tags = vec![
        "v25.8.1.1-lts".to_string(),
        "v26.0.0.1-nightly".to_string(),
        "v25.12.5.44-stable".to_string(),
        "junk".to_string(),
        "v25.12.1.1-stable".to_string(),
    ];
    let catalog = catalog_from_tags(&tags);
    let got: Vec<(&str, Channel)> = catalog
        .iter()
        .map(|e| (e.version.as_str(), e.channel))
        .collect();
    assert_eq!(
        got,
        vec![
            ("25.12.5.44", Channel::Stable),
            ("25.12.1.1", Channel::Stable),
            ("25.8.1.1", Channel::Lts),
        ]
    );
}

#[test]
fn catalog_keeps_fetch_order_on_equal_versions() {
    let tags = vec![
        "v25.1.1.1-lts".to_string(),
        "v25.1.1.1-stable".to_string(),
    ];
    let catalog = catalog_from_tags(&tags);
    assert_eq!(catalog.len(), 2);
    assert_eq!(catalog[0].channel, Channel::Lts);
    assert_eq!(catalog[1].channel, Channel::Stable);
}

#[test]
fn channel_names() {
    assert_eq!(Channel::Stable.as_str(), "stable");
    assert_eq!(Channel::Lts.as_str(), "lts");
}
