use chv::catalog::Channel;
use chv::catalog::ReleaseEntry;
use chv::error::Error;
use chv::resolve::build_download_url;
use chv::resolve::detect_platform;
use chv::resolve::resolve_version;

fn entry(version: &str, channel: Channel) -> ReleaseEntry {
    ReleaseEntry {
        version: version.to_string(),
        channel,
    }
}

#[test]
fn test_detect_platform() {
    let result = detect_platform("linux", "x86_64");
    assert!(result.is_ok());
    let (os, arch) = result.unwrap();
    assert!(os == "macos" || os == "linux");
    assert!(arch == "x86_64" || arch == "aarch64");
}

#[test]
fn detect_platform_rejects_unknown() {
    let r = detect_platform("windows", "x86_64");
    match r {
        Err(Error::UnsupportedPlatform { os, arch }) => {
            assert_eq!(os, "windows");
            assert_eq!(arch, "x86_64");
        }
        _ => panic!("expected an unsupported-platform failure"),
    }
    assert!(detect_platform("linux", "riscv64").is_err());
}

#[test]
fn test_build_download_url_stable() {
    let url = build_download_url("25.12.5.44", "stable", "linux", "x86_64").unwrap();
    assert!(url.starts_with("https://github.com/ClickHouse/ClickHouse/releases/download/"));
    assert!(url.contains("v25.12.5.44-stable"));
}

#[test]
fn test_build_download_url_lts() {
    let url = build_download_url("25.8.16.34", "lts", "macos", "aarch64").unwrap();
    assert!(url.starts_with("https://github.com/ClickHouse/ClickHouse/releases/download/"));
    assert!(url.contains("v25.8.16.34-lts"));
}

#[test]
fn build_download_url_exact_text() {
    let url = build_download_url("25.12.5.44", "stable", "linux", "x86_64").unwrap();
    assert_eq!(
        url,
        "https://github.com/ClickHouse/ClickHouse/releases/download/v25.12.5.44-stable/clickhouse-linux-x86_64"
    );
}

#[test]
fn resolve_exact_version_takes_catalog_channel() {
    let catalog = vec![
        entry("25.12.5.44", Channel::Stable),
        entry("25.8.16.34", Channel::Lts),
    ];
    let e = resolve_version("25.8.16.34", &catalog).unwrap();
    assert_eq!(e.version, "25.8.16.34");
    assert_eq!(e.channel, Channel::Lts);
}

#[test]
fn resolve_exact_version_absent_assumes_stable() {
    let catalog = vec![entry("25.12.5.44", Channel::Stable)];
    let e = resolve_version("1.2.3.4", &catalog).unwrap();
    assert_eq!(e.version, "1.2.3.4");
    assert_eq!(e.channel, Channel::Stable);
    // Even an empty catalog accepts an exact request.
    let e2 = resolve_version("9.9.9.9", &Vec::new()).unwrap();
    assert_eq!(e2.version, "9.9.9.9");
    assert_eq!(e2.channel, Channel::Stable);
}

#[test]
fn resolve_stable_picks_first_stable() {
    let catalog = vec![
        entry("25.12.9.9", Channel::Lts),
        entry("25.12.5.44", Channel::Stable),
        entry("25.11.1.1", Channel::Stable),
    ];
    let e = resolve_version("stable", &catalog).unwrap();
    assert_eq!(e.version, "25.12.5.44");
    assert_eq!(e.channel, Channel::Stable);
}

#[test]
fn resolve_lts_picks_first_lts() {
    let catalog = vec![
        entry("25.12.5.44", Channel::Stable),
        entry("25.8.16.34", Channel::Lts),
        entry("24.8.10.6", Channel::Lts),
    ];
    let e = resolve_version("lts", &catalog).unwrap();
    assert_eq!(e.version, "25.8.16.34");
    assert_eq!(e.channel, Channel::Lts);
}

#[test]
fn resolve_partial_picks_newest_prefix_match() {
    let catalog = vec![
        entry("25.12.5.44", Channel::Stable),
        entry("25.12.1.1", Channel::Stable),
        entry("25.8.1.1", Channel::Lts),
    ];
    let e = resolve_version("25.12", &catalog).unwrap();
    assert_eq!(e.version, "25.12.5.44");
    assert_eq!(e.channel, Channel::Stable);
}

#[test]
fn resolve_partial_without_dot_matches_prefix() {
    let catalog = vec![
        entry("26.1.1.1", Channel::Stable),
        entry("25.12.5.44", Channel::Stable),
    ];
    let e = resolve_version("25", &catalog).unwrap();
    assert_eq!(e.version, "25.12.5.44");
}

#[test]
fn resolve_partial_requires_dot_boundary() {
    // "25.1" must not match "25.12.5.44": the match continues past a dot.
    let catalog = vec![
        entry("25.12.5.44", Channel::Stable),
        entry("25.1.2.3", Channel::Stable),
    ];
    let e = resolve_version("25.1", &catalog).unwrap();
    assert_eq!(e.version, "25.1.2.3");
}

#[test]
fn resolve_reports_no_matching_version() {
    let catalog = vec![entry("25.12.5.44", Channel::Stable)];
    match resolve_version("24.9", &catalog) {
        Err(Error::NoMatchingVersion(s)) => assert_eq!(s, "24.9"),
        _ => panic!("expected a no-matching-version failure"),
    }
    match resolve_version("lts", &catalog) {
        Err(Error::NoMatchingVersion(s)) => assert_eq!(s, "lts"),
        _ => panic!("expected a no-matching-version failure"),
    }
}
