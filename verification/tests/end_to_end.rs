use chv::catalog::catalog_from_tags;
use chv::catalog::Channel;
use chv::paths::binary_path;
use chv::registry::Registry;
use chv::resolve::resolve_version;

#[test]
fn lts_install_becomes_the_default() {
    let tags = vec![
        "v25.12.5.44-stable".to_string(),
        "v25.8.16.34-lts".to_string(),
    ];
    let catalog = catalog_from_tags(&tags);
    assert_eq!(catalog.len(), 2);

    let entry = resolve_version("lts", &catalog).unwrap();
    assert_eq!(entry.version, "25.8.16.34");
    assert_eq!(entry.channel, Channel::Lts);

    let mut reg = Registry::new();
    assert!(reg.begin_install(entry.version.as_str()).is_ok());
    assert_eq!(
        binary_path("/home/u/.clickhouse", entry.version.as_str()),
        "/home/u/.clickhouse/versions/25.8.16.34/clickhouse"
    );
    reg.finish_install(entry.version.as_str());
    assert!(reg.is_installed("25.8.16.34"));

    assert!(reg.set_default("25.8.16.34").is_ok());
    assert_eq!(reg.get_default().unwrap(), "25.8.16.34");
}
