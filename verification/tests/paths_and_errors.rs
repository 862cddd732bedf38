use chv::download::DownloadProgress;
use chv::error::Error;
use chv::init::has_config_flag;
use chv::init::server_flags;
use chv::init::version_data_dir;
use chv::paths::binary_path;
use chv::paths::default_file;
use chv::paths::version_dir;
use chv::paths::versions_dir;

#[test]
fn storage_layout() {
    assert_eq!(versions_dir("/home/u/.clickhouse"), "/home/u/.clickhouse/versions");
    assert_eq!(
        version_dir("/home/u/.clickhouse", "25.8.16.34"),
        "/home/u/.clickhouse/versions/25.8.16.34"
    );
    assert_eq!(
        binary_path("/home/u/.clickhouse", "25.8.16.34"),
        "/home/u/.clickhouse/versions/25.8.16.34/clickhouse"
    );
    assert_eq!(default_file("/home/u/.clickhouse"), "/home/u/.clickhouse/default");
}

#[test]
fn local_workspace_layout() {
    assert_eq!(version_data_dir("./.clickhouse", "25.8.16.34"), "./.clickhouse/25.8.16.34");
    let flags = server_flags();
    assert_eq!(flags.len(), 2);
    assert_eq!(flags[0], "--");
    assert_eq!(flags[1], "--path=./");
}

#[test]
fn config_flag_detection() {
    assert!(has_config_flag(&vec!["--config-file=/etc/c.xml".to_string()]));
    assert!(has_config_flag(&vec!["-C".to_string(), "c.xml".to_string()]));
    assert!(!has_config_flag(&vec!["--port=9000".to_string()]));
    assert!(!has_config_flag(&Vec::new()));
}

#[test]
fn download_progress_accumulates() {
    let mut p = DownloadProgress::new(10);
    assert_eq!(p.downloaded, 0);
    assert!(!p.reached_total());
    p.record_chunk(4);
    p.record_chunk(5);
    assert_eq!(p.downloaded, 9);
    assert!(!p.reached_total());
    p.record_chunk(1);
    assert_eq!(p.downloaded, 10);
    assert!(p.reached_total());
    // An unknown length reads as zero, so any progress counts as complete.
    let q = DownloadProgress::new(0);
    assert!(q.reached_total());
    // The counter stops at its top instead of wrapping.
    let mut r = DownloadProgress::new(0);
    r.record_chunk(u64::MAX);
    r.record_chunk(7);
    assert_eq!(r.downloaded, u64::MAX);
}

#[test]
fn error_messages() {
    assert_eq!(
        Error::VersionNotFound("1.2.3.4".to_string()).describe(),
        "Version 1.2.3.4 not found"
    );
    assert_eq!(
        Error::NoDefaultVersion.describe(),
        "No default version set. Run: chv use <version>"
    );
    assert_eq!(
        Error::VersionAlreadyInstalled("25.8.16.34".to_string()).describe(),
        "Version 25.8.16.34 is already installed"
    );
    assert_eq!(
        Error::UnsupportedPlatform {
            os: "windows".to_string(),
            arch: "arm".to_string()
        }
        .describe(),
        "Unsupported platform: windows/arm"
    );
    assert_eq!(
        Error::NoMatchingVersion("26.5".to_string()).describe(),
        "No matching version found for: 26.5"
    );
    assert_eq!(
        Error::Download("timed out".to_string()).describe(),
        "Download failed: timed out"
    );
    assert_eq!(Error::Io("denied".to_string()).describe(), "IO error: denied");
}
