use chv::error::Error;
use chv::registry::Registry;

#[test]
fn install_twice_reports_already_installed() {
    let mut reg = Registry::new();
    assert!(reg.begin_install("25.8.16.34").is_ok());
    reg.finish_install("25.8.16.34");
    match reg.begin_install("25.8.16.34") {
        Err(Error::VersionAlreadyInstalled(v)) => assert_eq!(v, "25.8.16.34"),
        _ => panic!("expected an already-installed failure"),
    }
}

#[test]
fn partial_install_directory_counts_as_installed() {
    // A directory left behind without its binary still blocks a reinstall.
    let mut reg = Registry::new();
    assert!(reg.begin_install("25.8.16.34").is_ok());
    match reg.begin_install("25.8.16.34") {
        Err(Error::VersionAlreadyInstalled(v)) => assert_eq!(v, "25.8.16.34"),
        _ => panic!("expected an already-installed failure"),
    }
    // But it is not listed as installed: the binary is the liveness signal.
    assert!(!reg.is_installed("25.8.16.34"));
    assert!(reg.list_installed().is_empty());
}

#[test]
fn get_default_after_set_default() {
    let mut reg = Registry::new();
    reg.record_binary("25.8.16.34");
    assert!(reg.set_default("25.8.16.34").is_ok());
    assert_eq!(reg.get_default().unwrap(), "25.8.16.34");
}

#[test]
fn set_default_requires_installed_version() {
    let mut reg = Registry::new();
    match reg.set_default("25.8.16.34") {
        Err(Error::VersionNotFound(v)) => assert_eq!(v, "25.8.16.34"),
        _ => panic!("expected a version-not-found failure"),
    }
    // A directory without the binary is not installed either.
    reg.record_dir("25.9.1.1");
    assert!(reg.set_default("25.9.1.1").is_err());
}

#[test]
fn get_default_without_pointer() {
    let reg = Registry::new();
    assert!(matches!(reg.get_default(), Err(Error::NoDefaultVersion)));
}

#[test]
fn get_default_with_blank_pointer() {
    let mut reg = Registry::new();
    reg.set_pointer(Some("  \n".to_string()));
    assert!(matches!(reg.get_default(), Err(Error::NoDefaultVersion)));
}

#[test]
fn get_default_trims_pointer_content() {
    let mut reg = Registry::new();
    reg.record_binary("25.8.16.34");
    reg.set_pointer(Some(" 25.8.16.34\n".to_string()));
    assert_eq!(reg.get_default().unwrap(), "25.8.16.34");
}

#[test]
fn get_default_dangling_pointer_is_an_error() {
    let mut reg = Registry::new();
    reg.record_binary("25.8.16.34");
    reg.set_pointer(Some("9.9.9.9".to_string()));
    match reg.get_default() {
        Err(Error::VersionNotFound(v)) => assert_eq!(v, "9.9.9.9"),
        _ => panic!("expected a version-not-found failure"),
    }
}

#[test]
fn remove_default_clears_pointer() {
    let mut reg = Registry::new();
    reg.record_binary("25.8.16.34");
    assert!(reg.set_default("25.8.16.34").is_ok());
    assert!(reg.remove("25.8.16.34").is_ok());
    assert!(matches!(reg.get_default(), Err(Error::NoDefaultVersion)));
    assert!(!reg.is_installed("25.8.16.34"));
    assert!(!reg.has_dir("25.8.16.34"));
}

#[test]
fn remove_other_version_keeps_pointer() {
    let mut reg = Registry::new();
    reg.record_binary("25.8.16.34");
    reg.record_binary("25.12.5.44");
    assert!(reg.set_default("25.8.16.34").is_ok());
    assert!(reg.remove("25.12.5.44").is_ok());
    assert_eq!(reg.get_default().unwrap(), "25.8.16.34");
}

#[test]
fn remove_missing_version_fails() {
    let mut reg = Registry::new();
    match reg.remove("25.8.16.34") {
        Err(Error::VersionNotFound(v)) => assert_eq!(v, "25.8.16.34"),
        _ => panic!("expected a version-not-found failure"),
    }
}

#[test]
fn list_installed_is_sorted_newest_first() {
    let mut reg = Registry::new();
    reg.record_binary("25.8.16.34");
    reg.record_binary("25.12.5.44");
    reg.record_binary("24.3.9.9");
    reg.record_dir("26.0.0.0");
    let listed = reg.list_installed();
    let got: Vec<&str> = listed.iter().map(|s| s.as_str()).collect();
    assert_eq!(got, vec!["25.12.5.44", "25.8.16.34", "24.3.9.9"]);
}

#[test]
fn recording_twice_lists_once() {
    let mut reg = Registry::new();
    reg.record_binary("25.8.16.34");
    reg.record_binary("25.8.16.34");
    assert_eq!(reg.list_installed().len(), 1);
}
