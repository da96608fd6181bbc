use ifcfg_devname::scanner::{config_glob_pattern, config_paths, ScanEntry};

#[test]
fn glob_pattern_of_directory() {
    assert_eq!(config_glob_pattern("/etc/sysconfig/network-scripts"), "/etc/sysconfig/network-scripts/ifcfg-*");
    assert_eq!(config_glob_pattern("./tests/unit_test_data/ifcfgs"), "./tests/unit_test_data/ifcfgs/ifcfg-*");
}

#[test]
fn paths_in_order_without_unreadable_entries() {
    let entries = vec![
        ScanEntry::Path("tests/unit_test_data/ifcfgs/ifcfg-eth0".to_string()),
        ScanEntry::Unreadable,
        ScanEntry::Path("tests/unit_test_data/ifcfgs/ifcfg-eth1".to_string()),
    ];
    assert_eq!(
        config_paths(&entries),
        Some(vec![
            "tests/unit_test_data/ifcfgs/ifcfg-eth0".to_string(),
            "tests/unit_test_data/ifcfgs/ifcfg-eth1".to_string(),
        ])
    );
}

#[test]
fn no_paths_found() {
    assert_eq!(config_paths(&Vec::new()), None);
    assert_eq!(config_paths(&vec![ScanEntry::Unreadable]), None);
}

#[test]
fn non_unicode_path_gives_nothing() {
    let entries = vec![ScanEntry::Path("a/ifcfg-eth0".to_string()), ScanEntry::NonUnicodePath];
    assert_eq!(config_paths(&entries), None);
}
