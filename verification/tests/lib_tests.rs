use std::path::Path;

use ifcfg_devname::mac::{mac_to_lower_string, parse_mac_address, MacAddress, MacParseError};
use ifcfg_devname::{
    get_config_dir, get_kernel_cmdline, get_mac_address, is_like_kernel_name, is_test_mode,
    ARG_COUNT, ARG_MAC,
};

#[test]
#[should_panic]
fn lib_check_for_test_mode() {
    const NUMBER_PARAMS_REQUIRED: usize = 3;
    let args: Vec<String> = Vec::new();

    let is_test_mode = is_test_mode(&args, NUMBER_PARAMS_REQUIRED);

    assert!(is_test_mode);
}

#[test]
#[should_panic]
fn unit_test_check_for_test_mode() {
    const NUMBER_PARAMS_REQUIRED: usize = 3;
    let args: Vec<String> = Vec::new();

    let is_test_mode = is_test_mode(&args, NUMBER_PARAMS_REQUIRED);

    assert!(is_test_mode);
}

#[test]
fn lib_check_if_is_like_kernel_name() {
    const KERNEL_LIKE_NAME: &str = "eth123";

    let is_like_kernel = is_like_kernel_name(KERNEL_LIKE_NAME);

    assert!(is_like_kernel);
}

#[test]
fn unit_test_check_if_is_like_kernel_name() {
    const KERNEL_LIKE_NAME: &str = "eth123";

    let is_like_kernel = is_like_kernel_name(KERNEL_LIKE_NAME);

    assert!(is_like_kernel);
}

#[test]
fn check_for_kernel_cmdline_path() {
    const IS_TEST_MODE: bool = false;
    let args: Vec<String> = Vec::new();
    let expected: &Path = Path::new("/proc/cmdline");

    let kernel_cmdline = get_kernel_cmdline(IS_TEST_MODE, &args);

    assert_eq!(expected, Path::new(kernel_cmdline));
}

#[test]
fn kernel_cmdline_path_in_test_mode() {
    let args: Vec<String> = vec![
        "prog".to_string(),
        "dir".to_string(),
        "aa:bb:cc:dd:ee:ff".to_string(),
        "/tmp/cmdline".to_string(),
    ];
    assert_eq!(get_kernel_cmdline(true, &args), "/tmp/cmdline");
}

#[test]
fn test_mode_counts_parameters() {
    let args: Vec<String> = vec!["a".to_string(), "b".to_string(), "c".to_string()];
    assert!(is_test_mode(&args, 3));
    assert!(is_test_mode(&args, 2));
    assert!(!is_test_mode(&args, 4));
    assert!(is_test_mode(&args, 0));
    assert!(is_test_mode(&[], 0));
    assert_eq!(ARG_COUNT, 3);
}

#[test]
fn kernel_like_names() {
    assert!(is_like_kernel_name("eth0"));
    assert!(is_like_kernel_name("eth42"));
    assert!(!is_like_kernel_name("eth"));
    assert!(!is_like_kernel_name("eth0a"));
    assert!(!is_like_kernel_name("xeth0"));
    assert!(!is_like_kernel_name("wlan0"));
    assert!(!is_like_kernel_name("eth0\n"));
    assert!(!is_like_kernel_name(""));
    assert!(!is_like_kernel_name("ETH0"));
}

#[test]
fn kernel_like_names_take_ascii_digits_only() {
    assert!(!is_like_kernel_name("eth\u{0663}"));
    assert!(is_like_kernel_name("eth0123456789"));
}

#[test]
fn kernel_like_names_from_documentation() {
    assert!(is_like_kernel_name("eth1234"));
    assert!(!is_like_kernel_name("eth1234a"));
    assert!(!is_like_kernel_name("enp0s3"));
    assert!(!is_like_kernel_name("correct_if_name"));
}

#[test]
fn config_dir_by_mode() {
    let args: Vec<String> = vec!["prog".to_string(), "/tmp/ifcfgs".to_string(), "aa:bb:cc:dd:ee:ff".to_string()];
    assert_eq!(get_config_dir(true, &args), "/tmp/ifcfgs");
    assert_eq!(get_config_dir(false, &args), "/etc/sysconfig/network-scripts");
    assert_eq!(get_config_dir(false, &Vec::new()), "/etc/sysconfig/network-scripts");
}

#[test]
fn mac_address_from_arguments_in_test_mode() {
    let args: Vec<String> = vec![
        "prog".to_string(),
        "dir".to_string(),
        "AA:BB:CC:DD:EE:3F".to_string(),
    ];
    let mac = get_mac_address(true, &args, ARG_MAC, None).unwrap();
    assert_eq!(mac.bytes, [0xAA, 0xBB, 0xCC, 0xDD, 0xEE, 0x3F]);
    assert_eq!(mac_to_lower_string(&mac), "aa:bb:cc:dd:ee:3f");
}

#[test]
fn mac_address_from_arguments_rejects_bad_text() {
    let args: Vec<String> = vec![
        "prog".to_string(),
        "dir".to_string(),
        "AA:BB:CC:DD:EE".to_string(),
    ];
    assert_eq!(get_mac_address(true, &args, ARG_MAC, None), Err(MacParseError::InvalidLength));
    let args: Vec<String> = vec![
        "prog".to_string(),
        "dir".to_string(),
        "AA:BB:CC:DD:EE:GG".to_string(),
    ];
    assert_eq!(get_mac_address(true, &args, ARG_MAC, None), Err(MacParseError::InvalidDigit));
}

#[test]
fn mac_address_of_interface_outside_test_mode() {
    let interface = MacAddress { bytes: [1, 2, 3, 4, 5, 6] };
    let args: Vec<String> = Vec::new();
    assert_eq!(get_mac_address(false, &args, ARG_MAC, Some(interface)), Ok(interface));
}

#[test]
fn parse_then_lower_text() {
    let mac = parse_mac_address("80:FA:5B:41:10:6B").unwrap();
    assert_eq!(mac_to_lower_string(&mac), "80:fa:5b:41:10:6b");
}
