use ifcfg_devname::mac::{mac_to_lower_string, mac_to_string, parse_mac_address, MacAddress};
use ifcfg_devname::parser::{config_file, device_of_line, hwaddr_of_line, select_device_name, ConfigError};
use ifcfg_devname::text::split_lines;

const IFCFG_ETH0: &str = "TYPE=Ethernet\nBOOTPROTO=dhcp\nDEVICE=correct_if_name\nHWADDR=AA:BB:CC:DD:EE:3F\nONBOOT=yes\n";
const IFCFG_ETH1: &str = "TYPE=Ethernet\nDEVICE=eth1\nHWADDR=AA:BB:CC:DD:EE:5F\nONBOOT=yes\n";

fn lower_mac(text: &str) -> String {
    mac_to_lower_string(&parse_mac_address(text).unwrap())
}

#[test]
fn parser_parse_ifcfg_configuration() {
    let mac_address = lower_mac("AA:BB:CC:DD:EE:3F");

    let test_result = match config_file(IFCFG_ETH0, &mac_address) {
        Ok(Some(result)) => result.eq("correct_if_name"),
        _ => false,
    };

    assert!(test_result);
}

#[test]
#[should_panic]
fn parser_not_parse_ifcfg_configuration() {
    let mac_address = lower_mac("AA:BB:CC:DD:EE:4F");

    let test_result = match config_file(IFCFG_ETH1, &mac_address) {
        Ok(Some(_)) => true,
        _ => false,
    };

    assert!(test_result);
}

#[test]
fn unit_test_parse_ifcfg_configuration() {
    let mac_address = lower_mac("AA:BB:CC:DD:EE:3F");

    let test_result = match config_file(IFCFG_ETH0, &mac_address) {
        Ok(Some(result)) => result.eq("correct_if_name"),
        _ => false,
    };

    assert!(test_result);
}

#[test]
#[should_panic]
fn unit_test_not_parse_ifcfg_configuration() {
    let mac_address = lower_mac("AA:BB:CC:DD:EE:4F");

    let test_result = match config_file(IFCFG_ETH1, &mac_address) {
        Ok(Some(_)) => true,
        _ => false,
    };

    assert!(test_result);
}

#[test]
fn hwaddr_lines() {
    assert_eq!(hwaddr_of_line("HWADDR=AA:BB:CC:DD:EE:3F"), Some("AA:BB:CC:DD:EE:3F".to_string()));
    assert_eq!(hwaddr_of_line("  \tHWADDR=aa:bb:cc:dd:ee:3f # card"), Some("aa:bb:cc:dd:ee:3f".to_string()));
    assert_eq!(hwaddr_of_line("\u{a0}HWADDR=00:11:22:33:44:55"), Some("00:11:22:33:44:55".to_string()));
    assert_eq!(hwaddr_of_line("HWADDR=AA:BB:CC:DD:EE:3"), None);
    assert_eq!(hwaddr_of_line("HWADDR=AA-BB-CC-DD-EE-3F"), None);
    assert_eq!(hwaddr_of_line("HWADDR=AA:BB:CC:DD:EE:G3"), None);
    assert_eq!(hwaddr_of_line("#HWADDR=AA:BB:CC:DD:EE:3F"), None);
    assert_eq!(hwaddr_of_line("hwaddr=AA:BB:CC:DD:EE:3F"), None);
    assert_eq!(hwaddr_of_line("HWADDR =AA:BB:CC:DD:EE:3F"), None);
    assert_eq!(hwaddr_of_line(""), None);
}

#[test]
fn device_lines() {
    assert_eq!(device_of_line("DEVICE=eth0"), Some("eth0".to_string()));
    assert_eq!(device_of_line("   DEVICE=lan"), Some("lan".to_string()));
    assert_eq!(device_of_line("DEVICE=eth0:1"), Some("eth0".to_string()));
    assert_eq!(device_of_line("DEVICE=:abc:d"), None);
    assert_eq!(device_of_line("DEVICE=abcdefghijklmnopqrstuvwxyz"), Some("abcdefghijklmno".to_string()));
    assert_eq!(device_of_line("DEVICE=net0 # comment"), Some("net0".to_string()));
    assert_eq!(device_of_line("DEVICE=my dev"), Some("my".to_string()));
    assert_eq!(device_of_line("DEVICE=eth0\u{a0}x"), Some("eth0".to_string()));
    assert_eq!(device_of_line("DEVICE= eth0"), None);
    assert_eq!(device_of_line("DEVICE="), None);
    assert_eq!(device_of_line("#DEVICE=eth0"), None);
    assert_eq!(device_of_line("NAME=eth0"), None);
    assert_eq!(device_of_line("DEVICE=\u{e9}t\u{e9}"), Some("\u{e9}t\u{e9}".to_string()));
}

#[test]
fn config_device_name_stops_at_white_space() {
    let content = "HWADDR=AA:BB:CC:DD:EE:3F\nDEVICE=my dev\n";
    assert_eq!(config_file(content, "aa:bb:cc:dd:ee:3f"), Ok(Some("my".to_string())));
}

#[test]
fn lines_of_text() {
    assert_eq!(split_lines(""), Vec::<String>::new());
    assert_eq!(split_lines("a"), vec!["a".to_string()]);
    assert_eq!(split_lines("a\n"), vec!["a".to_string()]);
    assert_eq!(split_lines("\n"), vec!["".to_string()]);
    assert_eq!(split_lines("a\r\nb\r\n"), vec!["a".to_string(), "b".to_string()]);
    assert_eq!(split_lines("a\rb\r"), vec!["a\rb\r".to_string()]);
    assert_eq!(split_lines("a\n\nb"), vec!["a".to_string(), "".to_string(), "b".to_string()]);
}

#[test]
fn config_with_crlf_endings() {
    let content = "DEVICE=net7\r\nHWADDR=AA:BB:CC:DD:EE:3F\r\n";
    assert_eq!(config_file(content, "aa:bb:cc:dd:ee:3f"), Ok(Some("net7".to_string())));
}

#[test]
fn config_hwaddr_in_either_case() {
    let content = "HWADDR=aa:bB:Cc:dd:EE:3f\nDEVICE=net1\n";
    assert_eq!(config_file(content, "aa:bb:cc:dd:ee:3f"), Ok(Some("net1".to_string())));
}

#[test]
fn config_address_sought_in_lower_case() {
    let content = "HWADDR=AA:BB:CC:DD:EE:3F\nDEVICE=net1\n";
    assert_eq!(config_file(content, "AA:BB:CC:DD:EE:3F"), Err(ConfigError::DeviceNameNotFound));
}

#[test]
fn config_last_lines_win() {
    let content = "DEVICE=first\nHWADDR=11:11:11:11:11:11\nDEVICE=second\nHWADDR=AA:BB:CC:DD:EE:3F\n";
    assert_eq!(config_file(content, "aa:bb:cc:dd:ee:3f"), Ok(Some("second".to_string())));
    assert_eq!(config_file(content, "11:11:11:11:11:11"), Err(ConfigError::DeviceNameNotFound));
}

#[test]
fn config_without_device_line() {
    let content = "HWADDR=AA:BB:CC:DD:EE:3F\nONBOOT=yes";
    assert_eq!(config_file(content, "aa:bb:cc:dd:ee:3f"), Ok(None));
}

#[test]
fn config_without_hwaddr_line() {
    let content = "DEVICE=eth0\n";
    assert_eq!(config_file(content, "aa:bb:cc:dd:ee:3f"), Err(ConfigError::DeviceNameNotFound));
    assert_eq!(config_file("", "aa:bb:cc:dd:ee:3f"), Err(ConfigError::DeviceNameNotFound));
}

#[test]
fn config_commented_lines_do_not_count() {
    let content = "#HWADDR=AA:BB:CC:DD:EE:3F\nDEVICE=eth0\n";
    assert_eq!(config_file(content, "aa:bb:cc:dd:ee:3f"), Err(ConfigError::DeviceNameNotFound));
}

#[test]
fn config_error_message() {
    assert_eq!(ConfigError::DeviceNameNotFound.message(), "new device name not found");
}

#[test]
fn selection_takes_first_naming_file() {
    let configs = vec![
        None,
        Some(IFCFG_ETH1.to_string()),
        Some("HWADDR=AA:BB:CC:DD:EE:3F\n".to_string()),
        Some(IFCFG_ETH0.to_string()),
        Some("HWADDR=AA:BB:CC:DD:EE:3F\nDEVICE=later\n".to_string()),
    ];
    assert_eq!(select_device_name(&configs, "aa:bb:cc:dd:ee:3f"), Some("correct_if_name".to_string()));
    assert_eq!(select_device_name(&configs, "aa:bb:cc:dd:ee:5f"), Some("eth1".to_string()));
    assert_eq!(select_device_name(&configs, "aa:bb:cc:dd:ee:4f"), None);
    assert_eq!(select_device_name(&Vec::new(), "aa:bb:cc:dd:ee:4f"), None);
}

#[test]
fn written_device_is_read_back() {
    let mac = MacAddress { bytes: [0x52, 0x54, 0x00, 0xab, 0xcd, 0xef] };
    let content = format!("HWADDR={}\nDEVICE={}\n", mac_to_string(&mac), "uplink0");
    assert_eq!(config_file(&content, &mac_to_lower_string(&mac)), Ok(Some("uplink0".to_string())));
    assert_eq!(config_file(&content, &mac_to_string(&mac)), Err(ConfigError::DeviceNameNotFound));
    assert_eq!(config_file(&content, "52:54:00:ab:cd:ee"), Err(ConfigError::DeviceNameNotFound));
}
