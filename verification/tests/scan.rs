use wifi_sentry::scan::{check_adapter, holds, read_scan, ScanError};

const INTERFACES_ON: &str = "\r\nThere is 1 interface on the system: \r\n\r\n    Name                   : Wi-Fi\r\n    Description            : Wireless Adapter\r\n    State                  : connected\r\n    Radio status           : Hardware On\r\n                             Software On\r\n";

const INTERFACES_OFF: &str = "\r\nThere is 1 interface on the system: \r\n\r\n    Name                   : Wi-Fi\r\n    State                  : disconnected\r\n    Radio status           : Hardware On\r\n                             Software Off\r\n";

#[test]
fn an_adapter_that_is_on_passes() {
    assert_eq!(check_adapter(INTERFACES_ON), Ok(()));
}

#[test]
fn a_report_without_a_state_line_shows_no_adapter() {
    assert_eq!(check_adapter(""), Err(ScanError::NoAdapter));
    assert_eq!(check_adapter("There is no wireless interface on the system."), Err(ScanError::NoAdapter));
    assert_eq!(check_adapter("Software Off"), Err(ScanError::NoAdapter));
    assert_eq!(check_adapter("    Connection State : x"), Err(ScanError::NoAdapter));
}

#[test]
fn software_off_means_the_adapter_is_off() {
    assert_eq!(check_adapter(INTERFACES_OFF), Err(ScanError::AdapterOff));
    assert_eq!(check_adapter("State : x\nRadio status : Hardware On Software Off"), Err(ScanError::AdapterOff));
    assert_eq!(check_adapter("Software Off\n  State : x"), Err(ScanError::AdapterOff));
    assert_eq!(check_adapter("State : x\nsoftware off"), Ok(()));
}

#[test]
fn the_messages_tell_the_user_what_to_do() {
    assert_eq!(
        ScanError::NoAdapter.message(),
        "No WiFi adapter found. Please ensure your WiFi adapter is installed and enabled."
    );
    assert_eq!(
        ScanError::AdapterOff.message(),
        "WiFi adapter is turned off. Please enable WiFi in Windows Settings or use the WiFi toggle in the system tray."
    );
    assert_eq!(
        ScanError::PoweredDown.message(),
        "WiFi adapter is powered down. Please enable WiFi in Windows Settings."
    );
    assert_eq!(
        ScanError::NotReady.message(),
        "WiFi adapter is not ready for scanning. Please enable WiFi in Windows Settings."
    );
}

#[test]
fn a_scan_report_that_names_a_fault_gives_no_networks() {
    assert_eq!(
        read_scan("The wireless local area network interface is powered down and doesn't support the requested operation."),
        Err(ScanError::PoweredDown)
    );
    assert_eq!(
        read_scan("The interface doesn't support the requested operation."),
        Err(ScanError::NotReady)
    );
}

#[test]
fn a_scan_report_is_parsed_rated_and_tagged() {
    let report = "SSID 1 : Home\nAuthentication : WPA2-Personal\nEncryption : CCMP\nBSSID 1 : aa\nSignal : 90%\nSSID 2 : Home\nAuthentication : Open\nEncryption : None\nBSSID 1 : bb\nSignal : 95%\nSSID 3 : Cafe\nAuthentication : Open\nEncryption : None\nBSSID 1 : cc\n";
    let networks = read_scan(report).unwrap();
    let seen: Vec<(&str, &str, &str, bool)> = networks
        .iter()
        .map(|n| (n.ssid.as_str(), n.bssid.as_str(), n.risk.as_str(), n.is_evil_twin))
        .collect();
    assert_eq!(
        seen,
        vec![("Home", "aa", "Low", true), ("Home", "bb", "High", true), ("Cafe", "cc", "High", false)]
    );
    assert_eq!(read_scan(""), Ok(vec![]));
}

#[test]
fn holds_looks_for_a_run_of_characters() {
    assert!(holds("abc", "bc"));
    assert!(holds("abc", ""));
    assert!(!holds("abc", "cb"));
    assert!(!holds("", "a"));
}
