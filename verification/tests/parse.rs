use wifi_sentry::network::WifiNetwork;
use wifi_sentry::parse::parse_network_scan;

fn record(ssid: &str, auth: &str, enc: &str, bssid: &str, signal: &str, risk: &str) -> WifiNetwork {
    WifiNetwork {
        ssid: ssid.to_string(),
        authentication: auth.to_string(),
        encryption: enc.to_string(),
        bssid: bssid.to_string(),
        signal: signal.to_string(),
        risk: risk.to_string(),
        is_evil_twin: false,
    }
}

const REPORT: &str = "\r\nInterface name : Wi-Fi \r\nThere are 2 networks currently visible.\r\n\r\nSSID 1 : Home\r\n    Network type            : Infrastructure\r\n    Authentication          : WPA2-Personal\r\n    Encryption              : CCMP \r\n    BSSID 1                 : aa:bb:cc:dd:ee:ff\r\n         Signal             : 85%  \r\n         Radio type         : 802.11ac\r\n    BSSID 2                 : aa:bb:cc:dd:ee:00\r\n         Signal             : 40%  \r\n\r\nSSID 2 : Cafe\r\n    Network type            : Infrastructure\r\n    Authentication          : Open\r\n    Encryption              : None \r\n    BSSID 1                 : 11:22:33:44:55:66\r\n         Signal             : 20%  \r\n";

#[test]
fn parses_a_report_with_two_networks() {
    let networks = parse_network_scan(REPORT);
    assert_eq!(
        networks,
        vec![
            record("Home", "WPA2-Personal", "CCMP", "aa:bb:cc:dd:ee:ff", "85%", "Low"),
            record("Home", "WPA2-Personal", "CCMP", "aa:bb:cc:dd:ee:00", "40%", "Low"),
            record("Cafe", "Open", "None", "11:22:33:44:55:66", "20%", "High"),
        ]
    );
}

#[test]
fn parsing_twice_gives_the_same_batch() {
    assert_eq!(parse_network_scan(REPORT), parse_network_scan(REPORT));
}

#[test]
fn bssid_right_after_ssid_has_empty_security_attributes() {
    let networks = parse_network_scan("SSID 1 : Home\nBSSID 1 : aa:bb:cc:dd:ee:ff");
    assert_eq!(networks.len(), 1);
    assert_eq!(networks[0].ssid, "Home");
    assert_eq!(networks[0].bssid, "aa:bb:cc:dd:ee:ff");
    assert_eq!(networks[0].authentication, "");
    assert_eq!(networks[0].encryption, "");
    assert_eq!(networks[0].signal, "");
    assert!(!networks[0].is_evil_twin);
}

#[test]
fn n_blocks_give_n_records() {
    let mut text = String::new();
    for i in 0..25 {
        text.push_str(&format!("SSID {} : Net{}\nBSSID 1 : 00:00:00:00:00:{:02x}\n", i + 1, i, i));
    }
    let networks = parse_network_scan(&text);
    assert_eq!(networks.len(), 25);
    for (i, n) in networks.iter().enumerate() {
        assert_eq!(n.ssid, format!("Net{}", i));
        assert_eq!(n.bssid, format!("00:00:00:00:00:{:02x}", i));
        assert!(!n.ssid.is_empty() && !n.bssid.is_empty());
    }
}

#[test]
fn empty_text_gives_no_records() {
    assert_eq!(parse_network_scan(""), vec![]);
    assert_eq!(parse_network_scan("\n\n  \n"), vec![]);
    assert_eq!(parse_network_scan("no labelled line here"), vec![]);
}

#[test]
fn a_new_ssid_resets_the_security_attributes() {
    let text = "SSID 1 : A\nAuthentication : WPA2-Personal\nEncryption : CCMP\nBSSID 1 : 01\nSSID 2 : B\nBSSID 1 : 02\n";
    let networks = parse_network_scan(text);
    assert_eq!(networks.len(), 2);
    assert_eq!(networks[0].authentication, "WPA2-Personal");
    assert_eq!(networks[0].encryption, "CCMP");
    assert_eq!(networks[1].ssid, "B");
    assert_eq!(networks[1].authentication, "");
    assert_eq!(networks[1].encryption, "");
}

#[test]
fn an_ssid_line_without_a_value_is_ignored() {
    let text = "SSID 1 : A\nAuthentication : WPA2-Personal\nSSID 2 :\nBSSID 1 : 01\n";
    let networks = parse_network_scan(text);
    assert_eq!(networks.len(), 1);
    assert_eq!(networks[0].ssid, "A");
    assert_eq!(networks[0].authentication, "WPA2-Personal");
}

#[test]
fn a_bssid_without_a_network_name_gives_no_record() {
    assert_eq!(parse_network_scan("BSSID 1 : 01\nSignal : 50%\n"), vec![]);
    assert_eq!(parse_network_scan("SSID 1 : A\nBSSID 1 :\nSignal : 50%\n"), vec![]);
}

#[test]
fn a_line_without_a_colon_is_not_actionable() {
    let text = "SSID 1 : A\nBSSID 1 : 01\nSignal 99%\nBSSID\nSSID\n";
    let networks = parse_network_scan(text);
    assert_eq!(networks.len(), 1);
    assert_eq!(networks[0].signal, "");
}

#[test]
fn attributes_after_a_bssid_apply_to_the_next_record() {
    let text = "SSID 1 : A\nBSSID 1 : 01\nAuthentication : Open\nSignal : 70%\nBSSID 2 : 02\n";
    let networks = parse_network_scan(text);
    assert_eq!(networks.len(), 2);
    assert_eq!(networks[0].authentication, "");
    assert_eq!(networks[0].signal, "70%");
    assert_eq!(networks[1].authentication, "Open");
    assert_eq!(networks[1].signal, "");
}

#[test]
fn the_value_keeps_later_colons() {
    let networks = parse_network_scan("SSID 1 : a:b : c\nBSSID 1 : AA:BB\n");
    assert_eq!(networks[0].ssid, "a:b : c");
    assert_eq!(networks[0].bssid, "AA:BB");
}

#[test]
fn the_main_items_are_reachable_from_the_crate_root() {
    let networks = wifi_sentry::parse_network_scan("SSID 1 : Home\nBSSID 1 : AA\nSignal : 50%\n");
    let mut state = wifi_sentry::MonitoringState::default();
    let threats = wifi_sentry::detect_threats_at(
        &networks,
        &mut state,
        &[],
        &["aa".to_string()],
        wifi_sentry::Timestamp::new(1, 0),
    );
    assert_eq!(threats.len(), 1);
    assert_eq!(threats[0].severity, wifi_sentry::Severity::Critical);
    assert_eq!(state.network_history[0].bssid, "aa");
}
