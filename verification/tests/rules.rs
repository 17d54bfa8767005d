use wifi_sentry::clock::Timestamp;
use wifi_sentry::network::WifiNetwork;
use wifi_sentry::rules::blacklist::detect_blacklisted_networks;
use wifi_sentry::rules::deauth::detect_deauth_attacks;
use wifi_sentry::rules::flood::detect_flood_attacks;
use wifi_sentry::rules::jamming::detect_rf_jamming;
use wifi_sentry::rules::probe::detect_probe_anomalies;
use wifi_sentry::rules::spoofing::detect_mac_spoofing;
use wifi_sentry::rules::unauthorized::detect_unauthorized_clients;
use wifi_sentry::state::{
    record_connection_failure_at, MonitoringState, SignalBaseline,
};
use wifi_sentry::threat::{DetectedThreat, Severity, ThreatType};

fn net(ssid: &str, bssid: &str, signal: &str) -> WifiNetwork {
    WifiNetwork {
        ssid: ssid.to_string(),
        authentication: "WPA2-Personal".to_string(),
        encryption: "CCMP".to_string(),
        bssid: bssid.to_string(),
        signal: signal.to_string(),
        risk: String::new(),
        is_evil_twin: false,
    }
}

fn at(secs: i64) -> Timestamp {
    Timestamp::new(secs, 0)
}

fn numbered(prefix: &str, from: usize, count: usize) -> Vec<WifiNetwork> {
    (from..from + count)
        .map(|i| net(&format!("{}{}", prefix, i), &format!("00:00:00:00:00:{:02x}", i), "50%"))
        .collect()
}

fn fail(state: &mut MonitoringState, ssid: &str, bssid: &str, secs: i64) {
    record_connection_failure_at(
        state,
        ssid.to_string(),
        bssid.to_string(),
        "timeout".to_string(),
        at(secs),
    );
}

fn strings(items: &[&str]) -> Vec<String> {
    items.iter().map(|s| s.to_string()).collect()
}

#[test]
fn one_bssid_under_two_names_is_one_critical_threat() {
    let now = at(1_000);
    let batch = vec![
        net("Home", "AA:BB:CC:DD:EE:FF", "80%"),
        net("Other", "11:22:33:44:55:66", "80%"),
        net("Home-Guest", "aa:bb:cc:dd:ee:ff", "80%"),
    ];
    let threats = detect_mac_spoofing(&batch, now);
    assert_eq!(
        threats,
        vec![DetectedThreat {
            threat_type: ThreatType::MacSpoof,
            severity: Severity::Critical,
            network_ssid: "Home".to_string(),
            network_bssid: "aa:bb:cc:dd:ee:ff".to_string(),
            details: "BSSID aa:bb:cc:dd:ee:ff appears with multiple SSIDs: Home, Home-Guest"
                .to_string(),
            timestamp: now,
        }]
    );
    assert_eq!(threats[0].threat_type.as_str(), "mac_spoof");
    assert_eq!(threats[0].severity.as_str(), "Critical");
}

#[test]
fn one_bssid_twice_under_one_name_is_no_threat() {
    let batch = vec![net("Home", "aa", "80%"), net("Home", "AA", "70%")];
    assert_eq!(detect_mac_spoofing(&batch, at(5)), vec![]);
}

#[test]
fn one_name_under_five_bssids_is_one_high_threat() {
    let now = at(2_000);
    let batch: Vec<WifiNetwork> =
        (0..5).map(|i| net("Campus", &format!("0{}:00", i), "60%")).collect();
    let threats = detect_mac_spoofing(&batch, now);
    assert_eq!(
        threats,
        vec![DetectedThreat {
            threat_type: ThreatType::MacSpoof,
            severity: Severity::High,
            network_ssid: "Campus".to_string(),
            network_bssid: "00:00".to_string(),
            details: "SSID Campus has 5 different BSSIDs, possible MAC spoofing attack"
                .to_string(),
            timestamp: now,
        }]
    );
}

#[test]
fn one_name_under_four_bssids_is_one_high_threat_and_under_three_none() {
    let four: Vec<WifiNetwork> =
        (0..4).map(|i| net("Campus", &format!("0{}:00", i), "60%")).collect();
    let threats = detect_mac_spoofing(&four, at(1));
    assert_eq!(threats.len(), 1);
    assert_eq!(threats[0].severity, Severity::High);
    assert_eq!(
        threats[0].details,
        "SSID Campus has 4 different BSSIDs, possible MAC spoofing attack"
    );
    let three: Vec<WifiNetwork> =
        (0..3).map(|i| net("Campus", &format!("0{}:00", i), "60%")).collect();
    assert_eq!(detect_mac_spoofing(&three, at(1)), vec![]);
}

#[test]
fn spoofing_skips_blank_names_and_bssids() {
    let batch = vec![
        net("", "aa", "1"),
        net("  ", "aa", "1"),
        net("A", "", "1"),
        net("B", " ", "1"),
        net("C", "aa", "1"),
    ];
    assert_eq!(detect_mac_spoofing(&batch, at(1)), vec![]);
}

#[test]
fn spoofing_reports_bssids_first_then_names_each_in_order_of_appearance() {
    let mut batch = vec![net("X", "b2", "1"), net("Y", "b1", "1"), net("Z", "b1", "1")];
    batch.push(net("W", "b2", "1"));
    for i in 0..4 {
        batch.push(net("Many", &format!("m{}", i), "1"));
    }
    let threats = detect_mac_spoofing(&batch, at(1));
    assert_eq!(threats.len(), 3);
    assert_eq!(threats[0].network_bssid, "b2");
    assert_eq!(threats[0].network_ssid, "X");
    assert_eq!(threats[0].details, "BSSID b2 appears with multiple SSIDs: X, W");
    assert_eq!(threats[1].network_bssid, "b1");
    assert_eq!(threats[1].details, "BSSID b1 appears with multiple SSIDs: Y, Z");
    assert_eq!(threats[2].network_ssid, "Many");
    assert_eq!(threats[2].network_bssid, "m0");
    assert_eq!(threats[2].severity, Severity::High);
}

#[test]
fn four_recent_failures_are_one_high_threat() {
    let now = at(10_000);
    let mut state = MonitoringState::default();
    for s in [9_971, 9_980, 9_990, 10_000] {
        fail(&mut state, "Home", "AA:BB:CC:DD:EE:FF", s);
    }
    let threats = detect_deauth_attacks(&state, now);
    assert_eq!(
        threats,
        vec![DetectedThreat {
            threat_type: ThreatType::DeauthAttack,
            severity: Severity::High,
            network_ssid: "Home".to_string(),
            network_bssid: "aa:bb:cc:dd:ee:ff".to_string(),
            details: "Rapid connection failures detected (4 failures in 30 seconds), possible deauthentication attack"
                .to_string(),
            timestamp: now,
        }]
    );
    assert_eq!(threats[0].threat_type.as_str(), "deauth_attack");
}

#[test]
fn three_recent_failures_are_no_threat() {
    let mut state = MonitoringState::default();
    for s in [9_980, 9_990, 10_000] {
        fail(&mut state, "Home", "aa", s);
    }
    assert_eq!(detect_deauth_attacks(&state, at(10_000)), vec![]);
}

#[test]
fn failures_thirty_seconds_old_do_not_count() {
    let mut state = MonitoringState::default();
    for s in [9_970, 9_980, 9_990, 10_000] {
        fail(&mut state, "Home", "aa", s);
    }
    assert_eq!(detect_deauth_attacks(&state, at(10_000)), vec![]);
    record_connection_failure_at(
        &mut state,
        "Home".to_string(),
        "aa".to_string(),
        "timeout".to_string(),
        Timestamp::new(9_970, 1),
    );
    assert_eq!(detect_deauth_attacks(&state, at(10_000)).len(), 1);
}

#[test]
fn failures_are_counted_per_network() {
    let mut state = MonitoringState::default();
    for _ in 0..3 {
        fail(&mut state, "Home", "aa", 100);
        fail(&mut state, "Home", "bb", 100);
        fail(&mut state, "Work", "aa", 100);
    }
    assert_eq!(detect_deauth_attacks(&state, at(100)), vec![]);
    for _ in 0..2 {
        fail(&mut state, "Work", "aa", 100);
    }
    fail(&mut state, "Home", "aa", 100);
    let threats = detect_deauth_attacks(&state, at(100));
    assert_eq!(threats.len(), 2);
    assert_eq!((threats[0].network_ssid.as_str(), threats[0].network_bssid.as_str()), ("Home", "aa"));
    assert_eq!(
        threats[0].details,
        "Rapid connection failures detected (4 failures in 30 seconds), possible deauthentication attack"
    );
    assert_eq!((threats[1].network_ssid.as_str(), threats[1].network_bssid.as_str()), ("Work", "aa"));
    assert_eq!(
        threats[1].details,
        "Rapid connection failures detected (5 failures in 30 seconds), possible deauthentication attack"
    );
}

#[test]
fn eleven_new_networks_are_one_high_flood_threat() {
    let now = at(500);
    let mut state = MonitoringState::default();
    state.previous_networks = numbered("Old", 0, 5);
    let mut current = numbered("Old", 0, 5);
    current.extend(numbered("New", 100, 11));
    let threats = detect_flood_attacks(&state, &current, now);
    assert_eq!(
        threats,
        vec![DetectedThreat {
            threat_type: ThreatType::FloodAttack,
            severity: Severity::High,
            network_ssid: "Multiple".to_string(),
            network_bssid: "Multiple".to_string(),
            details: "Rapid network appearance detected: 11 new networks appeared in single scan, possible flood attack"
                .to_string(),
            timestamp: now,
        }]
    );
    assert_eq!(threats[0].threat_type.as_str(), "flood_attack");
}

#[test]
fn ten_new_networks_are_no_flood() {
    let mut state = MonitoringState::default();
    state.previous_networks = numbered("Old", 0, 5);
    let mut current = numbered("Old", 0, 5);
    current.extend(numbered("New", 100, 10));
    assert_eq!(detect_flood_attacks(&state, &current, at(1)), vec![]);
}

#[test]
fn the_first_scan_of_a_session_is_never_a_flood() {
    let state = MonitoringState::default();
    assert_eq!(detect_flood_attacks(&state, &numbered("New", 0, 200), at(1)), vec![]);
    assert_eq!(detect_flood_attacks(&state, &[], at(1)), vec![]);
}

#[test]
fn eleven_vanished_networks_are_one_medium_flood_threat() {
    let now = at(500);
    let mut state = MonitoringState::default();
    state.previous_networks = numbered("Old", 0, 12);
    let current = numbered("Old", 0, 1);
    let threats = detect_flood_attacks(&state, &current, now);
    assert_eq!(
        threats,
        vec![DetectedThreat {
            threat_type: ThreatType::FloodAttack,
            severity: Severity::Medium,
            network_ssid: "Multiple".to_string(),
            network_bssid: "Multiple".to_string(),
            details: "Rapid network disappearance detected: 11 networks disappeared in single scan"
                .to_string(),
            timestamp: now,
        }]
    );
}

#[test]
fn appearing_and_vanishing_can_both_fire() {
    let mut state = MonitoringState::default();
    state.previous_networks = numbered("Old", 0, 11);
    let current = numbered("New", 100, 11);
    let threats = detect_flood_attacks(&state, &current, at(1));
    assert_eq!(threats.len(), 2);
    assert_eq!(threats[0].severity, Severity::High);
    assert_eq!(threats[1].severity, Severity::Medium);
}

#[test]
fn flood_counts_each_bssid_once_whatever_its_case() {
    let mut state = MonitoringState::default();
    state.previous_networks = vec![net("Old", "AA:00", "1")];
    let mut current = Vec::new();
    for _ in 0..3 {
        current.extend(numbered("New", 100, 10));
    }
    current.push(net("Old", "aa:00", "1"));
    assert_eq!(detect_flood_attacks(&state, &current, at(1)), vec![]);
}

#[test]
fn an_empty_whitelist_switches_the_rule_off() {
    assert_eq!(detect_unauthorized_clients(&numbered("N", 0, 4), &[], at(1)), vec![]);
}

#[test]
fn networks_outside_the_whitelist_are_medium_threats() {
    let now = at(77);
    let batch = vec![net("Home", "AA:01", "1"), net("Cafe", "BB:02", "1"), net("Cafe", "bb:02", "1")];
    let threats = detect_unauthorized_clients(&batch, &strings(&["aa:01"]), now);
    let expected = DetectedThreat {
        threat_type: ThreatType::UnauthorizedClient,
        severity: Severity::Medium,
        network_ssid: "Cafe".to_string(),
        network_bssid: "bb:02".to_string(),
        details: "Unauthorized network detected: Cafe (BSSID: bb:02) not in whitelist".to_string(),
        timestamp: now,
    };
    assert_eq!(threats, vec![expected.clone(), expected]);
    assert_eq!(threats[0].threat_type.as_str(), "unauthorized_client");
    assert_eq!(threats[0].severity.as_str(), "Medium");
}

#[test]
fn the_whitelist_is_compared_without_regard_to_case() {
    let batch = vec![net("Home", "aa:01", "1")];
    assert_eq!(detect_unauthorized_clients(&batch, &strings(&["AA:01"]), at(1)), vec![]);
}

#[test]
fn six_hidden_networks_are_a_probe_anomaly() {
    let now = at(9);
    let batch = vec![
        net("", "01", "1"),
        net("-", "02", "1"),
        net("   ", "03", "1"),
        net("\t", "04", "1"),
        net("", "05", "1"),
        net("Visible", "06", "1"),
        net("-", "07", "1"),
    ];
    assert_eq!(
        detect_probe_anomalies(&batch, now),
        vec![DetectedThreat {
            threat_type: ThreatType::ProbeAnomaly,
            severity: Severity::Medium,
            network_ssid: "Hidden".to_string(),
            network_bssid: "Multiple".to_string(),
            details: "Excessive hidden network probes detected: 6 hidden networks, possible probe flood"
                .to_string(),
            timestamp: now,
        }]
    );
}

#[test]
fn five_hidden_networks_are_no_anomaly() {
    let batch: Vec<WifiNetwork> = (0..5).map(|i| net("", &format!("{}", i), "1")).collect();
    assert_eq!(detect_probe_anomalies(&batch, at(1)), vec![]);
    let dashes = vec![net(" - ", "1", "1"), net("--", "2", "1")];
    assert_eq!(detect_probe_anomalies(&dashes, at(1)), vec![]);
}

fn with_baseline(bssid: &str, samples: &[i32]) -> MonitoringState {
    let mut state = MonitoringState::default();
    state.signal_baselines.push(SignalBaseline { bssid: bssid.to_string(), samples: samples.to_vec() });
    state
}

#[test]
fn a_drop_from_eighty_to_thirty_is_a_decrease_of_sixty_two_percent() {
    let now = at(3);
    let state = with_baseline("aa:bb", &[80, 80, 80]);
    let threats = detect_rf_jamming(&[net("Home", "AA:BB", "30%")], &state, now);
    assert_eq!(
        threats,
        vec![DetectedThreat {
            threat_type: ThreatType::RfJamming,
            severity: Severity::High,
            network_ssid: "Home".to_string(),
            network_bssid: "aa:bb".to_string(),
            details: "Sudden signal strength drop detected: 80% -> 30% (62% decrease), possible RF jamming"
                .to_string(),
            timestamp: now,
        }]
    );
    assert_eq!(threats[0].threat_type.as_str(), "rf_jamming");
}

#[test]
fn a_signal_at_half_the_average_is_no_drop() {
    let state = with_baseline("aa", &[80, 80, 80]);
    assert_eq!(detect_rf_jamming(&[net("Home", "aa", "40%")], &state, at(1)), vec![]);
    assert_eq!(detect_rf_jamming(&[net("Home", "aa", "39%")], &state, at(1)).len(), 1);
    let odd = with_baseline("aa", &[81, 81, 81]);
    assert_eq!(detect_rf_jamming(&[net("Home", "aa", "40%")], &odd, at(1)), vec![]);
}

#[test]
fn a_baseline_of_two_samples_is_too_short() {
    let state = with_baseline("aa", &[80, 80]);
    assert_eq!(detect_rf_jamming(&[net("Home", "aa", "1%")], &state, at(1)), vec![]);
    let none = MonitoringState::default();
    assert_eq!(detect_rf_jamming(&[net("Home", "aa", "1%")], &none, at(1)), vec![]);
}

#[test]
fn an_average_that_is_not_positive_gives_no_drop() {
    let zero = with_baseline("aa", &[0, 0, 0]);
    assert_eq!(detect_rf_jamming(&[net("Home", "aa", "-5")], &zero, at(1)), vec![]);
    let negative = with_baseline("aa", &[-50, -60, -70]);
    assert_eq!(detect_rf_jamming(&[net("Home", "aa", "-90")], &negative, at(1)), vec![]);
    let small = with_baseline("aa", &[1, 1, 0]);
    assert_eq!(detect_rf_jamming(&[net("Home", "aa", "-1")], &small, at(1)), vec![]);
}

#[test]
fn the_average_is_rounded_down_and_large_values_do_not_overflow() {
    let state = with_baseline("aa", &[100, 100, 101]);
    let threats = detect_rf_jamming(&[net("Home", "aa", "7")], &state, at(1));
    assert_eq!(
        threats[0].details,
        "Sudden signal strength drop detected: 100% -> 7% (93% decrease), possible RF jamming"
    );
    let huge = with_baseline("aa", &[i32::MAX, i32::MAX, i32::MAX]);
    let threats = detect_rf_jamming(&[net("Home", "aa", "-2147483648")], &huge, at(1));
    assert_eq!(
        threats[0].details,
        "Sudden signal strength drop detected: 2147483647% -> -2147483648% (200% decrease), possible RF jamming"
    );
}

#[test]
fn four_simultaneous_drops_add_a_critical_threat() {
    let now = at(8);
    let mut state = MonitoringState::default();
    let mut batch = Vec::new();
    for i in 0..4 {
        let bssid = format!("0{}", i);
        state.signal_baselines.push(SignalBaseline { bssid: bssid.clone(), samples: vec![90, 90, 90] });
        batch.push(net("Net", &bssid, "10%"));
    }
    let threats = detect_rf_jamming(&batch, &state, now);
    assert_eq!(threats.len(), 5);
    for t in &threats[..4] {
        assert_eq!(t.severity, Severity::High);
    }
    assert_eq!(
        threats[4],
        DetectedThreat {
            threat_type: ThreatType::RfJamming,
            severity: Severity::Critical,
            network_ssid: "Multiple".to_string(),
            network_bssid: "Multiple".to_string(),
            details: "Multiple networks (4) showing simultaneous signal drops, likely RF jamming attack"
                .to_string(),
            timestamp: now,
        }
    );
    let three = detect_rf_jamming(&batch[..3], &state, now);
    assert_eq!(three.len(), 3);
}

#[test]
fn blacklisted_networks_are_critical_threats() {
    let now = at(4);
    let batch = vec![net("Evil", "DE:AD:BE:EF:00:01", "1"), net("Good", "00:01", "1")];
    let threats = detect_blacklisted_networks(&batch, &strings(&["de:ad:be:ef:00:01"]), now);
    assert_eq!(
        threats,
        vec![DetectedThreat {
            threat_type: ThreatType::BlacklistedNetwork,
            severity: Severity::Critical,
            network_ssid: "Evil".to_string(),
            network_bssid: "de:ad:be:ef:00:01".to_string(),
            details: "Blacklisted network detected: Evil (BSSID: de:ad:be:ef:00:01), avoid connecting"
                .to_string(),
            timestamp: now,
        }]
    );
    assert_eq!(threats[0].threat_type.as_str(), "blacklisted_network");
    assert_eq!(detect_blacklisted_networks(&batch, &[], now), vec![]);
    assert_eq!(
        detect_blacklisted_networks(&batch, &strings(&["DE:AD:BE:EF:00:01"]), now).len(),
        1
    );
}

#[test]
fn bssids_are_lower_cased_beyond_ascii() {
    let batch = vec![net("Home", "ÀB:ÇD", "1")];
    let threats = detect_blacklisted_networks(&batch, &strings(&["àb:çd"]), at(1));
    assert_eq!(threats.len(), 1);
    assert_eq!(threats[0].network_bssid, "àb:çd");
    assert_eq!(
        threats[0].details,
        "Blacklisted network detected: Home (BSSID: àb:çd), avoid connecting"
    );
}
