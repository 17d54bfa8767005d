use wifi_sentry::evil_twin::mark_evil_twins;
use wifi_sentry::network::WifiNetwork;
use wifi_sentry::risk::{calculate_risk, hidden_name};
use wifi_sentry::threat::{Severity, ThreatType};

fn net(ssid: &str, bssid: &str, auth: &str, enc: &str) -> WifiNetwork {
    WifiNetwork {
        ssid: ssid.to_string(),
        authentication: auth.to_string(),
        encryption: enc.to_string(),
        bssid: bssid.to_string(),
        signal: "70%".to_string(),
        risk: "Low".to_string(),
        is_evil_twin: false,
    }
}

fn flags(batch: &[WifiNetwork]) -> Vec<bool> {
    batch.iter().map(|n| n.is_evil_twin).collect()
}

#[test]
fn a_name_on_two_access_points_that_disagree_is_tagged() {
    let mut batch = vec![
        net("Home", "aa", "WPA2-Personal", "CCMP"),
        net("Cafe", "cc", "Open", "None"),
        net("Home", "bb", "Open", "None"),
        net("Home", "dd", "WPA2-Personal", "CCMP"),
    ];
    let before = batch.clone();
    mark_evil_twins(&mut batch);
    assert_eq!(flags(&batch), vec![true, false, true, true]);
    for (a, b) in batch.iter().zip(before.iter()) {
        assert_eq!((&a.ssid, &a.bssid, &a.authentication, &a.encryption, &a.signal, &a.risk),
                   (&b.ssid, &b.bssid, &b.authentication, &b.encryption, &b.signal, &b.risk));
    }
}

#[test]
fn access_points_that_agree_are_not_tagged() {
    let mut batch = vec![
        net("Home", "aa", "WPA2-Personal", "CCMP"),
        net("Home", "bb", "WPA2-Personal", "CCMP"),
        net("home", "cc", "Open", "None"),
    ];
    mark_evil_twins(&mut batch);
    assert_eq!(flags(&batch), vec![false, false, false]);
}

#[test]
fn one_access_point_seen_twice_is_no_twin_of_itself() {
    let mut batch = vec![net("Home", "AA", "WPA2-Personal", "CCMP"), net("Home", "aa", "Open", "None")];
    mark_evil_twins(&mut batch);
    assert_eq!(flags(&batch), vec![false, false]);
}

#[test]
fn a_difference_in_encryption_alone_is_a_conflict() {
    let mut batch = vec![net("Home", "aa", "WPA2-Personal", "CCMP"), net("Home", "bb", "WPA2-Personal", "TKIP")];
    mark_evil_twins(&mut batch);
    assert_eq!(flags(&batch), vec![true, true]);
}

#[test]
fn tagging_twice_gives_the_same_flags() {
    let mut batch = vec![
        net("Home", "aa", "WPA2-Personal", "CCMP"),
        net("Cafe", "cc", "Open", "None"),
        net("Home", "bb", "Open", "None"),
    ];
    mark_evil_twins(&mut batch);
    let once = batch.clone();
    mark_evil_twins(&mut batch);
    assert_eq!(batch, once);
}

#[test]
fn tagging_clears_flags_that_do_not_hold() {
    let mut batch = vec![net("Home", "aa", "WPA2-Personal", "CCMP")];
    batch[0].is_evil_twin = true;
    mark_evil_twins(&mut batch);
    assert_eq!(flags(&batch), vec![false]);
    let mut empty: Vec<WifiNetwork> = Vec::new();
    mark_evil_twins(&mut empty);
    assert!(empty.is_empty());
}

#[test]
fn risk_is_the_sum_of_four_shares() {
    assert_eq!(calculate_risk("WPA2-Personal", "CCMP", "85%", "Home"), "Low");
    assert_eq!(calculate_risk("WPA2-Personal", "CCMP", "10%", "Home"), "Low");
    assert_eq!(calculate_risk("WPA2-Personal", "TKIP", "85%", "Home"), "Low");
    assert_eq!(calculate_risk("WPA2-Personal", "TKIP", "10%", "Home"), "Medium");
    assert_eq!(calculate_risk("WPA2-Personal", "WEP", "85%", "Home"), "Medium");
    assert_eq!(calculate_risk("WPA2-Personal", "CCMP", "85%", "-"), "Medium");
    assert_eq!(calculate_risk("Open", "CCMP", "85%", "Home"), "Medium");
    assert_eq!(calculate_risk("WPA2-Personal", "None", "85%", "Home"), "Medium");
    assert_eq!(calculate_risk("WPA2-Personal", "None", "10%", "Home"), "Medium");
    assert_eq!(calculate_risk("Open", "WEP", "85%", "Home"), "High");
    assert_eq!(calculate_risk("Open", "None", "85%", "Home"), "High");
    assert_eq!(calculate_risk("WPA2-Personal", "None", "85%", ""), "High");
    assert_eq!(calculate_risk("WPA2-Personal", "WEP", "10%", " "), "High");
    assert_eq!(calculate_risk("", "", "", ""), "High");
}

#[test]
fn the_weak_signal_boundary_is_thirty() {
    assert_eq!(calculate_risk("WPA2-Personal", "TKIP", "29%", "Home"), "Medium");
    assert_eq!(calculate_risk("WPA2-Personal", "TKIP", "30%", "Home"), "Low");
    assert_eq!(calculate_risk("WPA2-Personal", "TKIP", "unknown", "Home"), "Medium");
}

#[test]
fn hidden_names_are_blank_or_a_dash() {
    assert!(hidden_name(""));
    assert!(hidden_name("  \t"));
    assert!(hidden_name("-"));
    assert!(!hidden_name(" - "));
    assert!(!hidden_name("--"));
    assert!(!hidden_name("Home"));
}

#[test]
fn kinds_and_severities_are_found_by_their_names() {
    let kinds = [
        ThreatType::MacSpoof,
        ThreatType::DeauthAttack,
        ThreatType::FloodAttack,
        ThreatType::UnauthorizedClient,
        ThreatType::ProbeAnomaly,
        ThreatType::RfJamming,
        ThreatType::BlacklistedNetwork,
    ];
    for k in kinds {
        assert_eq!(ThreatType::from_name(k.as_str()), Some(k));
    }
    assert_eq!(ThreatType::from_name("mac_spoof"), Some(ThreatType::MacSpoof));
    assert_eq!(ThreatType::from_name("Mac_spoof"), None);
    assert_eq!(ThreatType::from_name(""), None);
    for s in [Severity::Critical, Severity::High, Severity::Medium] {
        assert_eq!(Severity::from_name(s.as_str()), Some(s));
    }
    assert_eq!(Severity::from_name("Low"), None);
}
