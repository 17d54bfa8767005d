use wifi_sentry::clock::Timestamp;
use wifi_sentry::detect::{detect_threats, detect_threats_at};
use wifi_sentry::history::update_network_history;
use wifi_sentry::network::WifiNetwork;
use wifi_sentry::state::{
    record_connection_failure, record_connection_failure_at, ConnectionFailure, MonitoringState,
    NetworkHistory, SignalBaseline,
};
use wifi_sentry::threat::{Severity, ThreatType};

fn net(ssid: &str, bssid: &str, signal: &str) -> WifiNetwork {
    WifiNetwork {
        ssid: ssid.to_string(),
        authentication: "WPA2-Personal".to_string(),
        encryption: "CCMP".to_string(),
        bssid: bssid.to_string(),
        signal: signal.to_string(),
        risk: String::new(),
        is_evil_twin: false,
    }
}

fn at(secs: i64) -> Timestamp {
    Timestamp::new(secs, 0)
}

fn system_secs() -> i64 {
    std::time::SystemTime::now().duration_since(std::time::UNIX_EPOCH).unwrap().as_secs() as i64
}

#[test]
fn a_new_state_is_empty() {
    let state = MonitoringState::default();
    assert!(state.previous_networks.is_empty());
    assert!(state.network_history.is_empty());
    assert!(state.connection_failures.is_empty());
    assert!(state.signal_baselines.is_empty());
    assert_eq!(state.scan_count, 0);
    assert_eq!(state.last_scan_time, None);
}

#[test]
fn the_first_observation_creates_history_and_baseline() {
    let mut state = MonitoringState::default();
    update_network_history(&[net("Home", "AA:BB", "85%")], &mut state, at(100));
    assert_eq!(
        state.network_history,
        vec![NetworkHistory {
            ssid: "Home".to_string(),
            bssid: "aa:bb".to_string(),
            signal_strength: 85,
            first_seen: at(100),
            last_seen: at(100),
            appearance_count: 1,
            previous_signals: vec![85],
        }]
    );
    assert_eq!(
        state.signal_baselines,
        vec![SignalBaseline { bssid: "aa:bb".to_string(), samples: vec![85] }]
    );
    assert_eq!(state.scan_count, 0);
    assert_eq!(state.last_scan_time, None);
}

#[test]
fn a_later_observation_updates_the_entry() {
    let mut state = MonitoringState::default();
    update_network_history(&[net("Home", "AA:BB", "85%")], &mut state, at(100));
    update_network_history(&[net("Home2", "aa:bb", "bad"), net("Cafe", "cc", "40")], &mut state, at(160));
    assert_eq!(
        state.network_history,
        vec![
            NetworkHistory {
                ssid: "Home2".to_string(),
                bssid: "aa:bb".to_string(),
                signal_strength: 0,
                first_seen: at(100),
                last_seen: at(160),
                appearance_count: 2,
                previous_signals: vec![85, 0],
            },
            NetworkHistory {
                ssid: "Cafe".to_string(),
                bssid: "cc".to_string(),
                signal_strength: 40,
                first_seen: at(160),
                last_seen: at(160),
                appearance_count: 1,
                previous_signals: vec![40],
            },
        ]
    );
    assert_eq!(
        state.signal_baselines,
        vec![
            SignalBaseline { bssid: "aa:bb".to_string(), samples: vec![85, 0] },
            SignalBaseline { bssid: "cc".to_string(), samples: vec![40] },
        ]
    );
}

#[test]
fn a_bssid_twice_in_one_scan_is_observed_twice() {
    let mut state = MonitoringState::default();
    update_network_history(&[net("A", "aa", "10"), net("B", "AA", "20")], &mut state, at(1));
    assert_eq!(state.network_history.len(), 1);
    assert_eq!(state.network_history[0].ssid, "B");
    assert_eq!(state.network_history[0].appearance_count, 2);
    assert_eq!(state.network_history[0].previous_signals, vec![10, 20]);
    assert_eq!(state.signal_baselines[0].samples, vec![10, 20]);
}

#[test]
fn queues_never_hold_more_than_ten_samples() {
    let mut state = MonitoringState::default();
    for i in 0..25 {
        update_network_history(&[net("Home", "aa", &format!("{}%", i))], &mut state, at(i as i64));
        assert!(state.network_history[0].previous_signals.len() <= 10);
        assert!(state.signal_baselines[0].samples.len() <= 10);
    }
    let last_ten: Vec<i32> = (15..25).collect();
    assert_eq!(state.network_history[0].previous_signals, last_ten);
    assert_eq!(state.signal_baselines[0].samples, last_ten);
    assert_eq!(state.network_history[0].appearance_count, 25);
    assert_eq!(state.network_history[0].signal_strength, 24);
}

#[test]
fn an_entry_not_seen_for_five_minutes_and_a_second_is_removed() {
    let mut state = MonitoringState::default();
    update_network_history(&[net("Home", "aa", "1")], &mut state, at(1_000));
    update_network_history(&[], &mut state, at(1_301));
    assert!(state.network_history.is_empty());
    assert_eq!(state.signal_baselines.len(), 1);
}

#[test]
fn an_entry_seen_four_minutes_fifty_nine_ago_is_retained() {
    let mut state = MonitoringState::default();
    update_network_history(&[net("Home", "aa", "1")], &mut state, at(1_000));
    update_network_history(&[], &mut state, at(1_299));
    assert_eq!(state.network_history.len(), 1);
    assert_eq!(state.network_history[0].last_seen, at(1_000));
}

#[test]
fn an_entry_seen_exactly_five_minutes_ago_is_removed() {
    let mut state = MonitoringState::default();
    update_network_history(&[net("Home", "aa", "1")], &mut state, Timestamp::new(1_000, 500));
    update_network_history(&[], &mut state, Timestamp::new(1_300, 499));
    assert_eq!(state.network_history.len(), 1);
    update_network_history(&[], &mut state, Timestamp::new(1_300, 500));
    assert!(state.network_history.is_empty());
}

#[test]
fn the_sweep_keeps_the_order_of_the_entries() {
    let mut state = MonitoringState::default();
    update_network_history(&[net("A", "0a", "1"), net("B", "0b", "1"), net("C", "0c", "1")], &mut state, at(0));
    update_network_history(&[net("A", "0a", "1"), net("C", "0c", "1")], &mut state, at(200));
    update_network_history(&[net("D", "0d", "1")], &mut state, at(400));
    let keys: Vec<&str> = state.network_history.iter().map(|h| h.bssid.as_str()).collect();
    assert_eq!(keys, vec!["0a", "0c", "0d"]);
}

#[test]
fn a_pass_commits_the_scan() {
    let mut state = MonitoringState::default();
    let batch = vec![net("Home", "AA", "80%"), net("Cafe", "BB", "60%")];
    let threats = detect_threats_at(&batch, &mut state, &[], &[], at(50));
    assert!(threats.is_empty());
    assert_eq!(state.previous_networks, batch);
    assert_eq!(state.scan_count, 1);
    assert_eq!(state.last_scan_time, Some(at(50)));
    assert_eq!(state.network_history.len(), 2);
    detect_threats_at(&[], &mut state, &[], &[], at(60));
    assert!(state.previous_networks.is_empty());
    assert_eq!(state.scan_count, 2);
    assert_eq!(state.last_scan_time, Some(at(60)));
}

#[test]
fn the_scan_count_stops_at_its_greatest_value() {
    let mut state = MonitoringState::default();
    state.scan_count = u64::MAX - 1;
    detect_threats_at(&[], &mut state, &[], &[], at(1));
    assert_eq!(state.scan_count, u64::MAX);
    detect_threats_at(&[], &mut state, &[], &[], at(2));
    assert_eq!(state.scan_count, u64::MAX);
}

#[test]
fn a_pass_purges_failures_older_than_a_minute() {
    let mut state = MonitoringState::default();
    for s in [939, 940, 941, 999] {
        record_connection_failure_at(&mut state, "Home".to_string(), "aa".to_string(), "x".to_string(), at(s));
    }
    detect_threats_at(&[], &mut state, &[], &[], at(1_000));
    let left: Vec<i64> = state.connection_failures.iter().map(|f| f.timestamp.secs).collect();
    assert_eq!(left, vec![941, 999]);
}

#[test]
fn record_connection_failure_at_appends_to_the_log() {
    let mut state = MonitoringState::default();
    record_connection_failure_at(&mut state, "Home".to_string(), "AA".to_string(), "timeout".to_string(), at(7));
    record_connection_failure_at(&mut state, "Cafe".to_string(), "bb".to_string(), "refused".to_string(), at(8));
    assert_eq!(
        state.connection_failures,
        vec![
            ConnectionFailure {
                network_ssid: "Home".to_string(),
                network_bssid: "AA".to_string(),
                timestamp: at(7),
                reason: "timeout".to_string(),
            },
            ConnectionFailure {
                network_ssid: "Cafe".to_string(),
                network_bssid: "bb".to_string(),
                timestamp: at(8),
                reason: "refused".to_string(),
            },
        ]
    );
}

#[test]
fn record_connection_failure_stamps_the_current_time() {
    let before = system_secs();
    let mut state = MonitoringState::default();
    record_connection_failure(&mut state, "Home".to_string(), "aa".to_string(), "timeout".to_string());
    let after = system_secs();
    assert_eq!(state.connection_failures.len(), 1);
    let f = &state.connection_failures[0];
    assert_eq!(f.network_ssid, "Home");
    assert_eq!(f.network_bssid, "aa");
    assert_eq!(f.reason, "timeout");
    assert!(before <= f.timestamp.secs && f.timestamp.secs <= after);
    assert!(f.timestamp.nanos < 1_000_000_000);
}

#[test]
fn detect_threats_runs_the_pass_at_the_current_time() {
    let before = system_secs();
    let mut state = MonitoringState::default();
    let batch = vec![net("Evil", "DE:AD", "80%")];
    let threats = detect_threats(&batch, &mut state, &[], &["de:ad".to_string()]);
    let after = system_secs();
    assert_eq!(threats.len(), 1);
    assert_eq!(threats[0].threat_type, ThreatType::BlacklistedNetwork);
    let stamp = state.last_scan_time.unwrap();
    assert!(before <= stamp.secs && stamp.secs <= after);
    assert_eq!(threats[0].timestamp, stamp);
    assert_eq!(state.network_history[0].last_seen, stamp);
    assert_eq!(state.scan_count, 1);
    assert_eq!(state.previous_networks, batch);
}

#[test]
fn the_rules_report_in_their_order() {
    let mut state = MonitoringState::default();
    let mut previous = Vec::new();
    for i in 0..11 {
        previous.push(net(&format!("Old{}", i), &format!("0{:x}", i), "90%"));
    }
    for t in 0..3 {
        detect_threats_at(&previous, &mut state, &[], &[], at(t));
    }
    for _ in 0..4 {
        record_connection_failure_at(&mut state, "Old0".to_string(), "00".to_string(), "x".to_string(), at(3));
    }
    let mut batch = Vec::new();
    batch.push(net("Old0", "00", "10%"));
    batch.push(net("Twin", "00", "10%"));
    for i in 0..11 {
        batch.push(net("", &format!("1{:x}", i), "50%"));
    }
    let whitelist = vec!["00".to_string()];
    let blacklist = vec!["1A".to_string()];
    let threats = detect_threats_at(&batch, &mut state, &whitelist, &blacklist, at(4));
    let kinds: Vec<(ThreatType, Severity)> =
        threats.iter().map(|t| (t.threat_type, t.severity)).collect();
    let mut expected = vec![
        (ThreatType::MacSpoof, Severity::Critical),
        (ThreatType::DeauthAttack, Severity::High),
        (ThreatType::FloodAttack, Severity::High),
    ];
    for _ in 0..11 {
        expected.push((ThreatType::UnauthorizedClient, Severity::Medium));
    }
    expected.push((ThreatType::ProbeAnomaly, Severity::Medium));
    expected.push((ThreatType::RfJamming, Severity::High));
    expected.push((ThreatType::RfJamming, Severity::High));
    expected.push((ThreatType::BlacklistedNetwork, Severity::Critical));
    assert_eq!(kinds, expected);
    for t in &threats {
        assert_eq!(t.timestamp, at(4));
    }
}

#[test]
fn jamming_sees_the_baseline_with_the_current_signal_in_it() {
    let mut state = MonitoringState::default();
    for (t, s) in [86, 86, 86, 86, 86, 85, 85, 85, 85].iter().enumerate() {
        let threats = detect_threats_at(&[net("Home", "aa", &format!("{}%", s))], &mut state, &[], &[], at(t as i64));
        assert!(threats.is_empty());
    }
    let threats = detect_threats_at(&[net("Home", "aa", "30%")], &mut state, &[], &[], at(9));
    assert_eq!(threats.len(), 1);
    assert_eq!(threats[0].threat_type, ThreatType::RfJamming);
    assert_eq!(threats[0].severity, Severity::High);
    assert_eq!(
        threats[0].details,
        "Sudden signal strength drop detected: 80% -> 30% (62% decrease), possible RF jamming"
    );
}

#[test]
fn a_flood_is_judged_against_the_scan_before() {
    let mut state = MonitoringState::default();
    let first: Vec<WifiNetwork> = (0..5).map(|i| net(&format!("N{}", i), &format!("a{}", i), "50%")).collect();
    let threats = detect_threats_at(&first, &mut state, &[], &[], at(0));
    assert!(threats.is_empty());
    let mut second = first.clone();
    for i in 0..11 {
        second.push(net(&format!("M{}", i), &format!("b{:x}", i), "50%"));
    }
    let threats = detect_threats_at(&second, &mut state, &[], &[], at(10));
    assert_eq!(threats.len(), 1);
    assert_eq!(threats[0].threat_type, ThreatType::FloodAttack);
    assert_eq!(threats[0].severity, Severity::High);
    assert_eq!(
        threats[0].details,
        "Rapid network appearance detected: 11 new networks appeared in single scan, possible flood attack"
    );
    let threats = detect_threats_at(&second, &mut state, &[], &[], at(20));
    assert!(threats.is_empty());
}

#[test]
fn cloning_a_state_copies_everything() {
    let mut state = MonitoringState::default();
    detect_threats_at(&[net("Home", "aa", "80%")], &mut state, &[], &[], at(5));
    record_connection_failure_at(&mut state, "Home".to_string(), "aa".to_string(), "x".to_string(), at(6));
    let copy = state.clone();
    assert_eq!(copy, state);
}

#[test]
fn within_compares_to_the_nanosecond() {
    let now = Timestamp::new(100, 5);
    assert!(Timestamp::new(70, 6).within(now, 30));
    assert!(!Timestamp::new(70, 5).within(now, 30));
    assert!(!Timestamp::new(70, 4).within(now, 30));
    assert!(Timestamp::new(71, 0).within(now, 30));
    assert!(Timestamp::new(200, 0).within(now, 30));
    assert!(Timestamp::new(i64::MIN, 1).within(Timestamp::new(i64::MIN, 0), 0));
    assert!(!Timestamp::new(i64::MIN, 0).within(Timestamp::new(i64::MAX, 0), i64::MAX));
}
