//! Scans in which many access points appear or vanish at once.
use vstd::prelude::*;
use vstd::string::*;
use crate::clock::Timestamp;
use crate::network::{batch_view, key_list, NetworkView, WifiNetwork};
use crate::number::{decimal, push_decimal};
use crate::seqs::{count_without, distinct, distinct_texts, texts, without};
use crate::state::MonitoringState;
use crate::text::lowercase;
use crate::threat::{threat_views, DetectedThreat, Severity, ThreatType, ThreatView};

verus! {

/// More access points than this that appear, or vanish, between two scans are
/// a flood.
pub const MANY_CHANGES: usize = 10;

/// How many access points `current` shows that `previous` did not show.
pub open spec fn appeared_count(previous: Seq<NetworkView>, current: Seq<NetworkView>) -> nat {
    without(distinct(key_list(current)), key_list(previous)).len()
}

/// What a flood threat says of `count` new access points.
pub open spec fn appeared_details(count: int) -> Seq<char> {
    "Rapid network appearance detected: "@ + decimal(count)
        + " new networks appeared in single scan, possible flood attack"@
}

/// What a flood threat says of `count` vanished access points.
pub open spec fn vanished_details(count: int) -> Seq<char> {
    "Rapid network disappearance detected: "@ + decimal(count)
        + " networks disappeared in single scan"@
}

/// The threat that `count` new access points give.
pub open spec fn appeared_threat(count: int, now: Timestamp) -> ThreatView {
    ThreatView {
        threat_type: ThreatType::FloodAttack,
        severity: Severity::High,
        network_ssid: "Multiple"@,
        network_bssid: "Multiple"@,
        details: appeared_details(count),
        timestamp: now,
    }
}

/// The threat that `count` vanished access points give.
pub open spec fn vanished_threat(count: int, now: Timestamp) -> ThreatView {
    ThreatView {
        threat_type: ThreatType::FloodAttack,
        severity: Severity::Medium,
        network_ssid: "Multiple"@,
        network_bssid: "Multiple"@,
        details: vanished_details(count),
        timestamp: now,
    }
}

/// The threats of the flood rule. Without a previous scan there are none.
/// Else a `High` threat where more than `MANY_CHANGES` access points are new,
/// then a `Medium` threat where more than `MANY_CHANGES` have vanished.
pub open spec fn flood_threats(
    previous: Seq<NetworkView>,
    current: Seq<NetworkView>,
    now: Timestamp,
) -> Seq<ThreatView> {
    let appeared = appeared_count(previous, current);
    let vanished = appeared_count(current, previous);
    let first = if previous.len() > 0 && appeared > MANY_CHANGES {
        seq![appeared_threat(appeared as int, now)]
    } else {
        Seq::empty()
    };
    let second = if previous.len() > 0 && vanished > MANY_CHANGES {
        seq![vanished_threat(vanished as int, now)]
    } else {
        Seq::empty()
    };
    first + second
}

/// The lower-case BSSIDs of the records `networks`, in order.
pub fn lowercase_bssids(networks: &[WifiNetwork]) -> (r: Vec<String>)
    ensures
        texts(r@) == key_list(batch_view(networks@)),
{
    let mut r: Vec<String> = Vec::new();
    let mut i: usize = 0;
    while i < networks.len()
        invariant
            i <= networks.len(),
            r@.len() == i,
            forall|k: int| 0 <= k < i ==> (#[trigger] r@[k])@ == lowercase(networks@[k].bssid@),
        decreases networks.len() - i,
    {
        r.push(networks[i].bssid.as_str().to_lowercase());
        i += 1;
    }
    assert(texts(r@) =~= key_list(batch_view(networks@)));
    r
}

/// Reports a scan that differs from the previous one by more than
/// `MANY_CHANGES` new, or vanished, access points. The first scan of a
/// session has nothing to differ from and reports nothing.
pub fn detect_flood_attacks(
    state: &MonitoringState,
    current_networks: &[WifiNetwork],
    now: Timestamp,
) -> (threats: Vec<DetectedThreat>)
    ensures
        threat_views(threats@) == flood_threats(
            state@.previous_networks,
            batch_view(current_networks@),
            now,
        ),
        state.previous_networks@.len() == 0 ==> threats@.len() == 0,
{
    let mut threats: Vec<DetectedThreat> = Vec::new();
    assert(threat_views(threats@) == Seq::<ThreatView>::empty());
    if state.previous_networks.len() == 0 {
        assert(Seq::<ThreatView>::empty() + Seq::<ThreatView>::empty() == Seq::<
            ThreatView,
        >::empty());
        return threats;
    }
    let previous = lowercase_bssids(state.previous_networks.as_slice());
    let current = lowercase_bssids(current_networks);
    let prev_bssids = distinct_texts(&previous);
    let curr_bssids = distinct_texts(&current);

    let appeared = count_without(&curr_bssids, &previous);
    let ghost first = Seq::<ThreatView>::empty();
    if appeared > MANY_CHANGES {
        let mut details = String::from_str("Rapid network appearance detected: ");
        push_decimal(&mut details, appeared as i128);
        details.append(" new networks appeared in single scan, possible flood attack");
        let threat = DetectedThreat {
            threat_type: ThreatType::FloodAttack,
            severity: Severity::High,
            network_ssid: String::from_str("Multiple"),
            network_bssid: String::from_str("Multiple"),
            details,
            timestamp: now,
        };
        threats.push(threat);
        proof {
            first = seq![threat@];
        }
    }
    assert(threat_views(threats@) == first);

    let vanished = count_without(&prev_bssids, &current);
    if vanished > MANY_CHANGES {
        let mut details = String::from_str("Rapid network disappearance detected: ");
        push_decimal(&mut details, vanished as i128);
        details.append(" networks disappeared in single scan");
        let threat = DetectedThreat {
            threat_type: ThreatType::FloodAttack,
            severity: Severity::Medium,
            network_ssid: String::from_str("Multiple"),
            network_bssid: String::from_str("Multiple"),
            details,
            timestamp: now,
        };
        threats.push(threat);
        assert(threat_views(threats@) == first + seq![threat@]);
    } else {
        assert(threat_views(threats@) == first + Seq::<ThreatView>::empty());
    }
    threats
}

} // verus!
