//! Scans that show suspiciously many hidden networks.
use vstd::prelude::*;
use vstd::string::*;
use crate::clock::Timestamp;
use crate::network::{batch_view, NetworkView, WifiNetwork};
use crate::number::{decimal, push_decimal};
use crate::risk::{hidden_name, is_hidden_name};
use crate::threat::{threat_views, DetectedThreat, Severity, ThreatType, ThreatView};

verus! {

/// More hidden networks than this in one scan are an anomaly.
pub const MANY_HIDDEN: usize = 5;

/// How many records of `batch` have a hidden name.
pub open spec fn hidden_count(batch: Seq<NetworkView>) -> nat
    decreases batch.len(),
{
    if batch.len() == 0 {
        0
    } else {
        hidden_count(batch.drop_last()) + if is_hidden_name(batch.last().ssid) {
            1nat
        } else {
            0nat
        }
    }
}

/// What a probe-anomaly threat says of `count` hidden networks.
pub open spec fn probe_details(count: int) -> Seq<char> {
    "Excessive hidden network probes detected: "@ + decimal(count)
        + " hidden networks, possible probe flood"@
}

/// The threat that `count` hidden networks give.
pub open spec fn probe_threat(count: int, now: Timestamp) -> ThreatView {
    ThreatView {
        threat_type: ThreatType::ProbeAnomaly,
        severity: Severity::Medium,
        network_ssid: "Hidden"@,
        network_bssid: "Multiple"@,
        details: probe_details(count),
        timestamp: now,
    }
}

/// The threats of the probe rule: one `Medium` threat where more than
/// `MANY_HIDDEN` records have a hidden name, else none.
pub open spec fn probe_threats(batch: Seq<NetworkView>, now: Timestamp) -> Seq<ThreatView> {
    if hidden_count(batch) > MANY_HIDDEN {
        seq![probe_threat(hidden_count(batch) as int, now)]
    } else {
        Seq::empty()
    }
}

/// Reports a scan in which more than `MANY_HIDDEN` networks hide their name.
pub fn detect_probe_anomalies(
    networks: &[WifiNetwork],
    now: Timestamp,
) -> (threats: Vec<DetectedThreat>)
    ensures
        threat_views(threats@) == probe_threats(batch_view(networks@), now),
{
    let mut threats: Vec<DetectedThreat> = Vec::new();
    let ghost batch = batch_view(networks@);
    let mut hidden: usize = 0;
    let mut i: usize = 0;
    while i < networks.len()
        invariant
            i <= networks.len(),
            batch == batch_view(networks@),
            hidden <= i,
            hidden == hidden_count(batch.take(i as int)),
        decreases networks.len() - i,
    {
        proof {
            assert(batch.take(i + 1).drop_last() == batch.take(i as int));
            assert(batch.take(i + 1).last() == networks@[i as int]@);
        }
        if hidden_name(networks[i].ssid.as_str()) {
            hidden += 1;
        }
        i += 1;
    }
    assert(batch.take(networks.len() as int) == batch);
    if hidden > MANY_HIDDEN {
        let mut details = String::from_str("Excessive hidden network probes detected: ");
        push_decimal(&mut details, hidden as i128);
        details.append(" hidden networks, possible probe flood");
        let threat = DetectedThreat {
            threat_type: ThreatType::ProbeAnomaly,
            severity: Severity::Medium,
            network_ssid: String::from_str("Hidden"),
            network_bssid: String::from_str("Multiple"),
            details,
            timestamp: now,
        };
        threats.push(threat);
        assert(threat_views(threats@) == seq![threat@]);
    } else {
        assert(threat_views(threats@) == Seq::<ThreatView>::empty());
    }
    threats
}

} // verus!
