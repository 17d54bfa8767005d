//! The events that the detector reports.
use vstd::prelude::*;
use vstd::string::*;
use crate::clock::Timestamp;
use crate::text::same_text;

verus! {

/// What kind of activity a threat reports.
#[derive(Clone, Copy, Debug, PartialEq, Eq, Structural)]
pub enum ThreatType {
    MacSpoof,
    DeauthAttack,
    FloodAttack,
    UnauthorizedClient,
    ProbeAnomaly,
    RfJamming,
    BlacklistedNetwork,
}

/// How grave a threat is.
#[derive(Clone, Copy, Debug, PartialEq, Eq, Structural)]
pub enum Severity {
    Critical,
    High,
    Medium,
}

impl ThreatType {
    /// The name under which the kind is reported.
    pub open spec fn name(self) -> Seq<char> {
        match self {
            ThreatType::MacSpoof => "mac_spoof"@,
            ThreatType::DeauthAttack => "deauth_attack"@,
            ThreatType::FloodAttack => "flood_attack"@,
            ThreatType::UnauthorizedClient => "unauthorized_client"@,
            ThreatType::ProbeAnomaly => "probe_anomaly"@,
            ThreatType::RfJamming => "rf_jamming"@,
            ThreatType::BlacklistedNetwork => "blacklisted_network"@,
        }
    }

    /// The name under which the kind is reported.
    pub fn as_str(&self) -> (s: &'static str)
        ensures
            s@ == self.name(),
    {
        match self {
            ThreatType::MacSpoof => "mac_spoof",
            ThreatType::DeauthAttack => "deauth_attack",
            ThreatType::FloodAttack => "flood_attack",
            ThreatType::UnauthorizedClient => "unauthorized_client",
            ThreatType::ProbeAnomaly => "probe_anomaly",
            ThreatType::RfJamming => "rf_jamming",
            ThreatType::BlacklistedNetwork => "blacklisted_network",
        }
    }
}

impl ThreatType {
    /// The kind that is reported under the name `name`, if there is one.
    pub fn from_name(name: &str) -> (kind: Option<ThreatType>)
        ensures
            forall|k: ThreatType| name@ == #[trigger] k.name() <==> kind == Some(k),
    {
        let kind = if same_text(name, "mac_spoof") {
            Some(ThreatType::MacSpoof)
        } else if same_text(name, "deauth_attack") {
            Some(ThreatType::DeauthAttack)
        } else if same_text(name, "flood_attack") {
            Some(ThreatType::FloodAttack)
        } else if same_text(name, "unauthorized_client") {
            Some(ThreatType::UnauthorizedClient)
        } else if same_text(name, "probe_anomaly") {
            Some(ThreatType::ProbeAnomaly)
        } else if same_text(name, "rf_jamming") {
            Some(ThreatType::RfJamming)
        } else if same_text(name, "blacklisted_network") {
            Some(ThreatType::BlacklistedNetwork)
        } else {
            None
        };
        proof {
            threat_names_differ();
            assert forall|k: ThreatType| name@ == #[trigger] k.name() <==> kind == Some(k) by {
                if kind is Some {
                    assert(kind->0.name() == name@);
                }
            }
        }
        kind
    }
}

impl Severity {
    /// The severity that is reported under the name `name`, if there is one.
    pub fn from_name(name: &str) -> (severity: Option<Severity>)
        ensures
            forall|s: Severity| name@ == #[trigger] s.name() <==> severity == Some(s),
    {
        let severity = if same_text(name, "Critical") {
            Some(Severity::Critical)
        } else if same_text(name, "High") {
            Some(Severity::High)
        } else if same_text(name, "Medium") {
            Some(Severity::Medium)
        } else {
            None
        };
        proof {
            severity_names_differ();
            assert forall|s: Severity| name@ == #[trigger] s.name() <==> severity == Some(s) by {
                if severity is Some {
                    assert(severity->0.name() == name@);
                }
            }
        }
        severity
    }

    /// The name under which the severity is reported.
    pub open spec fn name(self) -> Seq<char> {
        match self {
            Severity::Critical => "Critical"@,
            Severity::High => "High"@,
            Severity::Medium => "Medium"@,
        }
    }

    /// The name under which the severity is reported.
    pub fn as_str(&self) -> (s: &'static str)
        ensures
            s@ == self.name(),
    {
        match self {
            Severity::Critical => "Critical",
            Severity::High => "High",
            Severity::Medium => "Medium",
        }
    }
}

/// One detected threat. Where a threat spans many networks, `network_ssid`
/// and `network_bssid` hold `Multiple`; the name of a hidden network is given
/// as `Hidden`.
#[derive(Debug, PartialEq, Eq)]
pub struct DetectedThreat {
    pub threat_type: ThreatType,
    pub severity: Severity,
    pub network_ssid: String,
    pub network_bssid: String,
    pub details: String,
    pub timestamp: Timestamp,
}

/// A `DetectedThreat` as plain values.
pub struct ThreatView {
    pub threat_type: ThreatType,
    pub severity: Severity,
    pub network_ssid: Seq<char>,
    pub network_bssid: Seq<char>,
    pub details: Seq<char>,
    pub timestamp: Timestamp,
}

impl View for DetectedThreat {
    type V = ThreatView;

    open spec fn view(&self) -> ThreatView {
        ThreatView {
            threat_type: self.threat_type,
            severity: self.severity,
            network_ssid: self.network_ssid@,
            network_bssid: self.network_bssid@,
            details: self.details@,
            timestamp: self.timestamp,
        }
    }
}

impl Clone for DetectedThreat {
    fn clone(&self) -> (r: Self)
        ensures
            r == *self,
    {
        DetectedThreat {
            threat_type: self.threat_type,
            severity: self.severity,
            network_ssid: self.network_ssid.clone(),
            network_bssid: self.network_bssid.clone(),
            details: self.details.clone(),
            timestamp: self.timestamp,
        }
    }
}

/// The threats of a list as plain values.
pub open spec fn threat_views(threats: Seq<DetectedThreat>) -> Seq<ThreatView> {
    Seq::new(threats.len(), |i: int| threats[i]@)
}

/// Appends `more` to `threats`.
pub fn extend_threats(threats: &mut Vec<DetectedThreat>, more: Vec<DetectedThreat>)
    ensures
        threat_views(final(threats)@) == threat_views(old(threats)@) + threat_views(more@),
{
    let mut more = more;
    let ghost first = threats@;
    let ghost second = more@;
    threats.append(&mut more);
    assert(threat_views(threats@) == threat_views(first) + threat_views(second));
}

/// Whether every threat of `threats` is of the kind `kind`.
pub open spec fn all_of_type(threats: Seq<ThreatView>, kind: ThreatType) -> bool {
    forall|i: int| 0 <= i < threats.len() ==> (#[trigger] threats[i]).threat_type == kind
}

/// How many threats of `threats` meet `wanted`.
pub open spec fn count_where(threats: Seq<ThreatView>, wanted: spec_fn(ThreatView) -> bool) -> nat
    decreases threats.len(),
{
    if threats.len() == 0 {
        0
    } else {
        count_where(threats.drop_last(), wanted) + if wanted(threats.last()) {
            1nat
        } else {
            0nat
        }
    }
}

/// Counting goes through concatenation.
pub proof fn lemma_count_where_concat(
    a: Seq<ThreatView>,
    b: Seq<ThreatView>,
    wanted: spec_fn(ThreatView) -> bool,
)
    ensures
        count_where(a + b, wanted) == count_where(a, wanted) + count_where(b, wanted),
    decreases b.len(),
{
    if b.len() == 0 {
        assert(a + b == a);
    } else {
        assert((a + b).drop_last() == a + b.drop_last());
        assert((a + b).last() == b.last());
        lemma_count_where_concat(a, b.drop_last(), wanted);
    }
}

/// Where no threat meets `wanted`, the count is zero.
pub proof fn lemma_count_where_none(threats: Seq<ThreatView>, wanted: spec_fn(ThreatView) -> bool)
    requires
        forall|i: int| 0 <= i < threats.len() ==> !wanted(#[trigger] threats[i]),
    ensures
        count_where(threats, wanted) == 0,
    decreases threats.len(),
{
    if threats.len() > 0 {
        assert(!wanted(threats[threats.len() - 1]));
        assert forall|i: int| 0 <= i < threats.drop_last().len() implies !wanted(
            #[trigger] threats.drop_last()[i],
        ) by {
            assert(threats.drop_last()[i] == threats[i]);
        }
        lemma_count_where_none(threats.drop_last(), wanted);
    }
}

/// No two kinds of threat are reported under one name.
pub proof fn threat_names_differ()
    ensures
        forall|a: ThreatType, b: ThreatType| #[trigger] a.name() == #[trigger] b.name() ==> a == b,
{
    reveal_strlit("mac_spoof");
    reveal_strlit("deauth_attack");
    reveal_strlit("flood_attack");
    reveal_strlit("unauthorized_client");
    reveal_strlit("probe_anomaly");
    reveal_strlit("rf_jamming");
    reveal_strlit("blacklisted_network");
    assert("mac_spoof"@.len() == 9);
    assert("deauth_attack"@.len() == 13 && "deauth_attack"@[0] == 'd');
    assert("flood_attack"@.len() == 12);
    assert("unauthorized_client"@.len() == 19 && "unauthorized_client"@[0] == 'u');
    assert("probe_anomaly"@.len() == 13 && "probe_anomaly"@[0] == 'p');
    assert("rf_jamming"@.len() == 10);
    assert("blacklisted_network"@.len() == 19 && "blacklisted_network"@[0] == 'b');
}

/// No two severities are reported under one name.
pub proof fn severity_names_differ()
    ensures
        forall|a: Severity, b: Severity| #[trigger] a.name() == #[trigger] b.name() ==> a == b,
{
    reveal_strlit("Critical");
    reveal_strlit("High");
    reveal_strlit("Medium");
    assert("Critical"@.len() == 8);
    assert("High"@.len() == 4);
    assert("Medium"@.len() == 6);
}

} // verus!
