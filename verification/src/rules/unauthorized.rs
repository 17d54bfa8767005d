//! Networks that the configured whitelist does not name.
use vstd::prelude::*;
use vstd::string::*;
use crate::clock::Timestamp;
use crate::network::{batch_view, bssid_key, NetworkView, WifiNetwork};
use crate::rules::blacklist::{canonical_bssids, canonical_list, is_listed};
use crate::seqs::{find_text, texts};
use crate::threat::{
    all_of_type, threat_views, DetectedThreat, Severity, ThreatType, ThreatView,
};

verus! {

/// What an unauthorized-network threat says of the record `n`.
pub open spec fn unauthorized_details(n: NetworkView) -> Seq<char> {
    "Unauthorized network detected: "@ + n.ssid + " (BSSID: "@ + bssid_key(n)
        + ") not in whitelist"@
}

/// The threat that the record `n` gives where the whitelist does not name it.
pub open spec fn unauthorized_threat(n: NetworkView, now: Timestamp) -> ThreatView {
    ThreatView {
        threat_type: ThreatType::UnauthorizedClient,
        severity: Severity::Medium,
        network_ssid: n.ssid,
        network_bssid: bssid_key(n),
        details: unauthorized_details(n),
        timestamp: now,
    }
}

/// One `Medium` threat for each record of `batch` whose BSSID is not in
/// `whitelist`, in the order of the records.
pub open spec fn unlisted_threats(
    batch: Seq<NetworkView>,
    whitelist: Seq<Seq<char>>,
    now: Timestamp,
) -> Seq<ThreatView>
    decreases batch.len(),
{
    if batch.len() == 0 {
        Seq::empty()
    } else {
        let prior = unlisted_threats(batch.drop_last(), whitelist, now);
        if is_listed(whitelist, batch.last()) {
            prior
        } else {
            prior.push(unauthorized_threat(batch.last(), now))
        }
    }
}

/// The threats of the whitelist rule: none where the whitelist is empty,
/// else one for each record that it does not name.
pub open spec fn unauthorized_threats(
    batch: Seq<NetworkView>,
    whitelist: Seq<Seq<char>>,
    now: Timestamp,
) -> Seq<ThreatView> {
    if whitelist.len() == 0 {
        Seq::empty()
    } else {
        unlisted_threats(batch, whitelist, now)
    }
}

/// Reports every record whose BSSID the whitelist does not name. An empty
/// whitelist switches the rule off.
pub fn detect_unauthorized_clients(
    networks: &[WifiNetwork],
    whitelist_bssids: &[String],
    now: Timestamp,
) -> (threats: Vec<DetectedThreat>)
    ensures
        threat_views(threats@) == unauthorized_threats(
            batch_view(networks@),
            texts(whitelist_bssids@),
            now,
        ),
        whitelist_bssids@.len() == 0 ==> threats@.len() == 0,
{
    let mut threats: Vec<DetectedThreat> = Vec::new();
    assert(threat_views(threats@) == Seq::<ThreatView>::empty());
    if whitelist_bssids.len() == 0 {
        return threats;
    }
    let whitelist = canonical_bssids(whitelist_bssids);
    let ghost batch = batch_view(networks@);
    let mut i: usize = 0;
    while i < networks.len()
        invariant
            i <= networks.len(),
            batch == batch_view(networks@),
            texts(whitelist@) == canonical_list(texts(whitelist_bssids@)),
            threat_views(threats@) == unlisted_threats(
                batch.take(i as int),
                texts(whitelist_bssids@),
                now,
            ),
        decreases networks.len() - i,
    {
        proof {
            assert(batch.take(i + 1).drop_last() == batch.take(i as int));
            assert(batch.take(i + 1).last() == networks@[i as int]@);
        }
        let network = &networks[i];
        let bssid = network.bssid.as_str().to_lowercase();
        if find_text(&whitelist, &bssid) == whitelist.len() {
            let mut details = String::from_str("Unauthorized network detected: ");
            details.append(network.ssid.as_str());
            details.append(" (BSSID: ");
            details.append(bssid.as_str());
            details.append(") not in whitelist");
            let ghost so_far = threat_views(threats@);
            let threat = DetectedThreat {
                threat_type: ThreatType::UnauthorizedClient,
                severity: Severity::Medium,
                network_ssid: network.ssid.clone(),
                network_bssid: bssid,
                details,
                timestamp: now,
            };
            threats.push(threat);
            assert(threat_views(threats@) == so_far.push(threat@));
        }
        i += 1;
    }
    assert(batch.take(networks.len() as int) == batch);
    threats
}

/// The whitelist rule reports unauthorized networks only.
pub proof fn lemma_unauthorized_threats_type(
    batch: Seq<NetworkView>,
    whitelist: Seq<Seq<char>>,
    now: Timestamp,
)
    ensures
        all_of_type(unlisted_threats(batch, whitelist, now), ThreatType::UnauthorizedClient),
        all_of_type(unauthorized_threats(batch, whitelist, now), ThreatType::UnauthorizedClient),
    decreases batch.len(),
{
    if batch.len() > 0 {
        lemma_unauthorized_threats_type(batch.drop_last(), whitelist, now);
    }
}

} // verus!
