//! Networks that the configuration forbids.
use vstd::prelude::*;
use vstd::string::*;
use crate::clock::Timestamp;
use crate::network::{batch_view, bssid_key, NetworkView, WifiNetwork};
use crate::seqs::{find_text, texts};
use crate::text::lowercase;
use crate::threat::{
    all_of_type, threat_views, DetectedThreat, Severity, ThreatType, ThreatView,
};

verus! {

/// The lower-case forms of the BSSIDs of a configured list.
pub open spec fn canonical_list(list: Seq<Seq<char>>) -> Seq<Seq<char>> {
    Seq::new(list.len(), |i: int| lowercase(list[i]))
}

/// Whether `list` names the access point of the record `n`, whatever the
/// case of the letters.
pub open spec fn is_listed(list: Seq<Seq<char>>, n: NetworkView) -> bool {
    canonical_list(list).contains(bssid_key(n))
}

/// What a blacklist threat says of the record `n`.
pub open spec fn blacklist_details(n: NetworkView) -> Seq<char> {
    "Blacklisted network detected: "@ + n.ssid + " (BSSID: "@ + bssid_key(n)
        + "), avoid connecting"@
}

/// The threat that the blacklisted record `n` gives.
pub open spec fn blacklist_threat(n: NetworkView, now: Timestamp) -> ThreatView {
    ThreatView {
        threat_type: ThreatType::BlacklistedNetwork,
        severity: Severity::Critical,
        network_ssid: n.ssid,
        network_bssid: bssid_key(n),
        details: blacklist_details(n),
        timestamp: now,
    }
}

/// One `Critical` threat for each record of `batch` whose BSSID is in
/// `blacklist`, in the order of the records.
pub open spec fn blacklist_threats(
    batch: Seq<NetworkView>,
    blacklist: Seq<Seq<char>>,
    now: Timestamp,
) -> Seq<ThreatView>
    decreases batch.len(),
{
    if batch.len() == 0 {
        Seq::empty()
    } else {
        let prior = blacklist_threats(batch.drop_last(), blacklist, now);
        if is_listed(blacklist, batch.last()) {
            prior.push(blacklist_threat(batch.last(), now))
        } else {
            prior
        }
    }
}

/// The lower-case forms of the BSSIDs of `list`.
pub fn canonical_bssids(list: &[String]) -> (r: Vec<String>)
    ensures
        texts(r@) == canonical_list(texts(list@)),
{
    let mut r: Vec<String> = Vec::new();
    let mut i: usize = 0;
    while i < list.len()
        invariant
            i <= list.len(),
            r@.len() == i,
            forall|k: int| 0 <= k < i ==> (#[trigger] r@[k])@ == lowercase(list@[k]@),
        decreases list.len() - i,
    {
        r.push(list[i].as_str().to_lowercase());
        i += 1;
    }
    assert(texts(r@) =~= canonical_list(texts(list@)));
    r
}

/// Reports every record whose BSSID is in the blacklist.
pub fn detect_blacklisted_networks(
    networks: &[WifiNetwork],
    blacklist_bssids: &[String],
    now: Timestamp,
) -> (threats: Vec<DetectedThreat>)
    ensures
        threat_views(threats@) == blacklist_threats(
            batch_view(networks@),
            texts(blacklist_bssids@),
            now,
        ),
{
    let mut threats: Vec<DetectedThreat> = Vec::new();
    let blacklist = canonical_bssids(blacklist_bssids);
    let ghost batch = batch_view(networks@);
    assert(threat_views(threats@) == Seq::<ThreatView>::empty());
    let mut i: usize = 0;
    while i < networks.len()
        invariant
            i <= networks.len(),
            batch == batch_view(networks@),
            texts(blacklist@) == canonical_list(texts(blacklist_bssids@)),
            threat_views(threats@) == blacklist_threats(
                batch.take(i as int),
                texts(blacklist_bssids@),
                now,
            ),
        decreases networks.len() - i,
    {
        proof {
            assert(batch.take(i + 1).drop_last() == batch.take(i as int));
            assert(batch.take(i + 1).last() == networks@[i as int]@);
        }
        let network = &networks[i];
        let bssid = network.bssid.as_str().to_lowercase();
        if find_text(&blacklist, &bssid) < blacklist.len() {
            let mut details = String::from_str("Blacklisted network detected: ");
            details.append(network.ssid.as_str());
            details.append(" (BSSID: ");
            details.append(bssid.as_str());
            details.append("), avoid connecting");
            let ghost so_far = threat_views(threats@);
            let threat = DetectedThreat {
                threat_type: ThreatType::BlacklistedNetwork,
                severity: Severity::Critical,
                network_ssid: network.ssid.clone(),
                network_bssid: bssid,
                details,
                timestamp: now,
            };
            threats.push(threat);
            assert(threat_views(threats@) == so_far.push(threat@));
        }
        i += 1;
    }
    assert(batch.take(networks.len() as int) == batch);
    threats
}

/// The blacklist rule reports blacklisted networks only.
pub proof fn lemma_blacklist_threats_type(
    batch: Seq<NetworkView>,
    blacklist: Seq<Seq<char>>,
    now: Timestamp,
)
    ensures
        all_of_type(blacklist_threats(batch, blacklist, now), ThreatType::BlacklistedNetwork),
    decreases batch.len(),
{
    if batch.len() > 0 {
        lemma_blacklist_threats_type(batch.drop_last(), blacklist, now);
    }
}

} // verus!
