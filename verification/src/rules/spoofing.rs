//! One BSSID under several names, or one name under many BSSIDs.
use vstd::prelude::*;
use vstd::string::*;
use crate::clock::Timestamp;
use crate::network::{batch_view, bssid_key, key_list, NetworkView, WifiNetwork};
use crate::number::{decimal, push_decimal};
use crate::seqs::{
    distinct, distinct_texts, join, join_texts, lemma_distinct, lemma_no_duplicates_drop_last,
    lemma_values_of_contains, texts, values_beside, values_of,
};
use crate::text::{blank, is_blank};
use crate::threat::{
    all_of_type, count_where, lemma_count_where_concat, lemma_count_where_none, threat_views,
    DetectedThreat, Severity, ThreatType, ThreatView,
};

verus! {

/// A name under more BSSIDs than this is suspect.
pub const MANY_BSSIDS: usize = 3;

/// Whether the record `n` takes part in the rule: neither its name nor its
/// lower-case BSSID is blank.
pub open spec fn is_named(n: NetworkView) -> bool {
    !is_blank(n.ssid) && !is_blank(bssid_key(n))
}

/// The records of `batch` that take part in the rule, in order.
pub open spec fn named_records(batch: Seq<NetworkView>) -> Seq<NetworkView>
    decreases batch.len(),
{
    if batch.len() == 0 {
        Seq::empty()
    } else {
        let prior = named_records(batch.drop_last());
        if is_named(batch.last()) {
            prior.push(batch.last())
        } else {
            prior
        }
    }
}

/// The names of the records of `batch`, in order.
pub open spec fn ssid_list(batch: Seq<NetworkView>) -> Seq<Seq<char>> {
    Seq::new(batch.len(), |i: int| batch[i].ssid)
}

/// What a threat says of the BSSID `bssid` seen under the names `ssids`.
pub open spec fn shared_bssid_details(bssid: Seq<char>, ssids: Seq<Seq<char>>) -> Seq<char> {
    "BSSID "@ + bssid + " appears with multiple SSIDs: "@ + join(ssids, ", "@)
}

/// The threat that the BSSID `bssid`, seen under the names `ssids`, gives.
/// It is reported under the first of the names.
pub open spec fn shared_bssid_threat(
    bssid: Seq<char>,
    ssids: Seq<Seq<char>>,
    now: Timestamp,
) -> ThreatView {
    ThreatView {
        threat_type: ThreatType::MacSpoof,
        severity: Severity::Critical,
        network_ssid: ssids[0],
        network_bssid: bssid,
        details: shared_bssid_details(bssid, ssids),
        timestamp: now,
    }
}

/// What a threat says of the name `ssid` seen under `count` BSSIDs.
pub open spec fn many_bssids_details(ssid: Seq<char>, count: int) -> Seq<char> {
    "SSID "@ + ssid + " has "@ + decimal(count)
        + " different BSSIDs, possible MAC spoofing attack"@
}

/// The threat that the name `ssid`, seen under the BSSIDs `bssids`, gives.
/// It is reported under the first of the BSSIDs.
pub open spec fn many_bssids_threat(
    ssid: Seq<char>,
    bssids: Seq<Seq<char>>,
    now: Timestamp,
) -> ThreatView {
    ThreatView {
        threat_type: ThreatType::MacSpoof,
        severity: Severity::High,
        network_ssid: ssid,
        network_bssid: bssids[0],
        details: many_bssids_details(ssid, bssids.len() as int),
        timestamp: now,
    }
}

/// One `Critical` threat for each BSSID of `among` that stands beside more
/// than one name, in the order of `among`. `bssids[i]` and `ssids[i]` are the
/// BSSID and the name of one record.
pub open spec fn shared_bssid_threats(
    bssids: Seq<Seq<char>>,
    ssids: Seq<Seq<char>>,
    among: Seq<Seq<char>>,
    now: Timestamp,
) -> Seq<ThreatView>
    decreases among.len(),
{
    if among.len() == 0 {
        Seq::empty()
    } else {
        let prior = shared_bssid_threats(bssids, ssids, among.drop_last(), now);
        let names = distinct(values_of(bssids, ssids, among.last()));
        if names.len() > 1 {
            prior.push(shared_bssid_threat(among.last(), names, now))
        } else {
            prior
        }
    }
}

/// One `High` threat for each name of `among` that stands beside more than
/// `MANY_BSSIDS` BSSIDs, in the order of `among`.
pub open spec fn many_bssids_threats(
    ssids: Seq<Seq<char>>,
    bssids: Seq<Seq<char>>,
    among: Seq<Seq<char>>,
    now: Timestamp,
) -> Seq<ThreatView>
    decreases among.len(),
{
    if among.len() == 0 {
        Seq::empty()
    } else {
        let prior = many_bssids_threats(ssids, bssids, among.drop_last(), now);
        let ids = distinct(values_of(ssids, bssids, among.last()));
        if ids.len() > MANY_BSSIDS {
            prior.push(many_bssids_threat(among.last(), ids, now))
        } else {
            prior
        }
    }
}

/// The threats of the spoofing rule: first one for each BSSID under more than
/// one name, in the order in which the BSSIDs first occur, then one for each
/// name under more than `MANY_BSSIDS` BSSIDs, in the order in which the names
/// first occur. Records with a blank name or BSSID take no part.
pub open spec fn mac_spoofing_threats(batch: Seq<NetworkView>, now: Timestamp) -> Seq<ThreatView> {
    let named = named_records(batch);
    let bssids = key_list(named);
    let ssids = ssid_list(named);
    shared_bssid_threats(bssids, ssids, distinct(bssids), now) + many_bssids_threats(
        ssids,
        bssids,
        distinct(ssids),
        now,
    )
}

/// Reports every BSSID that the scan shows under more than one name, and
/// every name that it shows under more than `MANY_BSSIDS` BSSIDs.
pub fn detect_mac_spoofing(
    networks: &[WifiNetwork],
    now: Timestamp,
) -> (threats: Vec<DetectedThreat>)
    ensures
        threat_views(threats@) == mac_spoofing_threats(batch_view(networks@), now),
{
    let ghost batch = batch_view(networks@);
    let mut bssids: Vec<String> = Vec::new();
    let mut ssids: Vec<String> = Vec::new();
    assert(texts(bssids@) == key_list(Seq::<NetworkView>::empty()));
    assert(texts(ssids@) == ssid_list(Seq::<NetworkView>::empty()));

    let mut i: usize = 0;
    while i < networks.len()
        invariant
            i <= networks.len(),
            batch == batch_view(networks@),
            bssids.len() == ssids.len(),
            texts(bssids@) == key_list(named_records(batch.take(i as int))),
            texts(ssids@) == ssid_list(named_records(batch.take(i as int))),
        decreases networks.len() - i,
    {
        proof {
            assert(batch.take(i + 1).drop_last() == batch.take(i as int));
            assert(batch.take(i + 1).last() == networks@[i as int]@);
        }
        let network = &networks[i];
        let bssid = network.bssid.as_str().to_lowercase();
        if !blank(network.ssid.as_str()) && !blank(bssid.as_str()) {
            let ghost named = named_records(batch.take(i as int));
            let ghost ids = texts(bssids@);
            let ghost names = texts(ssids@);
            bssids.push(bssid);
            ssids.push(network.ssid.clone());
            assert(texts(bssids@) == ids.push(bssid_key(network@)));
            assert(texts(ssids@) == names.push(network@.ssid));
            assert(ids.push(bssid_key(network@)) == key_list(named.push(network@)));
            assert(names.push(network@.ssid) == ssid_list(named.push(network@)));
        }
        i += 1;
    }
    assert(batch.take(networks.len() as int) == batch);

    let mut threats: Vec<DetectedThreat> = Vec::new();
    assert(threat_views(threats@) == Seq::<ThreatView>::empty());

    let distinct_bssids = distinct_texts(&bssids);
    let ghost among = texts(distinct_bssids@);
    let mut b: usize = 0;
    while b < distinct_bssids.len()
        invariant
            b <= distinct_bssids.len(),
            bssids.len() == ssids.len(),
            among == texts(distinct_bssids@),
            threat_views(threats@) == shared_bssid_threats(
                texts(bssids@),
                texts(ssids@),
                among.take(b as int),
                now,
            ),
        decreases distinct_bssids.len() - b,
    {
        proof {
            assert(among.take(b + 1).drop_last() == among.take(b as int));
            assert(among.take(b + 1).last() == distinct_bssids@[b as int]@);
        }
        let bssid = &distinct_bssids[b];
        let beside = values_beside(&bssids, &ssids, bssid);
        let names = distinct_texts(&beside);
        if names.len() > 1 {
            let mut details = String::from_str("BSSID ");
            details.append(bssid.as_str());
            details.append(" appears with multiple SSIDs: ");
            let list = join_texts(&names, ", ");
            details.append(list.as_str());
            let ghost so_far = threat_views(threats@);
            let threat = DetectedThreat {
                threat_type: ThreatType::MacSpoof,
                severity: Severity::Critical,
                network_ssid: names[0].clone(),
                network_bssid: bssid.clone(),
                details,
                timestamp: now,
            };
            threats.push(threat);
            assert(threat_views(threats@) == so_far.push(threat@));
        }
        b += 1;
    }
    assert(among.take(distinct_bssids.len() as int) == among);
    let ghost first = threat_views(threats@);

    let distinct_ssids = distinct_texts(&ssids);
    let ghost among_names = texts(distinct_ssids@);
    let mut s: usize = 0;
    assert(first + Seq::<ThreatView>::empty() == first);
    while s < distinct_ssids.len()
        invariant
            s <= distinct_ssids.len(),
            bssids.len() == ssids.len(),
            among_names == texts(distinct_ssids@),
            threat_views(threats@) == first + many_bssids_threats(
                texts(ssids@),
                texts(bssids@),
                among_names.take(s as int),
                now,
            ),
        decreases distinct_ssids.len() - s,
    {
        proof {
            assert(among_names.take(s + 1).drop_last() == among_names.take(s as int));
            assert(among_names.take(s + 1).last() == distinct_ssids@[s as int]@);
        }
        let ssid = &distinct_ssids[s];
        let beside = values_beside(&ssids, &bssids, ssid);
        let ids = distinct_texts(&beside);
        if ids.len() > MANY_BSSIDS {
            let mut details = String::from_str("SSID ");
            details.append(ssid.as_str());
            details.append(" has ");
            push_decimal(&mut details, ids.len() as i128);
            details.append(" different BSSIDs, possible MAC spoofing attack");
            let ghost so_far = threat_views(threats@);
            let ghost prior = many_bssids_threats(
                texts(ssids@),
                texts(bssids@),
                among_names.take(s as int),
                now,
            );
            let threat = DetectedThreat {
                threat_type: ThreatType::MacSpoof,
                severity: Severity::High,
                network_ssid: ssid.clone(),
                network_bssid: ids[0].clone(),
                details,
                timestamp: now,
            };
            threats.push(threat);
            assert(threat_views(threats@) == so_far.push(threat@));
            assert((first + prior).push(threat@) == first + prior.push(threat@));
        }
        s += 1;
    }
    assert(among_names.take(distinct_ssids.len() as int) == among_names);
    threats
}

/// Whether every threat of `threats` is of the severity `severity`.
pub open spec fn all_of_severity(threats: Seq<ThreatView>, severity: Severity) -> bool {
    forall|i: int| 0 <= i < threats.len() ==> (#[trigger] threats[i]).severity == severity
}

/// The spoofing rule reports spoofing only: `Critical` for a shared BSSID,
/// `High` for a name under many BSSIDs.
pub proof fn lemma_spoofing_threats_type(
    keys: Seq<Seq<char>>,
    values: Seq<Seq<char>>,
    among: Seq<Seq<char>>,
    now: Timestamp,
)
    ensures
        all_of_type(shared_bssid_threats(keys, values, among, now), ThreatType::MacSpoof),
        all_of_severity(shared_bssid_threats(keys, values, among, now), Severity::Critical),
        all_of_type(many_bssids_threats(keys, values, among, now), ThreatType::MacSpoof),
        all_of_severity(many_bssids_threats(keys, values, among, now), Severity::High),
    decreases among.len(),
{
    if among.len() > 0 {
        lemma_spoofing_threats_type(keys, values, among.drop_last(), now);
    }
}

/// The spoofing rule reports spoofing only.
pub proof fn lemma_mac_spoofing_threats_type(batch: Seq<NetworkView>, now: Timestamp)
    ensures
        all_of_type(mac_spoofing_threats(batch, now), ThreatType::MacSpoof),
{
    let named = named_records(batch);
    let bssids = key_list(named);
    let ssids = ssid_list(named);
    lemma_spoofing_threats_type(bssids, ssids, distinct(bssids), now);
    lemma_spoofing_threats_type(ssids, bssids, distinct(ssids), now);
}

/// Whether the threat `t` is a `Critical` one for the BSSID `bssid`.
pub open spec fn is_critical_for(bssid: Seq<char>) -> spec_fn(ThreatView) -> bool {
    |t: ThreatView| t.severity == Severity::Critical && t.network_bssid == bssid
}

/// Whether the threat `t` is a `High` one for the name `ssid`.
pub open spec fn is_high_for(ssid: Seq<char>) -> spec_fn(ThreatView) -> bool {
    |t: ThreatView| t.severity == Severity::High && t.network_ssid == ssid
}

/// The names under which `batch` shows the BSSID `bssid`, each once.
pub open spec fn names_under(batch: Seq<NetworkView>, bssid: Seq<char>) -> Seq<Seq<char>> {
    let named = named_records(batch);
    distinct(values_of(key_list(named), ssid_list(named), bssid))
}

/// The BSSIDs under which `batch` shows the name `ssid`, each once.
pub open spec fn bssids_under(batch: Seq<NetworkView>, ssid: Seq<char>) -> Seq<Seq<char>> {
    let named = named_records(batch);
    distinct(values_of(ssid_list(named), key_list(named), ssid))
}

proof fn lemma_shared_bssid_count(
    bssids: Seq<Seq<char>>,
    ssids: Seq<Seq<char>>,
    among: Seq<Seq<char>>,
    bssid: Seq<char>,
    now: Timestamp,
)
    requires
        among.no_duplicates(),
    ensures
        count_where(shared_bssid_threats(bssids, ssids, among, now), is_critical_for(bssid)) == (
        if among.contains(bssid) && distinct(values_of(bssids, ssids, bssid)).len() > 1 {
            1nat
        } else {
            0nat
        }),
    decreases among.len(),
{
    if among.len() > 0 {
        let rest = among.drop_last();
        let prior = shared_bssid_threats(bssids, ssids, rest, now);
        lemma_no_duplicates_drop_last(among);
        lemma_shared_bssid_count(bssids, ssids, rest, bssid, now);
        let names = distinct(values_of(bssids, ssids, among.last()));
        if names.len() > 1 {
            let threat = shared_bssid_threat(among.last(), names, now);
            assert(prior.push(threat).drop_last() == prior);
            assert(prior.push(threat).last() == threat);
            assert(is_critical_for(bssid)(threat) == (among.last() == bssid));
        }
    } else {
        assert(!among.contains(bssid));
    }
}

proof fn lemma_many_bssids_count(
    ssids: Seq<Seq<char>>,
    bssids: Seq<Seq<char>>,
    among: Seq<Seq<char>>,
    ssid: Seq<char>,
    now: Timestamp,
)
    requires
        among.no_duplicates(),
    ensures
        count_where(many_bssids_threats(ssids, bssids, among, now), is_high_for(ssid)) == (
        if among.contains(ssid) && distinct(values_of(ssids, bssids, ssid)).len() > MANY_BSSIDS {
            1nat
        } else {
            0nat
        }),
    decreases among.len(),
{
    if among.len() > 0 {
        let rest = among.drop_last();
        let prior = many_bssids_threats(ssids, bssids, rest, now);
        lemma_no_duplicates_drop_last(among);
        lemma_many_bssids_count(ssids, bssids, rest, ssid, now);
        let ids = distinct(values_of(ssids, bssids, among.last()));
        if ids.len() > MANY_BSSIDS {
            let threat = many_bssids_threat(among.last(), ids, now);
            assert(prior.push(threat).drop_last() == prior);
            assert(prior.push(threat).last() == threat);
            assert(is_high_for(ssid)(threat) == (among.last() == ssid));
        }
    } else {
        assert(!among.contains(ssid));
    }
}

/// One `Critical` threat for each shared BSSID: for every BSSID, the rule
/// reports exactly one `Critical` threat where the scan shows it under more
/// than one name, and none where it does not.
pub proof fn one_critical_threat_per_shared_bssid(
    batch: Seq<NetworkView>,
    now: Timestamp,
    bssid: Seq<char>,
)
    ensures
        count_where(mac_spoofing_threats(batch, now), is_critical_for(bssid)) == (if names_under(
            batch,
            bssid,
        ).len() > 1 {
            1nat
        } else {
            0nat
        }),
{
    let named = named_records(batch);
    let bssids = key_list(named);
    let ssids = ssid_list(named);
    let first = shared_bssid_threats(bssids, ssids, distinct(bssids), now);
    let second = many_bssids_threats(ssids, bssids, distinct(ssids), now);
    lemma_distinct(bssids);
    lemma_distinct(values_of(bssids, ssids, bssid));
    lemma_values_of_contains(bssids, ssids, bssid);
    lemma_shared_bssid_count(bssids, ssids, distinct(bssids), bssid, now);
    lemma_spoofing_threats_type(ssids, bssids, distinct(ssids), now);
    lemma_count_where_none(second, is_critical_for(bssid));
    lemma_count_where_concat(first, second, is_critical_for(bssid));
}

/// One `High` threat for each name under many BSSIDs: for every name, the
/// rule reports exactly one `High` threat where the scan shows it under more
/// than `MANY_BSSIDS` BSSIDs, and none where it shows it under that many or
/// fewer.
pub proof fn one_high_threat_per_crowded_name(
    batch: Seq<NetworkView>,
    now: Timestamp,
    ssid: Seq<char>,
)
    ensures
        count_where(mac_spoofing_threats(batch, now), is_high_for(ssid)) == (if bssids_under(
            batch,
            ssid,
        ).len() > MANY_BSSIDS {
            1nat
        } else {
            0nat
        }),
{
    let named = named_records(batch);
    let bssids = key_list(named);
    let ssids = ssid_list(named);
    let first = shared_bssid_threats(bssids, ssids, distinct(bssids), now);
    let second = many_bssids_threats(ssids, bssids, distinct(ssids), now);
    lemma_distinct(ssids);
    lemma_distinct(values_of(ssids, bssids, ssid));
    lemma_values_of_contains(ssids, bssids, ssid);
    lemma_many_bssids_count(ssids, bssids, distinct(ssids), ssid, now);
    lemma_spoofing_threats_type(bssids, ssids, distinct(bssids), now);
    lemma_count_where_none(first, is_high_for(ssid));
    lemma_count_where_concat(first, second, is_high_for(ssid));
}

} // verus!
