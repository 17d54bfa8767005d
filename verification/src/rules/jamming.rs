//! Sudden drops of signal strength against the baseline of an access point.
use vstd::prelude::*;
use vstd::string::*;
use crate::clock::Timestamp;
use crate::history::find_baseline;
use crate::network::{
    batch_view, bssid_key, signal_strength, signal_value, NetworkView, WifiNetwork,
};
use crate::number::{decimal, push_decimal};
use crate::seqs::position;
use crate::state::{baseline_keys, BaselineView, MonitoringState};
use crate::threat::{
    all_of_type, threat_views, DetectedThreat, Severity, ThreatType, ThreatView,
};

verus! {

/// A baseline counts from this many samples on.
pub const MIN_SAMPLES: usize = 3;

/// More simultaneous drops than this are reported as one attack.
pub const MANY_DROPS: usize = 3;

/// The sum of the samples `q`.
pub open spec fn sample_sum(q: Seq<i32>) -> int
    decreases q.len(),
{
    if q.len() == 0 {
        0
    } else {
        sample_sum(q.drop_last()) + q.last()
    }
}

/// The average of the samples `q`, rounded toward zero; 0 for no samples.
pub open spec fn sample_average(q: Seq<i32>) -> int {
    let sum = sample_sum(q);
    if q.len() == 0 {
        0
    } else if sum >= 0 {
        sum / (q.len() as int)
    } else {
        -((-sum) / (q.len() as int))
    }
}

/// The samples that `baselines` holds under the BSSID of `n`, if any.
pub open spec fn baseline_of(baselines: Seq<BaselineView>, n: NetworkView) -> Option<Seq<i32>> {
    let k = position(baseline_keys(baselines), bssid_key(n));
    if 0 <= k < baselines.len() {
        Some(baselines[k].samples)
    } else {
        None
    }
}

/// Whether the signal of `n` has dropped: its baseline holds at least
/// `MIN_SAMPLES` samples, their average is positive, and the signal is below
/// half of it.
pub open spec fn has_dropped(baselines: Seq<BaselineView>, n: NetworkView) -> bool {
    match baseline_of(baselines, n) {
        Some(q) => q.len() >= MIN_SAMPLES && sample_average(q) > 0 && signal_value(n.signal)
            < sample_average(q) / 2,
        None => false,
    }
}

/// By how many percent `current` lies below `average`, rounded toward zero.
pub open spec fn percent_decrease(average: int, current: int) -> int {
    ((average - current) * 100) / average
}

/// What a jamming threat says of a drop from `average` to `current`.
pub open spec fn drop_details(average: int, current: int) -> Seq<char> {
    "Sudden signal strength drop detected: "@ + decimal(average) + "% -> "@ + decimal(current)
        + "% ("@ + decimal(percent_decrease(average, current))
        + "% decrease), possible RF jamming"@
}

/// The threat that the dropped signal of `n` gives.
pub open spec fn drop_threat(
    baselines: Seq<BaselineView>,
    n: NetworkView,
    now: Timestamp,
) -> ThreatView {
    ThreatView {
        threat_type: ThreatType::RfJamming,
        severity: Severity::High,
        network_ssid: n.ssid,
        network_bssid: bssid_key(n),
        details: drop_details(
            sample_average(baseline_of(baselines, n)->0),
            signal_value(n.signal) as int,
        ),
        timestamp: now,
    }
}

/// One `High` threat for each record of `batch` whose signal has dropped, in
/// the order of the records.
pub open spec fn drop_threats(
    baselines: Seq<BaselineView>,
    batch: Seq<NetworkView>,
    now: Timestamp,
) -> Seq<ThreatView>
    decreases batch.len(),
{
    if batch.len() == 0 {
        Seq::empty()
    } else {
        let prior = drop_threats(baselines, batch.drop_last(), now);
        if has_dropped(baselines, batch.last()) {
            prior.push(drop_threat(baselines, batch.last(), now))
        } else {
            prior
        }
    }
}

/// What the summary threat says of `count` simultaneous drops.
pub open spec fn many_drops_details(count: int) -> Seq<char> {
    "Multiple networks ("@ + decimal(count)
        + ") showing simultaneous signal drops, likely RF jamming attack"@
}

/// The threat that `count` simultaneous drops give.
pub open spec fn many_drops_threat(count: int, now: Timestamp) -> ThreatView {
    ThreatView {
        threat_type: ThreatType::RfJamming,
        severity: Severity::Critical,
        network_ssid: "Multiple"@,
        network_bssid: "Multiple"@,
        details: many_drops_details(count),
        timestamp: now,
    }
}

/// The threats of the jamming rule: one for each dropped signal, and after
/// them one `Critical` threat where more than `MANY_DROPS` signals dropped.
pub open spec fn jamming_threats(
    baselines: Seq<BaselineView>,
    batch: Seq<NetworkView>,
    now: Timestamp,
) -> Seq<ThreatView> {
    let drops = drop_threats(baselines, batch, now);
    if drops.len() > MANY_DROPS {
        drops.push(many_drops_threat(drops.len() as int, now))
    } else {
        drops
    }
}

/// The sum of a run of samples stays within 32 bits for each of them.
pub proof fn lemma_sample_sum_bounds(q: Seq<i32>)
    ensures
        -2147483648 * q.len() <= sample_sum(q) <= 2147483647 * q.len(),
    decreases q.len(),
{
    if q.len() > 0 {
        lemma_sample_sum_bounds(q.drop_last());
    }
}

/// The sum of the samples `q`.
pub fn sum_samples(q: &Vec<i32>) -> (sum: i128)
    ensures
        sum == sample_sum(q@),
{
    let mut sum: i128 = 0;
    let mut i: usize = 0;
    while i < q.len()
        invariant
            i <= q.len(),
            sum == sample_sum(q@.take(i as int)),
            -2147483648 * i <= sum <= 2147483647 * i,
        decreases q.len() - i,
    {
        assert(q@.take(i + 1).drop_last() == q@.take(i as int));
        sum = sum + q[i] as i128;
        i += 1;
    }
    assert(q@.take(q.len() as int) == q@);
    sum
}

/// Reports every record whose signal lies below half of the average of its
/// baseline, and, where more than `MANY_DROPS` do, the simultaneous drop.
pub fn detect_rf_jamming(
    networks: &[WifiNetwork],
    state: &MonitoringState,
    now: Timestamp,
) -> (threats: Vec<DetectedThreat>)
    ensures
        threat_views(threats@) == jamming_threats(
            state@.signal_baselines,
            batch_view(networks@),
            now,
        ),
{
    let mut threats: Vec<DetectedThreat> = Vec::new();
    let ghost batch = batch_view(networks@);
    let ghost baselines = state@.signal_baselines;
    assert(threat_views(threats@) == Seq::<ThreatView>::empty());
    let mut i: usize = 0;
    while i < networks.len()
        invariant
            i <= networks.len(),
            batch == batch_view(networks@),
            baselines == state@.signal_baselines,
            threat_views(threats@) == drop_threats(baselines, batch.take(i as int), now),
        decreases networks.len() - i,
    {
        proof {
            assert(batch.take(i + 1).drop_last() == batch.take(i as int));
            assert(batch.take(i + 1).last() == networks@[i as int]@);
        }
        let network = &networks[i];
        let bssid = network.bssid.as_str().to_lowercase();
        let current_signal = signal_strength(network.signal.as_str());
        let k = find_baseline(&state.signal_baselines, &bssid);
        if k < state.signal_baselines.len() {
            let baseline = &state.signal_baselines[k].samples;
            assert(baseline_of(baselines, network@) == Some(baseline@));
            if baseline.len() >= MIN_SAMPLES {
                let sum = sum_samples(baseline);
                proof {
                    lemma_sample_sum_bounds(baseline@);
                }
                if sum > 0 {
                    let count: i128 = baseline.len() as i128;
                    let avg_baseline: i128 = sum / count;
                    assert(avg_baseline == sample_average(baseline@));
                    assert(0 <= avg_baseline <= 2147483647) by (nonlinear_arith)
                        requires
                            avg_baseline == sum / count,
                            0 < sum <= 2147483647 * count,
                            count > 0,
                    ;
                    if avg_baseline > 0 && (current_signal as i128) < avg_baseline / 2 {
                        let decrease: i128 = ((avg_baseline - current_signal as i128) * 100)
                            / avg_baseline;
                        let mut details = String::from_str("Sudden signal strength drop detected: ");
                        push_decimal(&mut details, avg_baseline);
                        details.append("% -> ");
                        push_decimal(&mut details, current_signal as i128);
                        details.append("% (");
                        push_decimal(&mut details, decrease);
                        details.append("% decrease), possible RF jamming");
                        let ghost so_far = threat_views(threats@);
                        let threat = DetectedThreat {
                            threat_type: ThreatType::RfJamming,
                            severity: Severity::High,
                            network_ssid: network.ssid.clone(),
                            network_bssid: bssid,
                            details,
                            timestamp: now,
                        };
                        threats.push(threat);
                        assert(threat_views(threats@) == so_far.push(threat@));
                    }
                } else {
                    assert(sample_average(baseline@) <= 0);
                }
            }
        }
        i += 1;
    }
    assert(batch.take(networks.len() as int) == batch);

    let networks_with_drops = threats.len();
    if networks_with_drops > MANY_DROPS {
        let mut details = String::from_str("Multiple networks (");
        push_decimal(&mut details, networks_with_drops as i128);
        details.append(") showing simultaneous signal drops, likely RF jamming attack");
        let ghost drops = threat_views(threats@);
        let threat = DetectedThreat {
            threat_type: ThreatType::RfJamming,
            severity: Severity::Critical,
            network_ssid: String::from_str("Multiple"),
            network_bssid: String::from_str("Multiple"),
            details,
            timestamp: now,
        };
        threats.push(threat);
        assert(threat_views(threats@) == drops.push(threat@));
    }
    threats
}

/// The jamming rule reports jamming only.
pub proof fn lemma_jamming_threats_type(
    baselines: Seq<BaselineView>,
    batch: Seq<NetworkView>,
    now: Timestamp,
)
    ensures
        all_of_type(drop_threats(baselines, batch, now), ThreatType::RfJamming),
        all_of_type(jamming_threats(baselines, batch, now), ThreatType::RfJamming),
    decreases batch.len(),
{
    if batch.len() > 0 {
        lemma_jamming_threats_type(baselines, batch.drop_last(), now);
    }
}

} // verus!
