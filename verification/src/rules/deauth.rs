//! Bursts of failed connection attempts against one network.
use vstd::prelude::*;
use vstd::string::*;
use crate::clock::Timestamp;
use crate::number::{decimal, push_decimal};
use crate::seqs::{
    count_pair, distinct, find_pair, lemma_distinct, lemma_no_duplicates_drop_last,
    lemma_occurrences_contains, lemma_position_bounds, lemma_position_in_prefix, occurrences,
    position, text_pairs,
};
use crate::state::{failure_views, FailureView, MonitoringState};
use crate::text::lowercase;
use crate::threat::{
    all_of_type, count_where, threat_views, DetectedThreat, Severity, ThreatType, ThreatView,
};

verus! {

/// Failures count for this many seconds.
pub const FAILURE_WINDOW_SECS: i64 = 30;

/// More failures than this against one network within the window are an
/// attack.
pub const MANY_FAILURES: usize = 3;

/// Whether the failure `f` lies within the window before `now`.
pub open spec fn is_recent(f: FailureView, now: Timestamp) -> bool {
    f.timestamp.is_within(now, FAILURE_WINDOW_SECS as int)
}

/// The network that the failure `f` was against: its name and its lower-case
/// BSSID.
pub open spec fn failure_target(f: FailureView) -> (Seq<char>, Seq<char>) {
    (f.network_ssid, lowercase(f.network_bssid))
}

/// The targets of the recent failures of `log`, in order.
pub open spec fn recent_targets(
    log: Seq<FailureView>,
    now: Timestamp,
) -> Seq<(Seq<char>, Seq<char>)>
    decreases log.len(),
{
    if log.len() == 0 {
        Seq::empty()
    } else {
        let prior = recent_targets(log.drop_last(), now);
        if is_recent(log.last(), now) {
            prior.push(failure_target(log.last()))
        } else {
            prior
        }
    }
}

/// What a deauthentication threat says of `count` failures.
pub open spec fn deauth_details(count: int) -> Seq<char> {
    "Rapid connection failures detected ("@ + decimal(count)
        + " failures in 30 seconds), possible deauthentication attack"@
}

/// The threat that `count` recent failures against `target` give.
pub open spec fn deauth_threat(
    target: (Seq<char>, Seq<char>),
    count: int,
    now: Timestamp,
) -> ThreatView {
    ThreatView {
        threat_type: ThreatType::DeauthAttack,
        severity: Severity::High,
        network_ssid: target.0,
        network_bssid: target.1,
        details: deauth_details(count),
        timestamp: now,
    }
}

/// One `High` threat for each network of `among` that occurs more than
/// `MANY_FAILURES` times in `targets`, in the order of `among`.
pub open spec fn repeated_target_threats(
    targets: Seq<(Seq<char>, Seq<char>)>,
    among: Seq<(Seq<char>, Seq<char>)>,
    now: Timestamp,
) -> Seq<ThreatView>
    decreases among.len(),
{
    if among.len() == 0 {
        Seq::empty()
    } else {
        let prior = repeated_target_threats(targets, among.drop_last(), now);
        let count = occurrences(targets, among.last());
        if count > MANY_FAILURES {
            prior.push(deauth_threat(among.last(), count as int, now))
        } else {
            prior
        }
    }
}

/// The threats of the deauthentication rule: one for each network with more
/// than `MANY_FAILURES` recent failures, in the order in which the networks
/// first failed.
pub open spec fn deauth_threats(log: Seq<FailureView>, now: Timestamp) -> Seq<ThreatView> {
    let targets = recent_targets(log, now);
    repeated_target_threats(targets, distinct(targets), now)
}

/// Reports every network against which more than `MANY_FAILURES` connection
/// attempts failed within the last `FAILURE_WINDOW_SECS` seconds.
pub fn detect_deauth_attacks(
    state: &MonitoringState,
    now: Timestamp,
) -> (threats: Vec<DetectedThreat>)
    ensures
        threat_views(threats@) == deauth_threats(state@.connection_failures, now),
{
    let ghost log = failure_views(state.connection_failures@);
    let mut ssids: Vec<String> = Vec::new();
    let mut bssids: Vec<String> = Vec::new();
    assert(text_pairs(ssids@, bssids@) == Seq::<(Seq<char>, Seq<char>)>::empty());
    let mut i: usize = 0;
    while i < state.connection_failures.len()
        invariant
            i <= state.connection_failures.len(),
            log == failure_views(state.connection_failures@),
            ssids.len() == bssids.len(),
            text_pairs(ssids@, bssids@) == recent_targets(log.take(i as int), now),
        decreases state.connection_failures.len() - i,
    {
        proof {
            assert(log.take(i + 1).drop_last() == log.take(i as int));
        }
        let failure = &state.connection_failures[i];
        if failure.timestamp.within(now, FAILURE_WINDOW_SECS) {
            let ghost so_far = text_pairs(ssids@, bssids@);
            ssids.push(failure.network_ssid.clone());
            bssids.push(failure.network_bssid.as_str().to_lowercase());
            assert(text_pairs(ssids@, bssids@) == so_far.push(failure_target(failure@)));
        }
        i += 1;
    }
    assert(log.take(state.connection_failures.len() as int) == log);

    let ghost targets = text_pairs(ssids@, bssids@);
    let mut threats: Vec<DetectedThreat> = Vec::new();
    assert(threat_views(threats@) == Seq::<ThreatView>::empty());
    let mut k: usize = 0;
    while k < ssids.len()
        invariant
            k <= ssids.len(),
            ssids.len() == bssids.len(),
            targets == text_pairs(ssids@, bssids@),
            threat_views(threats@) == repeated_target_threats(
                targets,
                distinct(targets.take(k as int)),
                now,
            ),
        decreases ssids.len() - k,
    {
        let ghost seen = distinct(targets.take(k as int));
        let ghost target = targets[k as int];
        proof {
            assert(target == (ssids@[k as int]@, bssids@[k as int]@));
            assert(targets.take(k + 1).drop_last() == targets.take(k as int));
            assert(targets.take(k + 1).last() == target);
            lemma_distinct(targets.take(k as int));
            lemma_position_in_prefix(targets, target, k as int);
            lemma_position_bounds(targets, target);
            assert(seen.contains(target) <==> position(targets, target) < k);
            assert(distinct(targets.take(k + 1)) == if seen.contains(target) {
                seen
            } else {
                seen.push(target)
            });
        }
        if find_pair(&ssids, &bssids, &ssids[k], &bssids[k]) == k {
            let count = count_pair(&ssids, &bssids, &ssids[k], &bssids[k]);
            assert(seen.push(target).drop_last() == seen);
            assert(seen.push(target).last() == target);
            if count > MANY_FAILURES {
                let mut details = String::from_str("Rapid connection failures detected (");
                push_decimal(&mut details, count as i128);
                details.append(" failures in 30 seconds), possible deauthentication attack");
                let ghost so_far = threat_views(threats@);
                let threat = DetectedThreat {
                    threat_type: ThreatType::DeauthAttack,
                    severity: Severity::High,
                    network_ssid: ssids[k].clone(),
                    network_bssid: bssids[k].clone(),
                    details,
                    timestamp: now,
                };
                threats.push(threat);
                assert(threat_views(threats@) == so_far.push(threat@));
            }
        }
        k += 1;
    }
    assert(targets.take(ssids.len() as int) == targets);
    threats
}

/// The deauthentication rule reports deauthentication attacks only.
pub proof fn lemma_deauth_threats_type(
    targets: Seq<(Seq<char>, Seq<char>)>,
    among: Seq<(Seq<char>, Seq<char>)>,
    now: Timestamp,
)
    ensures
        all_of_type(repeated_target_threats(targets, among, now), ThreatType::DeauthAttack),
    decreases among.len(),
{
    if among.len() > 0 {
        lemma_deauth_threats_type(targets, among.drop_last(), now);
    }
}

/// Whether the threat `t` is reported for the network `target`.
pub open spec fn is_against(target: (Seq<char>, Seq<char>)) -> spec_fn(ThreatView) -> bool {
    |t: ThreatView| t.network_ssid == target.0 && t.network_bssid == target.1
}

proof fn lemma_repeated_target_count(
    targets: Seq<(Seq<char>, Seq<char>)>,
    among: Seq<(Seq<char>, Seq<char>)>,
    target: (Seq<char>, Seq<char>),
    now: Timestamp,
)
    requires
        among.no_duplicates(),
    ensures
        count_where(repeated_target_threats(targets, among, now), is_against(target)) == (if among.contains(
            target,
        ) && occurrences(targets, target) > MANY_FAILURES {
            1nat
        } else {
            0nat
        }),
    decreases among.len(),
{
    if among.len() > 0 {
        let rest = among.drop_last();
        let prior = repeated_target_threats(targets, rest, now);
        lemma_no_duplicates_drop_last(among);
        lemma_repeated_target_count(targets, rest, target, now);
        let count = occurrences(targets, among.last());
        if count > MANY_FAILURES {
            let threat = deauth_threat(among.last(), count as int, now);
            assert(prior.push(threat).drop_last() == prior);
            assert(prior.push(threat).last() == threat);
            assert(is_against(target)(threat) == (among.last() == target));
        }
    } else {
        assert(!among.contains(target));
    }
}

/// One threat for each network under attack: for every network, the rule
/// reports exactly one threat where more than `MANY_FAILURES` recent
/// failures were against it, and none where there were that many or fewer.
pub proof fn one_threat_per_failing_network(
    log: Seq<FailureView>,
    now: Timestamp,
    target: (Seq<char>, Seq<char>),
)
    ensures
        count_where(deauth_threats(log, now), is_against(target)) == (if occurrences(
            recent_targets(log, now),
            target,
        ) > MANY_FAILURES {
            1nat
        } else {
            0nat
        }),
{
    let targets = recent_targets(log, now);
    lemma_distinct(targets);
    lemma_occurrences_contains(targets, target);
    lemma_repeated_target_count(targets, distinct(targets), target, now);
}

} // verus!
