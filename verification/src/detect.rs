//! One detection pass: the history is brought up to date, the seven rules
//! are applied in turn, and the counters and the failure log are committed.
use vstd::prelude::*;
use crate::clock::{utc_now, Timestamp};
use crate::history::{
    lemma_observe_all_baselines, lemma_updated_history_bounded, update_network_history,
    with_updated_history,
};
use crate::network::{batch_view, NetworkView, WifiNetwork};
use crate::rules::blacklist::{
    blacklist_threats, detect_blacklisted_networks, lemma_blacklist_threats_type,
};
use crate::rules::deauth::{
    deauth_threats, detect_deauth_attacks, lemma_deauth_threats_type, recent_targets,
};
use crate::rules::flood::{detect_flood_attacks, flood_threats};
use crate::rules::jamming::{detect_rf_jamming, jamming_threats, lemma_jamming_threats_type};
use crate::rules::probe::{detect_probe_anomalies, probe_threats};
use crate::rules::spoofing::{
    detect_mac_spoofing, lemma_mac_spoofing_threats_type, mac_spoofing_threats,
};
use crate::rules::unauthorized::{
    detect_unauthorized_clients, lemma_unauthorized_threats_type, unauthorized_threats,
};
use crate::seqs::{distinct, texts};
use crate::state::{
    copy_batch, empty_state, failure_views, queues_bounded, ConnectionFailure, FailureView,
    MonitoringState, StateView,
};
use crate::threat::{
    all_of_type, extend_threats, threat_views, DetectedThreat, ThreatType, ThreatView,
};

verus! {

/// A failure stays in the log for this many seconds.
pub const FAILURE_KEEP_SECS: i64 = 60;

/// The failures of `log` that are younger than `FAILURE_KEEP_SECS` seconds
/// at `now`, in order.
pub open spec fn kept_failures(log: Seq<FailureView>, now: Timestamp) -> Seq<FailureView>
    decreases log.len(),
{
    if log.len() == 0 {
        Seq::empty()
    } else {
        let prior = kept_failures(log.drop_last(), now);
        if log.last().timestamp.is_within(now, FAILURE_KEEP_SECS as int) {
            prior.push(log.last())
        } else {
            prior
        }
    }
}

/// `count` and one, as far as 64 bits go.
pub open spec fn next_count(count: u64) -> u64 {
    if count < u64::MAX {
        (count + 1) as u64
    } else {
        count
    }
}

/// The threats that a pass over `batch` at the time `now` reports from the
/// state `s`: those of the seven rules, in the order of the rules. The rules
/// see the history and the baselines as the batch has updated them, and the
/// previous scan and the failure log as the pass found them.
pub open spec fn pass_threats(
    s: StateView,
    batch: Seq<NetworkView>,
    whitelist: Seq<Seq<char>>,
    blacklist: Seq<Seq<char>>,
    now: Timestamp,
) -> Seq<ThreatView> {
    let u = with_updated_history(s, batch, now);
    mac_spoofing_threats(batch, now) + deauth_threats(u.connection_failures, now) + flood_threats(
        u.previous_networks,
        batch,
        now,
    ) + unauthorized_threats(batch, whitelist, now) + probe_threats(batch, now) + jamming_threats(
        u.signal_baselines,
        batch,
        now,
    ) + blacklist_threats(batch, blacklist, now)
}

/// The state that a pass over `batch` at the time `now` leaves behind.
pub open spec fn after_pass(s: StateView, batch: Seq<NetworkView>, now: Timestamp) -> StateView {
    let u = with_updated_history(s, batch, now);
    StateView {
        previous_networks: batch,
        connection_failures: kept_failures(u.connection_failures, now),
        scan_count: next_count(u.scan_count),
        last_scan_time: Some(now),
        ..u
    }
}

/// Drops from the failure log of `state` what is older than
/// `FAILURE_KEEP_SECS` seconds at `now`.
fn purge_failures(state: &mut MonitoringState, now: Timestamp)
    ensures
        final(state)@ == (StateView {
            connection_failures: kept_failures(old(state)@.connection_failures, now),
            ..old(state)@
        }),
{
    let ghost log = failure_views(state.connection_failures@);
    let mut kept: Vec<ConnectionFailure> = Vec::new();
    assert(failure_views(kept@) == Seq::<FailureView>::empty());
    let mut i: usize = 0;
    while i < state.connection_failures.len()
        invariant
            i <= state.connection_failures.len(),
            log == failure_views(state.connection_failures@),
            failure_views(kept@) == kept_failures(log.take(i as int), now),
        decreases state.connection_failures.len() - i,
    {
        proof {
            assert(log.take(i + 1).drop_last() == log.take(i as int));
        }
        if state.connection_failures[i].timestamp.within(now, FAILURE_KEEP_SECS) {
            let ghost so_far = failure_views(kept@);
            let failure = state.connection_failures[i].clone();
            kept.push(failure);
            assert(failure_views(kept@) == so_far.push(failure@));
        }
        i += 1;
    }
    assert(log.take(state.connection_failures.len() as int) == log);
    state.connection_failures = kept;
}

/// Runs one detection pass over the scan `current_networks`, taken at the
/// time `now`, and returns what the seven rules report.
pub fn detect_threats_at(
    current_networks: &[WifiNetwork],
    state: &mut MonitoringState,
    whitelist_bssids: &[String],
    blacklist_bssids: &[String],
    now: Timestamp,
) -> (threats: Vec<DetectedThreat>)
    ensures
        threat_views(threats@) == pass_threats(
            old(state)@,
            batch_view(current_networks@),
            texts(whitelist_bssids@),
            texts(blacklist_bssids@),
            now,
        ),
        final(state)@ == after_pass(old(state)@, batch_view(current_networks@), now),
{
    let mut threats: Vec<DetectedThreat> = Vec::new();
    assert(threat_views(threats@) == Seq::<ThreatView>::empty());

    update_network_history(current_networks, state, now);

    extend_threats(&mut threats, detect_mac_spoofing(current_networks, now));
    extend_threats(&mut threats, detect_deauth_attacks(state, now));
    extend_threats(&mut threats, detect_flood_attacks(state, current_networks, now));
    extend_threats(
        &mut threats,
        detect_unauthorized_clients(current_networks, whitelist_bssids, now),
    );
    extend_threats(&mut threats, detect_probe_anomalies(current_networks, now));
    extend_threats(&mut threats, detect_rf_jamming(current_networks, state, now));
    extend_threats(
        &mut threats,
        detect_blacklisted_networks(current_networks, blacklist_bssids, now),
    );

    state.previous_networks = copy_batch(current_networks);
    if state.scan_count < u64::MAX {
        state.scan_count = state.scan_count + 1;
    }
    state.last_scan_time = Some(now);
    purge_failures(state, now);

    threats
}

/// Runs one detection pass over the scan `current_networks`, taken now.
/// The clock decides the time of the pass; whatever it says, the pass is the
/// one that `detect_threats_at` makes at that time.
pub fn detect_threats(
    current_networks: &[WifiNetwork],
    state: &mut MonitoringState,
    whitelist_bssids: &[String],
    blacklist_bssids: &[String],
) -> (threats: Vec<DetectedThreat>)
    ensures
        exists|now: Timestamp|
            {
                &&& threat_views(threats@) == #[trigger] pass_threats(
                    old(state)@,
                    batch_view(current_networks@),
                    texts(whitelist_bssids@),
                    texts(blacklist_bssids@),
                    now,
                )
                &&& final(state)@ == after_pass(old(state)@, batch_view(current_networks@), now)
            },
{
    let now = utc_now();
    detect_threats_at(current_networks, state, whitelist_bssids, blacklist_bssids, now)
}

/// Whether no threat of `threats` is of the kind `kind`.
pub open spec fn none_of_type(threats: Seq<ThreatView>, kind: ThreatType) -> bool {
    forall|i: int| 0 <= i < threats.len() ==> (#[trigger] threats[i]).threat_type != kind
}

/// The first pass of a session reports no flood, whatever the scan holds:
/// without a previous scan, no threat of a pass is a flood attack.
pub proof fn first_scan_reports_no_flood(
    s: StateView,
    batch: Seq<NetworkView>,
    whitelist: Seq<Seq<char>>,
    blacklist: Seq<Seq<char>>,
    now: Timestamp,
)
    requires
        s.previous_networks.len() == 0,
    ensures
        flood_threats(s.previous_networks, batch, now).len() == 0,
        none_of_type(pass_threats(s, batch, whitelist, blacklist, now), ThreatType::FloodAttack),
{
    let u = with_updated_history(s, batch, now);
    let targets = recent_targets(u.connection_failures, now);
    lemma_mac_spoofing_threats_type(batch, now);
    lemma_deauth_threats_type(targets, distinct(targets), now);
    lemma_unauthorized_threats_type(batch, whitelist, now);
    lemma_jamming_threats_type(u.signal_baselines, batch, now);
    lemma_blacklist_threats_type(batch, blacklist, now);
    assert(all_of_type(probe_threats(batch, now), ThreatType::ProbeAnomaly));
    assert(flood_threats(u.previous_networks, batch, now) == Seq::<ThreatView>::empty());
}

/// The queues stay bounded however many scans go by: a pass over a state
/// whose queues of signal samples hold at most `SAMPLE_CAPACITY` samples each
/// leaves a state of which the same holds. The state at the start of a
/// session is such a state.
pub proof fn queues_stay_bounded(s: StateView, batch: Seq<NetworkView>, now: Timestamp)
    requires
        queues_bounded(s),
    ensures
        queues_bounded(after_pass(s, batch, now)),
        queues_bounded(with_updated_history(s, batch, now)),
        queues_bounded(empty_state()),
{
    lemma_updated_history_bounded(s.network_history, batch, now);
    lemma_observe_all_baselines(s.signal_baselines, batch);
}

} // verus!
