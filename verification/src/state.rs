//! What the detector remembers from scan to scan.
use vstd::prelude::*;
use crate::clock::{utc_now, Timestamp};
use crate::network::{NetworkView, WifiNetwork};

verus! {

/// How many signal samples a queue keeps.
pub const SAMPLE_CAPACITY: usize = 10;

/// The rolling record of one access point, kept under its lower-case BSSID.
#[derive(Debug, PartialEq, Eq)]
pub struct NetworkHistory {
    pub ssid: String,
    pub bssid: String,
    pub signal_strength: i32,
    pub first_seen: Timestamp,
    pub last_seen: Timestamp,
    pub appearance_count: u32,
    pub previous_signals: Vec<i32>,
}

/// The last signal samples of one access point, kept under its lower-case
/// BSSID, oldest first.
#[derive(Debug, PartialEq, Eq)]
pub struct SignalBaseline {
    pub bssid: String,
    pub samples: Vec<i32>,
}

/// One failed attempt to connect.
#[derive(Debug, PartialEq, Eq)]
pub struct ConnectionFailure {
    pub network_ssid: String,
    pub network_bssid: String,
    pub timestamp: Timestamp,
    pub reason: String,
}

/// The memory of one monitoring session. `network_history` and
/// `signal_baselines` are looked up by BSSID; where a BSSID stands twice, the
/// first entry counts.
#[derive(Debug, PartialEq, Eq)]
pub struct MonitoringState {
    pub previous_networks: Vec<WifiNetwork>,
    pub network_history: Vec<NetworkHistory>,
    pub connection_failures: Vec<ConnectionFailure>,
    pub signal_baselines: Vec<SignalBaseline>,
    pub scan_count: u64,
    pub last_scan_time: Option<Timestamp>,
}

/// A `NetworkHistory` as plain values.
pub struct HistoryView {
    pub ssid: Seq<char>,
    pub bssid: Seq<char>,
    pub signal_strength: i32,
    pub first_seen: Timestamp,
    pub last_seen: Timestamp,
    pub appearance_count: u32,
    pub previous_signals: Seq<i32>,
}

/// A `SignalBaseline` as plain values.
pub struct BaselineView {
    pub bssid: Seq<char>,
    pub samples: Seq<i32>,
}

/// A `ConnectionFailure` as plain values.
pub struct FailureView {
    pub network_ssid: Seq<char>,
    pub network_bssid: Seq<char>,
    pub timestamp: Timestamp,
    pub reason: Seq<char>,
}

/// A `MonitoringState` as plain values.
pub struct StateView {
    pub previous_networks: Seq<NetworkView>,
    pub network_history: Seq<HistoryView>,
    pub connection_failures: Seq<FailureView>,
    pub signal_baselines: Seq<BaselineView>,
    pub scan_count: u64,
    pub last_scan_time: Option<Timestamp>,
}

impl View for NetworkHistory {
    type V = HistoryView;

    open spec fn view(&self) -> HistoryView {
        HistoryView {
            ssid: self.ssid@,
            bssid: self.bssid@,
            signal_strength: self.signal_strength,
            first_seen: self.first_seen,
            last_seen: self.last_seen,
            appearance_count: self.appearance_count,
            previous_signals: self.previous_signals@,
        }
    }
}

impl View for SignalBaseline {
    type V = BaselineView;

    open spec fn view(&self) -> BaselineView {
        BaselineView { bssid: self.bssid@, samples: self.samples@ }
    }
}

impl View for ConnectionFailure {
    type V = FailureView;

    open spec fn view(&self) -> FailureView {
        FailureView {
            network_ssid: self.network_ssid@,
            network_bssid: self.network_bssid@,
            timestamp: self.timestamp,
            reason: self.reason@,
        }
    }
}

/// The entries of a history as plain values.
pub open spec fn history_views(v: Seq<NetworkHistory>) -> Seq<HistoryView> {
    Seq::new(v.len(), |i: int| v[i]@)
}

/// The entries of a baseline store as plain values.
pub open spec fn baseline_views(v: Seq<SignalBaseline>) -> Seq<BaselineView> {
    Seq::new(v.len(), |i: int| v[i]@)
}

/// The failures of a log as plain values.
pub open spec fn failure_views(v: Seq<ConnectionFailure>) -> Seq<FailureView> {
    Seq::new(v.len(), |i: int| v[i]@)
}

impl View for MonitoringState {
    type V = StateView;

    open spec fn view(&self) -> StateView {
        StateView {
            previous_networks: crate::network::batch_view(self.previous_networks@),
            network_history: history_views(self.network_history@),
            connection_failures: failure_views(self.connection_failures@),
            signal_baselines: baseline_views(self.signal_baselines@),
            scan_count: self.scan_count,
            last_scan_time: self.last_scan_time,
        }
    }
}

/// The state at the start of a session: nothing seen, nothing counted.
pub open spec fn empty_state() -> StateView {
    StateView {
        previous_networks: Seq::empty(),
        network_history: Seq::empty(),
        connection_failures: Seq::empty(),
        signal_baselines: Seq::empty(),
        scan_count: 0,
        last_scan_time: None,
    }
}

/// The BSSIDs under which a history holds its entries, in order.
pub open spec fn history_keys(h: Seq<HistoryView>) -> Seq<Seq<char>> {
    Seq::new(h.len(), |i: int| h[i].bssid)
}

/// The BSSIDs under which a baseline store holds its queues, in order.
pub open spec fn baseline_keys(b: Seq<BaselineView>) -> Seq<Seq<char>> {
    Seq::new(b.len(), |i: int| b[i].bssid)
}

/// Whether every history entry of `h` holds at most `SAMPLE_CAPACITY` samples.
pub open spec fn history_bounded(h: Seq<HistoryView>) -> bool {
    forall|i: int| 0 <= i < h.len() ==> (#[trigger] h[i]).previous_signals.len() <= SAMPLE_CAPACITY
}

/// Whether every baseline of `b` holds at most `SAMPLE_CAPACITY` samples.
pub open spec fn baselines_bounded(b: Seq<BaselineView>) -> bool {
    forall|i: int| 0 <= i < b.len() ==> (#[trigger] b[i]).samples.len() <= SAMPLE_CAPACITY
}

/// Whether every queue of signal samples in `s` holds at most
/// `SAMPLE_CAPACITY` samples.
pub open spec fn queues_bounded(s: StateView) -> bool {
    history_bounded(s.network_history) && baselines_bounded(s.signal_baselines)
}

/// `state` with `failure` at the end of its failure log.
pub open spec fn with_failure(state: StateView, failure: FailureView) -> StateView {
    StateView { connection_failures: state.connection_failures.push(failure), ..state }
}

impl Clone for NetworkHistory {
    fn clone(&self) -> (r: Self)
        ensures
            r@ == self@,
    {
        let previous_signals = self.previous_signals.clone();
        assert(previous_signals@ =~= self.previous_signals@);
        NetworkHistory {
            ssid: self.ssid.clone(),
            bssid: self.bssid.clone(),
            signal_strength: self.signal_strength,
            first_seen: self.first_seen,
            last_seen: self.last_seen,
            appearance_count: self.appearance_count,
            previous_signals,
        }
    }
}

impl Clone for SignalBaseline {
    fn clone(&self) -> (r: Self)
        ensures
            r@ == self@,
    {
        let samples = self.samples.clone();
        assert(samples@ =~= self.samples@);
        SignalBaseline { bssid: self.bssid.clone(), samples }
    }
}

impl Clone for ConnectionFailure {
    fn clone(&self) -> (r: Self)
        ensures
            r == *self,
    {
        ConnectionFailure {
            network_ssid: self.network_ssid.clone(),
            network_bssid: self.network_bssid.clone(),
            timestamp: self.timestamp,
            reason: self.reason.clone(),
        }
    }
}

/// A copy of the records `batch`.
pub fn copy_batch(batch: &[WifiNetwork]) -> (r: Vec<WifiNetwork>)
    ensures
        r@ == batch@,
{
    let mut r: Vec<WifiNetwork> = Vec::new();
    let mut i: usize = 0;
    while i < batch.len()
        invariant
            i <= batch.len(),
            r@ == batch@.take(i as int),
        decreases batch.len() - i,
    {
        r.push(batch[i].clone());
        i += 1;
    }
    assert(batch@.take(batch.len() as int) == batch@);
    r
}

impl Clone for MonitoringState {
    fn clone(&self) -> (r: Self)
        ensures
            r@ == self@,
    {
        let previous_networks = copy_batch(self.previous_networks.as_slice());
        let mut network_history: Vec<NetworkHistory> = Vec::new();
        let mut i: usize = 0;
        while i < self.network_history.len()
            invariant
                i <= self.network_history.len(),
                history_views(network_history@) == history_views(self.network_history@).take(
                    i as int,
                ),
            decreases self.network_history.len() - i,
        {
            let ghost before = history_views(network_history@);
            let entry = self.network_history[i].clone();
            network_history.push(entry);
            assert(history_views(network_history@) == before.push(entry@));
            assert(history_views(self.network_history@).take(i + 1) == before.push(entry@));
            i += 1;
        }
        let mut connection_failures: Vec<ConnectionFailure> = Vec::new();
        let mut j: usize = 0;
        while j < self.connection_failures.len()
            invariant
                j <= self.connection_failures.len(),
                connection_failures@ == self.connection_failures@.take(j as int),
            decreases self.connection_failures.len() - j,
        {
            connection_failures.push(self.connection_failures[j].clone());
            j += 1;
        }
        let mut signal_baselines: Vec<SignalBaseline> = Vec::new();
        let mut k: usize = 0;
        while k < self.signal_baselines.len()
            invariant
                k <= self.signal_baselines.len(),
                baseline_views(signal_baselines@) == baseline_views(self.signal_baselines@).take(
                    k as int,
                ),
            decreases self.signal_baselines.len() - k,
        {
            let ghost before = baseline_views(signal_baselines@);
            let entry = self.signal_baselines[k].clone();
            signal_baselines.push(entry);
            assert(baseline_views(signal_baselines@) == before.push(entry@));
            assert(baseline_views(self.signal_baselines@).take(k + 1) == before.push(entry@));
            k += 1;
        }
        assert(history_views(network_history@) == history_views(self.network_history@));
        assert(connection_failures@ == self.connection_failures@);
        assert(baseline_views(signal_baselines@) == baseline_views(self.signal_baselines@));
        MonitoringState {
            previous_networks,
            network_history,
            connection_failures,
            signal_baselines,
            scan_count: self.scan_count,
            last_scan_time: self.last_scan_time,
        }
    }
}

impl Default for MonitoringState {
    fn default() -> (state: Self)
        ensures
            state@ == empty_state(),
    {
        let state = MonitoringState {
            previous_networks: Vec::new(),
            network_history: Vec::new(),
            connection_failures: Vec::new(),
            signal_baselines: Vec::new(),
            scan_count: 0,
            last_scan_time: None,
        };
        assert(state@.previous_networks == Seq::<NetworkView>::empty());
        assert(state@.network_history == Seq::<HistoryView>::empty());
        assert(state@.connection_failures == Seq::<FailureView>::empty());
        assert(state@.signal_baselines == Seq::<BaselineView>::empty());
        state
    }
}

/// Appends to the failure log of `state` a failure to connect to the network
/// `network_ssid` / `network_bssid` at the time `timestamp`.
pub fn record_connection_failure_at(
    state: &mut MonitoringState,
    network_ssid: String,
    network_bssid: String,
    reason: String,
    timestamp: Timestamp,
)
    ensures
        final(state)@ == with_failure(
            old(state)@,
            FailureView {
                network_ssid: network_ssid@,
                network_bssid: network_bssid@,
                timestamp,
                reason: reason@,
            },
        ),
{
    let ghost log = failure_views(state.connection_failures@);
    let failure = ConnectionFailure { network_ssid, network_bssid, timestamp, reason };
    state.connection_failures.push(failure);
    assert(failure_views(state.connection_failures@) == log.push(failure@));
}

/// Appends to the failure log of `state` a failure to connect to the network
/// `network_ssid` / `network_bssid`, stamped with the current time.
pub fn record_connection_failure(
    state: &mut MonitoringState,
    network_ssid: String,
    network_bssid: String,
    reason: String,
)
    ensures
        exists|timestamp: Timestamp|
            final(state)@ == with_failure(
                old(state)@,
                FailureView {
                    network_ssid: network_ssid@,
                    network_bssid: network_bssid@,
                    timestamp,
                    reason: reason@,
                },
            ),
{
    let now = utc_now();
    record_connection_failure_at(state, network_ssid, network_bssid, reason, now);
}

} // verus!
