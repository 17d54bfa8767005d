//! Bringing the history and the signal baselines up to date with a scan.
use vstd::prelude::*;
use crate::clock::Timestamp;
use crate::network::{
    batch_view, bssid_key, key_list, signal_strength, signal_value, NetworkView, WifiNetwork,
};
use crate::seqs::{lemma_position_bounds, lemma_position_is, position};
use crate::state::{
    baseline_keys, baseline_views, baselines_bounded, history_bounded, history_keys,
    history_views, BaselineView, HistoryView, MonitoringState, NetworkHistory, SignalBaseline,
    StateView, SAMPLE_CAPACITY,
};

verus! {

/// A history entry that was last seen this many seconds ago, or longer, is
/// stale.
pub const STALE_AFTER_SECS: i64 = 300;

/// `q` with `x` at its end, cut down to its last `SAMPLE_CAPACITY` samples.
pub open spec fn push_capped(q: Seq<i32>, x: i32) -> Seq<i32> {
    let r = q.push(x);
    if r.len() > SAMPLE_CAPACITY {
        r.skip(r.len() - SAMPLE_CAPACITY)
    } else {
        r
    }
}

/// `count` and one, as far as 32 bits go.
pub open spec fn bumped(count: u32) -> u32 {
    if count < u32::MAX {
        (count + 1) as u32
    } else {
        count
    }
}

/// The entry of an access point that was seen before, after it is seen again.
pub open spec fn seen_again(entry: HistoryView, n: NetworkView, now: Timestamp) -> HistoryView {
    HistoryView {
        ssid: n.ssid,
        signal_strength: signal_value(n.signal),
        last_seen: now,
        appearance_count: bumped(entry.appearance_count),
        previous_signals: push_capped(entry.previous_signals, signal_value(n.signal)),
        ..entry
    }
}

/// The entry of an access point that is seen for the first time.
pub open spec fn first_seen(n: NetworkView, now: Timestamp) -> HistoryView {
    HistoryView {
        ssid: n.ssid,
        bssid: bssid_key(n),
        signal_strength: signal_value(n.signal),
        first_seen: now,
        last_seen: now,
        appearance_count: 1,
        previous_signals: seq![signal_value(n.signal)],
    }
}

/// The history `h` after the record `n` is observed at the time `now`: the
/// entry under the BSSID of `n` is brought up to date, or a new one is put at
/// the end.
pub open spec fn observe_history(
    h: Seq<HistoryView>,
    n: NetworkView,
    now: Timestamp,
) -> Seq<HistoryView> {
    let k = position(history_keys(h), bssid_key(n));
    if 0 <= k < h.len() {
        h.update(k, seen_again(h[k], n, now))
    } else {
        h.push(first_seen(n, now))
    }
}

/// The baselines `b` after the record `n` is observed: its signal goes to the
/// end of the queue under its BSSID, or into a new queue at the end.
pub open spec fn observe_baseline(b: Seq<BaselineView>, n: NetworkView) -> Seq<BaselineView> {
    let k = position(baseline_keys(b), bssid_key(n));
    if 0 <= k < b.len() {
        b.update(
            k,
            BaselineView { samples: push_capped(b[k].samples, signal_value(n.signal)), ..b[k] },
        )
    } else {
        b.push(BaselineView { bssid: bssid_key(n), samples: seq![signal_value(n.signal)] })
    }
}

/// The history `h` after the records of `batch` are observed, one after the
/// other.
pub open spec fn observe_all_history(
    h: Seq<HistoryView>,
    batch: Seq<NetworkView>,
    now: Timestamp,
) -> Seq<HistoryView>
    decreases batch.len(),
{
    if batch.len() == 0 {
        h
    } else {
        observe_history(observe_all_history(h, batch.drop_last(), now), batch.last(), now)
    }
}

/// The baselines `b` after the records of `batch` are observed, one after the
/// other.
pub open spec fn observe_all_baselines(
    b: Seq<BaselineView>,
    batch: Seq<NetworkView>,
) -> Seq<BaselineView>
    decreases batch.len(),
{
    if batch.len() == 0 {
        b
    } else {
        observe_baseline(observe_all_baselines(b, batch.drop_last()), batch.last())
    }
}

/// Whether an entry last seen at `last_seen` is still fresh at `now`.
pub open spec fn is_fresh(last_seen: Timestamp, now: Timestamp) -> bool {
    last_seen.is_within(now, STALE_AFTER_SECS as int)
}

/// The entries of `h` that are fresh at `now`, in order.
pub open spec fn fresh_entries(h: Seq<HistoryView>, now: Timestamp) -> Seq<HistoryView>
    decreases h.len(),
{
    if h.len() == 0 {
        Seq::empty()
    } else {
        let f = fresh_entries(h.drop_last(), now);
        if is_fresh(h.last().last_seen, now) {
            f.push(h.last())
        } else {
            f
        }
    }
}

/// The history after a scan: every record observed, then the stale entries
/// swept out.
pub open spec fn updated_history(
    h: Seq<HistoryView>,
    batch: Seq<NetworkView>,
    now: Timestamp,
) -> Seq<HistoryView> {
    fresh_entries(observe_all_history(h, batch, now), now)
}

/// The state after its history and baselines are brought up to date with
/// `batch` at the time `now`.
pub open spec fn with_updated_history(
    s: StateView,
    batch: Seq<NetworkView>,
    now: Timestamp,
) -> StateView {
    StateView {
        network_history: updated_history(s.network_history, batch, now),
        signal_baselines: observe_all_baselines(s.signal_baselines, batch),
        ..s
    }
}

/// The index of the entry of `list` under `key`, or the length of `list`
/// where there is none.
pub fn find_history(list: &Vec<NetworkHistory>, key: &String) -> (k: usize)
    ensures
        k == position(history_keys(history_views(list@)), key@),
        k <= list.len(),
{
    let mut i: usize = 0;
    while i < list.len() && list[i].bssid != *key
        invariant
            i <= list.len(),
            forall|j: int| 0 <= j < i ==> history_keys(history_views(list@))[j] != key@,
        decreases list.len() - i,
    {
        i += 1;
    }
    proof {
        lemma_position_is(history_keys(history_views(list@)), key@, i as int);
    }
    i
}

/// The index of the queue of `list` under `key`, or the length of `list`
/// where there is none.
pub fn find_baseline(list: &Vec<SignalBaseline>, key: &String) -> (k: usize)
    ensures
        k == position(baseline_keys(baseline_views(list@)), key@),
        k <= list.len(),
{
    let mut i: usize = 0;
    while i < list.len() && list[i].bssid != *key
        invariant
            i <= list.len(),
            forall|j: int| 0 <= j < i ==> baseline_keys(baseline_views(list@))[j] != key@,
        decreases list.len() - i,
    {
        i += 1;
    }
    proof {
        lemma_position_is(baseline_keys(baseline_views(list@)), key@, i as int);
    }
    i
}

/// Puts `x` at the end of `q` and drops the oldest samples beyond
/// `SAMPLE_CAPACITY`.
pub fn push_sample(q: &mut Vec<i32>, x: i32)
    ensures
        final(q)@ == push_capped(old(q)@, x),
        final(q)@.len() <= SAMPLE_CAPACITY,
{
    q.push(x);
    let ghost pushed = q@;
    assert(pushed.skip(0) == pushed);
    while q.len() > SAMPLE_CAPACITY
        invariant
            q@.len() <= pushed.len(),
            q@ == pushed.skip(pushed.len() - q@.len()),
            pushed.len() > SAMPLE_CAPACITY ==> q@.len() >= SAMPLE_CAPACITY,
            pushed.len() <= SAMPLE_CAPACITY ==> q@.len() == pushed.len(),
        decreases q.len(),
    {
        q.remove(0);
    }
}

/// Brings the history and the signal baselines of `state` up to date with
/// the records of one scan, taken at the time `now`, and sweeps out the
/// history entries that were not seen for `STALE_AFTER_SECS` seconds.
pub fn update_network_history(
    networks: &[WifiNetwork],
    state: &mut MonitoringState,
    now: Timestamp,
)
    ensures
        final(state)@ == with_updated_history(old(state)@, batch_view(networks@), now),
{
    let ghost before = state@;
    let ghost batch = batch_view(networks@);
    let mut i: usize = 0;
    while i < networks.len()
        invariant
            i <= networks.len(),
            batch == batch_view(networks@),
            state@ == (StateView {
                network_history: observe_all_history(
                    before.network_history,
                    batch.take(i as int),
                    now,
                ),
                signal_baselines: observe_all_baselines(
                    before.signal_baselines,
                    batch.take(i as int),
                ),
                ..before
            }),
        decreases networks.len() - i,
    {
        proof {
            assert(batch.take(i + 1).drop_last() == batch.take(i as int));
            assert(batch.take(i + 1).last() == networks@[i as int]@);
        }
        let network = &networks[i];
        let bssid = network.bssid.as_str().to_lowercase();
        let signal = signal_strength(network.signal.as_str());

        let ghost h = history_views(state.network_history@);
        let k = find_history(&state.network_history, &bssid);
        if k < state.network_history.len() {
            state.network_history[k].last_seen = now;
            let count = state.network_history[k].appearance_count;
            if count < u32::MAX {
                state.network_history[k].appearance_count = count + 1;
            }
            state.network_history[k].signal_strength = signal;
            state.network_history[k].ssid = network.ssid.clone();
            push_sample(&mut state.network_history[k].previous_signals, signal);
            assert(history_views(state.network_history@) == h.update(
                k as int,
                seen_again(h[k as int], network@, now),
            ));
        } else {
            let mut previous_signals: Vec<i32> = Vec::new();
            previous_signals.push(signal);
            let entry = NetworkHistory {
                ssid: network.ssid.clone(),
                bssid: bssid.clone(),
                signal_strength: signal,
                first_seen: now,
                last_seen: now,
                appearance_count: 1,
                previous_signals,
            };
            state.network_history.push(entry);
            assert(history_views(state.network_history@) == h.push(first_seen(network@, now)));
        }

        let ghost b = baseline_views(state.signal_baselines@);
        let j = find_baseline(&state.signal_baselines, &bssid);
        if j < state.signal_baselines.len() {
            push_sample(&mut state.signal_baselines[j].samples, signal);
            assert(baseline_views(state.signal_baselines@) == b.update(
                j as int,
                BaselineView { samples: push_capped(b[j as int].samples, signal), ..b[j as int] },
            ));
        } else {
            let mut samples: Vec<i32> = Vec::new();
            samples.push(signal);
            state.signal_baselines.push(SignalBaseline { bssid, samples });
            assert(baseline_views(state.signal_baselines@) == b.push(
                BaselineView { bssid: bssid_key(network@), samples: seq![signal] },
            ));
        }
        i += 1;
    }
    assert(batch.take(networks.len() as int) == batch);

    let ghost observed = history_views(state.network_history@);
    let mut kept: Vec<NetworkHistory> = Vec::new();
    let mut n: usize = 0;
    assert(history_views(kept@) == Seq::<HistoryView>::empty());
    while n < state.network_history.len()
        invariant
            n <= state.network_history.len(),
            observed == history_views(state.network_history@),
            history_views(kept@) == fresh_entries(observed.take(n as int), now),
        decreases state.network_history.len() - n,
    {
        proof {
            assert(observed.take(n + 1).drop_last() == observed.take(n as int));
        }
        if state.network_history[n].last_seen.within(now, STALE_AFTER_SECS) {
            let ghost so_far = history_views(kept@);
            let entry = state.network_history[n].clone();
            kept.push(entry);
            assert(history_views(kept@) == so_far.push(entry@));
        }
        n += 1;
    }
    assert(observed.take(state.network_history.len() as int) == observed);
    state.network_history = kept;
}

/// Whether `h` holds an entry under `key` that was last seen at `now`.
pub open spec fn seen_at(h: Seq<HistoryView>, key: Seq<char>, now: Timestamp) -> bool {
    exists|i: int| 0 <= i < h.len() && (#[trigger] h[i]).bssid == key && h[i].last_seen == now
}

/// Observing records keeps every entry in its place, leaves alone the
/// entries under BSSIDs that the records do not show, leaves each queue that
/// it touches or makes no longer than `SAMPLE_CAPACITY`, and leaves for each
/// record an entry that was seen at `now`.
pub proof fn lemma_observe_all_history(h: Seq<HistoryView>, batch: Seq<NetworkView>, now: Timestamp)
    ensures
        observe_all_history(h, batch, now).len() >= h.len(),
        forall|i: int|
            0 <= i < h.len() ==> (#[trigger] observe_all_history(h, batch, now)[i]).bssid
                == h[i].bssid,
        forall|i: int|
            0 <= i < h.len() && !key_list(batch).contains(h[i].bssid)
                ==> #[trigger] observe_all_history(h, batch, now)[i] == h[i],
        forall|i: int|
            0 <= i < h.len() ==> (#[trigger] observe_all_history(
                h,
                batch,
                now,
            )[i]).previous_signals.len() <= SAMPLE_CAPACITY || observe_all_history(h, batch, now)[i]
                == h[i],
        forall|i: int|
            h.len() <= i < observe_all_history(h, batch, now).len() ==> (
            #[trigger] observe_all_history(h, batch, now)[i]).previous_signals.len()
                <= SAMPLE_CAPACITY,
        forall|k: int|
            0 <= k < batch.len() ==> seen_at(
                observe_all_history(h, batch, now),
                bssid_key(#[trigger] batch[k]),
                now,
            ),
    decreases batch.len(),
{
    if batch.len() > 0 {
        let rest = batch.drop_last();
        let n = batch.last();
        let mid = observe_all_history(h, rest, now);
        let out = observe_all_history(h, batch, now);
        lemma_observe_all_history(h, rest, now);
        lemma_position_bounds(history_keys(mid), bssid_key(n));
        let p = position(history_keys(mid), bssid_key(n));
        assert(key_list(batch)[batch.len() - 1] == bssid_key(n));
        assert forall|x: Seq<char>| key_list(rest).contains(x) implies key_list(batch).contains(
            x,
        ) by {
            let j = choose|j: int| 0 <= j < key_list(rest).len() && key_list(rest)[j] == x;
            assert(key_list(batch)[j] == x);
        }
        if p < mid.len() {
            assert(history_keys(mid)[p] == mid[p].bssid);
        }
        assert forall|i: int|
            0 <= i < h.len() && !key_list(batch).contains(h[i].bssid) implies #[trigger] out[i]
            == h[i] by {
            assert(mid[i].bssid == h[i].bssid);
            if key_list(rest).contains(h[i].bssid) {
                assert(key_list(batch).contains(h[i].bssid));
            }
        }
        assert forall|i: int| 0 <= i < h.len() implies (#[trigger] out[i]).previous_signals.len()
            <= SAMPLE_CAPACITY || out[i] == h[i] by {
            assert(mid[i].previous_signals.len() <= SAMPLE_CAPACITY || mid[i] == h[i]);
        }
        assert forall|i: int| h.len() <= i < out.len() implies (
        #[trigger] out[i]).previous_signals.len() <= SAMPLE_CAPACITY by {
            if i < mid.len() {
                assert(mid[i].previous_signals.len() <= SAMPLE_CAPACITY);
            }
        }
        assert forall|k: int| 0 <= k < batch.len() implies seen_at(
            out,
            bssid_key(#[trigger] batch[k]),
            now,
        ) by {
            if k < rest.len() {
                assert(rest[k] == batch[k]);
                assert(seen_at(mid, bssid_key(rest[k]), now));
                let i = choose|i: int|
                    0 <= i < mid.len() && (#[trigger] mid[i]).bssid == bssid_key(rest[k])
                        && mid[i].last_seen == now;
                assert(out[i].bssid == bssid_key(batch[k]) && out[i].last_seen == now);
            } else {
                let i = if p < mid.len() {
                    p
                } else {
                    mid.len() as int
                };
                assert(out[i].bssid == bssid_key(batch[k]) && out[i].last_seen == now);
            }
        }
    }
}

/// An entry is among the fresh entries of `h` just where it is an entry of
/// `h` and fresh.
pub proof fn lemma_fresh_entries(h: Seq<HistoryView>, now: Timestamp, e: HistoryView)
    ensures
        fresh_entries(h, now).contains(e) <==> h.contains(e) && is_fresh(e.last_seen, now),
    decreases h.len(),
{
    if h.len() > 0 {
        let rest = h.drop_last();
        let f = fresh_entries(rest, now);
        let g = fresh_entries(h, now);
        lemma_fresh_entries(rest, now, e);
        if g.contains(e) {
            let j = choose|j: int| 0 <= j < g.len() && g[j] == e;
            if j < f.len() {
                assert(f[j] == e);
                assert(f.contains(e));
                let k = choose|k: int| 0 <= k < rest.len() && rest[k] == e;
                assert(h[k] == e);
            } else {
                assert(h[h.len() - 1] == e);
            }
        }
        if h.contains(e) && is_fresh(e.last_seen, now) {
            let k = choose|k: int| 0 <= k < h.len() && h[k] == e;
            if k < rest.len() {
                assert(rest[k] == e);
                assert(rest.contains(e));
                let j = choose|j: int| 0 <= j < f.len() && f[j] == e;
                assert(g[j] == e);
            } else {
                assert(g[f.len() as int] == e);
            }
        }
    }
}

/// Staleness: after an update at the time `now`, the history holds only
/// entries that were seen within the last `STALE_AFTER_SECS` seconds. An
/// entry under a BSSID that the scan does not show is kept, as it was, where
/// it is that fresh, and is gone where it is not. Each access point that the
/// scan shows has an entry that was seen at `now`.
pub proof fn stale_entries_are_swept(
    h: Seq<HistoryView>,
    batch: Seq<NetworkView>,
    now: Timestamp,
)
    ensures
        forall|i: int|
            0 <= i < updated_history(h, batch, now).len() ==> is_fresh(
                (#[trigger] updated_history(h, batch, now)[i]).last_seen,
                now,
            ),
        forall|i: int|
            0 <= i < h.len() && !key_list(batch).contains((#[trigger] h[i]).bssid) ==> (
            updated_history(h, batch, now).contains(h[i]) <==> is_fresh(h[i].last_seen, now)),
        forall|k: int|
            0 <= k < batch.len() ==> seen_at(
                updated_history(h, batch, now),
                bssid_key(#[trigger] batch[k]),
                now,
            ),
{
    let observed = observe_all_history(h, batch, now);
    let kept = updated_history(h, batch, now);
    lemma_observe_all_history(h, batch, now);
    assert forall|i: int| 0 <= i < kept.len() implies is_fresh((#[trigger] kept[i]).last_seen, now) by {
        assert(kept.contains(kept[i]));
        lemma_fresh_entries(observed, now, kept[i]);
    }
    assert forall|i: int|
        0 <= i < h.len() && !key_list(batch).contains((#[trigger] h[i]).bssid) implies (
    kept.contains(h[i]) <==> is_fresh(h[i].last_seen, now)) by {
        assert(observed[i] == h[i]);
        assert(observed.contains(h[i]));
        lemma_fresh_entries(observed, now, h[i]);
    }
    assert forall|k: int| 0 <= k < batch.len() implies seen_at(
        kept,
        bssid_key(#[trigger] batch[k]),
        now,
    ) by {
        assert(seen_at(observed, bssid_key(batch[k]), now));
        let j = choose|j: int|
            0 <= j < observed.len() && (#[trigger] observed[j]).bssid == bssid_key(batch[k])
                && observed[j].last_seen == now;
        assert(observed.contains(observed[j]));
        assert(is_fresh(now, now));
        lemma_fresh_entries(observed, now, observed[j]);
        let i = choose|i: int| 0 <= i < kept.len() && kept[i] == observed[j];
        assert(kept[i].bssid == bssid_key(batch[k]) && kept[i].last_seen == now);
    }
}

/// Observing records leaves no baseline longer than it found it or than
/// `SAMPLE_CAPACITY`.
pub proof fn lemma_observe_all_baselines(b: Seq<BaselineView>, batch: Seq<NetworkView>)
    requires
        baselines_bounded(b),
    ensures
        baselines_bounded(observe_all_baselines(b, batch)),
    decreases batch.len(),
{
    if batch.len() > 0 {
        lemma_observe_all_baselines(b, batch.drop_last());
        let mid = observe_all_baselines(b, batch.drop_last());
        lemma_position_bounds(baseline_keys(mid), bssid_key(batch.last()));
    }
}

/// A history whose queues are bounded has bounded queues after an update.
pub proof fn lemma_updated_history_bounded(
    h: Seq<HistoryView>,
    batch: Seq<NetworkView>,
    now: Timestamp,
)
    requires
        history_bounded(h),
    ensures
        history_bounded(updated_history(h, batch, now)),
{
    let observed = observe_all_history(h, batch, now);
    let kept = updated_history(h, batch, now);
    lemma_observe_all_history(h, batch, now);
    assert forall|i: int| 0 <= i < kept.len() implies (#[trigger] kept[i]).previous_signals.len()
        <= SAMPLE_CAPACITY by {
        assert(kept.contains(kept[i]));
        lemma_fresh_entries(observed, now, kept[i]);
        let j = choose|j: int| 0 <= j < observed.len() && observed[j] == kept[i];
        if j < h.len() {
            assert(observed[j].previous_signals.len() <= SAMPLE_CAPACITY || observed[j] == h[j]);
        }
    }
}

} // verus!
