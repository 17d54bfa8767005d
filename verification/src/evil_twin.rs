//! Tagging the records of one scan whose name is advertised by access points
//! that disagree on security.
use vstd::prelude::*;
use crate::network::{batch_view, bssid_key, key_list, NetworkView, WifiNetwork};
use crate::rules::flood::lowercase_bssids;
use crate::seqs::texts;

verus! {

/// Whether `a` and `b` are two access points of one name that disagree on
/// security: the names are equal, the lower-case BSSIDs differ, and the
/// authentication or the encryption differs.
pub open spec fn are_twins(a: NetworkView, b: NetworkView) -> bool {
    a.ssid == b.ssid && bssid_key(a) != bssid_key(b) && (a.authentication != b.authentication
        || a.encryption != b.encryption)
}

/// Whether some record of `batch` is a twin of the record at `i`.
pub open spec fn has_twin(batch: Seq<NetworkView>, i: int) -> bool {
    exists|j: int| 0 <= j < batch.len() && are_twins(batch[i], #[trigger] batch[j])
}

/// Whether the name of the record at `k` is one that twins advertise: some
/// record of `batch` with that name has a twin.
pub open spec fn is_evil_twin(batch: Seq<NetworkView>, k: int) -> bool {
    exists|i: int|
        0 <= i < batch.len() && (#[trigger] batch[i]).ssid == batch[k].ssid && has_twin(batch, i)
}

/// `batch` with the flag of each record set to whether its name is one that
/// twins advertise.
pub open spec fn tagged(batch: Seq<NetworkView>) -> Seq<NetworkView> {
    Seq::new(
        batch.len(),
        |k: int| NetworkView { is_evil_twin: is_evil_twin(batch, k), ..batch[k] },
    )
}

/// Whether some record of `networks` is a twin of the one at `i`.
fn twin_exists(networks: &Vec<WifiNetwork>, keys: &Vec<String>, i: usize) -> (b: bool)
    requires
        i < networks.len(),
        texts(keys@) == key_list(batch_view(networks@)),
    ensures
        b == has_twin(batch_view(networks@), i as int),
{
    let ghost batch = batch_view(networks@);
    assert(keys@.len() == texts(keys@).len());
    let this = &networks[i];
    let mut j: usize = 0;
    while j < networks.len()
        invariant
            j <= networks.len(),
            i < networks.len(),
            keys.len() == networks.len(),
            batch == batch_view(networks@),
            texts(keys@) == key_list(batch),
            this == networks@[i as int],
            forall|m: int| 0 <= m < j ==> !are_twins(batch[i as int], #[trigger] batch[m]),
        decreases networks.len() - j,
    {
        let other = &networks[j];
        assert(texts(keys@)[i as int] == bssid_key(batch[i as int]));
        assert(texts(keys@)[j as int] == bssid_key(batch[j as int]));
        if this.ssid == other.ssid && keys[i] != keys[j] && (this.authentication
            != other.authentication || this.encryption != other.encryption) {
            assert(are_twins(batch[i as int], batch[j as int]));
            return true;
        }
        j += 1;
    }
    false
}

/// Whether some record of `networks` with the name of the one at `k` has a
/// twin, given for each record whether it has one.
fn name_has_twins(networks: &Vec<WifiNetwork>, twinned: &Vec<bool>, k: usize) -> (b: bool)
    requires
        k < networks.len(),
        twinned@.len() == networks.len(),
        forall|m: int|
            0 <= m < twinned@.len() ==> twinned@[m] == has_twin(batch_view(networks@), m),
    ensures
        b == is_evil_twin(batch_view(networks@), k as int),
{
    let ghost batch = batch_view(networks@);
    let mut n: usize = 0;
    while n < networks.len()
        invariant
            n <= networks.len(),
            k < networks.len(),
            batch == batch_view(networks@),
            twinned@.len() == networks.len(),
            forall|m: int| 0 <= m < twinned@.len() ==> twinned@[m] == has_twin(batch, m),
            forall|m: int|
                0 <= m < n ==> !((#[trigger] batch[m]).ssid == batch[k as int].ssid && has_twin(
                    batch,
                    m,
                )),
        decreases networks.len() - n,
    {
        if twinned[n] && networks[n].ssid == networks[k].ssid {
            assert(batch[n as int].ssid == batch[k as int].ssid && has_twin(batch, n as int));
            return true;
        }
        n += 1;
    }
    false
}

/// Sets the flag of each record to whether the scan shows its name on access
/// points with different BSSIDs that disagree on authentication or
/// encryption. Nothing else of the records changes, and the flags that the
/// records came with have no say.
pub fn mark_evil_twins(networks: &mut Vec<WifiNetwork>)
    ensures
        batch_view(final(networks)@) == tagged(batch_view(old(networks)@)),
{
    let ghost batch = batch_view(networks@);
    let keys = lowercase_bssids(networks.as_slice());

    let mut twinned: Vec<bool> = Vec::new();
    let mut i: usize = 0;
    while i < networks.len()
        invariant
            i <= networks.len(),
            batch == batch_view(networks@),
            texts(keys@) == key_list(batch),
            twinned@.len() == i,
            forall|m: int| 0 <= m < i ==> twinned@[m] == has_twin(batch, m),
        decreases networks.len() - i,
    {
        let b = twin_exists(networks, &keys, i);
        twinned.push(b);
        i += 1;
    }

    let mut flags: Vec<bool> = Vec::new();
    let mut k: usize = 0;
    while k < networks.len()
        invariant
            k <= networks.len(),
            batch == batch_view(networks@),
            twinned@.len() == networks.len(),
            forall|m: int| 0 <= m < twinned@.len() ==> twinned@[m] == has_twin(batch, m),
            flags@.len() == k,
            forall|m: int| 0 <= m < k ==> flags@[m] == is_evil_twin(batch, m),
        decreases networks.len() - k,
    {
        let found = name_has_twins(networks, &twinned, k);
        flags.push(found);
        k += 1;
    }

    let mut w: usize = 0;
    while w < networks.len()
        invariant
            w <= networks.len(),
            networks@.len() == batch.len(),
            flags@.len() == batch.len(),
            forall|m: int| 0 <= m < flags@.len() ==> flags@[m] == is_evil_twin(batch, m),
            forall|m: int| 0 <= m < w ==> (#[trigger] networks@[m])@ == tagged(batch)[m],
            forall|m: int| w <= m < networks@.len() ==> (#[trigger] networks@[m])@ == batch[m],
        decreases networks.len() - w,
    {
        networks[w].is_evil_twin = flags[w];
        w += 1;
    }
    assert(batch_view(networks@) =~= tagged(batch));
}

/// Whether `a` and `b` hold the same records but for their flags.
pub open spec fn differ_in_flags_only(a: Seq<NetworkView>, b: Seq<NetworkView>) -> bool {
    &&& a.len() == b.len()
    &&& forall|i: int|
        0 <= i < a.len() ==> #[trigger] a[i] == (NetworkView {
            is_evil_twin: a[i].is_evil_twin,
            ..b[i]
        })
}

proof fn lemma_has_twin_ignores_flags(a: Seq<NetworkView>, b: Seq<NetworkView>, i: int)
    requires
        differ_in_flags_only(a, b),
        0 <= i < a.len(),
    ensures
        has_twin(a, i) == has_twin(b, i),
{
    if has_twin(a, i) {
        let j = choose|j: int| 0 <= j < a.len() && are_twins(a[i], #[trigger] a[j]);
        assert(are_twins(b[i], b[j]));
    }
    if has_twin(b, i) {
        let j = choose|j: int| 0 <= j < b.len() && are_twins(b[i], #[trigger] b[j]);
        assert(are_twins(a[i], a[j]));
    }
}

/// The flags that records come with have no say in which are twins.
pub proof fn lemma_flags_have_no_say(a: Seq<NetworkView>, b: Seq<NetworkView>, k: int)
    requires
        differ_in_flags_only(a, b),
        0 <= k < a.len(),
    ensures
        is_evil_twin(a, k) == is_evil_twin(b, k),
{
    if is_evil_twin(a, k) {
        let i = choose|i: int|
            0 <= i < a.len() && (#[trigger] a[i]).ssid == a[k].ssid && has_twin(a, i);
        lemma_has_twin_ignores_flags(a, b, i);
        assert(b[i].ssid == b[k].ssid && has_twin(b, i));
    }
    if is_evil_twin(b, k) {
        let i = choose|i: int|
            0 <= i < b.len() && (#[trigger] b[i]).ssid == b[k].ssid && has_twin(b, i);
        lemma_has_twin_ignores_flags(a, b, i);
        assert(a[i].ssid == a[k].ssid && has_twin(a, i));
    }
}

/// Tagging is idempotent: tagging a tagged batch changes nothing.
pub proof fn tagging_is_idempotent(batch: Seq<NetworkView>)
    ensures
        tagged(tagged(batch)) == tagged(batch),
{
    let once = tagged(batch);
    assert(differ_in_flags_only(once, batch));
    assert forall|k: int| 0 <= k < once.len() implies #[trigger] tagged(once)[k] == once[k] by {
        lemma_flags_have_no_say(once, batch, k);
    }
    assert(tagged(once) =~= once);
}

} // verus!
