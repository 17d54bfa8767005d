//! One observed access point, and the reading of its signal strength.
use vstd::prelude::*;
use crate::number::{parse_i32, read_i32};
use crate::text::{lowercase, strip_trailing, strip_trailing_span, to_chars};

verus! {

/// One access point as one scan saw it.
#[derive(Debug, PartialEq, Eq)]
pub struct WifiNetwork {
    pub ssid: String,
    pub authentication: String,
    pub encryption: String,
    pub bssid: String,
    pub signal: String,
    pub risk: String,
    pub is_evil_twin: bool,
}

/// A `WifiNetwork` as plain values.
pub struct NetworkView {
    pub ssid: Seq<char>,
    pub authentication: Seq<char>,
    pub encryption: Seq<char>,
    pub bssid: Seq<char>,
    pub signal: Seq<char>,
    pub risk: Seq<char>,
    pub is_evil_twin: bool,
}

impl View for WifiNetwork {
    type V = NetworkView;

    open spec fn view(&self) -> NetworkView {
        NetworkView {
            ssid: self.ssid@,
            authentication: self.authentication@,
            encryption: self.encryption@,
            bssid: self.bssid@,
            signal: self.signal@,
            risk: self.risk@,
            is_evil_twin: self.is_evil_twin,
        }
    }
}

impl Clone for WifiNetwork {
    fn clone(&self) -> (r: Self)
        ensures
            r == *self,
    {
        WifiNetwork {
            ssid: self.ssid.clone(),
            authentication: self.authentication.clone(),
            encryption: self.encryption.clone(),
            bssid: self.bssid.clone(),
            signal: self.signal.clone(),
            risk: self.risk.clone(),
            is_evil_twin: self.is_evil_twin,
        }
    }
}

/// The lower-case form of the BSSID of `n`, under which the detector knows
/// the access point.
pub open spec fn bssid_key(n: NetworkView) -> Seq<char> {
    lowercase(n.bssid)
}

/// The lower-case BSSIDs of the records of `batch`, in order.
pub open spec fn key_list(batch: Seq<NetworkView>) -> Seq<Seq<char>> {
    Seq::new(batch.len(), |i: int| bssid_key(batch[i]))
}

/// The records of a batch as plain values.
pub open spec fn batch_view(batch: Seq<WifiNetwork>) -> Seq<NetworkView> {
    Seq::new(batch.len(), |i: int| batch[i]@)
}

/// The strength that a signal text states: the integer it spells once the
/// percent signs at its end are left out, and 0 where it spells none.
pub open spec fn signal_value(signal: Seq<char>) -> i32 {
    match parse_i32(strip_trailing(signal, '%')) {
        Some(v) => v as i32,
        None => 0,
    }
}

/// The strength that `signal` states.
pub fn signal_strength(signal: &str) -> (r: i32)
    ensures
        r == signal_value(signal@),
{
    let v = to_chars(signal);
    assert(v@.subrange(0, v.len() as int) == v@);
    let end = strip_trailing_span(&v, 0, v.len(), '%');
    match read_i32(&v, 0, end) {
        Some(n) => n,
        None => 0,
    }
}

} // verus!
