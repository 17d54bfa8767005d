//! The risk rating of one access point, from its security attributes.
use vstd::prelude::*;
use vstd::string::*;
use crate::network::{signal_strength, signal_value};
use crate::text::{blank, is_blank, same_text};

verus! {

/// A signal weaker than this many percent counts against a network.
pub const WEAK_SIGNAL: i32 = 30;

/// From this score on a network is rated `Medium`.
pub const MEDIUM_SCORE: u8 = 2;

/// From this score on a network is rated `High`.
pub const HIGH_SCORE: u8 = 5;

/// Whether a network name is hidden: blank, or the placeholder `-`.
pub open spec fn is_hidden_name(ssid: Seq<char>) -> bool {
    is_blank(ssid) || ssid == "-"@
}

/// What the authentication adds to the score: 3 where there is none
/// (blank or `Open`).
pub open spec fn authentication_points(authentication: Seq<char>) -> int {
    if is_blank(authentication) || authentication == "Open"@ {
        3
    } else {
        0
    }
}

/// What the encryption adds to the score: 3 where there is none (blank or
/// `None`), 2 for `WEP`, 1 for `TKIP`, nothing for anything else.
pub open spec fn encryption_points(encryption: Seq<char>) -> int {
    if is_blank(encryption) || encryption == "None"@ {
        3
    } else if encryption == "WEP"@ {
        2
    } else if encryption == "TKIP"@ {
        1
    } else {
        0
    }
}

/// What the signal adds to the score: 1 where it is weak.
pub open spec fn signal_points(signal: Seq<char>) -> int {
    if signal_value(signal) < WEAK_SIGNAL {
        1
    } else {
        0
    }
}

/// What the name adds to the score: 2 where it is hidden.
pub open spec fn ssid_points(ssid: Seq<char>) -> int {
    if is_hidden_name(ssid) {
        2
    } else {
        0
    }
}

/// The risk score of a network: the sum of what its four attributes add.
pub open spec fn risk_score(
    authentication: Seq<char>,
    encryption: Seq<char>,
    signal: Seq<char>,
    ssid: Seq<char>,
) -> int {
    authentication_points(authentication) + encryption_points(encryption) + signal_points(signal)
        + ssid_points(ssid)
}

/// The rating that a score earns.
pub open spec fn risk_label(score: int) -> Seq<char> {
    if score >= HIGH_SCORE {
        "High"@
    } else if score >= MEDIUM_SCORE {
        "Medium"@
    } else {
        "Low"@
    }
}

/// Whether the network name `ssid` is hidden.
pub fn hidden_name(ssid: &str) -> (b: bool)
    ensures
        b == is_hidden_name(ssid@),
{
    blank(ssid) || same_text(ssid, "-")
}

/// Rates a network `High`, `Medium` or `Low` by its risk score.
pub fn calculate_risk(
    authentication: &str,
    encryption: &str,
    signal: &str,
    ssid: &str,
) -> (risk: String)
    ensures
        risk@ == risk_label(risk_score(authentication@, encryption@, signal@, ssid@)),
{
    let mut score: u8 = 0;
    if blank(authentication) || same_text(authentication, "Open") {
        score += 3;
    }
    if blank(encryption) || same_text(encryption, "None") {
        score += 3;
    } else if same_text(encryption, "WEP") {
        score += 2;
    } else if same_text(encryption, "TKIP") {
        score += 1;
    }
    if signal_strength(signal) < WEAK_SIGNAL {
        score += 1;
    }
    if hidden_name(ssid) {
        score += 2;
    }
    if score >= HIGH_SCORE {
        String::from_str("High")
    } else if score >= MEDIUM_SCORE {
        String::from_str("Medium")
    } else {
        String::from_str("Low")
    }
}

/// No attribute lowers the score, and none adds more than its share: the
/// score lies between 0 and 9, and putting a riskier value in the place of
/// one attribute never lowers it.
pub proof fn risk_factors_are_independent(
    authentication: Seq<char>,
    encryption: Seq<char>,
    signal: Seq<char>,
    ssid: Seq<char>,
    other: Seq<char>,
)
    ensures
        0 <= risk_score(authentication, encryption, signal, ssid) <= 9,
        authentication_points(other) >= authentication_points(authentication) ==> risk_score(
            other,
            encryption,
            signal,
            ssid,
        ) >= risk_score(authentication, encryption, signal, ssid),
        encryption_points(other) >= encryption_points(encryption) ==> risk_score(
            authentication,
            other,
            signal,
            ssid,
        ) >= risk_score(authentication, encryption, signal, ssid),
        signal_points(other) >= signal_points(signal) ==> risk_score(
            authentication,
            encryption,
            other,
            ssid,
        ) >= risk_score(authentication, encryption, signal, ssid),
        ssid_points(other) >= ssid_points(ssid) ==> risk_score(
            authentication,
            encryption,
            signal,
            other,
        ) >= risk_score(authentication, encryption, signal, ssid),
{
}

} // verus!
