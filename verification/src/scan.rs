//! What the adapter's reports say: whether an adapter is there and switched
//! on, whether a scan could run, and which networks it found.
use vstd::prelude::*;
use vstd::string::*;
use crate::evil_twin::{mark_evil_twins, tagged};
use crate::network::{batch_view, WifiNetwork};
use crate::parse::{parse_network_scan, parsed_records};
use crate::text::{
    contains, has_substring, is_white_space, line_spans, split_lines, starts_with, to_chars, trim,
    trim_end, trim_start, trim_span,
};

verus! {

/// Why no scan result can be had.
#[derive(Clone, Copy, Debug, PartialEq, Eq, Structural)]
pub enum ScanError {
    /// The interface report shows no adapter.
    NoAdapter,
    /// The adapter's radio is switched off.
    AdapterOff,
    /// The scan report says that the interface is powered down.
    PoweredDown,
    /// The scan report says that the adapter cannot scan.
    NotReady,
}

impl ScanError {
    /// What the user is told.
    pub open spec fn text(self) -> Seq<char> {
        match self {
            ScanError::NoAdapter => "No WiFi adapter found. Please ensure your WiFi adapter is installed and enabled."@,
            ScanError::AdapterOff => "WiFi adapter is turned off. Please enable WiFi in Windows Settings or use the WiFi toggle in the system tray."@,
            ScanError::PoweredDown => "WiFi adapter is powered down. Please enable WiFi in Windows Settings."@,
            ScanError::NotReady => "WiFi adapter is not ready for scanning. Please enable WiFi in Windows Settings."@,
        }
    }

    /// What the user is told.
    pub fn message(&self) -> (s: String)
        ensures
            s@ == self.text(),
    {
        match self {
            ScanError::NoAdapter => String::from_str(
                "No WiFi adapter found. Please ensure your WiFi adapter is installed and enabled.",
            ),
            ScanError::AdapterOff => String::from_str(
                "WiFi adapter is turned off. Please enable WiFi in Windows Settings or use the WiFi toggle in the system tray.",
            ),
            ScanError::PoweredDown => String::from_str(
                "WiFi adapter is powered down. Please enable WiFi in Windows Settings.",
            ),
            ScanError::NotReady => String::from_str(
                "WiFi adapter is not ready for scanning. Please enable WiFi in Windows Settings.",
            ),
        }
    }
}

/// Whether some line, trimmed, begins with `label`.
pub open spec fn some_line_begins(lines: Seq<Seq<char>>, label: Seq<char>) -> bool {
    exists|i: int| 0 <= i < lines.len() && label.is_prefix_of(trim(#[trigger] lines[i]))
}

/// Whether some line, trimmed, holds `pattern`.
pub open spec fn some_line_holds(lines: Seq<Seq<char>>, pattern: Seq<char>) -> bool {
    exists|i: int| 0 <= i < lines.len() && has_substring(trim(#[trigger] lines[i]), pattern)
}

/// What the interface report `report` says of the adapter: there is none
/// where no line begins with `State`; it is off where a line holds
/// `Software Off`; else it is ready.
pub open spec fn adapter_fault(report: Seq<char>) -> Option<ScanError> {
    let lines = split_lines(report);
    if !some_line_begins(lines, "State"@) {
        Some(ScanError::NoAdapter)
    } else if some_line_holds(lines, "Software Off"@) {
        Some(ScanError::AdapterOff)
    } else {
        None
    }
}

/// What the scan report `report` says went wrong, if anything.
pub open spec fn scan_fault(report: Seq<char>) -> Option<ScanError> {
    if has_substring(report, "The wireless local area network interface is powered down"@) {
        Some(ScanError::PoweredDown)
    } else if has_substring(report, "doesn't support the requested operation"@) {
        Some(ScanError::NotReady)
    } else {
        None
    }
}

/// Whether `pattern` occurs in `s`.
pub fn holds(s: &str, pattern: &str) -> (b: bool)
    ensures
        b == has_substring(s@, pattern@),
{
    let v = to_chars(s);
    let p = to_chars(pattern);
    assert(v@.subrange(0, v.len() as int) == v@);
    contains(&v, 0, v.len(), &p)
}

/// Reads the interface report: is there an adapter, and is its radio on?
pub fn check_adapter(report: &str) -> (r: Result<(), ScanError>)
    ensures
        r == match adapter_fault(report@) {
            Some(fault) => Err::<(), ScanError>(fault),
            None => Ok(()),
        },
{
    let chars = to_chars(report);
    let spans = line_spans(&chars);
    let state = to_chars("State");
    let software_off = to_chars("Software Off");
    let ghost lines = split_lines(chars@);
    let mut has_interface = false;
    let mut radio_software_off = false;
    let mut i: usize = 0;
    while i < spans.len()
        invariant
            i <= spans.len(),
            lines == split_lines(chars@),
            spans@.len() == lines.len(),
            state@ == "State"@,
            software_off@ == "Software Off"@,
            forall|k: int|
                0 <= k < spans@.len() ==> {
                    &&& (#[trigger] spans@[k]).0 <= spans@[k].1 <= chars.len()
                    &&& chars@.subrange(spans@[k].0 as int, spans@[k].1 as int) == lines[k]
                },
            has_interface == some_line_begins(lines.take(i as int), "State"@),
            radio_software_off == some_line_holds(lines.take(i as int), "Software Off"@),
        decreases spans.len() - i,
    {
        let (from, to) = spans[i];
        let (a, b) = trim_span(&chars, from, to);
        let begins = starts_with(&chars, a, b, &state);
        let off = contains(&chars, a, b, &software_off);
        proof {
            let before = lines.take(i as int);
            let after = lines.take(i + 1);
            assert(after[i as int] == lines[i as int]);
            if some_line_begins(before, "State"@) {
                let k = choose|k: int|
                    0 <= k < before.len() && "State"@.is_prefix_of(trim(#[trigger] before[k]));
                assert(after[k] == before[k]);
            }
            if some_line_holds(before, "Software Off"@) {
                let k = choose|k: int|
                    0 <= k < before.len() && has_substring(
                        trim(#[trigger] before[k]),
                        "Software Off"@,
                    );
                assert(after[k] == before[k]);
            }
            if some_line_begins(after, "State"@) && !begins {
                let k = choose|k: int|
                    0 <= k < after.len() && "State"@.is_prefix_of(trim(#[trigger] after[k]));
                assert(before[k] == after[k]);
            }
            if some_line_holds(after, "Software Off"@) && !off {
                let k = choose|k: int|
                    0 <= k < after.len() && has_substring(
                        trim(#[trigger] after[k]),
                        "Software Off"@,
                    );
                assert(before[k] == after[k]);
            }
        }
        if begins {
            has_interface = true;
        }
        if off {
            radio_software_off = true;
        }
        i += 1;
    }
    assert(lines.take(spans.len() as int) == lines);
    if !has_interface {
        Err(ScanError::NoAdapter)
    } else if radio_software_off {
        Err(ScanError::AdapterOff)
    } else {
        Ok(())
    }
}

/// Reads the scan report: the networks it lists, rated and tagged, unless it
/// says that the scan could not run.
pub fn read_scan(report: &str) -> (r: Result<Vec<WifiNetwork>, ScanError>)
    ensures
        match scan_fault(report@) {
            Some(fault) => r == Err::<Vec<WifiNetwork>, ScanError>(fault),
            None => r is Ok && batch_view(r->Ok_0@) == tagged(parsed_records(report@)),
        },
{
    if holds(report, "The wireless local area network interface is powered down") {
        return Err(ScanError::PoweredDown);
    }
    if holds(report, "doesn't support the requested operation") {
        return Err(ScanError::NotReady);
    }
    let mut networks = parse_network_scan(report);
    mark_evil_twins(&mut networks);
    Ok(networks)
}

/// A pattern that begins with a character that is no white space occurs in
/// `s` just where it occurs in `s` without its leading white space.
pub proof fn lemma_trim_start_keeps(s: Seq<char>, pattern: Seq<char>)
    requires
        pattern.len() > 0,
        !is_white_space(pattern[0]),
    ensures
        has_substring(trim_start(s), pattern) == has_substring(s, pattern),
    decreases s.len(),
{
    if s.len() > 0 && is_white_space(s[0]) {
        let t = s.drop_first();
        lemma_trim_start_keeps(t, pattern);
        if has_substring(s, pattern) {
            let i = choose|i: int|
                0 <= i <= s.len() - pattern.len() && #[trigger] s.subrange(i, i + pattern.len())
                    == pattern;
            assert(s.subrange(i, i + pattern.len())[0] == s[i]);
            assert(t.subrange(i - 1, i - 1 + pattern.len()) == s.subrange(i, i + pattern.len()));
        }
        if has_substring(t, pattern) {
            let i = choose|i: int|
                0 <= i <= t.len() - pattern.len() && #[trigger] t.subrange(i, i + pattern.len())
                    == pattern;
            assert(s.subrange(i + 1, i + 1 + pattern.len()) == t.subrange(i, i + pattern.len()));
        }
    }
}

/// A pattern that ends with a character that is no white space occurs in `s`
/// just where it occurs in `s` without its trailing white space.
pub proof fn lemma_trim_end_keeps(s: Seq<char>, pattern: Seq<char>)
    requires
        pattern.len() > 0,
        !is_white_space(pattern.last()),
    ensures
        has_substring(trim_end(s), pattern) == has_substring(s, pattern),
    decreases s.len(),
{
    if s.len() > 0 && is_white_space(s.last()) {
        let t = s.drop_last();
        lemma_trim_end_keeps(t, pattern);
        if has_substring(s, pattern) {
            let i = choose|i: int|
                0 <= i <= s.len() - pattern.len() && #[trigger] s.subrange(i, i + pattern.len())
                    == pattern;
            assert(s.subrange(i, i + pattern.len())[pattern.len() - 1] == s[i + pattern.len() - 1]);
            assert(t.subrange(i, i + pattern.len()) == s.subrange(i, i + pattern.len()));
        }
        if has_substring(t, pattern) {
            let i = choose|i: int|
                0 <= i <= t.len() - pattern.len() && #[trigger] t.subrange(i, i + pattern.len())
                    == pattern;
            assert(s.subrange(i, i + pattern.len()) == t.subrange(i, i + pattern.len()));
        }
    }
}

/// A line holds `Software Off` just where its trimmed form does: it makes no
/// difference to the verdict whether the lines are searched trimmed or as
/// they stand.
pub proof fn software_off_survives_trimming(line: Seq<char>)
    ensures
        has_substring(trim(line), "Software Off"@) == has_substring(line, "Software Off"@),
{
    reveal_strlit("Software Off");
    let pattern = "Software Off"@;
    assert(pattern[0] == 'S');
    assert(pattern.last() == 'f');
    lemma_trim_start_keeps(line, pattern);
    lemma_trim_end_keeps(trim_start(line), pattern);
}

} // verus!
