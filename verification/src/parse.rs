//! Reading an adapter's textual scan report into network records.
//!
//! The report is a flat run of labelled lines. A line that begins with `SSID`
//! opens a network, one that begins with `BSSID` opens a record under it, and
//! `Authentication`, `Encryption` and `Signal` lines fill in what follows.
use vstd::prelude::*;
use crate::network::{batch_view, NetworkView, WifiNetwork};
use crate::risk::{calculate_risk, risk_label, risk_score};
use crate::text::{
    after_first, find_char, from_chars, has_char, line_spans, split_lines, starts_with, to_chars,
    trim, trim_span,
};

verus! {

/// Where the reader stands after some lines: the network name and security
/// attributes that apply to the next record, the record being filled in, and
/// the records that are complete.
pub struct Scanner {
    pub ssid: Seq<char>,
    pub authentication: Seq<char>,
    pub encryption: Seq<char>,
    pub pending: Option<NetworkView>,
    pub records: Seq<NetworkView>,
}

/// Whether the trimmed line `line` carries `label`: it begins with the label
/// and holds a colon.
pub open spec fn is_labelled(line: Seq<char>, label: Seq<char>) -> bool {
    label.is_prefix_of(line) && has_char(line, ':')
}

/// The value of a labelled line: what follows its first colon, trimmed.
pub open spec fn line_value(line: Seq<char>) -> Seq<char> {
    trim(after_first(line, ':'))
}

/// The reader before the first line.
pub open spec fn scanner_start() -> Scanner {
    Scanner {
        ssid: Seq::empty(),
        authentication: Seq::empty(),
        encryption: Seq::empty(),
        pending: None,
        records: Seq::empty(),
    }
}

/// Moves the record being filled in, if there is one, to the complete ones.
pub open spec fn flush(st: Scanner) -> Scanner {
    match st.pending {
        Some(n) => Scanner { pending: None, records: st.records.push(n), ..st },
        None => st,
    }
}

/// A fresh record under the reader's current name and attributes.
pub open spec fn fresh_record(st: Scanner, bssid: Seq<char>) -> NetworkView {
    NetworkView {
        ssid: st.ssid,
        authentication: st.authentication,
        encryption: st.encryption,
        bssid,
        signal: Seq::empty(),
        risk: Seq::empty(),
        is_evil_twin: false,
    }
}

/// The reader after one more line.
pub open spec fn scan_line(st: Scanner, raw: Seq<char>) -> Scanner {
    let line = trim(raw);
    let value = line_value(line);
    if is_labelled(line, "SSID"@) {
        let st = flush(st);
        if value.len() > 0 {
            Scanner { ssid: value, authentication: Seq::empty(), encryption: Seq::empty(), ..st }
        } else {
            st
        }
    } else if is_labelled(line, "Authentication"@) {
        Scanner { authentication: value, ..st }
    } else if is_labelled(line, "Encryption"@) {
        Scanner { encryption: value, ..st }
    } else if is_labelled(line, "BSSID"@) {
        let st = flush(st);
        if st.ssid.len() > 0 && value.len() > 0 {
            Scanner { pending: Some(fresh_record(st, value)), ..st }
        } else {
            st
        }
    } else if is_labelled(line, "Signal"@) {
        match st.pending {
            Some(n) => Scanner { pending: Some(NetworkView { signal: value, ..n }), ..st },
            None => st,
        }
    } else {
        st
    }
}

/// The reader after the lines `lines`.
pub open spec fn scan_lines(lines: Seq<Seq<char>>) -> Scanner
    decreases lines.len(),
{
    if lines.len() == 0 {
        scanner_start()
    } else {
        scan_line(scan_lines(lines.drop_last()), lines.last())
    }
}

/// `n` with its risk rating filled in.
pub open spec fn rated(n: NetworkView) -> NetworkView {
    NetworkView {
        risk: risk_label(risk_score(n.authentication, n.encryption, n.signal, n.ssid)),
        ..n
    }
}

/// The records that the lines `lines` describe, before rating.
pub open spec fn records_of_lines(lines: Seq<Seq<char>>) -> Seq<NetworkView> {
    flush(scan_lines(lines)).records
}

/// The records that the report `text` describes, each with its rating.
pub open spec fn parsed_records(text: Seq<char>) -> Seq<NetworkView> {
    let records = records_of_lines(split_lines(text));
    Seq::new(records.len(), |i: int| rated(records[i]))
}

/// The view of the record being filled in.
pub open spec fn pending_view(pending: Option<WifiNetwork>) -> Option<NetworkView> {
    match pending {
        Some(n) => Some(n@),
        None => None,
    }
}

/// Whether the trimmed line `v[from..to]` carries `label`.
fn labelled(v: &Vec<char>, from: usize, to: usize, label: &str) -> (b: bool)
    requires
        from <= to <= v.len(),
    ensures
        b == is_labelled(v@.subrange(from as int, to as int), label@),
{
    let pattern = to_chars(label);
    starts_with(v, from, to, &pattern) && find_char(v, from, to, ':') < to - from
}

/// The value of the labelled line `v[from..to]`.
fn value_of(v: &Vec<char>, from: usize, to: usize) -> (value: String)
    requires
        from <= to <= v.len(),
    ensures
        value@ == line_value(v@.subrange(from as int, to as int)),
{
    let k = find_char(v, from, to, ':');
    if k < to - from {
        let ghost line = v@.subrange(from as int, to as int);
        assert(line.skip(k + 1) == v@.subrange(from + k + 1, to as int));
        let (a, b) = trim_span(v, from + k + 1, to);
        from_chars(v, a, b)
    } else {
        proof {
            assert(trim(Seq::<char>::empty()) == Seq::<char>::empty());
        }
        String::new()
    }
}

/// Reads a scan report into its network records, in the order of their
/// `BSSID` lines, and rates each.
pub fn parse_network_scan(output: &str) -> (networks: Vec<WifiNetwork>)
    ensures
        batch_view(networks@) == parsed_records(output@),
        forall|i: int| 0 <= i < networks@.len() ==> is_identified((#[trigger] networks@[i])@),
{
    let chars = to_chars(output);
    let spans = line_spans(&chars);
    let ghost lines = split_lines(chars@);

    let mut networks: Vec<WifiNetwork> = Vec::new();
    let mut current_ssid = String::new();
    let mut current_auth = String::new();
    let mut current_encryption = String::new();
    let mut current_bssid: Option<WifiNetwork> = None;

    assert(batch_view(networks@) == Seq::<NetworkView>::empty());
    let mut i: usize = 0;
    while i < spans.len()
        invariant
            i <= spans.len(),
            lines == split_lines(chars@),
            spans@.len() == lines.len(),
            forall|k: int|
                0 <= k < spans@.len() ==> {
                    &&& (#[trigger] spans@[k]).0 <= spans@[k].1 <= chars.len()
                    &&& chars@.subrange(spans@[k].0 as int, spans@[k].1 as int) == lines[k]
                },
            scan_lines(lines.take(i as int)) == (Scanner {
                ssid: current_ssid@,
                authentication: current_auth@,
                encryption: current_encryption@,
                pending: pending_view(current_bssid),
                records: batch_view(networks@),
            }),
        decreases spans.len() - i,
    {
        let ghost before = scan_lines(lines.take(i as int));
        proof {
            assert(lines.take(i + 1).drop_last() == lines.take(i as int));
            assert(lines.take(i + 1).last() == lines[i as int]);
        }
        let (from, to) = spans[i];
        let (a, b) = trim_span(&chars, from, to);
        if labelled(&chars, a, b, "SSID") {
            if let Some(network) = current_bssid {
                let ghost done = batch_view(networks@);
                networks.push(network);
                assert(batch_view(networks@) == done.push(network@));
                current_bssid = None;
            }
            let ssid_part = value_of(&chars, a, b);
            if !ssid_part.as_str().is_empty() {
                current_ssid = ssid_part;
                current_auth = String::new();
                current_encryption = String::new();
            }
        } else if labelled(&chars, a, b, "Authentication") {
            current_auth = value_of(&chars, a, b);
        } else if labelled(&chars, a, b, "Encryption") {
            current_encryption = value_of(&chars, a, b);
        } else if labelled(&chars, a, b, "BSSID") {
            if let Some(network) = current_bssid {
                let ghost done = batch_view(networks@);
                networks.push(network);
                assert(batch_view(networks@) == done.push(network@));
                current_bssid = None;
            }
            let bssid = value_of(&chars, a, b);
            if !current_ssid.as_str().is_empty() && !bssid.as_str().is_empty() {
                current_bssid = Some(
                    WifiNetwork {
                        ssid: current_ssid.clone(),
                        authentication: current_auth.clone(),
                        encryption: current_encryption.clone(),
                        bssid,
                        signal: String::new(),
                        risk: String::new(),
                        is_evil_twin: false,
                    },
                );
            }
        } else if labelled(&chars, a, b, "Signal") {
            if let Some(network) = current_bssid {
                let signal = value_of(&chars, a, b);
                current_bssid = Some(WifiNetwork { signal, ..network });
            }
        }
        i += 1;
    }
    assert(lines.take(spans.len() as int) == lines);

    if let Some(network) = current_bssid {
        let ghost done = batch_view(networks@);
        networks.push(network);
        assert(batch_view(networks@) == done.push(network@));
    }
    let ghost records = batch_view(networks@);
    assert(records == records_of_lines(lines));

    let mut k: usize = 0;
    let mut rated_networks: Vec<WifiNetwork> = Vec::new();
    while k < networks.len()
        invariant
            k <= networks.len(),
            records == batch_view(networks@),
            rated_networks@.len() == k,
            forall|j: int| 0 <= j < k ==> (#[trigger] rated_networks@[j])@ == rated(records[j]),
        decreases networks.len() - k,
    {
        let net = &networks[k];
        let risk = calculate_risk(
            net.authentication.as_str(),
            net.encryption.as_str(),
            net.signal.as_str(),
            net.ssid.as_str(),
        );
        let scored = WifiNetwork {
            ssid: net.ssid.clone(),
            authentication: net.authentication.clone(),
            encryption: net.encryption.clone(),
            bssid: net.bssid.clone(),
            signal: net.signal.clone(),
            risk,
            is_evil_twin: net.is_evil_twin,
        };
        rated_networks.push(scored);
        k += 1;
    }
    assert(batch_view(rated_networks@) =~= parsed_records(output@));
    proof {
        one_record_per_block(output@);
        assert forall|i: int| 0 <= i < rated_networks@.len() implies is_identified(
            (#[trigger] rated_networks@[i])@,
        ) by {
            assert(rated_networks@[i]@ == parsed_records(output@)[i]);
        }
    }
    rated_networks
}

/// Whether the line `raw` names a network: it carries the label `SSID` and
/// has a value.
pub open spec fn names_network(raw: Seq<char>) -> bool {
    is_labelled(trim(raw), "SSID"@) && line_value(trim(raw)).len() > 0
}

/// Whether the line `raw` opens a record: it carries the label `BSSID` and
/// has a value.
pub open spec fn opens_record(raw: Seq<char>) -> bool {
    is_labelled(trim(raw), "BSSID"@) && line_value(trim(raw)).len() > 0
}

/// Whether one of `lines` names a network.
pub open spec fn names_some_network(lines: Seq<Seq<char>>) -> bool {
    exists|j: int| 0 <= j < lines.len() && names_network(#[trigger] lines[j])
}

/// How many of `lines` open a record.
pub open spec fn record_lines(lines: Seq<Seq<char>>) -> nat
    decreases lines.len(),
{
    if lines.len() == 0 {
        0
    } else {
        record_lines(lines.drop_last()) + if opens_record(lines.last()) {
            1nat
        } else {
            0nat
        }
    }
}

/// Whether `lines` are well-formed blocks: every line that opens a record
/// stands in a block, that is, after a line that names a network.
pub open spec fn is_well_formed(lines: Seq<Seq<char>>) -> bool {
    forall|i: int|
        0 <= i < lines.len() && opens_record(#[trigger] lines[i]) ==> names_some_network(
            lines.take(i),
        )
}

/// Whether both the name and the BSSID of `n` are non-empty.
pub open spec fn is_identified(n: NetworkView) -> bool {
    n.ssid.len() > 0 && n.bssid.len() > 0
}

/// A line carries at most one of the labels: one with the label `BSSID` has
/// none of the labels that are looked for before it.
pub proof fn lemma_labels_exclude(line: Seq<char>)
    requires
        is_labelled(line, "BSSID"@),
    ensures
        !is_labelled(line, "SSID"@),
        !is_labelled(line, "Authentication"@),
        !is_labelled(line, "Encryption"@),
{
    reveal_strlit("BSSID");
    reveal_strlit("SSID");
    reveal_strlit("Authentication");
    reveal_strlit("Encryption");
    assert("BSSID"@[0] == 'B');
    assert(line.subrange(0, 5)[0] == line[0]);
    if "SSID"@.is_prefix_of(line) {
        assert(line.subrange(0, 4)[0] == line[0]);
        assert("SSID"@[0] == 'S');
    }
    if "Authentication"@.is_prefix_of(line) {
        assert(line.subrange(0, 14)[0] == line[0]);
        assert("Authentication"@[0] == 'A');
    }
    if "Encryption"@.is_prefix_of(line) {
        assert(line.subrange(0, 10)[0] == line[0]);
        assert("Encryption"@[0] == 'E');
    }
}

/// What holds of the reader after any lines: it has a name just where a line
/// named a network, each of its records is identified, and where the lines
/// are well-formed blocks it holds one record for each line that opens one.
pub proof fn lemma_scan_lines(lines: Seq<Seq<char>>)
    ensures
        (scan_lines(lines).ssid.len() > 0) == names_some_network(lines),
        forall|i: int|
            0 <= i < scan_lines(lines).records.len() ==> is_identified(
                #[trigger] scan_lines(lines).records[i],
            ),
        scan_lines(lines).pending is Some ==> is_identified(scan_lines(lines).pending->0),
        is_well_formed(lines) ==> scan_lines(lines).records.len() + (if scan_lines(
            lines,
        ).pending is Some {
            1int
        } else {
            0int
        }) == record_lines(lines),
    decreases lines.len(),
{
    if lines.len() > 0 {
        let rest = lines.drop_last();
        let raw = lines.last();
        let line = trim(raw);
        let before = scan_lines(rest);
        let after = scan_lines(lines);
        lemma_scan_lines(rest);
        assert(lines.take(lines.len() - 1) == rest);
        if is_labelled(line, "BSSID"@) {
            lemma_labels_exclude(line);
        }
        if names_some_network(rest) {
            let j = choose|j: int| 0 <= j < rest.len() && names_network(#[trigger] rest[j]);
            assert(names_network(lines[j]));
        }
        if names_some_network(lines) && !names_network(raw) {
            let j = choose|j: int| 0 <= j < lines.len() && names_network(#[trigger] lines[j]);
            assert(names_network(rest[j]));
        }
        if names_network(raw) {
            assert(names_network(lines[lines.len() - 1]));
        }
        if is_well_formed(lines) {
            assert forall|i: int| 0 <= i < rest.len() && opens_record(#[trigger] rest[i]) implies names_some_network(
                rest.take(i),
            ) by {
                assert(lines[i] == rest[i]);
                assert(lines.take(i) == rest.take(i));
            }
            if opens_record(raw) {
                assert(opens_record(lines[lines.len() - 1]));
                assert(names_some_network(rest));
            }
        }
        let flushed = flush(before);
        assert forall|i: int| 0 <= i < flushed.records.len() implies is_identified(
            #[trigger] flushed.records[i],
        ) by {
            if i < before.records.len() {
                assert(flushed.records[i] == before.records[i]);
            }
        }
    }
}

/// Every record of a report is identified, and a report of well-formed
/// blocks gives exactly one record for each line that opens one: `n` blocks
/// of a named network and a BSSID give `n` records.
pub proof fn one_record_per_block(text: Seq<char>)
    ensures
        forall|i: int|
            0 <= i < parsed_records(text).len() ==> is_identified(#[trigger] parsed_records(text)[i]),
        is_well_formed(split_lines(text)) ==> parsed_records(text).len() == record_lines(
            split_lines(text),
        ),
{
    let lines = split_lines(text);
    lemma_scan_lines(lines);
    let st = scan_lines(lines);
    let records = records_of_lines(lines);
    assert forall|i: int| 0 <= i < parsed_records(text).len() implies is_identified(
        #[trigger] parsed_records(text)[i],
    ) by {
        if i < st.records.len() {
            assert(records[i] == st.records[i]);
        }
        assert(is_identified(records[i]));
    }
}

/// The line that names the network of the block `k`, where each block is
/// two lines.
pub open spec fn name_line(lines: Seq<Seq<char>>, k: int) -> Seq<char> {
    lines[2 * k]
}

/// The line that opens the record of the block `k`, where each block is two
/// lines.
pub open spec fn id_line(lines: Seq<Seq<char>>, k: int) -> Seq<char> {
    lines[2 * k + 1]
}

/// Whether `lines` are plain blocks: pairs of a line that names a network
/// and a line that opens a record, and nothing else.
pub open spec fn is_plain_blocks(lines: Seq<Seq<char>>) -> bool {
    &&& lines.len() % 2 == 0
    &&& forall|k: int|
        0 <= k < lines.len() / 2 ==> names_network(#[trigger] name_line(lines, k)) && opens_record(
            id_line(lines, k),
        )
}

/// The record that a plain block gives: the name and the BSSID of its two
/// lines, and nothing else.
pub open spec fn block_record(lines: Seq<Seq<char>>, k: int) -> NetworkView {
    NetworkView {
        ssid: line_value(trim(name_line(lines, k))),
        authentication: Seq::empty(),
        encryption: Seq::empty(),
        bssid: line_value(trim(id_line(lines, k))),
        signal: Seq::empty(),
        risk: Seq::empty(),
        is_evil_twin: false,
    }
}

proof fn lemma_scan_plain_blocks(lines: Seq<Seq<char>>, n: int)
    requires
        is_plain_blocks(lines),
        0 <= n <= lines.len() / 2,
    ensures
        n == 0 ==> scan_lines(lines.take(2 * n)) == scanner_start(),
        n > 0 ==> scan_lines(lines.take(2 * n)).pending == Some(block_record(lines, n - 1)),
        n > 0 ==> scan_lines(lines.take(2 * n)).ssid == block_record(lines, n - 1).ssid,
        n > 0 ==> scan_lines(lines.take(2 * n)).authentication.len() == 0,
        n > 0 ==> scan_lines(lines.take(2 * n)).encryption.len() == 0,
        n > 0 ==> scan_lines(lines.take(2 * n)).records.len() == n - 1,
        forall|k: int|
            0 <= k < n - 1 ==> #[trigger] scan_lines(lines.take(2 * n)).records[k] == block_record(
                lines,
                k,
            ),
    decreases n,
{
    if n > 0 {
        let m = n - 1;
        lemma_scan_plain_blocks(lines, m);
        let before = scan_lines(lines.take(2 * m));
        let named = lines.take(2 * m + 1);
        let both = lines.take(2 * n);
        assert(named.drop_last() == lines.take(2 * m));
        assert(named.last() == name_line(lines, m));
        assert(both.drop_last() == named);
        assert(both.last() == id_line(lines, m));
        assert(names_network(name_line(lines, m)) && opens_record(id_line(lines, m)));
        lemma_labels_exclude(trim(id_line(lines, m)));
        let middle = scan_lines(named);
        assert(middle == scan_line(before, name_line(lines, m)));
        assert(middle.pending is None);
        assert(middle.ssid == line_value(trim(name_line(lines, m))));
        assert(middle.records.len() == m);
        assert forall|k: int| 0 <= k < m implies #[trigger] middle.records[k] == block_record(
            lines,
            k,
        ) by {
            if m > 0 && k < m - 1 {
                assert(before.records[k] == block_record(lines, k));
            }
        }
        let after = scan_lines(both);
        assert(after == scan_line(middle, id_line(lines, m)));
        assert(flush(middle) == middle);
        assert(after.pending == Some(fresh_record(middle, line_value(trim(id_line(lines, m))))));
        assert(after.records == middle.records);
    } else {
        assert(lines.take(0).len() == 0);
    }
}

/// Plain blocks give their records: a report of `n` blocks, each a line that
/// names a network and a line that opens a record, gives exactly `n` records,
/// the `k`-th with the name and the BSSID of the `k`-th block and with empty
/// authentication, encryption and signal.
pub proof fn plain_blocks_give_their_records(lines: Seq<Seq<char>>)
    requires
        is_plain_blocks(lines),
    ensures
        records_of_lines(lines).len() == lines.len() / 2,
        forall|k: int|
            0 <= k < lines.len() / 2 ==> #[trigger] records_of_lines(lines)[k] == block_record(
                lines,
                k,
            ),
{
    let n = (lines.len() / 2) as int;
    lemma_scan_plain_blocks(lines, n);
    assert(lines.take(2 * n) == lines);
    let st = scan_lines(lines);
    if n == 0 {
        assert(flush(st).records.len() == 0);
    } else {
        assert forall|k: int| 0 <= k < n implies #[trigger] records_of_lines(lines)[k]
            == block_record(lines, k) by {
            if k < n - 1 {
                assert(st.records[k] == block_record(lines, k));
            }
        }
    }
}

/// Parsing depends on the text alone: two batches parsed from one text are
/// the same batch.
pub proof fn parsing_is_deterministic(
    text: Seq<char>,
    first: Seq<NetworkView>,
    second: Seq<NetworkView>,
)
    requires
        first == parsed_records(text),
        second == parsed_records(text),
    ensures
        first == second,
{
}

} // verus!
