//! General box hashes: named spans of an asset, consumed in order.
use vstd::prelude::*;
use crate::hash;
use crate::hash::hash_bytes;
use crate::labels;
use crate::labels::resolved_hash_algorithm;
use crate::status::{
    Results, ValidationResults, ALGORITHM_UNSUPPORTED, ASSERTION_BOXES_HASH_MALFORMED,
    ASSERTION_BOXES_HASH_MATCH, ASSERTION_BOXES_HASH_MISMATCH, ASSERTION_BOXES_HASH_UNKNOWN_BOX,
};
use crate::structure;
use crate::structure::assertion_uri;
use crate::text;
use crate::text::{bytes_eq, decimal_string, join2, join3, join5, str_eq};
use crate::value;
use crate::value::Value;

verus! {

/// One named span of an asset.
#[derive(Debug)]
pub struct BoxSpan {
    pub name: String,
    pub start: usize,
    pub end: usize,
}

/// What the container layer reports of an asset's segmentation.
#[derive(Debug)]
pub enum SpanReport {
    Segmented(Vec<BoxSpan>),
    /// Segmentation of this container is not implemented.
    Unsupported,
    Failed(String),
}

/// The spans lie inside `len` bytes, one behind the other.
pub open spec fn spans_wf(spans: Seq<BoxSpan>, len: nat) -> bool {
    forall|i: int, j: int|
        0 <= i <= j < spans.len() ==> (#[trigger] spans[i]).start <= (#[trigger] spans[j]).end
            && spans[j].end <= len
}

impl SpanReport {
    /// Reported spans lie inside `len` bytes, one behind the other.
    pub open spec fn wf(self, len: nat) -> bool {
        self matches SpanReport::Segmented(spans) ==> spans_wf(spans@, len)
    }
}

/// The texts among the first `k` items.
pub open spec fn texts_among(items: Seq<Value>, k: int) -> Seq<Seq<char>>
    decreases k,
{
    if k <= 0 {
        Seq::empty()
    } else {
        match value::text_of(Some(items[k - 1])) {
            Some(t) => texts_among(items, k - 1).push(t),
            None => texts_among(items, k - 1),
        }
    }
}

/// Consume the names from `j` on against the spans from `at` on.
pub open spec fn consume_names(
    spans: Seq<BoxSpan>,
    at: nat,
    names: Seq<Seq<char>>,
    j: int,
) -> Result<nat, Seq<char>>
    decreases names.len() - j,
{
    if j < 0 || j >= names.len() {
        Ok(at)
    } else if at >= spans.len() {
        Err("asset ended before box '"@ + names[j] + "'"@)
    } else if spans[at as int].name@ == names[j] {
        consume_names(spans, at + 1, names, j + 1)
    } else {
        Err(
            "expected box '"@ + names[j] + "' but found '"@ + spans[at as int].name@
                + "' (out of order or missing)"@,
        )
    }
}

/// What consuming the entries has come to.
pub struct BoxScan {
    pub at: nat,
    pub mismatched: bool,
    pub c2pa_seen: bool,
}

/// A failure: its code and what is wrong.
pub struct Fault {
    pub code: Seq<char>,
    pub why: Seq<char>,
}

pub open spec fn fault(code: Seq<char>, why: Seq<char>) -> Fault {
    Fault { code, why }
}

/// The entry is marked as excluded.
pub open spec fn is_excluded(entry: Value) -> bool {
    entry.field("excluded"@) == Some(Value::Bool(true))
}

/// The algorithm of an entry: its own, else that of the whole assertion.
pub open spec fn box_algorithm(entry: Value, default: Option<Seq<char>>) -> Option<Seq<char>> {
    match entry.text_field("alg"@) {
        Some(a) => Some(a),
        None => default,
    }
}

/// One entry. The manifest's own run is consumed without a comparison, and so
/// is an excluded run; any other run must hash to the entry's digest.
pub open spec fn box_entry(
    entry: Value,
    default: Option<Seq<char>>,
    spans: Seq<BoxSpan>,
    data: Seq<u8>,
    s: BoxScan,
) -> Result<BoxScan, Fault> {
    match entry.items_field("names"@) {
        None => Err(fault(ASSERTION_BOXES_HASH_MALFORMED@, "box entry missing names"@)),
        Some(items) => {
            let names = texts_among(items, items.len() as int);
            if names.len() == 0 {
                Err(fault(ASSERTION_BOXES_HASH_MALFORMED@, "empty names array"@))
            } else {
                match box_algorithm(entry, default) {
                    None => Err(
                        fault(
                            ALGORITHM_UNSUPPORTED@,
                            "no hash algorithm in box entry or box map"@,
                        ),
                    ),
                    Some(alg) => match consume_names(spans, s.at, names, 0) {
                        Err(why) => Err(fault(ASSERTION_BOXES_HASH_MISMATCH@, why)),
                        Ok(at) => if names == seq!["C2PA"@] {
                            Ok(BoxScan { at, c2pa_seen: true, ..s })
                        } else if is_excluded(entry) {
                            Ok(BoxScan { at, ..s })
                        } else {
                            match entry.bytes_field("hash"@) {
                                None => Err(
                                    fault(
                                        ASSERTION_BOXES_HASH_MISMATCH@,
                                        "box entry missing hash"@,
                                    ),
                                ),
                                Some(expected) => match hash::named_digest(
                                    alg,
                                    data.subrange(
                                        spans[s.at as int].start as int,
                                        spans[at - 1].end as int,
                                    ),
                                ) {
                                    None => Err(
                                        fault(
                                            ALGORITHM_UNSUPPORTED@,
                                            "unsupported hash algorithm '"@ + alg + "'"@,
                                        ),
                                    ),
                                    Some(actual) => Ok(
                                        BoxScan {
                                            at,
                                            mismatched: s.mismatched || actual != expected,
                                            ..s
                                        },
                                    ),
                                },
                            }
                        },
                    },
                }
            }
        },
    }
}

/// The entries from `i` on.
pub open spec fn box_entries_from(
    entries: Seq<Value>,
    i: int,
    default: Option<Seq<char>>,
    spans: Seq<BoxSpan>,
    data: Seq<u8>,
    s: BoxScan,
) -> Result<BoxScan, Fault>
    decreases entries.len() - i,
{
    if i < 0 || i >= entries.len() {
        Ok(s)
    } else {
        match box_entry(entries[i], default, spans, data, s) {
            Err(f) => Err(f),
            Ok(next) => box_entries_from(entries, i + 1, default, spans, data, next),
        }
    }
}

/// What a segmented asset comes to: the one failure, or none.
pub open spec fn boxes_fault(
    entries: Seq<Value>,
    default: Option<Seq<char>>,
    spans: Seq<BoxSpan>,
    data: Seq<u8>,
) -> Option<Fault> {
    match box_entries_from(
        entries,
        0,
        default,
        spans,
        data,
        BoxScan { at: 0, mismatched: false, c2pa_seen: false },
    ) {
        Err(f) => Some(f),
        Ok(s) => if s.at != spans.len() {
            Some(
                fault(
                    ASSERTION_BOXES_HASH_UNKNOWN_BOX@,
                    "asset contains "@ + text::decimal((spans.len() - s.at) as nat)
                        + " box(es) not covered by the assertion (first: '"@
                        + spans[s.at as int].name@ + "')"@,
                ),
            )
        } else if s.mismatched {
            Some(
                fault(
                    ASSERTION_BOXES_HASH_MISMATCH@,
                    "box hash mismatch: asset bytes altered"@,
                ),
            )
        } else if !s.c2pa_seen {
            Some(
                fault(
                    ASSERTION_BOXES_HASH_MALFORMED@,
                    "assertion does not cover the C2PA manifest box"@,
                ),
            )
        } else {
            None
        },
    }
}

/// The outcome of a general box hash.
pub open spec fn boxes_outcome(
    box_map: Option<Value>,
    claim: Value,
    report: SpanReport,
    data: Seq<u8>,
    compromised: bool,
    label: Seq<char>,
    r: Results,
) -> Results {
    let url = structure::assertion_url(label, "c2pa.hash.boxes"@);
    match box_map {
        None => r.fail(
            ASSERTION_BOXES_HASH_MALFORMED@,
            url,
            "boxes hash assertion CBOR invalid"@,
        ),
        Some(m) => match m.items_field("boxes"@) {
            None => r.fail(ASSERTION_BOXES_HASH_MALFORMED@, url, "no boxes field"@),
            Some(entries) => match report {
                SpanReport::Unsupported => r.inform(
                    ASSERTION_BOXES_HASH_MATCH@,
                    url,
                    "general box hash not evaluated: segmentation for this container is not implemented"@,
                ),
                SpanReport::Failed(why) => r.fail(
                    ASSERTION_BOXES_HASH_MALFORMED@,
                    url,
                    "asset segmentation failed: "@ + why@,
                ),
                SpanReport::Segmented(spans) => match boxes_fault(
                    entries,
                    labels::algorithm_for(m, claim),
                    spans@,
                    data,
                ) {
                    Some(f) => r.fail(f.code, url, f.why),
                    None => if compromised {
                        r
                    } else {
                        r.pass(
                            ASSERTION_BOXES_HASH_MATCH@,
                            url,
                            "all box hashes valid ("@ + text::decimal(entries.len())
                                + " entries over "@ + text::decimal(spans@.len()) + " boxes)"@,
                        )
                    },
                },
            },
        },
    }
}

fn collect_texts<'a>(items: &'a [Value]) -> (r: Vec<&'a str>)
    ensures
        text::views(r@) == texts_among(items@, items@.len() as int),
{
    let mut out: Vec<&'a str> = Vec::new();
    assert(text::views(out@) =~= Seq::<Seq<char>>::empty());
    let mut i: usize = 0;
    while i < items.len()
        invariant
            i <= items.len(),
            text::views(out@) == texts_among(items@, i as int),
        decreases items.len() - i,
    {
        if let Some(t) = items[i].as_text() {
            let ghost before = out@;
            out.push(t);
            assert(text::views(out@) =~= text::views(before).push(t@));
        }
        i += 1;
    }
    out
}

fn match_names(spans: &Vec<BoxSpan>, from: usize, names: &Vec<&str>) -> (r: Result<usize, String>)
    requires
        from <= spans@.len(),
    ensures
        match r {
            Ok(at) => consume_names(spans@, from as nat, text::views(names@), 0) == Ok::<
                nat,
                Seq<char>,
            >(at as nat) && at == from + names@.len() && at <= spans@.len(),
            Err(why) => consume_names(spans@, from as nat, text::views(names@), 0) == Err::<
                nat,
                Seq<char>,
            >(why@),
        },
{
    let ghost nv = text::views(names@);
    let mut at: usize = from;
    let mut j: usize = 0;
    while j < names.len()
        invariant
            j <= names.len(),
            nv == text::views(names@),
            at == from + j,
            at <= spans@.len(),
            consume_names(spans@, at as nat, nv, j as int) == consume_names(
                spans@,
                from as nat,
                nv,
                0,
            ),
        decreases names.len() - j,
    {
        assert(nv[j as int] == names@[j as int]@);
        if at >= spans.len() {
            return Err(join3("asset ended before box '", names[j], "'"));
        }
        let found = spans[at].name.as_str();
        if !str_eq(found, names[j]) {
            return Err(
                join5(
                    "expected box '",
                    names[j],
                    "' but found '",
                    found,
                    "' (out of order or missing)",
                ),
            );
        }
        at += 1;
        j += 1;
    }
    Ok(at)
}

struct Progress {
    at: usize,
    mismatched: bool,
    c2pa_seen: bool,
}

spec fn scan_of(p: Progress) -> BoxScan {
    BoxScan { at: p.at as nat, mismatched: p.mismatched, c2pa_seen: p.c2pa_seen }
}

fn check_entry(
    entry: &Value,
    default: Option<&str>,
    spans: &Vec<BoxSpan>,
    data: &[u8],
    p: Progress,
) -> (r: Result<Progress, (&'static str, String)>)
    requires
        p.at <= spans@.len(),
        spans_wf(spans@, data@.len()),
    ensures
        match r {
            Ok(next) => box_entry(*entry, value::chars_opt(default), spans@, data@, scan_of(p))
                == Ok::<BoxScan, Fault>(scan_of(next)) && next.at <= spans@.len(),
            Err((code, why)) => box_entry(
                *entry,
                value::chars_opt(default),
                spans@,
                data@,
                scan_of(p),
            ) == Err::<BoxScan, Fault>(fault(code@, why@)),
        },
{
    let items = match entry.get_items("names") {
        Some(items) => items,
        None => {
            return Err((ASSERTION_BOXES_HASH_MALFORMED, "box entry missing names".to_owned()));
        },
    };
    let names = collect_texts(items);
    let ghost nv = text::views(names@);
    assert(nv.len() == names@.len());
    if names.len() == 0 {
        return Err((ASSERTION_BOXES_HASH_MALFORMED, "empty names array".to_owned()));
    }
    let alg = match entry.get_text("alg") {
        Some(a) => a,
        None => match default {
            Some(a) => a,
            None => {
                return Err(
                    (
                        ALGORITHM_UNSUPPORTED,
                        "no hash algorithm in box entry or box map".to_owned(),
                    ),
                );
            },
        },
    };
    let at = match match_names(spans, p.at, &names) {
        Ok(at) => at,
        Err(why) => {
            return Err((ASSERTION_BOXES_HASH_MISMATCH, why));
        },
    };
    assert(nv[0] == names@[0]@);
    if names.len() == 1 && str_eq(names[0], "C2PA") {
        assert(nv =~= seq!["C2PA"@]);
        return Ok(Progress { at, mismatched: p.mismatched, c2pa_seen: true });
    }
    assert(nv != seq!["C2PA"@]) by {
        if nv == seq!["C2PA"@] {
            assert(nv[0] == "C2PA"@);
            assert(nv.len() == 1);
        }
    }
    let excluded = match entry.get("excluded") {
        Some(Value::Bool(b)) => *b,
        _ => false,
    };
    if excluded {
        return Ok(Progress { at, mismatched: p.mismatched, c2pa_seen: p.c2pa_seen });
    }
    let expected = match entry.get_bytes("hash") {
        Some(h) => h,
        None => {
            return Err((ASSERTION_BOXES_HASH_MISMATCH, "box entry missing hash".to_owned()));
        },
    };
    let start = spans[p.at].start;
    let end = spans[at - 1].end;
    let actual = match hash_bytes(alg, &data[start..end]) {
        Some(actual) => actual,
        None => {
            return Err((ALGORITHM_UNSUPPORTED, join3("unsupported hash algorithm '", alg, "'")));
        },
    };
    let same = bytes_eq(actual.as_slice(), expected);
    Ok(Progress { at, mismatched: p.mismatched || !same, c2pa_seen: p.c2pa_seen })
}

fn find_boxes_fault(
    entries: &[Value],
    default: Option<&str>,
    spans: &Vec<BoxSpan>,
    data: &[u8],
) -> (r: Option<(&'static str, String)>)
    requires
        spans_wf(spans@, data@.len()),
    ensures
        match r {
            Some((code, why)) => boxes_fault(entries@, value::chars_opt(default), spans@, data@)
                == Some(fault(code@, why@)),
            None => boxes_fault(entries@, value::chars_opt(default), spans@, data@) is None,
        },
{
    let mut p = Progress { at: 0, mismatched: false, c2pa_seen: false };
    let ghost d = value::chars_opt(default);
    let ghost whole = box_entries_from(entries@, 0, d, spans@, data@, scan_of(p));
    let mut i: usize = 0;
    while i < entries.len()
        invariant
            i <= entries.len(),
            p.at <= spans@.len(),
            d == value::chars_opt(default),
            spans_wf(spans@, data@.len()),
            whole == box_entries_from(
                entries@,
                0,
                d,
                spans@,
                data@,
                BoxScan { at: 0, mismatched: false, c2pa_seen: false },
            ),
            whole == box_entries_from(entries@, i as int, d, spans@, data@, scan_of(p)),
        decreases entries.len() - i,
    {
        match check_entry(&entries[i], default, spans, data, p) {
            Ok(next) => {
                p = next;
            },
            Err(f) => {
                return Some(f);
            },
        }
        i += 1;
    }
    if p.at != spans.len() {
        let n = decimal_string((spans.len() - p.at) as u64);
        return Some(
            (
                ASSERTION_BOXES_HASH_UNKNOWN_BOX,
                join5(
                    "asset contains ",
                    n.as_str(),
                    " box(es) not covered by the assertion (first: '",
                    spans[p.at].name.as_str(),
                    "')",
                ),
            ),
        );
    }
    if p.mismatched {
        return Some(
            (ASSERTION_BOXES_HASH_MISMATCH, "box hash mismatch: asset bytes altered".to_owned()),
        );
    }
    if !p.c2pa_seen {
        return Some(
            (
                ASSERTION_BOXES_HASH_MALFORMED,
                "assertion does not cover the C2PA manifest box".to_owned(),
            ),
        );
    }
    None
}

/// Verify a general box hash (`c2pa.hash.boxes`).
///
/// The entries' names must match the asset's spans in order and without rest.
/// `box_map` is the decoded assertion, where its bytes are well formed.
pub fn verify_boxes_hash(
    box_map: Option<&Value>,
    claim: &Value,
    report: &SpanReport,
    data: &[u8],
    binding_compromised: bool,
    label: &str,
    results: &mut ValidationResults,
)
    requires
        report.wf(data@.len()),
    ensures
        final(results)@ == boxes_outcome(
            value::pointee(box_map),
            *claim,
            *report,
            data@,
            binding_compromised,
            label@,
            old(results)@,
        ),
{
    let url = assertion_uri(label, "c2pa.hash.boxes");
    let m = match box_map {
        Some(m) => m,
        None => {
            results.push_failure(
                ASSERTION_BOXES_HASH_MALFORMED,
                url,
                "boxes hash assertion CBOR invalid".to_owned(),
            );
            return;
        },
    };
    let entries = match m.get_items("boxes") {
        Some(entries) => entries,
        None => {
            results.push_failure(
                ASSERTION_BOXES_HASH_MALFORMED,
                url,
                "no boxes field".to_owned(),
            );
            return;
        },
    };
    let default = resolved_hash_algorithm(m, claim);
    match report {
        SpanReport::Unsupported => {
            results.push_informational(
                ASSERTION_BOXES_HASH_MATCH,
                url,
                "general box hash not evaluated: segmentation for this container is not implemented".to_owned(),
            );
        },
        SpanReport::Failed(why) => {
            results.push_failure(
                ASSERTION_BOXES_HASH_MALFORMED,
                url,
                join2("asset segmentation failed: ", why.as_str()),
            );
        },
        SpanReport::Segmented(spans) => {
            match find_boxes_fault(entries, default, spans, data) {
                Some((code, why)) => {
                    results.push_failure(code, url, why);
                },
                None => {
                    if !binding_compromised {
                        let a = decimal_string(entries.len() as u64);
                        let b = decimal_string(spans.len() as u64);
                        results.push_success(
                            ASSERTION_BOXES_HASH_MATCH,
                            url,
                            join5(
                                "all box hashes valid (",
                                a.as_str(),
                                " entries over ",
                                b.as_str(),
                                " boxes)",
                            ),
                        );
                    }
                },
            }
        },
    }
}

// ---------------------------------------------------------------------------
// Laws
// ---------------------------------------------------------------------------

/// The names that an entry lists.
pub open spec fn names_of(entry: Value) -> Seq<Seq<char>> {
    match entry.items_field("names"@) {
        Some(items) => texts_among(items, items.len() as int),
        None => Seq::empty(),
    }
}

/// The entry names the boxes from `from` up to `to`, in order, and at least one.
pub open spec fn names_run(entry: Value, spans: Seq<BoxSpan>, from: int, to: int) -> bool {
    &&& 0 <= from < to <= spans.len()
    &&& names_of(entry).len() == to - from
    &&& forall|j: int|
        0 <= j < to - from ==> #[trigger] names_of(entry)[j] == spans[from + j].name@
}

/// The entry is the run of the manifest itself.
pub open spec fn is_c2pa_run(entry: Value) -> bool {
    names_of(entry).len() == 1 && names_of(entry)[0] == "C2PA"@
}

/// The entry states the digest, under its algorithm, of the asset bytes from the
/// start of the box `from` to the end of the box `to - 1`.
pub open spec fn states_digest(
    entry: Value,
    default: Option<Seq<char>>,
    spans: Seq<BoxSpan>,
    data: Seq<u8>,
    from: int,
    to: int,
) -> bool {
    let alg = match entry.text_field("alg"@) {
        Some(a) => Some(a),
        None => default,
    };
    &&& alg is Some
    &&& entry.bytes_field("hash"@) is Some
    &&& entry.bytes_field("hash"@) == hash::named_digest(
        alg->0,
        data.subrange(spans[from].start as int, spans[to - 1].end as int),
    )
}

/// `cuts` parts the boxes among the entries: entry `i` names those from `cuts[i]`
/// up to `cuts[i + 1]`, the first begins with the first box and the last ends
/// with the last. Each entry knows an algorithm, and each but the manifest's own
/// run and the excluded ones states the digest of its bytes.
pub open spec fn covers(
    cuts: Seq<int>,
    entries: Seq<Value>,
    default: Option<Seq<char>>,
    spans: Seq<BoxSpan>,
    data: Seq<u8>,
) -> bool {
    &&& cuts.len() == entries.len() + 1
    &&& cuts[0] == 0
    &&& cuts[entries.len() as int] == spans.len()
    &&& forall|i: int|
        0 <= i < entries.len() ==> {
            &&& names_run(#[trigger] entries[i], spans, cuts[i], cuts[i + 1])
            &&& entries[i].text_field("alg"@) is Some || default is Some
            &&& is_c2pa_run(entries[i]) || entries[i].field("excluded"@) == Some(Value::Bool(true))
                || states_digest(entries[i], default, spans, data, cuts[i], cuts[i + 1])
        }
}

/// The entries part the boxes among them, and one is the manifest's own run.
pub open spec fn covered(
    entries: Seq<Value>,
    default: Option<Seq<char>>,
    spans: Seq<BoxSpan>,
    data: Seq<u8>,
) -> bool {
    &&& exists|cuts: Seq<int>| #[trigger] covers(cuts, entries, default, spans, data)
    &&& exists|k: int| 0 <= k < entries.len() && is_c2pa_run(#[trigger] entries[k])
}

proof fn lemma_consumed(spans: Seq<BoxSpan>, at: nat, names: Seq<Seq<char>>, j: int)
    requires
        0 <= j <= names.len(),
        at <= spans.len(),
    ensures
        consume_names(spans, at, names, j) is Ok == (at + names.len() - j <= spans.len()
            && forall|k: int| j <= k < names.len() ==> #[trigger] names[k] == spans[at + k - j].name@),
        consume_names(spans, at, names, j) matches Ok(to) ==> to == at + names.len() - j,
    decreases names.len() - j,
{
    if j < names.len() && at < spans.len() && spans[at as int].name@ == names[j] {
        lemma_consumed(spans, at + 1, names, j + 1);
        if consume_names(spans, at, names, j) is Ok {
            assert forall|k: int| j <= k < names.len() implies #[trigger] names[k] == spans[at + k
                - j].name@ by {
                if k > j {
                    assert((at + 1) + k - (j + 1) == at + k - j);
                }
            }
        }
        if at + names.len() - j <= spans.len() && (forall|k: int|
            j <= k < names.len() ==> #[trigger] names[k] == spans[at + k - j].name@) {
            assert forall|k: int| j + 1 <= k < names.len() implies #[trigger] names[k] == spans[(at
                + 1) + k - (j + 1)].name@ by {
                assert((at + 1) + k - (j + 1) == at + k - j);
            }
        }
    } else if j < names.len() && at < spans.len() {
        assert(names[j] != spans[at + j - j].name@);
    }
}

/// An entry is consumed without a mismatch exactly where it names the boxes that
/// come next and, unless it needs none, states their digest.
proof fn lemma_entry(
    entry: Value,
    default: Option<Seq<char>>,
    spans: Seq<BoxSpan>,
    data: Seq<u8>,
    s: BoxScan,
)
    requires
        s.at <= spans.len(),
    ensures
        ({
            let to = s.at as int + names_of(entry).len();
            let next = box_entry(entry, default, spans, data, s);
            let good = names_run(entry, spans, s.at as int, to) && (entry.text_field("alg"@) is Some
                || default is Some) && (is_c2pa_run(entry) || entry.field("excluded"@) == Some(
                Value::Bool(true),
            ) || states_digest(entry, default, spans, data, s.at as int, to));
            &&& next is Ok ==> next->Ok_0.at == to && to <= spans.len()
                && next->Ok_0.c2pa_seen == (s.c2pa_seen || is_c2pa_run(entry))
                && next->Ok_0.mismatched == (s.mismatched || !good)
            &&& good ==> next is Ok
        }),
{
    let names = names_of(entry);
    lemma_consumed(spans, s.at, names, 0);
    let to = s.at as int + names.len();
    if consume_names(spans, s.at, names, 0) is Ok && names.len() > 0 {
        assert forall|j: int| 0 <= j < to - s.at implies #[trigger] names[j] == spans[s.at
            + j].name@ by {
            assert(s.at + j - 0 == s.at + j);
        }
        assert(names_run(entry, spans, s.at as int, to));
    }
    if names_run(entry, spans, s.at as int, to) {
        assert forall|k: int| 0 <= k < names.len() implies #[trigger] names[k] == spans[s.at + k
            - 0].name@ by {
            assert(s.at + k - 0 == s.at + k);
        }
    }
    assert((names == seq!["C2PA"@]) == is_c2pa_run(entry)) by {
        if is_c2pa_run(entry) {
            assert(names =~= seq!["C2PA"@]);
        }
    }
}

/// The places where the entries from `i` on begin, the scan standing at `at`.
pub open spec fn cuts_from(entries: Seq<Value>, i: int, at: int) -> Seq<int>
    decreases entries.len() - i,
{
    if i < 0 || i >= entries.len() {
        seq![at]
    } else {
        seq![at] + cuts_from(entries, i + 1, at + names_of(entries[i]).len())
    }
}

proof fn lemma_scan(
    entries: Seq<Value>,
    i: int,
    default: Option<Seq<char>>,
    spans: Seq<BoxSpan>,
    data: Seq<u8>,
    s: BoxScan,
)
    requires
        0 <= i <= entries.len(),
        s.at <= spans.len(),
        box_entries_from(entries, i, default, spans, data, s) is Ok,
        !box_entries_from(entries, i, default, spans, data, s)->Ok_0.mismatched,
        box_entries_from(entries, i, default, spans, data, s)->Ok_0.at == spans.len(),
    ensures
        !s.mismatched,
        ({
            let cuts = cuts_from(entries, i, s.at as int);
            let last = box_entries_from(entries, i, default, spans, data, s)->Ok_0;
            &&& cuts.len() == entries.len() - i + 1
            &&& cuts[0] == s.at
            &&& cuts[entries.len() - i] == spans.len()
            &&& forall|k: int|
                0 <= k < entries.len() - i ==> {
                    &&& names_run(#[trigger] entries[i + k], spans, cuts[k], cuts[k + 1])
                    &&& entries[i + k].text_field("alg"@) is Some || default is Some
                    &&& is_c2pa_run(entries[i + k]) || entries[i + k].field("excluded"@) == Some(
                        Value::Bool(true),
                    ) || states_digest(entries[i + k], default, spans, data, cuts[k], cuts[k + 1])
                }
            &&& last.c2pa_seen == (s.c2pa_seen || exists|k: int|
                i <= k < entries.len() && is_c2pa_run(#[trigger] entries[k]))
        }),
    decreases entries.len() - i,
{
    let cuts = cuts_from(entries, i, s.at as int);
    let last = box_entries_from(entries, i, default, spans, data, s)->Ok_0;
    if i < entries.len() {
        lemma_entry(entries[i], default, spans, data, s);
        let next = box_entry(entries[i], default, spans, data, s)->Ok_0;
        lemma_scan(entries, i + 1, default, spans, data, next);
        let rest = cuts_from(entries, i + 1, next.at as int);
        assert(cuts == seq![s.at as int] + rest);
        assert(cuts[1] == rest[0]);
        assert forall|k: int| 0 <= k < entries.len() - i implies {
            &&& names_run(#[trigger] entries[i + k], spans, cuts[k], cuts[k + 1])
            &&& entries[i + k].text_field("alg"@) is Some || default is Some
            &&& is_c2pa_run(entries[i + k]) || entries[i + k].field("excluded"@) == Some(
                Value::Bool(true),
            ) || states_digest(entries[i + k], default, spans, data, cuts[k], cuts[k + 1])
        } by {
            if k > 0 {
                assert(entries[i + k] == entries[(i + 1) + (k - 1)]);
                assert(cuts[k] == rest[k - 1]);
                assert(cuts[k + 1] == rest[k]);
            }
        }
        if last.c2pa_seen && !s.c2pa_seen {
            if is_c2pa_run(entries[i]) {
            } else {
                let k = choose|k: int|
                    i + 1 <= k < entries.len() && is_c2pa_run(#[trigger] entries[k]);
                assert(is_c2pa_run(entries[k]));
            }
        }
        if exists|k: int| i <= k < entries.len() && is_c2pa_run(#[trigger] entries[k]) {
            let k = choose|k: int| i <= k < entries.len() && is_c2pa_run(#[trigger] entries[k]);
            if k > i {
                assert(i + 1 <= k && is_c2pa_run(entries[k]));
            }
        }
    }
}

proof fn lemma_covered_scan(
    entries: Seq<Value>,
    i: int,
    default: Option<Seq<char>>,
    spans: Seq<BoxSpan>,
    data: Seq<u8>,
    cuts: Seq<int>,
    s: BoxScan,
)
    requires
        0 <= i <= entries.len(),
        covers(cuts, entries, default, spans, data),
        s.at == cuts[i],
        s.at <= spans.len(),
        !s.mismatched,
    ensures
        box_entries_from(entries, i, default, spans, data, s) is Ok,
        !box_entries_from(entries, i, default, spans, data, s)->Ok_0.mismatched,
        box_entries_from(entries, i, default, spans, data, s)->Ok_0.at == spans.len(),
    decreases entries.len() - i,
{
    if i < entries.len() {
        assert(names_run(entries[i], spans, cuts[i], cuts[i + 1]));
        lemma_entry(entries[i], default, spans, data, s);
        let next = box_entry(entries[i], default, spans, data, s)->Ok_0;
        lemma_covered_scan(entries, i + 1, default, spans, data, cuts, next);
    }
}

/// A box hash over a segmented asset finds no fault exactly where its entries
/// list all boxes of the asset in order, each entry a run of them; each entry
/// that is neither the manifest's own run nor excluded states the digest of the
/// asset bytes from the start of the first box it names to the end of the last;
/// and one entry is the manifest's own run.
pub proof fn faultless_entries_cover_every_box(
    entries: Seq<Value>,
    default: Option<Seq<char>>,
    spans: Seq<BoxSpan>,
    data: Seq<u8>,
)
    ensures
        (boxes_fault(entries, default, spans, data) is None) == covered(
            entries,
            default,
            spans,
            data,
        ),
{
    let s = BoxScan { at: 0, mismatched: false, c2pa_seen: false };
    if boxes_fault(entries, default, spans, data) is None {
        lemma_scan(entries, 0, default, spans, data, s);
        let cuts = cuts_from(entries, 0, 0);
        assert forall|i: int| 0 <= i < entries.len() implies {
            &&& names_run(#[trigger] entries[i], spans, cuts[i], cuts[i + 1])
            &&& entries[i].text_field("alg"@) is Some || default is Some
            &&& is_c2pa_run(entries[i]) || entries[i].field("excluded"@) == Some(Value::Bool(true))
                || states_digest(entries[i], default, spans, data, cuts[i], cuts[i + 1])
        } by {
            assert(entries[i] == entries[0 + i]);
        }
        assert(covers(cuts, entries, default, spans, data));
    } else if covered(entries, default, spans, data) {
        let cuts = choose|cuts: Seq<int>| #[trigger] covers(cuts, entries, default, spans, data);
        lemma_covered_scan(entries, 0, default, spans, data, cuts, s);
        lemma_scan(entries, 0, default, spans, data, s);
    }
}

proof fn lemma_cut_before(cuts: Seq<int>, entries: Seq<Value>, default: Option<Seq<char>>, spans: Seq<
    BoxSpan,
>, data: Seq<u8>, b: int, n: int)
    requires
        covers(cuts, entries, default, spans, data),
        0 <= n <= entries.len(),
        0 <= b < cuts[n],
    ensures
        exists|i: int| 0 <= i < n && cuts[i] <= b < #[trigger] cuts[i + 1],
    decreases n,
{
    if n > 0 {
        if cuts[n - 1] <= b {
            assert(cuts[n - 1] <= b < cuts[(n - 1) + 1]);
        } else {
            lemma_cut_before(cuts, entries, default, spans, data, b, n - 1);
            let i = choose|i: int| 0 <= i < n - 1 && cuts[i] <= b < #[trigger] cuts[i + 1];
            assert(cuts[i] <= b < cuts[i + 1]);
        }
    }
}

/// Where a box hash finds no fault, every byte of every box lies in the run of
/// one entry; unless that entry is the manifest's own run or excluded, it states
/// the digest of a stretch of the asset that holds the byte.
pub proof fn every_box_byte_is_under_an_entry(
    entries: Seq<Value>,
    default: Option<Seq<char>>,
    spans: Seq<BoxSpan>,
    data: Seq<u8>,
    b: int,
    x: int,
)
    requires
        forall|i: int| 0 <= i < spans.len() ==> (#[trigger] spans[i]).start <= spans[i].end,
        forall|i: int, j: int|
            0 <= i < j < spans.len() ==> (#[trigger] spans[i]).end <= (#[trigger] spans[j]).start,
        boxes_fault(entries, default, spans, data) is None,
        0 <= b < spans.len(),
        spans[b].start <= x < spans[b].end,
    ensures
        exists|i: int, from: int, to: int|
            {
                &&& 0 <= i < entries.len()
                &&& #[trigger] names_run(entries[i], spans, from, to)
                &&& from <= b < to
                &&& is_c2pa_run(entries[i]) || entries[i].field("excluded"@) == Some(
                    Value::Bool(true),
                ) || (states_digest(entries[i], default, spans, data, from, to)
                    && spans[from].start <= x < spans[to - 1].end)
            },
{
    faultless_entries_cover_every_box(entries, default, spans, data);
    let cuts = choose|cuts: Seq<int>| #[trigger] covers(cuts, entries, default, spans, data);
    lemma_cut_before(cuts, entries, default, spans, data, b, entries.len() as int);
    let i = choose|i: int| 0 <= i < entries.len() && cuts[i] <= b < #[trigger] cuts[i + 1];
    assert(names_run(entries[i], spans, cuts[i], cuts[i + 1]));
    assert(spans[cuts[i]].start <= spans[b].start);
    assert(spans[b].end <= spans[cuts[i + 1] - 1].end);
}

proof fn lemma_all_texts(items: Seq<Value>, k: int)
    requires
        0 <= k <= items.len(),
        forall|j: int| 0 <= j < k ==> (#[trigger] items[j]) is Text,
    ensures
        texts_among(items, k).len() == k,
        forall|j: int| 0 <= j < k ==> #[trigger] texts_among(items, k)[j] == items[j]->Text_0@,
    decreases k,
{
    if k > 0 {
        assert(items[k - 1] is Text);
        lemma_all_texts(items, k - 1);
    }
}

/// The names of an entry whose `names` are all texts are those texts, in order.
pub proof fn listed_names_are_the_texts(entry: Value, items: Seq<Value>)
    requires
        entry.items_field("names"@) == Some(items),
        forall|j: int| 0 <= j < items.len() ==> (#[trigger] items[j]) is Text,
    ensures
        names_of(entry).len() == items.len(),
        forall|j: int|
            0 <= j < items.len() ==> #[trigger] names_of(entry)[j] == items[j]->Text_0@,
{
    lemma_all_texts(items, items.len() as int);
}

/// A general box hash over a segmented asset passes exactly where its entries
/// cover the boxes, and no signed reference was found altered; it adds a failure
/// exactly where they do not.
pub proof fn box_hash_passes_exactly_where_covered(
    box_map: Value,
    claim: Value,
    spans: Vec<BoxSpan>,
    data: Seq<u8>,
    compromised: bool,
    label: Seq<char>,
    r: Results,
    entries: Seq<Value>,
    default: Option<Seq<char>>,
)
    requires
        box_map.items_field("boxes"@) == Some(entries),
        box_map.text_field("alg"@) is Some ==> default == box_map.text_field("alg"@),
        box_map.text_field("alg"@) is None ==> default == claim.text_field("alg"@),
    ensures
        ({
            let after = boxes_outcome(
                Some(box_map),
                claim,
                SpanReport::Segmented(spans),
                data,
                compromised,
                label,
                r,
            );
            &&& (after.failure == r.failure) == covered(entries, default, spans@, data)
            &&& (after.success != r.success) == (covered(entries, default, spans@, data)
                && !compromised)
            &&& covered(entries, default, spans@, data) && !compromised ==> after.succeeded(
                ASSERTION_BOXES_HASH_MATCH@,
            )
        }),
{
    assert(labels::algorithm_for(box_map, claim) == default);
    faultless_entries_cover_every_box(entries, default, spans@, data);
    let after = boxes_outcome(
        Some(box_map),
        claim,
        SpanReport::Segmented(spans),
        data,
        compromised,
        label,
        r,
    );
    if boxes_fault(entries, default, spans@, data) is Some {
        assert(after.failure.len() == r.failure.len() + 1);
        assert(after.success == r.success);
    } else if compromised {
        assert(after == r);
    } else {
        assert(after.failure == r.failure);
        assert(after.success.len() == r.success.len() + 1);
        assert(after.success[r.success.len() as int].code == ASSERTION_BOXES_HASH_MATCH@);
    }
}

} // verus!
