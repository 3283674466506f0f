//! Collection data hashes over the entries of a ZIP archive.
use vstd::prelude::*;
use crate::boxes;
use crate::boxes::Fault;
use crate::hash;
use crate::hash::{hash_bytes, hash_parts};
use crate::status::{
    Results, ValidationResults, ASSERTION_COLLECTION_HASH_INCORRECT_FILE_COUNT,
    ASSERTION_COLLECTION_HASH_INVALID_URI, ASSERTION_COLLECTION_HASH_MALFORMED,
    ASSERTION_COLLECTION_HASH_MATCH, ASSERTION_COLLECTION_HASH_MISMATCH,
};
use crate::structure;
use crate::structure::assertion_uri;
use crate::text;
use crate::text::{bytes_eq, decimal_string, join3, split_on, str_eq};
use crate::value;
use crate::value::Value;

verus! {

/// One archive entry: the span of its local header and content, and the
/// broader span that also takes in a trailing descriptor.
#[derive(Debug)]
pub struct ZipEntry {
    pub name: String,
    pub hash_span: Result<(usize, usize), String>,
    pub local_span: Option<(usize, usize)>,
}

/// What the container layer reports of an archive: the slices of its central
/// directory that are hashed, where it is readable, and its entries.
#[derive(Debug)]
pub struct ZipFacts {
    pub central: Option<Vec<(usize, usize)>>,
    pub entries: Vec<ZipEntry>,
}

pub open spec fn span_wf(s: (usize, usize), len: nat) -> bool {
    s.0 <= s.1 <= len
}

pub open spec fn entry_wf(e: ZipEntry, len: nat) -> bool {
    (e.hash_span matches Ok(s) ==> span_wf(s, len)) && (e.local_span matches Some(s) ==> span_wf(
        s,
        len,
    ))
}

impl ZipFacts {
    /// Every reported span lies inside `len` bytes.
    pub open spec fn wf(self, len: nat) -> bool {
        &&& self.central matches Some(parts) ==> forall|i: int|
            0 <= i < parts@.len() ==> span_wf(#[trigger] parts@[i], len)
        &&& forall|i: int|
            0 <= i < self.entries@.len() ==> entry_wf(#[trigger] self.entries@[i], len)
    }
}

/// The first entry at or behind `i` with the name `name`.
pub open spec fn zip_entry_from(entries: Seq<ZipEntry>, name: Seq<char>, i: int) -> Option<ZipEntry>
    decreases entries.len() - i,
{
    if i < 0 || i >= entries.len() {
        None
    } else if entries[i].name@ == name {
        Some(entries[i])
    } else {
        zip_entry_from(entries, name, i + 1)
    }
}

/// The bytes of the first `k` slices, one behind the other.
pub open spec fn sliced(data: Seq<u8>, parts: Seq<(usize, usize)>, k: int) -> Seq<u8>
    decreases k,
{
    if k <= 0 {
        Seq::empty()
    } else {
        sliced(data, parts, k - 1) + data.subrange(parts[k - 1].0 as int, parts[k - 1].1 as int)
    }
}

/// A path with a `.` or `..` segment.
pub open spec fn is_relative(uri: Seq<char>) -> bool {
    exists|i: int|
        0 <= i < text::split(uri, '/').len() && ((#[trigger] text::split(uri, '/')[i]) == "."@
            || text::split(uri, '/')[i] == ".."@)
}

/// The digest of a span is `expected`.
pub open spec fn span_matches(
    alg: Seq<char>,
    data: Seq<u8>,
    span: (usize, usize),
    expected: Seq<u8>,
) -> bool {
    hash::named_digest(alg, data.subrange(span.0 as int, span.1 as int)) == Some(expected)
}

/// What is wrong with one listed file.
pub open spec fn uri_fault(
    item: Value,
    alg: Seq<char>,
    data: Seq<u8>,
    entries: Seq<ZipEntry>,
) -> Option<Fault> {
    match (item.text_field("uri"@), item.bytes_field("hash"@)) {
        (Some(uri), Some(expected)) => if is_relative(uri) {
            Some(
                boxes::fault(
                    ASSERTION_COLLECTION_HASH_INVALID_URI@,
                    "uri '"@ + uri + "' contains a relative path segment"@,
                ),
            )
        } else {
            match zip_entry_from(entries, uri, 0) {
                None => Some(
                    boxes::fault(
                        ASSERTION_COLLECTION_HASH_INCORRECT_FILE_COUNT@,
                        "listed file '"@ + uri + "' not found in archive"@,
                    ),
                ),
                Some(e) => match e.hash_span {
                    Err(why) => Some(
                        boxes::fault(
                            ASSERTION_COLLECTION_HASH_MALFORMED@,
                            "entry '"@ + uri + "' unreadable: "@ + why@,
                        ),
                    ),
                    Ok(span) => if span_matches(alg, data, span, expected) || (
                    e.local_span is Some && span_matches(alg, data, e.local_span->0, expected)) {
                        None
                    } else {
                        Some(
                            boxes::fault(
                                ASSERTION_COLLECTION_HASH_MISMATCH@,
                                "collection entry '"@ + uri + "' hash mismatch"@,
                            ),
                        )
                    },
                },
            }
        },
        _ => Some(
            boxes::fault(
                ASSERTION_COLLECTION_HASH_MALFORMED@,
                "uri entry missing uri or hash"@,
            ),
        ),
    }
}

/// The first fault at or behind the `i`-th listed file.
pub open spec fn uris_fault(
    items: Seq<Value>,
    i: int,
    alg: Seq<char>,
    data: Seq<u8>,
    entries: Seq<ZipEntry>,
) -> Option<Fault>
    decreases items.len() - i,
{
    if i < 0 || i >= items.len() {
        None
    } else {
        match uri_fault(items[i], alg, data, entries) {
            Some(f) => Some(f),
            None => uris_fault(items, i + 1, alg, data, entries),
        }
    }
}

/// What a collection assertion comes to: the one failure, or none.
pub open spec fn collection_fault(
    map: Option<Value>,
    data: Seq<u8>,
    facts: ZipFacts,
) -> Option<Fault> {
    let malformed = |why: Seq<char>| Some(boxes::fault(ASSERTION_COLLECTION_HASH_MALFORMED@, why));
    match map {
        None => malformed("collection hash assertion CBOR invalid"@),
        Some(m) => match (m.items_field("uris"@), m.text_field("alg"@)) {
            (None, _) => malformed("no uris field"@),
            (Some(_), None) => malformed("no alg field"@),
            (Some(uris), Some(alg)) => match (
                facts.central,
                m.bytes_field("zip_central_directory_hash"@),
            ) {
                (None, _) => malformed("asset is not a readable ZIP archive"@),
                (Some(_), None) => malformed("zip_central_directory_hash missing"@),
                (Some(parts), Some(expected)) => match uris_fault(
                    uris,
                    0,
                    alg,
                    data,
                    facts.entries@,
                ) {
                    Some(f) => Some(f),
                    None => if hash::named_digest(
                        alg,
                        sliced(data, parts@, parts@.len() as int),
                    ) == Some(expected) {
                        None
                    } else {
                        Some(
                            boxes::fault(
                                ASSERTION_COLLECTION_HASH_MISMATCH@,
                                "ZIP central directory hash mismatch"@,
                            ),
                        )
                    },
                },
            },
        },
    }
}

/// The outcome of a collection data hash.
pub open spec fn collection_outcome(
    map: Option<Value>,
    data: Seq<u8>,
    facts: ZipFacts,
    compromised: bool,
    label: Seq<char>,
    r: Results,
) -> Results {
    let url = structure::assertion_url(label, "c2pa.hash.collection.data"@);
    match collection_fault(map, data, facts) {
        Some(f) => r.fail(f.code, url, f.why),
        None => if compromised {
            r
        } else {
            r.pass(
                ASSERTION_COLLECTION_HASH_MATCH@,
                url,
                "collection hashes valid ("@ + text::decimal(
                    (map->0).items_field("uris"@)->0.len(),
                ) + " entries; central directory checked)"@,
            )
        },
    }
}

fn find_zip_entry<'a>(entries: &'a Vec<ZipEntry>, name: &str) -> (r: Option<&'a ZipEntry>)
    ensures
        value::pointee(r) == zip_entry_from(entries@, name@, 0),
        r matches Some(e) ==> exists|i: int| 0 <= i < entries@.len() && entries@[i] == *e,
{
    let mut i: usize = 0;
    while i < entries.len()
        invariant
            i <= entries.len(),
            zip_entry_from(entries@, name@, i as int) == zip_entry_from(entries@, name@, 0),
        decreases entries.len() - i,
    {
        if str_eq(entries[i].name.as_str(), name) {
            assert(entries@[i as int] == entries[i as int]);
            return Some(&entries[i]);
        }
        i += 1;
    }
    None
}

fn path_is_relative(uri: &str) -> (r: bool)
    ensures
        r == is_relative(uri@),
{
    let parts = split_on(uri, '/');
    let ghost v = text::split(uri@, '/');
    let mut i: usize = 0;
    while i < parts.len()
        invariant
            i <= parts.len(),
            v == text::split(uri@, '/'),
            v == text::views(parts@),
            forall|k: int| 0 <= k < i ==> (#[trigger] v[k]) != "."@ && v[k] != ".."@,
        decreases parts.len() - i,
    {
        assert(v[i as int] == parts@[i as int]@);
        if str_eq(parts[i], ".") || str_eq(parts[i], "..") {
            assert(text::split(uri@, '/')[i as int] == "."@ || text::split(uri@, '/')[i as int]
                == ".."@);
            return true;
        }
        i += 1;
    }
    false
}

fn span_has_digest(alg: &str, data: &[u8], span: (usize, usize), expected: &[u8]) -> (r: bool)
    requires
        span_wf(span, data@.len()),
    ensures
        r == span_matches(alg@, data@, span, expected@),
{
    match hash_bytes(alg, &data[span.0..span.1]) {
        Some(h) => bytes_eq(h.as_slice(), expected),
        None => false,
    }
}

fn find_uri_fault(item: &Value, alg: &str, data: &[u8], facts: &ZipFacts) -> (r: Option<
    (&'static str, String),
>)
    requires
        facts.wf(data@.len()),
    ensures
        match r {
            Some((code, why)) => uri_fault(*item, alg@, data@, facts.entries@) == Some(
                boxes::fault(code@, why@),
            ),
            None => uri_fault(*item, alg@, data@, facts.entries@) is None,
        },
{
    let (uri, expected) = match (item.get_text("uri"), item.get_bytes("hash")) {
        (Some(uri), Some(expected)) => (uri, expected),
        _ => {
            return Some(
                (ASSERTION_COLLECTION_HASH_MALFORMED, "uri entry missing uri or hash".to_owned()),
            );
        },
    };
    if path_is_relative(uri) {
        return Some(
            (
                ASSERTION_COLLECTION_HASH_INVALID_URI,
                join3("uri '", uri, "' contains a relative path segment"),
            ),
        );
    }
    let e = match find_zip_entry(&facts.entries, uri) {
        Some(e) => e,
        None => {
            return Some(
                (
                    ASSERTION_COLLECTION_HASH_INCORRECT_FILE_COUNT,
                    join3("listed file '", uri, "' not found in archive"),
                ),
            );
        },
    };
    assert(entry_wf(*e, data@.len()));
    let span = match &e.hash_span {
        Ok(span) => *span,
        Err(why) => {
            return Some(
                (
                    ASSERTION_COLLECTION_HASH_MALFORMED,
                    crate::text::join4("entry '", uri, "' unreadable: ", why.as_str()),
                ),
            );
        },
    };
    if span_has_digest(alg, data, span, expected) {
        return None;
    }
    if let Some(local) = e.local_span {
        if span_has_digest(alg, data, local, expected) {
            return None;
        }
    }
    Some(
        (
            ASSERTION_COLLECTION_HASH_MISMATCH,
            join3("collection entry '", uri, "' hash mismatch"),
        ),
    )
}

fn hash_slices(alg: &str, data: &[u8], parts: &Vec<(usize, usize)>) -> (r: Option<Vec<u8>>)
    requires
        forall|i: int| 0 <= i < parts@.len() ==> span_wf(#[trigger] parts@[i], data@.len()),
    ensures
        hash::digest_view(r) == hash::named_digest(
            alg@,
            sliced(data@, parts@, parts@.len() as int),
        ),
{
    let mut slices: Vec<&[u8]> = Vec::new();
    let mut i: usize = 0;
    while i < parts.len()
        invariant
            i <= parts.len(),
            forall|k: int| 0 <= k < parts@.len() ==> span_wf(#[trigger] parts@[k], data@.len()),
            hash::concatenation(slices@) == sliced(data@, parts@, i as int),
        decreases parts.len() - i,
    {
        assert(span_wf(parts@[i as int], data@.len()));
        let ghost before = slices@;
        slices.push(&data[parts[i].0..parts[i].1]);
        assert(slices@.drop_last() =~= before);
        i += 1;
    }
    hash_parts(alg, slices.as_slice())
}

fn find_collection_fault(map: Option<&Value>, data: &[u8], facts: &ZipFacts) -> (r: Option<
    (&'static str, String),
>)
    requires
        facts.wf(data@.len()),
    ensures
        match r {
            Some((code, why)) => collection_fault(value::pointee(map), data@, *facts) == Some(
                boxes::fault(code@, why@),
            ),
            None => collection_fault(value::pointee(map), data@, *facts) is None,
        },
{
    let m = match map {
        Some(m) => m,
        None => {
            return Some(
                (
                    ASSERTION_COLLECTION_HASH_MALFORMED,
                    "collection hash assertion CBOR invalid".to_owned(),
                ),
            );
        },
    };
    let uris = match m.get_items("uris") {
        Some(uris) => uris,
        None => {
            return Some((ASSERTION_COLLECTION_HASH_MALFORMED, "no uris field".to_owned()));
        },
    };
    let alg = match m.get_text("alg") {
        Some(alg) => alg,
        None => {
            return Some((ASSERTION_COLLECTION_HASH_MALFORMED, "no alg field".to_owned()));
        },
    };
    let parts = match &facts.central {
        Some(parts) => parts,
        None => {
            return Some(
                (
                    ASSERTION_COLLECTION_HASH_MALFORMED,
                    "asset is not a readable ZIP archive".to_owned(),
                ),
            );
        },
    };
    let expected = match m.get_bytes("zip_central_directory_hash") {
        Some(expected) => expected,
        None => {
            return Some(
                (
                    ASSERTION_COLLECTION_HASH_MALFORMED,
                    "zip_central_directory_hash missing".to_owned(),
                ),
            );
        },
    };
    let ghost whole = uris_fault(uris@, 0, alg@, data@, facts.entries@);
    let mut i: usize = 0;
    while i < uris.len()
        invariant
            i <= uris.len(),
            facts.wf(data@.len()),
            whole == uris_fault(uris@, 0, alg@, data@, facts.entries@),
            whole is Some ==> collection_fault(value::pointee(map), data@, *facts) == whole,
            uris_fault(uris@, i as int, alg@, data@, facts.entries@) == whole,
        decreases uris.len() - i,
    {
        let found = find_uri_fault(&uris[i], alg, data, facts);
        if found.is_some() {
            return found;
        }
        i += 1;
    }
    let ok = match hash_slices(alg, data, parts) {
        Some(h) => bytes_eq(h.as_slice(), expected),
        None => false,
    };
    if ok {
        None
    } else {
        Some(
            (
                ASSERTION_COLLECTION_HASH_MISMATCH,
                "ZIP central directory hash mismatch".to_owned(),
            ),
        )
    }
}

/// Verify a collection data hash (`c2pa.hash.collection.data`).
///
/// Every listed file must hash to its digest, over its exact span or over the
/// broader local span, and the central directory to its own. `map` is the
/// decoded assertion, where its bytes are well formed.
pub fn verify_collection_hash(
    map: Option<&Value>,
    data: &[u8],
    facts: &ZipFacts,
    binding_compromised: bool,
    label: &str,
    results: &mut ValidationResults,
)
    requires
        facts.wf(data@.len()),
    ensures
        final(results)@ == collection_outcome(
            value::pointee(map),
            data@,
            *facts,
            binding_compromised,
            label@,
            old(results)@,
        ),
{
    let url = assertion_uri(label, "c2pa.hash.collection.data");
    match find_collection_fault(map, data, facts) {
        Some((code, why)) => {
            results.push_failure(code, url, why);
        },
        None => {
            if !binding_compromised {
                let count: usize = match map {
                    Some(m) => match m.get_items("uris") {
                        Some(uris) => uris.len(),
                        None => 0,
                    },
                    None => 0,
                };
                let n = decimal_string(count as u64);
                results.push_success(
                    ASSERTION_COLLECTION_HASH_MATCH,
                    url,
                    join3(
                        "collection hashes valid (",
                        n.as_str(),
                        " entries; central directory checked)",
                    ),
                );
            }
        },
    }
}

// ---------------------------------------------------------------------------
// Laws
// ---------------------------------------------------------------------------


/// The digest of the bytes from the start of a span up to its end.
pub open spec fn spans_bytes_digest(
    alg: Seq<char>,
    data: Seq<u8>,
    span: (usize, usize),
) -> Option<Seq<u8>> {
    let (start, end) = span;
    hash::named_digest(alg, data.subrange(start as int, end as int))
}

/// The listed file is in the archive and has the stated digest: its URI has no
/// relative segment and names an entry, and the digest is that of the entry's
/// header and content, or of the span that also takes in its descriptor.
pub open spec fn file_holds(
    item: Value,
    alg: Seq<char>,
    data: Seq<u8>,
    entries: Seq<ZipEntry>,
) -> bool {
    let uri = item.text_field("uri"@);
    let expected = item.bytes_field("hash"@);
    &&& uri is Some
    &&& expected is Some
    &&& forall|i: int|
        0 <= i < text::split(uri->0, '/').len() ==> (#[trigger] text::split(uri->0, '/')[i]) != "."@
            && text::split(uri->0, '/')[i] != ".."@
    &&& exists|j: int|
        {
            &&& 0 <= j < entries.len()
            &&& (#[trigger] entries[j]).name@ == uri->0
            &&& forall|k: int| 0 <= k < j ==> (#[trigger] entries[k]).name@ != uri->0
            &&& entries[j].hash_span is Ok
            &&& spans_bytes_digest(alg, data, entries[j].hash_span->Ok_0) == expected || (
            entries[j].local_span is Some && spans_bytes_digest(alg, data, entries[j].local_span->0)
                == expected)
        }
}

proof fn lemma_zip_entry(entries: Seq<ZipEntry>, name: Seq<char>, i: int)
    requires
        0 <= i,
    ensures
        match zip_entry_from(entries, name, i) {
            Some(e) => exists|j: int|
                i <= j < entries.len() && #[trigger] entries[j] == e && e.name@ == name && forall|
                    k: int,
                |
                    i <= k < j ==> (#[trigger] entries[k]).name@ != name,
            None => forall|j: int| i <= j < entries.len() ==> (#[trigger] entries[j]).name@ != name,
        },
    decreases entries.len() - i,
{
    if i < entries.len() && entries[i].name@ != name {
        lemma_zip_entry(entries, name, i + 1);
        if let Some(e) = zip_entry_from(entries, name, i + 1) {
            let j = choose|j: int|
                i + 1 <= j < entries.len() && #[trigger] entries[j] == e && e.name@ == name
                    && forall|k: int| i + 1 <= k < j ==> (#[trigger] entries[k]).name@ != name;
            assert(entries[j] == e);
        }
    } else if i < entries.len() {
        assert(entries[i].name@ == name);
    }
}

/// A listed file has no fault exactly where it holds.
proof fn lemma_file(item: Value, alg: Seq<char>, data: Seq<u8>, entries: Seq<ZipEntry>)
    ensures
        uri_fault(item, alg, data, entries) is None == file_holds(item, alg, data, entries),
{
    if item.text_field("uri"@) is Some && item.bytes_field("hash"@) is Some {
        let uri = item.text_field("uri"@)->0;
        lemma_zip_entry(entries, uri, 0);
        match zip_entry_from(entries, uri, 0) {
            Some(e) => {
                let j = choose|j: int|
                    0 <= j < entries.len() && #[trigger] entries[j] == e && e.name@ == uri && forall|
                        k: int,
                    |
                        0 <= k < j ==> (#[trigger] entries[k]).name@ != uri;
                assert(entries[j].name@ == uri);
                if file_holds(item, alg, data, entries) {
                    let q = choose|q: int|
                        {
                            &&& 0 <= q < entries.len()
                            &&& (#[trigger] entries[q]).name@ == uri
                            &&& forall|k: int| 0 <= k < q ==> (#[trigger] entries[k]).name@ != uri
                            &&& entries[q].hash_span is Ok
                            &&& spans_bytes_digest(alg, data, entries[q].hash_span->Ok_0)
                                == item.bytes_field("hash"@) || (entries[q].local_span is Some
                                && spans_bytes_digest(alg, data, entries[q].local_span->0)
                                == item.bytes_field("hash"@))
                        };
                    assert(q == j) by {
                        if q < j {
                            assert(entries[q].name@ != uri);
                        }
                        if j < q {
                            assert(entries[j].name@ != uri);
                        }
                    }
                }
            },
            None => {},
        }
    }
}

proof fn lemma_files(
    items: Seq<Value>,
    i: int,
    alg: Seq<char>,
    data: Seq<u8>,
    entries: Seq<ZipEntry>,
)
    requires
        0 <= i,
    ensures
        uris_fault(items, i, alg, data, entries) is None == (forall|k: int|
            i <= k < items.len() ==> file_holds(#[trigger] items[k], alg, data, entries)),
    decreases items.len() - i,
{
    if i < items.len() {
        lemma_file(items[i], alg, data, entries);
        lemma_files(items, i + 1, alg, data, entries);
    }
}

/// A collection hash finds no fault exactly where every file that it lists is in
/// the archive with the stated digest and the central directory has the digest
/// that it states.
pub proof fn collections_hold_exactly_where_every_file_does(
    m: Value,
    data: Seq<u8>,
    facts: ZipFacts,
)
    ensures
        collection_fault(Some(m), data, facts) is None == (m.items_field("uris"@) is Some
            && m.text_field("alg"@) is Some && facts.central is Some && m.bytes_field(
            "zip_central_directory_hash"@,
        ) is Some && (forall|k: int|
            0 <= k < m.items_field("uris"@)->0.len() ==> file_holds(
                #[trigger] m.items_field("uris"@)->0[k],
                m.text_field("alg"@)->0,
                data,
                facts.entries@,
            )) && hash::named_digest(
            m.text_field("alg"@)->0,
            sliced(data, facts.central->0@, facts.central->0@.len() as int),
        ) == m.bytes_field("zip_central_directory_hash"@)),
        collection_fault(None, data, facts) is Some,
{
    if m.items_field("uris"@) is Some && m.text_field("alg"@) is Some {
        lemma_files(
            m.items_field("uris"@)->0,
            0,
            m.text_field("alg"@)->0,
            data,
            facts.entries@,
        );
    }
}

/// The slices of the central directory are hashed in order and without gaps: the
/// bytes of all slices are those of the first ones followed by the last.
pub proof fn slices_follow_one_another(
    data: Seq<u8>,
    parts: Seq<(usize, usize)>,
    k: int,
    i: int,
)
    requires
        0 < k <= parts.len(),
        forall|j: int| 0 <= j < k ==> (#[trigger] parts[j]).0 <= parts[j].1 <= data.len(),
        0 <= i < parts[k - 1].1 - parts[k - 1].0,
    ensures
        ({
            let before = sliced(data, parts, k - 1).len() as int;
            let all = sliced(data, parts, k);
            &&& all.len() == before + (parts[k - 1].1 - parts[k - 1].0)
            &&& all[before + i] == data[parts[k - 1].0 + i]
            &&& all.take(before) == sliced(data, parts, k - 1)
        }),
{
    let before = sliced(data, parts, k - 1);
    let last = data.subrange(parts[k - 1].0 as int, parts[k - 1].1 as int);
    assert(parts[k - 1].0 <= parts[k - 1].1 <= data.len());
    assert(sliced(data, parts, k) == before + last);
    assert((before + last).take(before.len() as int) =~= before);
}

} // verus!
