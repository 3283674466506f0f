//! Live-video session keys, event messages and manifest continuity.
//!
//! Every status filed here is a registered failure code, and none of them is a
//! caveat: a stream that fails any check below is invalid in every posture.
use vstd::prelude::*;
use vstd::utf8::encode_utf8;
use crate::bytes;
use crate::bytes::{read_be32, read_be64};
use crate::bytes::copy_bytes;
use crate::datetime;
use crate::datetime::{add_seconds, parse_rfc3339};
use crate::status::{Results, ValidationResults};
use crate::text;
use crate::text::{bytes_eq, decimal_string, join4, str_eq};
use crate::value;
use crate::value::Value;

verus! {

/// Live-video assertion sequence or stream mismatch.
pub const LIVEVIDEO_ASSERTION_INVALID: &'static str = "livevideo.assertion.invalid";

/// Unknown or malformed continuity method.
pub const LIVEVIDEO_CONTINUITY_METHOD_INVALID: &'static str = "livevideo.continuityMethod.invalid";

/// Init segment improperly contains media data.
pub const LIVEVIDEO_INIT_INVALID: &'static str = "livevideo.init.invalid";

/// A segment manifest failed ordinary validation.
pub const LIVEVIDEO_MANIFEST_INVALID: &'static str = "livevideo.manifest.invalid";

/// A segment lacks valid signed segment information or breaks manifest chaining.
pub const LIVEVIDEO_SEGMENT_INVALID: &'static str = "livevideo.segment.invalid";

/// A delivered session key or its signer binding is invalid.
pub const LIVEVIDEO_SESSION_KEY_INVALID: &'static str = "livevideo.sessionkey.invalid";

pub const CONTINUITY_MANIFEST_ID: &'static str = "c2pa.manifestId";

pub const MAX_SESSION_KEYS: usize = 64;

pub const MAX_EMSG_BOXES: usize = 64;

/// Cap on the top-level boxes that a live segment walk visits.
pub const MAX_TOP_LEVEL_BOXES: usize = 4096;

/// The scheme that a verifiable-segment-info message must declare.
pub const SEGMENT_INFO_SCHEME_ID_URI: &'static str = "urn:c2pa:verifiable-segment-info";

/// The value that a verifiable-segment-info message must declare.
pub const SEGMENT_INFO_VALUE: &'static str = "c2pa";

/// How the segments of a stream are protected.
#[derive(Debug, Clone, Copy, PartialEq, Eq, Structural)]
pub enum StreamMethod {
    /// Signed segment information, or a Merkle tree, in the init manifest.
    VerifiableSegmentInfo,
    /// One manifest per segment.
    PerSegment,
}

/// Which method a live-video validation operation applies to.
#[derive(Debug, Clone, Copy, PartialEq, Eq, Structural)]
pub struct LiveVideoApplicability {
    method: StreamMethod,
}

impl LiveVideoApplicability {
    /// The declared method.
    pub closed spec fn declared(self) -> StreamMethod {
        self.method
    }

    /// Construct applicability from a stream method.
    pub fn new(method: StreamMethod) -> (r: LiveVideoApplicability)
        ensures
            r.declared() == method,
    {
        LiveVideoApplicability { method }
    }

    /// Declared method.
    pub fn method(self) -> (r: StreamMethod)
        ensures
            r == self.declared(),
    {
        self.method
    }
}

// ---------------------------------------------------------------------------
// Fields
// ---------------------------------------------------------------------------

/// The position of the first entry at or behind `i` with the text key `name`.
pub open spec fn key_from(map: Seq<(Value, Value)>, name: Seq<char>, i: int) -> Option<int>
    decreases map.len() - i,
{
    if i < 0 || i >= map.len() {
        None
    } else if value::is_text(map[i].0, name) {
        Some(i)
    } else {
        key_from(map, name, i + 1)
    }
}

/// The value of the one entry with the text key `name`.
pub open spec fn sole_field(map: Seq<(Value, Value)>, name: Seq<char>) -> Option<Value> {
    match key_from(map, name, 0) {
        Some(i) => if key_from(map, name, i + 1) is None {
            Some(map[i].1)
        } else {
            None
        },
        None => None,
    }
}

/// A non-empty text.
pub open spec fn some_text(v: Option<Value>) -> Option<Seq<char>> {
    match value::text_of(v) {
        Some(t) => if t.len() > 0 {
            Some(t)
        } else {
            None
        },
        None => None,
    }
}

/// A non-empty byte string.
pub open spec fn some_bytes(v: Option<Value>) -> Option<Seq<u8>> {
    match value::bytes_of(v) {
        Some(b) => if b.len() > 0 {
            Some(b)
        } else {
            None
        },
        None => None,
    }
}

/// An integer of 64 bits that is not negative.
pub open spec fn some_u64(v: Option<Value>) -> Option<u64> {
    match v {
        Some(Value::Integer(n)) => if 0 <= n <= u64::MAX {
            Some(n as u64)
        } else {
            None
        },
        _ => None,
    }
}

/// A positive signed integer of 64 bits.
pub open spec fn some_positive(v: Option<Value>) -> Option<i64> {
    match v {
        Some(Value::Integer(n)) => if 0 < n <= i64::MAX {
            Some(n as i64)
        } else {
            None
        },
        _ => None,
    }
}

/// A tagged RFC 3339 instant with its offset.
pub open spec fn some_instant(v: Option<Value>) -> Option<(i128, i32)> {
    match v {
        Some(Value::Tag(n, inner)) => if n == 0 {
            match value::text_of(Some(*inner)) {
                Some(t) => datetime::rfc3339_of(t),
                None => None,
            }
        } else {
            None
        },
        _ => None,
    }
}

fn unique_field<'a>(map: &'a Vec<(Value, Value)>, name: &str) -> (r: Option<&'a Value>)
    ensures
        value::pointee(r) == sole_field(map@, name@),
{
    let mut found: Option<usize> = None;
    let mut i: usize = 0;
    while i < map.len()
        invariant
            i <= map.len(),
            match found {
                Some(k) => k < i && key_from(map@, name@, 0) == Some(k as int) && key_from(
                    map@,
                    name@,
                    k + 1,
                ) == key_from(map@, name@, i as int),
                None => key_from(map@, name@, 0) == key_from(map@, name@, i as int),
            },
        decreases map.len() - i,
    {
        let hit = match map[i].0.as_text() {
            Some(t) => str_eq(t, name),
            None => false,
        };
        if hit {
            if found.is_some() {
                return None;
            }
            found = Some(i);
        }
        i += 1;
    }
    match found {
        Some(k) => Some(&map[k].1),
        None => None,
    }
}

fn nonempty_text<'a>(v: Option<&'a Value>) -> (r: Option<&'a str>)
    ensures
        value::chars_opt(r) == some_text(value::pointee(v)),
{
    match v {
        Some(v) => match v.as_text() {
            Some(t) => {
                proof {
                    reveal_strlit("");
                    assert(t@.len() == 0 ==> t@ =~= ""@);
                }
                if str_eq(t, "") {
                    None
                } else {
                    Some(t)
                }
            },
            None => None,
        },
        None => None,
    }
}

fn nonempty_bytes<'a>(v: Option<&'a Value>) -> (r: Option<&'a [u8]>)
    ensures
        value::bytes_opt(r) == some_bytes(value::pointee(v)),
{
    match v {
        Some(v) => match v.as_bytes() {
            Some(b) => if b.len() > 0 {
                Some(b)
            } else {
                None
            },
            None => None,
        },
        None => None,
    }
}

fn nonnegative_u64(v: Option<&Value>) -> (r: Option<u64>)
    ensures
        r == some_u64(value::pointee(v)),
{
    match v {
        Some(Value::Integer(n)) => {
            if *n >= 0 && *n <= 18446744073709551615 {
                Some(*n as u64)
            } else {
                None
            }
        },
        _ => None,
    }
}

fn positive_i64(v: Option<&Value>) -> (r: Option<i64>)
    ensures
        r == some_positive(value::pointee(v)),
{
    match v {
        Some(Value::Integer(n)) => {
            if *n > 0 && *n <= 9223372036854775807 {
                Some(*n as i64)
            } else {
                None
            }
        },
        _ => None,
    }
}

fn tagged_datetime(v: Option<&Value>) -> (r: Option<(i128, i32)>)
    ensures
        r == some_instant(value::pointee(v)),
{
    match v {
        Some(Value::Tag(n, inner)) => {
            if *n != 0 {
                return None;
            }
            match inner.as_text() {
                Some(t) => parse_rfc3339(t),
                None => None,
            }
        },
        _ => None,
    }
}

// ---------------------------------------------------------------------------
// Session keys
// ---------------------------------------------------------------------------

/// A session key whose structure, signer binding, delivery time and key
/// identifier pass.
#[derive(Debug)]
pub struct ValidatedSessionKey {
    /// Serialized key used for signature validation.
    pub cose_key: Vec<u8>,
    /// Required key identifier.
    pub key_id: Vec<u8>,
    /// Lowest segment sequence number this key may authenticate.
    pub minimum_sequence_number: u64,
    /// Session-key creation time.
    pub created_at: i128,
    /// Inclusive expiration time.
    pub expires_at: i128,
}

/// A session key as the contracts see it.
pub struct SessionKey {
    pub cose_key: Seq<u8>,
    pub key_id: Seq<u8>,
    pub minimum: u64,
    pub created_at: int,
    pub expires_at: int,
}

impl View for ValidatedSessionKey {
    type V = SessionKey;

    open spec fn view(&self) -> SessionKey {
        SessionKey {
            cose_key: self.cose_key@,
            key_id: self.key_id@,
            minimum: self.minimum_sequence_number,
            created_at: self.created_at as int,
            expires_at: self.expires_at as int,
        }
    }
}

/// What a verified signature carried.
#[derive(Debug)]
pub struct VerifiedPayload {
    pub payload: Vec<u8>,
    pub key_id: Option<Vec<u8>>,
}

/// What is known of one delivered session key: whether every certificate of the
/// signer was valid when the key was created, the key's serialization and
/// identifier, and its signer binding verified under it.
#[derive(Debug)]
pub struct SessionKeyFacts {
    pub chain_valid: bool,
    pub cose_key: Option<Vec<u8>>,
    pub key_id: Option<Vec<u8>>,
    pub binding: Option<VerifiedPayload>,
}

/// The signer binding is over the leaf certificate and names no other key.
pub open spec fn binding_holds(f: SessionKeyFacts, leaf: Seq<u8>) -> bool {
    &&& f.chain_valid
    &&& f.cose_key is Some
    &&& f.key_id is Some
    &&& f.binding is Some
    &&& f.binding->0.payload@ == leaf
    &&& f.binding->0.key_id matches Some(id) ==> id@ == f.key_id->0@
}

/// The session key that an entry delivers; nothing for an invalid one.
pub open spec fn session_key(entry: Value, f: SessionKeyFacts, leaf: Seq<u8>) -> Option<SessionKey> {
    match entry {
        Value::Dict(entries) => {
            let map = entries@;
            match (
                sole_field(map, "key"@),
                some_u64(sole_field(map, "minSequenceNumber"@)),
                some_instant(sole_field(map, "createdAt"@)),
                some_positive(sole_field(map, "validityPeriod"@)),
                sole_field(map, "signerBinding"@),
            ) {
                (Some(_), Some(minimum), Some((created, offset)), Some(period), Some(_)) => {
                    if map.len() != 5 || !binding_holds(f, leaf) {
                        None
                    } else {
                        match datetime::seconds_after(created, offset, period) {
                            Some(expires_at) => Some(
                                SessionKey {
                                    cose_key: f.cose_key->0@,
                                    key_id: f.key_id->0@,
                                    minimum,
                                    created_at: created as int,
                                    expires_at,
                                },
                            ),
                            None => None,
                        }
                    }
                },
                _ => None,
            }
        },
        _ => None,
    }
}

/// A key with the identifier `id` is among `keys`.
pub open spec fn known_id(keys: Seq<SessionKey>, id: Seq<u8>) -> bool {
    exists|i: int| 0 <= i < keys.len() && (#[trigger] keys[i]).key_id == id
}

/// The session key that entry `i` delivers.
pub open spec fn key_at(
    entries: Seq<Value>,
    facts: Seq<SessionKeyFacts>,
    leaf: Seq<u8>,
    i: int,
) -> Option<SessionKey> {
    if 0 <= i < facts.len() {
        session_key(entries[i], facts[i], leaf)
    } else {
        None
    }
}

/// The keys among the first `k` entries, each identifier once.
pub open spec fn keys_among(
    entries: Seq<Value>,
    facts: Seq<SessionKeyFacts>,
    leaf: Seq<u8>,
    k: int,
) -> Seq<SessionKey>
    decreases k,
{
    if k <= 0 {
        Seq::empty()
    } else {
        let before = keys_among(entries, facts, leaf, k - 1);
        match key_at(entries, facts, leaf, k - 1) {
            Some(key) => if known_id(before, key.key_id) {
                before
            } else {
                before.push(key)
            },
            None => before,
        }
    }
}

/// The result of reading a session-keys assertion: why it is refused as a
/// whole, or its entries.
pub open spec fn key_entries(assertion: Option<Value>) -> Result<Seq<Value>, Seq<char>> {
    match assertion {
        Some(Value::Dict(root)) => if root@.len() != 1 || !value::is_text(root@[0].0, "keys"@) {
            Err("session-keys assertion has an invalid shape"@)
        } else {
            match value::items_of(Some(root@[0].1)) {
                None => Err("session-keys keys value is not an array"@),
                Some(entries) => if entries.len() == 0 || entries.len() > MAX_SESSION_KEYS {
                    Err("session-key cardinality is invalid"@)
                } else {
                    Ok(entries)
                },
            }
        },
        _ => Err("session-keys assertion CBOR is malformed"@),
    }
}

/// The keys that a session-keys assertion delivers, and the results.
pub open spec fn session_keys_outcome(
    method: StreamMethod,
    assertion: Option<Value>,
    chain: Seq<Vec<u8>>,
    facts: Seq<SessionKeyFacts>,
    url: Seq<char>,
    r: Results,
) -> (Seq<SessionKey>, Results) {
    if method != StreamMethod::VerifiableSegmentInfo {
        (Seq::empty(), r)
    } else if chain.len() == 0 {
        (
            Seq::empty(),
            r.fail(
                LIVEVIDEO_SESSION_KEY_INVALID@,
                url,
                "session-key delivery has no signer certificate"@,
            ),
        )
    } else {
        match key_entries(assertion) {
            Err(why) => (Seq::empty(), r.fail(LIVEVIDEO_SESSION_KEY_INVALID@, url, why)),
            Ok(entries) => {
                let keys = keys_among(entries, facts, chain[0]@, entries.len() as int);
                if keys.len() == entries.len() {
                    (keys, r)
                } else {
                    (
                        keys,
                        r.fail(
                            LIVEVIDEO_SESSION_KEY_INVALID@,
                            url,
                            "one or more session keys or signer bindings are invalid"@,
                        ),
                    )
                }
            },
        }
    }
}

/// Session keys as the contracts see them.
pub open spec fn key_views(s: Seq<ValidatedSessionKey>) -> Seq<SessionKey> {
    s.map_values(|k: ValidatedSessionKey| k@)
}

pub open spec fn key_opt(k: Option<ValidatedSessionKey>) -> Option<SessionKey> {
    match k {
        Some(k) => Some(k@),
        None => None,
    }
}

fn check_binding(f: &SessionKeyFacts, leaf: &[u8]) -> (r: bool)
    ensures
        r == binding_holds(*f, leaf@),
{
    if !f.chain_valid || f.cose_key.is_none() {
        return false;
    }
    match (&f.key_id, &f.binding) {
        (Some(id), Some(b)) => bytes_eq(b.payload.as_slice(), leaf) && match &b.key_id {
            Some(other) => bytes_eq(other.as_slice(), id.as_slice()),
            None => true,
        },
        _ => false,
    }
}

fn validate_session_key(entry: &Value, f: &SessionKeyFacts, leaf: &[u8]) -> (r: Option<
    ValidatedSessionKey,
>)
    ensures
        key_opt(r) == session_key(*entry, *f, leaf@),
{
    let map = match entry {
        Value::Dict(map) => map,
        _ => {
            return None;
        },
    };
    let key = unique_field(map, "key");
    let minimum = nonnegative_u64(unique_field(map, "minSequenceNumber"));
    let created = tagged_datetime(unique_field(map, "createdAt"));
    let period = positive_i64(unique_field(map, "validityPeriod"));
    let binding = unique_field(map, "signerBinding");
    if map.len() != 5 || key.is_none() || binding.is_none() || !check_binding(f, leaf) {
        return None;
    }
    let (minimum_sequence_number, (created_at, offset), period) = match (minimum, created, period) {
        (Some(m), Some(c), Some(p)) => (m, c, p),
        _ => {
            return None;
        },
    };
    let expires_at = match add_seconds(created_at, offset, period) {
        Some(t) => t,
        None => {
            return None;
        },
    };
    match (&f.cose_key, &f.key_id) {
        (Some(k), Some(id)) => Some(
            ValidatedSessionKey {
                cose_key: copy_bytes(k),
                key_id: copy_bytes(id),
                minimum_sequence_number,
                created_at,
                expires_at,
            },
        ),
        _ => None,
    }
}

fn id_known(keys: &Vec<ValidatedSessionKey>, id: &Vec<u8>) -> (r: bool)
    ensures
        r == known_id(key_views(keys@), id@),
{
    let ghost kv = key_views(keys@);
    let mut i: usize = 0;
    while i < keys.len()
        invariant
            i <= keys.len(),
            kv == key_views(keys@),
            forall|k: int| 0 <= k < i ==> (#[trigger] kv[k]).key_id != id@,
        decreases keys.len() - i,
    {
        assert(kv[i as int].key_id == keys@[i as int].key_id@);
        if bytes_eq(keys[i].key_id.as_slice(), id.as_slice()) {
            return true;
        }
        i += 1;
    }
    false
}

fn read_keys(entries: &[Value], facts: &[SessionKeyFacts], leaf: &[u8]) -> (r: Vec<
    ValidatedSessionKey,
>)
    ensures
        key_views(r@) == keys_among(entries@, facts@, leaf@, entries@.len() as int),
{
    let mut keys: Vec<ValidatedSessionKey> = Vec::new();
    let mut i: usize = 0;
    assert(key_views(keys@) =~= Seq::empty());
    while i < entries.len()
        invariant
            i <= entries.len(),
            key_views(keys@) == keys_among(entries@, facts@, leaf@, i as int),
        decreases entries.len() - i,
    {
        if i < facts.len() {
            if let Some(key) = validate_session_key(&entries[i], &facts[i], leaf) {
                if !id_known(&keys, &key.key_id) {
                    let ghost before = keys@;
                    keys.push(key);
                    assert(key_views(keys@) =~= key_views(before).push(key@));
                }
            }
        }
        i += 1;
    }
    keys
}

/// Parse and validate a `c2pa.session-keys` assertion.
///
/// Every accepted key proves possession through a signer binding over the exact
/// end-entity certificate that signed the delivering manifest. Invalid entries
/// do not become candidates for segment validation.
pub fn validate_session_keys(
    applicability: LiveVideoApplicability,
    assertion: Option<&Value>,
    signer_chain: &[Vec<u8>],
    facts: &[SessionKeyFacts],
    results: &mut ValidationResults,
    url: &str,
) -> (r: Vec<ValidatedSessionKey>)
    ensures
        (key_views(r@), final(results)@) == session_keys_outcome(
            applicability.declared(),
            value::pointee(assertion),
            signer_chain@,
            facts@,
            url@,
            old(results)@,
        ),
{
    let none: Vec<ValidatedSessionKey> = Vec::new();
    assert(key_views(none@) =~= Seq::empty());
    if applicability.method() != StreamMethod::VerifiableSegmentInfo {
        return none;
    }
    if signer_chain.len() == 0 {
        report(
            results,
            LIVEVIDEO_SESSION_KEY_INVALID,
            url,
            "session-key delivery has no signer certificate",
        );
        return none;
    }
    let root = match assertion {
        Some(Value::Dict(root)) => root,
        _ => {
            report(
                results,
                LIVEVIDEO_SESSION_KEY_INVALID,
                url,
                "session-keys assertion CBOR is malformed",
            );
            return none;
        },
    };
    let shaped = root.len() == 1 && match root[0].0.as_text() {
        Some(t) => str_eq(t, "keys"),
        None => false,
    };
    if !shaped {
        report(
            results,
            LIVEVIDEO_SESSION_KEY_INVALID,
            url,
            "session-keys assertion has an invalid shape",
        );
        return none;
    }
    let entries = match root[0].1.as_items() {
        Some(entries) => entries,
        None => {
            report(
                results,
                LIVEVIDEO_SESSION_KEY_INVALID,
                url,
                "session-keys keys value is not an array",
            );
            return none;
        },
    };
    if entries.len() == 0 || entries.len() > MAX_SESSION_KEYS {
        report(
            results,
            LIVEVIDEO_SESSION_KEY_INVALID,
            url,
            "session-key cardinality is invalid",
        );
        return none;
    }
    let keys = read_keys(entries, facts, signer_chain[0].as_slice());
    assert(key_views(keys@).len() == keys@.len());
    if keys.len() != entries.len() {
        report(
            results,
            LIVEVIDEO_SESSION_KEY_INVALID,
            url,
            "one or more session keys or signer bindings are invalid",
        );
    }
    keys
}

fn report(results: &mut ValidationResults, code: &str, url: &str, explanation: &str)
    ensures
        final(results)@ == old(results)@.fail(code@, url@, explanation@),
{
    results.push_failure(code, url.to_owned(), explanation.to_owned());
}

// ---------------------------------------------------------------------------
// Manifest continuity
// ---------------------------------------------------------------------------

/// Parsed live-video assertion and current manifest identity.
#[derive(Debug, Clone, PartialEq, Eq)]
pub struct LiveVideoManifestState {
    /// Monotonically increasing segment sequence.
    pub sequence_number: u64,
    /// Stable stream identifier.
    pub stream_id: String,
    /// Current manifest identifier, named by the next segment.
    pub manifest_id: String,
}

/// A continuity state as the contracts see it.
pub struct LiveState {
    pub sequence: u64,
    pub stream: Seq<char>,
    pub manifest: Seq<char>,
}

impl View for LiveVideoManifestState {
    type V = LiveState;

    open spec fn view(&self) -> LiveState {
        LiveState {
            sequence: self.sequence_number,
            stream: self.stream_id@,
            manifest: self.manifest_id@,
        }
    }
}

pub open spec fn state_opt(s: Option<LiveVideoManifestState>) -> Option<LiveState> {
    match s {
        Some(s) => Some(s@),
        None => None,
    }
}

pub open spec fn state_ref(s: Option<&LiveVideoManifestState>) -> Option<LiveState> {
    match s {
        Some(s) => Some(s@),
        None => None,
    }
}

/// The sequence number follows `before`. Nothing follows the largest number.
pub open spec fn follows(sequence: u64, before: u64) -> bool {
    sequence as int == before + 1
}

/// What a live-video assertion declares, where it is well formed.
pub open spec fn live_fields(map: Seq<(Value, Value)>) -> Option<(u64, Seq<char>, Seq<char>)> {
    match (
        some_u64(sole_field(map, "sequenceNumber"@)),
        some_text(sole_field(map, "streamId"@)),
        some_text(sole_field(map, "continuityMethod"@)),
    ) {
        (Some(sequence), Some(stream), Some(continuity)) => Some((sequence, stream, continuity)),
        _ => None,
    }
}

/// The results of the continuity checks, each defect reported.
pub open spec fn continuity_results(
    sequence: u64,
    stream: Seq<char>,
    continuity: Seq<char>,
    declared: Option<Seq<char>>,
    previous: Option<LiveState>,
    url: Seq<char>,
    r: Results,
) -> Results {
    let a = if continuity != CONTINUITY_MANIFEST_ID@ {
        r.fail(LIVEVIDEO_CONTINUITY_METHOD_INVALID@, url, "continuity method is unknown"@)
    } else {
        r
    };
    let b = if declared is None {
        a.fail(
            LIVEVIDEO_CONTINUITY_METHOD_INVALID@,
            url,
            "manifest-ID continuity is missing previousManifestId"@,
        )
    } else {
        a
    };
    match previous {
        Some(p) => {
            let c = if !follows(sequence, p.sequence) || stream != p.stream {
                b.fail(
                    LIVEVIDEO_ASSERTION_INVALID@,
                    url,
                    "live-video sequence or stream does not match the predecessor"@,
                )
            } else {
                b
            };
            if declared is Some && declared->0 != p.manifest {
                c.fail(
                    LIVEVIDEO_SEGMENT_INVALID@,
                    url,
                    "previousManifestId does not name the preceding manifest"@,
                )
            } else {
                c
            }
        },
        None => b,
    }
}

/// The assertion continues its predecessor.
pub open spec fn continues(
    sequence: u64,
    stream: Seq<char>,
    continuity: Seq<char>,
    declared: Option<Seq<char>>,
    previous: Option<LiveState>,
) -> bool {
    &&& continuity == CONTINUITY_MANIFEST_ID@
    &&& declared is Some
    &&& previous matches Some(p) ==> follows(sequence, p.sequence) && stream == p.stream
        && declared->0 == p.manifest
}

/// The continuity state that a live-video assertion establishes, and the
/// results.
pub open spec fn live_video_outcome(
    method: StreamMethod,
    assertion: Option<Value>,
    manifest_id: Seq<char>,
    previous: Option<LiveState>,
    url: Seq<char>,
    r: Results,
) -> (Option<LiveState>, Results) {
    if method != StreamMethod::PerSegment {
        (None, r)
    } else {
        match assertion {
            Some(Value::Dict(entries)) => match live_fields(entries@) {
                Some((sequence, stream, continuity)) => {
                    let declared = some_text(sole_field(entries@, "previousManifestId"@));
                    (
                        if continues(sequence, stream, continuity, declared, previous) {
                            Some(LiveState { sequence, stream, manifest: manifest_id })
                        } else {
                            None
                        },
                        continuity_results(
                            sequence,
                            stream,
                            continuity,
                            declared,
                            previous,
                            url,
                            r,
                        ),
                    )
                },
                None => (
                    None,
                    r.fail(
                        LIVEVIDEO_ASSERTION_INVALID@,
                        url,
                        "live-video assertion sequence or stream is invalid"@,
                    ),
                ),
            },
            _ => (
                None,
                r.fail(LIVEVIDEO_ASSERTION_INVALID@, url, "live-video assertion is malformed"@),
            ),
        }
    }
}

/// Validate live-video sequence, stream and `previousManifestId` chaining.
///
/// Every applicable defect is reported rather than only the first: a consumer
/// deciding what to do with a broken live stream needs each reason.
pub fn validate_live_video_assertion(
    applicability: LiveVideoApplicability,
    assertion: Option<&Value>,
    current_manifest_id: &str,
    previous: Option<&LiveVideoManifestState>,
    results: &mut ValidationResults,
    url: &str,
) -> (r: Option<LiveVideoManifestState>)
    ensures
        (state_opt(r), final(results)@) == live_video_outcome(
            applicability.declared(),
            value::pointee(assertion),
            current_manifest_id@,
            state_ref(previous),
            url@,
            old(results)@,
        ),
{
    if applicability.method() != StreamMethod::PerSegment {
        return None;
    }
    let map = match assertion {
        Some(Value::Dict(map)) => map,
        _ => {
            report(
                results,
                LIVEVIDEO_ASSERTION_INVALID,
                url,
                "live-video assertion is malformed",
            );
            return None;
        },
    };
    let (sequence_number, stream_id, continuity) = match (
        nonnegative_u64(unique_field(map, "sequenceNumber")),
        nonempty_text(unique_field(map, "streamId")),
        nonempty_text(unique_field(map, "continuityMethod")),
    ) {
        (Some(s), Some(t), Some(c)) => (s, t, c),
        _ => {
            report(
                results,
                LIVEVIDEO_ASSERTION_INVALID,
                url,
                "live-video assertion sequence or stream is invalid",
            );
            return None;
        },
    };
    let mut rejected = false;
    if !str_eq(continuity, CONTINUITY_MANIFEST_ID) {
        report(
            results,
            LIVEVIDEO_CONTINUITY_METHOD_INVALID,
            url,
            "continuity method is unknown",
        );
        rejected = true;
    }
    let declared = nonempty_text(unique_field(map, "previousManifestId"));
    if declared.is_none() {
        report(
            results,
            LIVEVIDEO_CONTINUITY_METHOD_INVALID,
            url,
            "manifest-ID continuity is missing previousManifestId",
        );
        rejected = true;
    }
    if let Some(p) = previous {
        let in_sequence = match p.sequence_number.checked_add(1) {
            Some(next) => sequence_number == next,
            None => false,
        };
        if !in_sequence || !str_eq(stream_id, p.stream_id.as_str()) {
            report(
                results,
                LIVEVIDEO_ASSERTION_INVALID,
                url,
                "live-video sequence or stream does not match the predecessor",
            );
            rejected = true;
        }
        if let Some(d) = declared {
            if !str_eq(d, p.manifest_id.as_str()) {
                report(
                    results,
                    LIVEVIDEO_SEGMENT_INVALID,
                    url,
                    "previousManifestId does not name the preceding manifest",
                );
                rejected = true;
            }
        }
    }
    if rejected {
        return None;
    }
    Some(
        LiveVideoManifestState {
            sequence_number,
            stream_id: stream_id.to_owned(),
            manifest_id: current_manifest_id.to_owned(),
        },
    )
}

/// Map ordinary segment-manifest validation into the live-video status.
pub fn validate_segment_manifest(
    _applicability: LiveVideoApplicability,
    manifest_valid: bool,
    results: &mut ValidationResults,
    url: &str,
) -> (r: bool)
    ensures
        r == manifest_valid,
        final(results)@ == if manifest_valid {
            old(results)@
        } else {
            old(results)@.fail(
                LIVEVIDEO_MANIFEST_INVALID@,
                url@,
                "segment manifest failed C2PA validation"@,
            )
        },
{
    if !manifest_valid {
        report(
            results,
            LIVEVIDEO_MANIFEST_INVALID,
            url,
            "segment manifest failed C2PA validation",
        );
    }
    manifest_valid
}

// ---------------------------------------------------------------------------
// Top-level boxes
// ---------------------------------------------------------------------------

/// Why a top-level box walk gave up.
#[derive(Debug, Clone, Copy, PartialEq, Eq, Structural)]
pub enum WalkDefect {
    /// A box header is truncated, or a declared size runs past the end.
    Malformed,
    /// More top-level boxes than a segment legitimately carries.
    TooManyBoxes,
}

impl WalkDefect {
    pub open spec fn text(self) -> Seq<char> {
        match self {
            WalkDefect::Malformed => "top-level BMFF boxes are malformed"@,
            WalkDefect::TooManyBoxes
                => "more top-level BMFF boxes than a live segment may carry; the box walk stopped at the box-storm limit"@,
        }
    }

    /// The explanation filed with the status, one wording per defect.
    pub fn explanation(self) -> (r: &'static str)
        ensures
            r@ == self.text(),
    {
        match self {
            WalkDefect::Malformed => "top-level BMFF boxes are malformed",
            WalkDefect::TooManyBoxes
                => "more top-level BMFF boxes than a live segment may carry; the box walk stopped at the box-storm limit",
        }
    }
}

/// The header length and the size of the box at `at`; nothing for a malformed
/// one.
pub open spec fn frame_at(data: Seq<u8>, at: int) -> Option<(int, int)> {
    let left = data.len() - at;
    if left < 8 {
        None
    } else {
        let size32 = bytes::be_number(data.subrange(at, at + 4)) as int;
        let frame = if size32 == 0 {
            Some((8int, left))
        } else if size32 == 1 {
            if left < 16 {
                None
            } else {
                Some((16int, bytes::be_number(data.subrange(at + 8, at + 16)) as int))
            }
        } else {
            Some((8int, size32))
        };
        match frame {
            Some((header, size)) => if header <= size <= left {
                Some((header, size))
            } else {
                None
            },
            None => None,
        }
    }
}

/// The type of the box at `at`.
pub open spec fn kind_at(data: Seq<u8>, at: int) -> Seq<u8> {
    data.subrange(at + 4, at + 8)
}

/// `mdat`.
pub open spec fn mdat() -> Seq<u8> {
    seq![0x6du8, 0x64, 0x61, 0x74]
}

/// `emsg`.
pub open spec fn emsg() -> Seq<u8> {
    seq![0x65u8, 0x6d, 0x73, 0x67]
}

/// One step of a walk: the header length and the size of the box at `at`, where
/// `walked` boxes were visited before.
pub open spec fn step_at(data: Seq<u8>, at: int, walked: nat) -> Result<(int, int), WalkDefect> {
    if data.len() - at < 8 {
        Err(WalkDefect::Malformed)
    } else if walked >= MAX_TOP_LEVEL_BOXES {
        Err(WalkDefect::TooManyBoxes)
    } else {
        match frame_at(data, at) {
            Some(f) => Ok(f),
            None => Err(WalkDefect::Malformed),
        }
    }
}

/// Whether a top-level `mdat` stands at or behind `at`.
pub open spec fn mdat_from(data: Seq<u8>, at: int, walked: nat) -> Result<bool, WalkDefect>
    decreases data.len() - at,
{
    if at < 0 || at >= data.len() {
        Ok(false)
    } else {
        match step_at(data, at, walked) {
            Err(d) => Err(d),
            Ok((header, size)) => if kind_at(data, at) == mdat() {
                Ok(true)
            } else if size <= 0 {
                Err(WalkDefect::Malformed)
            } else {
                mdat_from(data, at + size, walked + 1)
            },
        }
    }
}

pub open spec fn step_view(r: Result<(usize, usize), WalkDefect>) -> Result<(int, int), WalkDefect> {
    match r {
        Ok((h, n)) => Ok((h as int, n as int)),
        Err(d) => Err(d),
    }
}

/// Measure the box at `at`.
fn next_box(data: &[u8], at: usize, walked: usize) -> (r: Result<(usize, usize), WalkDefect>)
    requires
        at <= data@.len(),
    ensures
        step_view(r) == step_at(data@, at as int, walked as nat),
        r matches Ok((h, n)) ==> 8 <= h <= n && at + n <= data@.len(),
{
    let left = data.len() - at;
    if left < 8 {
        return Err(WalkDefect::Malformed);
    }
    if walked >= MAX_TOP_LEVEL_BOXES {
        return Err(WalkDefect::TooManyBoxes);
    }
    let size32 = read_be32(data, at);
    let (header, size): (usize, usize) = if size32 == 0 {
        (8, left)
    } else if size32 == 1 {
        if left < 16 {
            return Err(WalkDefect::Malformed);
        }
        let size64 = read_be64(data, at + 8);
        if size64 > left as u64 {
            return Err(WalkDefect::Malformed);
        }
        (16, size64 as usize)
    } else {
        if size32 as u64 > left as u64 {
            return Err(WalkDefect::Malformed);
        }
        (8, size32 as usize)
    };
    if size < header || size > left {
        return Err(WalkDefect::Malformed);
    }
    Ok((header, size))
}

fn is_kind(data: &[u8], at: usize, a: u8, b: u8, c: u8, d: u8) -> (r: bool)
    requires
        at + 8 <= data@.len(),
    ensures
        r == (kind_at(data@, at as int) == seq![a, b, c, d]),
{
    let _len = data.len();
    let r = data[at + 4] == a && data[at + 5] == b && data[at + 6] == c && data[at + 7] == d;
    proof {
        let k = kind_at(data@, at as int);
        assert(k[0] == data@[at + 4] && k[1] == data@[at + 5] && k[2] == data@[at + 6] && k[3]
            == data@[at + 7]);
        if r {
            assert(k =~= seq![a, b, c, d]);
        }
    }
    r
}

/// The results of holding an init segment to carry no media.
pub open spec fn init_results(data: Seq<u8>, url: Seq<char>, r: Results) -> Results {
    match mdat_from(data, 0, 0) {
        Ok(false) => r,
        Ok(true) => r.fail(LIVEVIDEO_INIT_INVALID@, url, "live init segment contains mdat"@),
        Err(d) => r.fail(LIVEVIDEO_INIT_INVALID@, url, d.text()),
    }
}

/// Validate that a live init segment has no top-level `mdat` box. The walk stops
/// at the first one and never collects the boxes.
pub fn validate_init_segment(
    _applicability: LiveVideoApplicability,
    init_segment: &[u8],
    results: &mut ValidationResults,
    url: &str,
) -> (r: bool)
    ensures
        r == (mdat_from(init_segment@, 0, 0) == Ok::<bool, WalkDefect>(false)),
        final(results)@ == init_results(init_segment@, url@, old(results)@),
{
    let mut at: usize = 0;
    let mut walked: usize = 0;
    while at < init_segment.len()
        invariant
            at <= init_segment@.len(),
            walked <= at,
            results@ == old(results)@,
            mdat_from(init_segment@, at as int, walked as nat) == mdat_from(init_segment@, 0, 0),
        decreases init_segment.len() - at,
    {
        match next_box(init_segment, at, walked) {
            Err(defect) => {
                report(results, LIVEVIDEO_INIT_INVALID, url, defect.explanation());
                return false;
            },
            Ok((_header, size)) => {
                if is_kind(init_segment, at, 0x6d, 0x64, 0x61, 0x74) {
                    report(
                        results,
                        LIVEVIDEO_INIT_INVALID,
                        url,
                        "live init segment contains mdat",
                    );
                    return false;
                }
                at += size;
                walked += 1;
            },
        }
    }
    true
}

// ---------------------------------------------------------------------------
// Event messages
// ---------------------------------------------------------------------------

/// The position of the first zero byte at or behind `i`.
pub open spec fn zero_from(b: Seq<u8>, i: int) -> Option<int>
    decreases b.len() - i,
{
    if i < 0 || i >= b.len() {
        None
    } else if b[i] == 0 {
        Some(i)
    } else {
        zero_from(b, i + 1)
    }
}

/// The two strings from `from` on, and where they end: scheme, value, end.
pub open spec fn two_strings(b: Seq<u8>, from: int) -> Option<(Seq<u8>, Seq<u8>, int)> {
    match zero_from(b, from) {
        Some(i) => match zero_from(b, i + 1) {
            Some(j) => Some((b.subrange(from, i), b.subrange(i + 1, j), j + 1)),
            None => None,
        },
        None => None,
    }
}

/// Where the message of an event box begins, where the box declares signed
/// segment information. Version 0 puts the two strings first, version 1 the
/// timing fields.
pub open spec fn message_start(b: Seq<u8>) -> Option<int> {
    if b.len() < 4 || b[0] > 1 {
        None
    } else {
        match two_strings(
            b,
            if b[0] == 0 {
                4int
            } else {
                24
            },
        ) {
            Some((scheme, val, end)) => {
                let start = if b[0] == 0 {
                    end + 16
                } else {
                    end
                };
                if scheme == encode_utf8(SEGMENT_INFO_SCHEME_ID_URI@) && val == encode_utf8(
                    SEGMENT_INFO_VALUE@,
                ) && start < b.len() {
                    Some(start)
                } else {
                    None
                }
            },
            None => None,
        }
    }
}

fn find_zero(b: &[u8], from: usize) -> (r: Option<usize>)
    ensures
        match r {
            Some(i) => zero_from(b@, from as int) == Some(i as int) && from <= i < b@.len(),
            None => zero_from(b@, from as int) is None,
        },
{
    let mut i: usize = from;
    while i < b.len()
        invariant
            from <= i,
            zero_from(b@, i as int) == zero_from(b@, from as int),
        decreases b.len() - i,
    {
        if b[i] == 0 {
            return Some(i);
        }
        i += 1;
    }
    None
}

/// The message of an event box that declares verifiable segment information.
///
/// The scheme and the value are matched exactly before the message is looked
/// at, so an unrelated event never reaches a signature check.
fn segment_info_message(body: &[u8]) -> (r: Option<usize>)
    ensures
        match r {
            Some(i) => message_start(body@) == Some(i as int) && i < body@.len(),
            None => message_start(body@) is None,
        },
{
    if body.len() < 4 || body[0] > 1 {
        return None;
    }
    let from: usize = if body[0] == 0 {
        4
    } else {
        24
    };
    let i = match find_zero(body, from) {
        Some(i) => i,
        None => {
            return None;
        },
    };
    let j = match find_zero(body, i + 1) {
        Some(j) => j,
        None => {
            return None;
        },
    };
    let scheme = vstd::slice::slice_subrange(body, from, i);
    let val = vstd::slice::slice_subrange(body, i + 1, j);
    if !bytes_eq(scheme, SEGMENT_INFO_SCHEME_ID_URI.as_bytes()) || !bytes_eq(
        val,
        SEGMENT_INFO_VALUE.as_bytes(),
    ) {
        return None;
    }
    let end = j + 1;
    if body[0] == 0 {
        if body.len() - end <= 16 {
            None
        } else {
            Some(end + 16)
        }
    } else {
        if end >= body.len() {
            None
        } else {
            Some(end)
        }
    }
}

// ---------------------------------------------------------------------------
// Segment authentication
// ---------------------------------------------------------------------------

/// Successfully authenticated segment information.
#[derive(Debug, Clone, PartialEq, Eq)]
pub struct VerifiedSegmentInfo {
    /// Signed segment sequence number.
    pub sequence_number: u64,
    /// Signed manifest identifier.
    pub manifest_id: String,
    /// Session key that authenticated the message.
    pub key_id: Vec<u8>,
}

/// Segment information as the contracts see it.
pub struct SegmentInfo {
    pub sequence: u64,
    pub manifest: Seq<char>,
    pub key_id: Seq<u8>,
}

impl View for VerifiedSegmentInfo {
    type V = SegmentInfo;

    open spec fn view(&self) -> SegmentInfo {
        SegmentInfo {
            sequence: self.sequence_number,
            manifest: self.manifest_id@,
            key_id: self.key_id@,
        }
    }
}

pub open spec fn info_opt(i: Option<VerifiedSegmentInfo>) -> Option<SegmentInfo> {
    match i {
        Some(i) => Some(i@),
        None => None,
    }
}

/// When a message says that it was signed.
#[derive(Debug, Clone, Copy)]
pub enum SigningTime {
    /// The message does not say.
    Unstated,
    /// At an instant, in nanoseconds of the Unix epoch.
    At(i128),
    /// What the message says names no instant.
    Unusable,
}

/// What verifying a message under one session key came to: the key identifier
/// that it names, its decoded payload, and the structural digest of the segment
/// under the algorithm and exclusions that the payload declares.
#[derive(Debug)]
pub struct KeyCheck {
    pub key_id: Option<Vec<u8>>,
    pub payload: Option<Value>,
    pub digest: Option<Vec<u8>>,
}

/// What is known of one candidate message: its signing time, and for each
/// session key the check under it, where its signature verifies.
#[derive(Debug)]
pub struct MessageFacts {
    pub signed_at: SigningTime,
    pub checks: Vec<Option<KeyCheck>>,
}

/// The exclusions that segment information may declare: the event boxes and
/// those of every structural hash.
pub open spec fn allowed_exclusion(xpath: Seq<char>, paths: Seq<String>) -> bool {
    xpath == "/emsg"@ || exists|i: int| 0 <= i < paths.len() && (#[trigger] paths[i])@ == xpath
}

/// The exclusion is one that segment information may declare.
pub open spec fn exclusion_ok(v: Value, paths: Seq<String>) -> bool {
    match v.text_field("xpath"@) {
        Some(xpath) => allowed_exclusion(xpath, paths),
        None => false,
    }
}

/// The declared structural hash is the digest of the segment.
pub open spec fn hash_holds(v: Value, digest: Option<Seq<u8>>, paths: Seq<String>) -> bool {
    match v {
        Value::Dict(entries) => {
            let map = entries@;
            &&& some_text(sole_field(map, "alg"@)) is Some
            &&& some_bytes(sole_field(map, "hash"@)) matches Some(expected)
            &&& digest == Some(expected)
            &&& value::items_of(sole_field(map, "exclusions"@)) matches Some(items) ==> items.len()
                <= 128 && forall|i: int|
                0 <= i < items.len() ==> exclusion_ok(#[trigger] items[i], paths)
        },
        _ => false,
    }
}

/// The segment information that a message carries under `key`.
pub open spec fn info_under(
    key: SessionKey,
    check: Option<KeyCheck>,
    signed_at: SigningTime,
    validation_time: i128,
    manifest_id: Seq<char>,
    paths: Seq<String>,
) -> Option<SegmentInfo> {
    match check {
        None => None,
        Some(c) => {
            let time = match signed_at {
                SigningTime::Unstated => Some(validation_time),
                SigningTime::At(t) => Some(t),
                SigningTime::Unusable => None,
            };
            match (time, c.payload) {
                (Some(t), Some(Value::Dict(entries))) => {
                    let sequence = some_u64(sole_field(entries@, "sequenceNumber"@));
                    let manifest = some_text(sole_field(entries@, "manifestId"@));
                    let declared = sole_field(entries@, "bmffHash"@);
                    if c.key_id is Some && c.key_id->0@ == key.key_id && key.created_at <= t
                        <= key.expires_at && sequence is Some && sequence->0 >= key.minimum
                        && manifest == Some(manifest_id) && declared is Some && hash_holds(
                        declared->0,
                        match c.digest {
                            Some(d) => Some(d@),
                            None => None,
                        },
                        paths,
                    ) {
                        Some(
                            SegmentInfo {
                                sequence: sequence->0,
                                manifest: manifest_id,
                                key_id: key.key_id,
                            },
                        )
                    } else {
                        None
                    }
                },
                _ => None,
            }
        },
    }
}

pub open spec fn check_at(m: MessageFacts, j: int) -> Option<KeyCheck> {
    if 0 <= j < m.checks@.len() {
        m.checks@[j]
    } else {
        None
    }
}

/// The segment information that a message carries under one of the keys at or
/// behind `j`.
pub open spec fn authenticated_from(
    m: MessageFacts,
    keys: Seq<SessionKey>,
    j: int,
    validation_time: i128,
    manifest_id: Seq<char>,
    paths: Seq<String>,
) -> Option<SegmentInfo>
    decreases keys.len() - j,
{
    if j < 0 || j >= keys.len() {
        None
    } else {
        match info_under(
            keys[j],
            check_at(m, j),
            m.signed_at,
            validation_time,
            manifest_id,
            paths,
        ) {
            Some(info) => Some(info),
            None => authenticated_from(m, keys, j + 1, validation_time, manifest_id, paths),
        }
    }
}

fn exclusion_allowed(xpath: &str, paths: &Vec<String>) -> (r: bool)
    ensures
        r == allowed_exclusion(xpath@, paths@),
{
    if str_eq(xpath, "/emsg") {
        return true;
    }
    let mut i: usize = 0;
    while i < paths.len()
        invariant
            i <= paths.len(),
            forall|k: int| 0 <= k < i ==> (#[trigger] paths@[k])@ != xpath@,
        decreases paths.len() - i,
    {
        if str_eq(paths[i].as_str(), xpath) {
            return true;
        }
        i += 1;
    }
    false
}

fn exclusions_allowed(items: &[Value], paths: &Vec<String>) -> (r: bool)
    ensures
        r == forall|i: int| 0 <= i < items@.len() ==> exclusion_ok(#[trigger] items@[i], paths@),
{
    let mut i: usize = 0;
    while i < items.len()
        invariant
            i <= items.len(),
            forall|k: int| 0 <= k < i ==> exclusion_ok(#[trigger] items@[k], paths@),
        decreases items.len() - i,
    {
        let ok = match items[i].get_text("xpath") {
            Some(xpath) => exclusion_allowed(xpath, paths),
            None => false,
        };
        if !ok {
            assert(!exclusion_ok(items@[i as int], paths@));
            return false;
        }
        i += 1;
    }
    true
}

fn verify_bmff_hash(v: &Value, digest: &Option<Vec<u8>>, paths: &Vec<String>) -> (r: bool)
    ensures
        r == hash_holds(
            *v,
            match *digest {
                Some(d) => Some(d@),
                None => None,
            },
            paths@,
        ),
{
    let map = match v {
        Value::Dict(map) => map,
        _ => {
            return false;
        },
    };
    if nonempty_text(unique_field(map, "alg")).is_none() {
        return false;
    }
    let expected = match nonempty_bytes(unique_field(map, "hash")) {
        Some(expected) => expected,
        None => {
            return false;
        },
    };
    if let Some(declared) = unique_field(map, "exclusions") {
        if let Some(items) = declared.as_items() {
            if items.len() > 128 || !exclusions_allowed(items, paths) {
                return false;
            }
        }
    }
    match digest {
        Some(d) => bytes_eq(d.as_slice(), expected),
        None => false,
    }
}

fn info_of(
    key: &ValidatedSessionKey,
    check: &Option<KeyCheck>,
    signed_at: SigningTime,
    validation_time: i128,
    manifest_id: &str,
    paths: &Vec<String>,
) -> (r: Option<VerifiedSegmentInfo>)
    ensures
        info_opt(r) == info_under(
            key@,
            *check,
            signed_at,
            validation_time,
            manifest_id@,
            paths@,
        ),
{
    let c = match check {
        Some(c) => c,
        None => {
            return None;
        },
    };
    let time = match signed_at {
        SigningTime::Unstated => validation_time,
        SigningTime::At(t) => t,
        SigningTime::Unusable => {
            return None;
        },
    };
    let map = match &c.payload {
        Some(Value::Dict(map)) => map,
        _ => {
            return None;
        },
    };
    let named = match &c.key_id {
        Some(id) => bytes_eq(id.as_slice(), key.key_id.as_slice()),
        None => false,
    };
    if !named || time < key.created_at || time > key.expires_at {
        return None;
    }
    let sequence_number = match nonnegative_u64(unique_field(map, "sequenceNumber")) {
        Some(n) => n,
        None => {
            return None;
        },
    };
    if sequence_number < key.minimum_sequence_number {
        return None;
    }
    let manifest_matches = match nonempty_text(unique_field(map, "manifestId")) {
        Some(id) => str_eq(id, manifest_id),
        None => false,
    };
    if !manifest_matches {
        return None;
    }
    let holds = match unique_field(map, "bmffHash") {
        Some(declared) => verify_bmff_hash(declared, &c.digest, paths),
        None => false,
    };
    if !holds {
        return None;
    }
    Some(
        VerifiedSegmentInfo {
            sequence_number,
            manifest_id: manifest_id.to_owned(),
            key_id: copy_bytes(&key.key_id),
        },
    )
}

fn authenticate_segment_info(
    m: &MessageFacts,
    keys: &[ValidatedSessionKey],
    validation_time: i128,
    manifest_id: &str,
    paths: &Vec<String>,
) -> (r: Option<VerifiedSegmentInfo>)
    ensures
        info_opt(r) == authenticated_from(
            *m,
            key_views(keys@),
            0,
            validation_time,
            manifest_id@,
            paths@,
        ),
{
    let ghost kv = key_views(keys@);
    let missing: Option<KeyCheck> = None;
    let mut j: usize = 0;
    while j < keys.len()
        invariant
            j <= keys.len(),
            kv == key_views(keys@),
            missing is None,
            authenticated_from(*m, kv, j as int, validation_time, manifest_id@, paths@)
                == authenticated_from(*m, kv, 0, validation_time, manifest_id@, paths@),
        decreases keys.len() - j,
    {
        assert(kv[j as int] == keys@[j as int]@);
        let check = if j < m.checks.len() {
            &m.checks[j]
        } else {
            &missing
        };
        let found = info_of(&keys[j], check, m.signed_at, validation_time, manifest_id, paths);
        if found.is_some() {
            return found;
        }
        j += 1;
    }
    None
}

/// What a walk over the event boxes of a segment comes to.
pub enum EmsgWalk {
    Defect(WalkDefect),
    /// A message is authentic and in sequence.
    Verified(SegmentInfo),
    /// No message is; the first authentic one out of sequence, if any.
    Unverified(Option<SegmentInfo>),
}

/// The candidate message in the box at `at`, where there is one.
pub open spec fn is_candidate(data: Seq<u8>, at: int, header: int, size: int) -> bool {
    kind_at(data, at) == emsg() && message_start(data.subrange(at + header, at + size)) is Some
}

/// What candidate `n` is authenticated as.
pub open spec fn candidate_info(
    messages: Seq<MessageFacts>,
    n: int,
    keys: Seq<SessionKey>,
    validation_time: i128,
    manifest_id: Seq<char>,
    paths: Seq<String>,
) -> Option<SegmentInfo> {
    if 0 <= n < messages.len() {
        authenticated_from(messages[n], keys, 0, validation_time, manifest_id, paths)
    } else {
        None
    }
}

/// The walk over the boxes at or behind `at`, with `n` candidates met before.
pub open spec fn emsg_from(
    data: Seq<u8>,
    at: int,
    walked: nat,
    n: nat,
    unexpected: Option<SegmentInfo>,
    expected: Option<u64>,
    messages: Seq<MessageFacts>,
    keys: Seq<SessionKey>,
    validation_time: i128,
    manifest_id: Seq<char>,
    paths: Seq<String>,
) -> EmsgWalk
    decreases data.len() - at,
{
    if at < 0 || at >= data.len() {
        EmsgWalk::Unverified(unexpected)
    } else {
        match step_at(data, at, walked) {
            Err(d) => EmsgWalk::Defect(d),
            Ok((header, size)) => if size <= 0 {
                EmsgWalk::Defect(WalkDefect::Malformed)
            } else if !is_candidate(data, at, header, size) {
                emsg_from(
                    data,
                    at + size,
                    walked + 1,
                    n,
                    unexpected,
                    expected,
                    messages,
                    keys,
                    validation_time,
                    manifest_id,
                    paths,
                )
            } else if n >= MAX_EMSG_BOXES {
                EmsgWalk::Unverified(unexpected)
            } else {
                let info = candidate_info(
                    messages,
                    n as int,
                    keys,
                    validation_time,
                    manifest_id,
                    paths,
                );
                if info is Some && (expected is None || info->0.sequence == expected->0) {
                    EmsgWalk::Verified(info->0)
                } else {
                    emsg_from(
                        data,
                        at + size,
                        walked + 1,
                        n + 1,
                        if unexpected is Some {
                            unexpected
                        } else {
                            info
                        },
                        expected,
                        messages,
                        keys,
                        validation_time,
                        manifest_id,
                        paths,
                    )
                }
            },
        }
    }
}

/// The segment information of a segment, and the results.
pub open spec fn emsg_outcome(
    method: StreamMethod,
    data: Seq<u8>,
    expected: Option<u64>,
    manifest_id: Seq<char>,
    keys: Seq<SessionKey>,
    messages: Seq<MessageFacts>,
    validation_time: i128,
    paths: Seq<String>,
    url: Seq<char>,
    r: Results,
) -> (Option<SegmentInfo>, Results) {
    if method != StreamMethod::VerifiableSegmentInfo {
        (None, r)
    } else if keys.len() == 0 {
        (
            None,
            r.fail(LIVEVIDEO_SEGMENT_INVALID@, url, "segment has no valid session keys"@),
        )
    } else {
        match emsg_from(
            data,
            0,
            0,
            0,
            None,
            expected,
            messages,
            keys,
            validation_time,
            manifest_id,
            paths,
        ) {
            EmsgWalk::Defect(d) => (None, r.fail(LIVEVIDEO_SEGMENT_INVALID@, url, d.text())),
            EmsgWalk::Verified(info) => (Some(info), r),
            EmsgWalk::Unverified(Some(info)) => (
                Some(info),
                r.fail(
                    LIVEVIDEO_SEGMENT_INVALID@,
                    url,
                    "unexpected sequence discontinuity: signed sequenceNumber "@ + text::decimal(
                        info.sequence as nat,
                    ) + " does not follow "@ + text::decimal(
                        (match expected {
                            Some(e) => e,
                            None => 0,
                        }) as nat,
                    ),
                ),
            ),
            EmsgWalk::Unverified(None) => (
                None,
                r.fail(
                    LIVEVIDEO_SEGMENT_INVALID@,
                    url,
                    "no emsg box carried valid signed segment information"@,
                ),
            ),
        }
    }
}

/// Outcome of a walk, executable.
enum WalkOutcome {
    Defect(WalkDefect),
    Verified(VerifiedSegmentInfo),
    Unverified(Option<VerifiedSegmentInfo>),
}

impl View for WalkOutcome {
    type V = EmsgWalk;

    closed spec fn view(&self) -> EmsgWalk {
        match self {
            WalkOutcome::Defect(d) => EmsgWalk::Defect(*d),
            WalkOutcome::Verified(i) => EmsgWalk::Verified(i@),
            WalkOutcome::Unverified(i) => EmsgWalk::Unverified(info_opt(*i)),
        }
    }
}

fn candidate_at(data: &[u8], at: usize, header: usize, size: usize) -> (r: bool)
    requires
        8 <= header <= size,
        at + size <= data@.len(),
    ensures
        r == is_candidate(data@, at as int, header as int, size as int),
{
    let _len = data.len();
    if !is_kind(data, at, 0x65, 0x6d, 0x73, 0x67) {
        return false;
    }
    let body = vstd::slice::slice_subrange(data, at + header, at + size);
    segment_info_message(body).is_some()
}

fn walk_messages(
    data: &[u8],
    expected: Option<u64>,
    messages: &[MessageFacts],
    keys: &[ValidatedSessionKey],
    validation_time: i128,
    manifest_id: &str,
    paths: &Vec<String>,
) -> (r: WalkOutcome)
    ensures
        r@ == emsg_from(
            data@,
            0,
            0,
            0,
            None,
            expected,
            messages@,
            key_views(keys@),
            validation_time,
            manifest_id@,
            paths@,
        ),
{
    let ghost kv = key_views(keys@);
    let ghost whole = emsg_from(
        data@,
        0,
        0,
        0,
        None,
        expected,
        messages@,
        kv,
        validation_time,
        manifest_id@,
        paths@,
    );
    let mut at: usize = 0;
    let mut walked: usize = 0;
    let mut n: usize = 0;
    let mut unexpected: Option<VerifiedSegmentInfo> = None;
    while at < data.len()
        invariant
            at <= data@.len(),
            walked <= at,
            n <= MAX_EMSG_BOXES,
            kv == key_views(keys@),
            whole == emsg_from(
                data@,
                0,
                0,
                0,
                None,
                expected,
                messages@,
                kv,
                validation_time,
                manifest_id@,
                paths@,
            ),
            emsg_from(
                data@,
                at as int,
                walked as nat,
                n as nat,
                info_opt(unexpected),
                expected,
                messages@,
                kv,
                validation_time,
                manifest_id@,
                paths@,
            ) == whole,
        decreases data.len() - at,
    {
        let (header, size) = match next_box(data, at, walked) {
            Err(d) => {
                return WalkOutcome::Defect(d);
            },
            Ok(f) => f,
        };
        if candidate_at(data, at, header, size) {
            if n >= MAX_EMSG_BOXES {
                return WalkOutcome::Unverified(unexpected);
            }
            let info = if n < messages.len() {
                authenticate_segment_info(&messages[n], keys, validation_time, manifest_id, paths)
            } else {
                None
            };
            if let Some(found) = info {
                let in_sequence = match expected {
                    Some(e) => found.sequence_number == e,
                    None => true,
                };
                if in_sequence {
                    return WalkOutcome::Verified(found);
                }
                if unexpected.is_none() {
                    unexpected = Some(found);
                }
            }
            n += 1;
        }
        at += size;
        walked += 1;
    }
    WalkOutcome::Unverified(unexpected)
}

/// Validate the signed segment information in a segment's event boxes.
///
/// Success requires a message that verifies under an active session key which
/// it names, signed inside the key's window, at or above the key's first
/// sequence number, for the exact manifest, with a structural hash that holds
/// over the delivered bytes and, unless a seek was signalled, with the expected
/// sequence number. `messages` holds what is known of each candidate message in
/// walk order.
pub fn validate_emsg_segment(
    applicability: LiveVideoApplicability,
    segment: &[u8],
    expected_sequence_number: Option<u64>,
    expected_manifest_id: &str,
    session_keys: &[ValidatedSessionKey],
    messages: &[MessageFacts],
    validation_time: i128,
    exclusion_paths: &Vec<String>,
    results: &mut ValidationResults,
    url: &str,
) -> (r: Option<VerifiedSegmentInfo>)
    ensures
        (info_opt(r), final(results)@) == emsg_outcome(
            applicability.declared(),
            segment@,
            expected_sequence_number,
            expected_manifest_id@,
            key_views(session_keys@),
            messages@,
            validation_time,
            exclusion_paths@,
            url@,
            old(results)@,
        ),
{
    if applicability.method() != StreamMethod::VerifiableSegmentInfo {
        return None;
    }
    assert(key_views(session_keys@).len() == session_keys@.len());
    if session_keys.len() == 0 {
        report(results, LIVEVIDEO_SEGMENT_INVALID, url, "segment has no valid session keys");
        return None;
    }
    match walk_messages(
        segment,
        expected_sequence_number,
        messages,
        session_keys,
        validation_time,
        expected_manifest_id,
        exclusion_paths,
    ) {
        WalkOutcome::Defect(d) => {
            report(results, LIVEVIDEO_SEGMENT_INVALID, url, d.explanation());
            None
        },
        WalkOutcome::Verified(info) => Some(info),
        WalkOutcome::Unverified(Some(info)) => {
            let signed = decimal_string(info.sequence_number);
            let expected = decimal_string(
                match expected_sequence_number {
                    Some(e) => e,
                    None => 0,
                },
            );
            let why = join4(
                "unexpected sequence discontinuity: signed sequenceNumber ",
                signed.as_str(),
                " does not follow ",
                expected.as_str(),
            );
            report(results, LIVEVIDEO_SEGMENT_INVALID, url, why.as_str());
            Some(info)
        },
        WalkOutcome::Unverified(None) => {
            report(
                results,
                LIVEVIDEO_SEGMENT_INVALID,
                url,
                "no emsg box carried valid signed segment information",
            );
            None
        },
    }
}

// ---------------------------------------------------------------------------
// Laws
// ---------------------------------------------------------------------------

/// No two keys share an identifier.
pub open spec fn distinct_ids(keys: Seq<SessionKey>) -> bool {
    forall|i: int, j: int|
        0 <= i < j < keys.len() ==> (#[trigger] keys[i]).key_id != (#[trigger] keys[j]).key_id
}

proof fn lemma_keys_distinct(
    entries: Seq<Value>,
    facts: Seq<SessionKeyFacts>,
    leaf: Seq<u8>,
    k: int,
)
    requires
        0 <= k,
    ensures
        keys_among(entries, facts, leaf, k).len() <= k,
        distinct_ids(keys_among(entries, facts, leaf, k)),
    decreases k,
{
    if k > 0 {
        lemma_keys_distinct(entries, facts, leaf, k - 1);
        let before = keys_among(entries, facts, leaf, k - 1);
        let after = keys_among(entries, facts, leaf, k);
        assert forall|i: int, j: int| 0 <= i < j < after.len() implies (#[trigger] after[i]).key_id
            != (#[trigger] after[j]).key_id by {
            if j == before.len() {
                assert(before[i].key_id == after[i].key_id);
            }
        }
    }
}

/// The delivered keys are few, and each identifier stands for one of them.
pub proof fn delivered_keys_are_distinct_and_bounded(
    method: StreamMethod,
    assertion: Option<Value>,
    chain: Seq<Vec<u8>>,
    facts: Seq<SessionKeyFacts>,
    url: Seq<char>,
    r: Results,
)
    ensures
        ({
            let keys = session_keys_outcome(method, assertion, chain, facts, url, r).0;
            keys.len() <= MAX_SESSION_KEYS && distinct_ids(keys)
        }),
{
    if chain.len() > 0 && key_entries(assertion) is Ok {
        let entries = key_entries(assertion)->Ok_0;
        lemma_keys_distinct(entries, facts, chain[0]@, entries.len() as int);
    }
}

/// A key may authenticate segment information: it carries the information's
/// identifier and reaches down to its sequence number.
pub open spec fn covers(key: SessionKey, info: SegmentInfo) -> bool {
    key.key_id == info.key_id && key.minimum <= info.sequence
}

proof fn lemma_authentic(
    m: MessageFacts,
    keys: Seq<SessionKey>,
    j: int,
    validation_time: i128,
    manifest_id: Seq<char>,
    paths: Seq<String>,
)
    requires
        0 <= j,
    ensures
        authenticated_from(m, keys, j, validation_time, manifest_id, paths) matches Some(info)
            ==> info.manifest == manifest_id && exists|k: int|
            j <= k < keys.len() && covers(#[trigger] keys[k], info),
    decreases keys.len() - j,
{
    if j < keys.len() {
        let here = info_under(
            keys[j],
            check_at(m, j),
            m.signed_at,
            validation_time,
            manifest_id,
            paths,
        );
        match here {
            Some(info) => {
                assert(covers(keys[j], info));
            },
            None => {
                lemma_authentic(m, keys, j + 1, validation_time, manifest_id, paths);
            },
        }
    }
}

/// What a message is authenticated as names the expected manifest and one of
/// the session keys, at a sequence number which that key reaches down to.
pub proof fn authentic_information_is_bound(
    m: MessageFacts,
    keys: Seq<SessionKey>,
    validation_time: i128,
    manifest_id: Seq<char>,
    paths: Seq<String>,
)
    ensures
        authenticated_from(m, keys, 0, validation_time, manifest_id, paths) matches Some(info)
            ==> info.manifest == manifest_id && exists|k: int|
            0 <= k < keys.len() && covers(#[trigger] keys[k], info),
{
    lemma_authentic(m, keys, 0, validation_time, manifest_id, paths);
}

/// A segment that is accepted behind a predecessor belongs to its stream,
/// carries the next sequence number and names its manifest; and nothing was
/// reported against it.
pub proof fn accepted_segment_follows_its_predecessor(
    method: StreamMethod,
    assertion: Option<Value>,
    manifest_id: Seq<char>,
    previous: LiveState,
    url: Seq<char>,
    r: Results,
)
    requires
        live_video_outcome(method, assertion, manifest_id, Some(previous), url, r).0 is Some,
    ensures
        ({
            let (state, after) = live_video_outcome(
                method,
                assertion,
                manifest_id,
                Some(previous),
                url,
                r,
            );
            &&& state->0.stream == previous.stream
            &&& state->0.sequence as int == previous.sequence + 1
            &&& state->0.manifest == manifest_id
            &&& after == r
        }),
{
}

/// A segment that is not accepted always has a reason filed against it.
pub proof fn refused_segment_has_a_reason(
    method: StreamMethod,
    assertion: Option<Value>,
    manifest_id: Seq<char>,
    previous: Option<LiveState>,
    url: Seq<char>,
    r: Results,
)
    requires
        method == StreamMethod::PerSegment,
        live_video_outcome(method, assertion, manifest_id, previous, url, r).0 is None,
    ensures
        live_video_outcome(method, assertion, manifest_id, previous, url, r).1.failure.len()
            > r.failure.len(),
{
}

/// A segment without authentic segment information always has a reason filed
/// against it.
pub proof fn unauthenticated_segment_has_a_reason(
    method: StreamMethod,
    data: Seq<u8>,
    expected: Option<u64>,
    manifest_id: Seq<char>,
    keys: Seq<SessionKey>,
    messages: Seq<MessageFacts>,
    validation_time: i128,
    paths: Seq<String>,
    url: Seq<char>,
    r: Results,
)
    requires
        method == StreamMethod::VerifiableSegmentInfo,
        emsg_outcome(
            method,
            data,
            expected,
            manifest_id,
            keys,
            messages,
            validation_time,
            paths,
            url,
            r,
        ).0 is None,
    ensures
        emsg_outcome(
            method,
            data,
            expected,
            manifest_id,
            keys,
            messages,
            validation_time,
            paths,
            url,
            r,
        ).1.failure.len() > r.failure.len(),
{
}

proof fn lemma_key_from(map: Seq<(Value, Value)>, name: Seq<char>, i: int)
    requires
        0 <= i,
    ensures
        match key_from(map, name, i) {
            Some(k) => i <= k < map.len() && value::is_text(map[k].0, name) && forall|j: int|
                i <= j < k ==> !value::is_text((#[trigger] map[j]).0, name),
            None => forall|j: int| i <= j < map.len() ==> !value::is_text(
                (#[trigger] map[j]).0,
                name,
            ),
        },
    decreases map.len() - i,
{
    if i < map.len() && !value::is_text(map[i].0, name) {
        lemma_key_from(map, name, i + 1);
    }
}

/// A field is read exactly where one entry of the map has its name, and then it
/// is the value of that entry: a field that is given twice is not read at all.
pub proof fn repeated_fields_are_not_read(map: Seq<(Value, Value)>, name: Seq<char>, v: Value)
    ensures
        (sole_field(map, name) == Some(v)) == (exists|i: int|
            0 <= i < map.len() && value::is_text((#[trigger] map[i]).0, name) && map[i].1 == v
                && forall|j: int|
                0 <= j < map.len() && j != i ==> !value::is_text((#[trigger] map[j]).0, name)),
{
    lemma_key_from(map, name, 0);
    if let Some(k) = key_from(map, name, 0) {
        lemma_key_from(map, name, k + 1);
        if sole_field(map, name) == Some(v) {
            assert(value::is_text(map[k].0, name));
        }
        if exists|i: int|
            0 <= i < map.len() && value::is_text((#[trigger] map[i]).0, name) && map[i].1 == v
                && forall|j: int|
                0 <= j < map.len() && j != i ==> !value::is_text((#[trigger] map[j]).0, name) {
            let i = choose|i: int|
                0 <= i < map.len() && value::is_text((#[trigger] map[i]).0, name) && map[i].1 == v
                    && forall|j: int|
                    0 <= j < map.len() && j != i ==> !value::is_text((#[trigger] map[j]).0, name);
            assert(i == k) by {
                if i != k {
                    assert(!value::is_text(map[k].0, name));
                }
            }
            if let Some(q) = key_from(map, name, k + 1) {
                assert(!value::is_text(map[q].0, name));
            }
        }
    }
}

/// The message is signed under `key`: its signature verified under the key, which
/// it names; it was signed, or is being verified, while the key is valid; its
/// payload names the manifest, a sequence number that the key reaches down to,
/// and the digest of the segment itself, with no other exclusions than the
/// allowed ones.
pub open spec fn signed_under(
    key: SessionKey,
    check: Option<KeyCheck>,
    signed_at: SigningTime,
    validation_time: i128,
    manifest_id: Seq<char>,
    paths: Seq<String>,
    sequence: u64,
) -> bool {
    let c = check->0;
    let map = c.payload->0->Dict_0@;
    let declared = sole_field(map, "bmffHash"@)->0->Dict_0@;
    &&& check is Some
    &&& c.key_id is Some
    &&& c.key_id->0@ == key.key_id
    &&& signed_at is At ==> key.created_at <= signed_at->At_0 <= key.expires_at
    &&& signed_at is Unstated ==> key.created_at <= validation_time <= key.expires_at
    &&& !(signed_at is Unusable)
    &&& c.payload is Some
    &&& c.payload->0 is Dict
    &&& sole_field(map, "sequenceNumber"@) == Some(Value::Integer(sequence as i128))
    &&& sequence >= key.minimum
    &&& value::text_of(sole_field(map, "manifestId"@)) == Some(manifest_id)
    &&& manifest_id.len() > 0
    &&& sole_field(map, "bmffHash"@) is Some
    &&& sole_field(map, "bmffHash"@)->0 is Dict
    &&& c.digest is Some
    &&& c.digest->0@.len() > 0
    &&& value::bytes_of(sole_field(declared, "hash"@)) == Some(c.digest->0@)
    &&& value::text_of(sole_field(declared, "alg"@)) is Some
    &&& value::text_of(sole_field(declared, "alg"@))->0.len() > 0
    &&& value::items_of(sole_field(declared, "exclusions"@)) is Some ==> ({
        let items = value::items_of(sole_field(declared, "exclusions"@))->0;
        &&& items.len() <= 128
        &&& forall|i: int|
            0 <= i < items.len() ==> (#[trigger] items[i]).text_field("xpath"@) is Some && (
            items[i].text_field("xpath"@)->0 == "/emsg"@ || exists|j: int|
                0 <= j < paths.len() && (#[trigger] paths[j])@ == items[i].text_field("xpath"@)->0)
    })
}

proof fn lemma_signed_under(
    key: SessionKey,
    check: Option<KeyCheck>,
    signed_at: SigningTime,
    validation_time: i128,
    manifest_id: Seq<char>,
    paths: Seq<String>,
)
    ensures
        info_under(key, check, signed_at, validation_time, manifest_id, paths) matches Some(info)
            ==> info.key_id == key.key_id && info.manifest == manifest_id && signed_under(
            key,
            check,
            signed_at,
            validation_time,
            manifest_id,
            paths,
            info.sequence,
        ),
        info_under(key, check, signed_at, validation_time, manifest_id, paths) is None ==> forall|
            sequence: u64,
        |
            !#[trigger] signed_under(
                key,
                check,
                signed_at,
                validation_time,
                manifest_id,
                paths,
                sequence,
            ),
{
    if info_under(key, check, signed_at, validation_time, manifest_id, paths) is None {
        assert forall|sequence: u64|
            !#[trigger] signed_under(
                key,
                check,
                signed_at,
                validation_time,
                manifest_id,
                paths,
                sequence,
            ) by {
            if signed_under(
                key,
                check,
                signed_at,
                validation_time,
                manifest_id,
                paths,
                sequence,
            ) {
                let map = check->0.payload->0->Dict_0@;
                let declared = sole_field(map, "bmffHash"@)->0;
                assert(some_u64(sole_field(map, "sequenceNumber"@)) == Some(sequence));
                assert(some_text(sole_field(map, "manifestId"@)) == Some(manifest_id));
                assert(hash_holds(declared, Some(check->0.digest->0@), paths)) by {
                    let inner = declared->Dict_0@;
                    if let Some(items) = value::items_of(sole_field(inner, "exclusions"@)) {
                        assert forall|i: int| 0 <= i < items.len() implies exclusion_ok(
                            #[trigger] items[i],
                            paths,
                        ) by {}
                    }
                }
            }
        }
    } else {
        let map = check->0.payload->0->Dict_0@;
        let declared = sole_field(map, "bmffHash"@)->0;
        let inner = declared->Dict_0@;
        if let Some(items) = value::items_of(sole_field(inner, "exclusions"@)) {
            assert forall|i: int| 0 <= i < items.len() implies (#[trigger] items[i]).text_field(
                "xpath"@,
            ) is Some && (items[i].text_field("xpath"@)->0 == "/emsg"@ || exists|j: int|
                0 <= j < paths.len() && (#[trigger] paths[j])@ == items[i].text_field(
                    "xpath"@,
                )->0) by {
                assert(exclusion_ok(items[i], paths));
            }
        }
    }
}

proof fn lemma_authenticated(
    m: MessageFacts,
    keys: Seq<SessionKey>,
    j: int,
    validation_time: i128,
    manifest_id: Seq<char>,
    paths: Seq<String>,
)
    requires
        0 <= j,
    ensures
        match authenticated_from(m, keys, j, validation_time, manifest_id, paths) {
            Some(info) => info.manifest == manifest_id && exists|k: int|
                j <= k < keys.len() && (#[trigger] keys[k]).key_id == info.key_id && signed_under(
                    keys[k],
                    check_at(m, k),
                    m.signed_at,
                    validation_time,
                    manifest_id,
                    paths,
                    info.sequence,
                ),
            None => forall|k: int, sequence: u64|
                j <= k < keys.len() ==> !#[trigger] signed_under(
                    keys[k],
                    check_at(m, k),
                    m.signed_at,
                    validation_time,
                    manifest_id,
                    paths,
                    sequence,
                ),
        },
    decreases keys.len() - j,
{
    if j < keys.len() {
        lemma_signed_under(
            keys[j],
            check_at(m, j),
            m.signed_at,
            validation_time,
            manifest_id,
            paths,
        );
        lemma_authenticated(m, keys, j + 1, validation_time, manifest_id, paths);
        let here = info_under(
            keys[j],
            check_at(m, j),
            m.signed_at,
            validation_time,
            manifest_id,
            paths,
        );
        if here is Some {
            assert(keys[j].key_id == here->0.key_id);
        } else if let Some(info) = authenticated_from(
            m,
            keys,
            j + 1,
            validation_time,
            manifest_id,
            paths,
        ) {
            let k = choose|k: int|
                j + 1 <= k < keys.len() && (#[trigger] keys[k]).key_id == info.key_id
                    && signed_under(
                    keys[k],
                    check_at(m, k),
                    m.signed_at,
                    validation_time,
                    manifest_id,
                    paths,
                    info.sequence,
                );
            assert(keys[k].key_id == info.key_id);
        }
    }
}

/// A message is authenticated exactly where it is signed under one of the session
/// keys, and as what it then says: the sequence number, the manifest and the key.
pub proof fn messages_are_authentic_exactly_where_signed(
    m: MessageFacts,
    keys: Seq<SessionKey>,
    validation_time: i128,
    manifest_id: Seq<char>,
    paths: Seq<String>,
)
    ensures
        match authenticated_from(m, keys, 0, validation_time, manifest_id, paths) {
            Some(info) => info.manifest == manifest_id && exists|k: int|
                0 <= k < keys.len() && (#[trigger] keys[k]).key_id == info.key_id && signed_under(
                    keys[k],
                    check_at(m, k),
                    m.signed_at,
                    validation_time,
                    manifest_id,
                    paths,
                    info.sequence,
                ),
            None => forall|k: int, sequence: u64|
                0 <= k < keys.len() ==> !#[trigger] signed_under(
                    keys[k],
                    check_at(m, k),
                    m.signed_at,
                    validation_time,
                    manifest_id,
                    paths,
                    sequence,
                ),
        },
{
    lemma_authenticated(m, keys, 0, validation_time, manifest_id, paths);
}

proof fn lemma_emsg_verified(
    data: Seq<u8>,
    at: int,
    walked: nat,
    n: nat,
    unexpected: Option<SegmentInfo>,
    expected: Option<u64>,
    messages: Seq<MessageFacts>,
    keys: Seq<SessionKey>,
    validation_time: i128,
    manifest_id: Seq<char>,
    paths: Seq<String>,
)
    ensures
        emsg_from(
            data,
            at,
            walked,
            n,
            unexpected,
            expected,
            messages,
            keys,
            validation_time,
            manifest_id,
            paths,
        ) matches EmsgWalk::Verified(info) ==> (expected matches Some(e) ==> info.sequence == e)
            && exists|i: int|
            n <= i < messages.len() && i < MAX_EMSG_BOXES && authenticated_from(
                #[trigger] messages[i],
                keys,
                0,
                validation_time,
                manifest_id,
                paths,
            ) == Some(info),
    decreases data.len() - at,
{
    if 0 <= at < data.len() {
        if let Ok((header, size)) = step_at(data, at, walked) {
            if size > 0 {
                if !is_candidate(data, at, header, size) {
                    lemma_emsg_verified(
                        data,
                        at + size,
                        walked + 1,
                        n,
                        unexpected,
                        expected,
                        messages,
                        keys,
                        validation_time,
                        manifest_id,
                        paths,
                    );
                } else if n < MAX_EMSG_BOXES {
                    let info = candidate_info(
                        messages,
                        n as int,
                        keys,
                        validation_time,
                        manifest_id,
                        paths,
                    );
                    if info is Some && (expected is None || info->0.sequence == expected->0) {
                        assert(authenticated_from(
                            messages[n as int],
                            keys,
                            0,
                            validation_time,
                            manifest_id,
                            paths,
                        ) == info);
                    } else {
                        let next = if unexpected is Some {
                            unexpected
                        } else {
                            info
                        };
                        lemma_emsg_verified(
                            data,
                            at + size,
                            walked + 1,
                            n + 1,
                            next,
                            expected,
                            messages,
                            keys,
                            validation_time,
                            manifest_id,
                            paths,
                        );
                        let rest = emsg_from(
                            data,
                            at + size,
                            walked + 1,
                            n + 1,
                            next,
                            expected,
                            messages,
                            keys,
                            validation_time,
                            manifest_id,
                            paths,
                        );
                        if let EmsgWalk::Verified(found) = rest {
                            let i = choose|i: int|
                                n + 1 <= i < messages.len() && i < MAX_EMSG_BOXES
                                    && authenticated_from(
                                    #[trigger] messages[i],
                                    keys,
                                    0,
                                    validation_time,
                                    manifest_id,
                                    paths,
                                ) == Some(found);
                            assert(authenticated_from(
                                messages[i],
                                keys,
                                0,
                                validation_time,
                                manifest_id,
                                paths,
                            ) == Some(found));
                        }
                    }
                }
            }
        }
    }
}

/// A segment that is accepted without a failure carries a message that is
/// authentic under the session keys, and where a sequence number was expected it
/// has that number.
pub proof fn accepted_segments_carry_an_authentic_message(
    data: Seq<u8>,
    expected: Option<u64>,
    manifest_id: Seq<char>,
    keys: Seq<SessionKey>,
    messages: Seq<MessageFacts>,
    validation_time: i128,
    paths: Seq<String>,
    url: Seq<char>,
    r: Results,
)
    ensures
        ({
            let (info, after) = emsg_outcome(
                StreamMethod::VerifiableSegmentInfo,
                data,
                expected,
                manifest_id,
                keys,
                messages,
                validation_time,
                paths,
                url,
                r,
            );
            after.failure.len() == r.failure.len() ==> info is Some && after == r && (
            expected matches Some(e) ==> info->0.sequence == e) && exists|i: int|
                0 <= i < messages.len() && authenticated_from(
                    #[trigger] messages[i],
                    keys,
                    0,
                    validation_time,
                    manifest_id,
                    paths,
                ) == info
        }),
{
    lemma_emsg_verified(
        data,
        0,
        0,
        0,
        None,
        expected,
        messages,
        keys,
        validation_time,
        manifest_id,
        paths,
    );
    let (info, after) = emsg_outcome(
        StreamMethod::VerifiableSegmentInfo,
        data,
        expected,
        manifest_id,
        keys,
        messages,
        validation_time,
        paths,
        url,
        r,
    );
    if after.failure.len() == r.failure.len() {
        let i = choose|i: int|
            0 <= i < messages.len() && i < MAX_EMSG_BOXES && authenticated_from(
                #[trigger] messages[i],
                keys,
                0,
                validation_time,
                manifest_id,
                paths,
            ) == Some(info->0);
        assert(authenticated_from(
            messages[i],
            keys,
            0,
            validation_time,
            manifest_id,
            paths,
        ) == info);
    }
}

/// An entry delivers a session key exactly where it has its five fields and no
/// other, each once: a key, a first sequence number, an instant of creation, a
/// validity period above zero and a signer binding; the binding was verified over
/// the signer's own leaf certificate and names no other key. The key is then valid
/// from its creation for its period.
pub proof fn session_keys_are_bound_to_the_signer(
    entries: Vec<(Value, Value)>,
    f: SessionKeyFacts,
    leaf: Seq<u8>,
)
    ensures
        session_key(Value::Dict(entries), f, leaf) matches Some(key) ==> {
            let map = entries@;
            &&& map.len() == 5
            &&& sole_field(map, "key"@) is Some
            &&& sole_field(map, "signerBinding"@) is Some
            &&& sole_field(map, "minSequenceNumber"@) == Some(Value::Integer(key.minimum as i128))
            &&& some_instant(sole_field(map, "createdAt"@)) is Some
            &&& (some_instant(sole_field(map, "createdAt"@))->0).0 == key.created_at
            &&& sole_field(map, "validityPeriod"@) is Some
            &&& sole_field(map, "validityPeriod"@)->0 is Integer
            &&& sole_field(map, "validityPeriod"@)->0->Integer_0 > 0
            &&& key.expires_at == key.created_at + sole_field(
                map,
                "validityPeriod"@,
            )->0->Integer_0 * 1_000_000_000
            &&& f.chain_valid
            &&& f.cose_key is Some && key.cose_key == f.cose_key->0@
            &&& f.key_id is Some && key.key_id == f.key_id->0@
            &&& f.binding is Some && f.binding->0.payload@ == leaf
            &&& f.binding->0.key_id is None || f.binding->0.key_id->0@ == key.key_id
        },
        !f.chain_valid || f.binding is None || f.binding->0.payload@ != leaf ==> session_key(
            Value::Dict(entries),
            f,
            leaf,
        ) is None,
{
}

proof fn lemma_all_keys(
    entries: Seq<Value>,
    facts: Seq<SessionKeyFacts>,
    leaf: Seq<u8>,
    k: int,
)
    requires
        0 <= k <= entries.len(),
    ensures
        keys_among(entries, facts, leaf, k).len() <= k,
        keys_among(entries, facts, leaf, k).len() == k ==> forall|i: int|
            0 <= i < k ==> #[trigger] key_at(entries, facts, leaf, i) == Some(
                keys_among(entries, facts, leaf, k)[i],
            ),
        (forall|i: int| 0 <= i < k ==> #[trigger] key_at(entries, facts, leaf, i) is Some) && (
        forall|i: int, j: int|
            0 <= i < j < k ==> (#[trigger] key_at(entries, facts, leaf, i))->0.key_id != (
            #[trigger] key_at(entries, facts, leaf, j))->0.key_id) ==> keys_among(
            entries,
            facts,
            leaf,
            k,
        ).len() == k,
    decreases k,
{
    if k > 0 {
        lemma_all_keys(entries, facts, leaf, k - 1);
        let before = keys_among(entries, facts, leaf, k - 1);
        let after = keys_among(entries, facts, leaf, k);
        let last = key_at(entries, facts, leaf, k - 1);
        if after.len() == k {
            assert forall|i: int| 0 <= i < k implies #[trigger] key_at(entries, facts, leaf, i)
                == Some(after[i]) by {
                if i < k - 1 {
                    assert(after[i] == before[i]);
                }
            }
        }
        if (forall|i: int| 0 <= i < k ==> #[trigger] key_at(entries, facts, leaf, i) is Some) && (
        forall|i: int, j: int|
            0 <= i < j < k ==> (#[trigger] key_at(entries, facts, leaf, i))->0.key_id != (
            #[trigger] key_at(entries, facts, leaf, j))->0.key_id) {
            assert(last is Some);
            if known_id(before, last->0.key_id) {
                let i = choose|i: int|
                    0 <= i < before.len() && (#[trigger] before[i]).key_id == last->0.key_id;
                assert(key_at(entries, facts, leaf, i) == Some(before[i]));
                assert(key_at(entries, facts, leaf, i)->0.key_id != last->0.key_id);
            }
        }
    }
}

/// A delivery of session keys adds no failure exactly where the signer's chain is
/// there, the assertion is a list of keys within its bounds, every entry delivers
/// a key, and no two share an identifier; the keys are then those of the entries,
/// in order.
pub proof fn deliveries_pass_exactly_where_every_key_is_valid(
    assertion: Option<Value>,
    chain: Seq<Vec<u8>>,
    facts: Seq<SessionKeyFacts>,
    url: Seq<char>,
    r: Results,
)
    ensures
        ({
            let (keys, after) = session_keys_outcome(
                StreamMethod::VerifiableSegmentInfo,
                assertion,
                chain,
                facts,
                url,
                r,
            );
            let entries = key_entries(assertion)->Ok_0;
            let leaf = chain[0]@;
            let sound = chain.len() > 0 && key_entries(assertion) is Ok && (forall|i: int|
                0 <= i < entries.len() ==> #[trigger] key_at(entries, facts, leaf, i) is Some) && (
            forall|i: int, j: int|
                0 <= i < j < entries.len() ==> (#[trigger] key_at(
                    entries,
                    facts,
                    leaf,
                    i,
                ))->0.key_id != (#[trigger] key_at(entries, facts, leaf, j))->0.key_id);
            &&& (after.failure.len() == r.failure.len()) == sound
            &&& sound ==> after == r && keys.len() == entries.len() && forall|i: int|
                0 <= i < keys.len() ==> key_at(entries, facts, leaf, i) == Some(
                    #[trigger] keys[i],
                )
        }),
{
    if chain.len() > 0 && key_entries(assertion) is Ok {
        let entries = key_entries(assertion)->Ok_0;
        let leaf = chain[0]@;
        let n = entries.len() as int;
        lemma_all_keys(entries, facts, leaf, n);
        lemma_keys_distinct(entries, facts, leaf, n);
        let keys = keys_among(entries, facts, leaf, n);
        if keys.len() == n {
            assert forall|i: int, j: int| 0 <= i < j < n implies (#[trigger] key_at(
                entries,
                facts,
                leaf,
                i,
            ))->0.key_id != (#[trigger] key_at(entries, facts, leaf, j))->0.key_id by {
                assert(keys[i].key_id != keys[j].key_id);
            }
            assert forall|i: int| 0 <= i < keys.len() implies key_at(entries, facts, leaf, i)
                == Some(#[trigger] keys[i]) by {
                assert(key_at(entries, facts, leaf, i) == Some(keys[i]));
            }
        }
    }
}

/// A segment continues the stream, with nothing reported against it, exactly
/// where its assertion gives a sequence number, a stream and the manifest-ID
/// continuity method with a previous manifest, and, behind a predecessor, the
/// number is the next one, the stream the same and the previous manifest the
/// predecessor's.
pub proof fn segments_continue_exactly_where_they_name_their_predecessor(
    entries: Vec<(Value, Value)>,
    manifest_id: Seq<char>,
    previous: Option<LiveState>,
    url: Seq<char>,
    r: Results,
)
    ensures
        ({
            let (state, after) = live_video_outcome(
                StreamMethod::PerSegment,
                Some(Value::Dict(entries)),
                manifest_id,
                previous,
                url,
                r,
            );
            let sequence = some_u64(sole_field(entries@, "sequenceNumber"@));
            let stream = some_text(sole_field(entries@, "streamId"@));
            let named = some_text(sole_field(entries@, "previousManifestId"@));
            let sound = sequence is Some && stream is Some && some_text(
                sole_field(entries@, "continuityMethod"@),
            ) == Some("c2pa.manifestId"@) && named is Some && (previous is Some ==> (
            sequence->0 == previous->0.sequence + 1 && stream->0 == previous->0.stream && named->0
                == previous->0.manifest));
            &&& state is Some == sound
            &&& (after.failure.len() == r.failure.len()) == sound
            &&& sound ==> state == Some(
                LiveState { sequence: sequence->0, stream: stream->0, manifest: manifest_id },
            ) && after == r
        }),
{
}

/// The boxes begin at `starts`: the first at `at`, each behind the one before it,
/// and the last ends with the data.
pub open spec fn boxes_begin_at(data: Seq<u8>, at: int, starts: Seq<int>) -> bool {
    &&& starts.len() > 0
    &&& starts[0] == at
    &&& starts.last() == data.len()
    &&& forall|i: int|
        0 <= i < starts.len() - 1 ==> frame_at(data, #[trigger] starts[i]) is Some && starts[i + 1]
            == starts[i] + (frame_at(data, starts[i])->0).1
}

proof fn lemma_no_media(data: Seq<u8>, at: int, walked: nat)
    requires
        0 <= at <= data.len(),
        mdat_from(data, at, walked) == Ok::<bool, WalkDefect>(false),
    ensures
        exists|starts: Seq<int>| #[trigger]
            boxes_begin_at(data, at, starts) && forall|i: int|
                0 <= i < starts.len() - 1 ==> kind_at(data, #[trigger] starts[i]) != mdat(),
    decreases data.len() - at,
{
    if at == data.len() {
        let starts = seq![at];
        assert(boxes_begin_at(data, at, starts));
    } else {
        let (header, size) = step_at(data, at, walked)->Ok_0;
        lemma_no_media(data, at + size, walked + 1);
        let rest = choose|starts: Seq<int>| #[trigger]
            boxes_begin_at(data, at + size, starts) && forall|i: int|
                0 <= i < starts.len() - 1 ==> kind_at(data, #[trigger] starts[i]) != mdat();
        let starts = seq![at] + rest;
        assert(starts.last() == rest.last());
        assert forall|i: int| 0 <= i < starts.len() - 1 implies frame_at(data, #[trigger] starts[i])
            is Some && starts[i + 1] == starts[i] + (frame_at(data, starts[i])->0).1 && kind_at(
            data,
            starts[i],
        ) != mdat() by {
            if i > 0 {
                assert(starts[i] == rest[i - 1]);
                assert(starts[i + 1] == rest[i]);
            } else {
                assert(starts[1] == rest[0]);
            }
        }
        assert(boxes_begin_at(data, at, starts));
    }
}

/// An init segment passes only where its boxes follow one another from its first
/// byte to its last and none of them holds media; an init segment in which the
/// walk meets media always fails.
pub proof fn accepted_init_segments_hold_no_media(data: Seq<u8>, url: Seq<char>, r: Results)
    ensures
        (init_results(data, url, r).failure.len() == r.failure.len()) == (mdat_from(data, 0, 0)
            == Ok::<bool, WalkDefect>(false)),
        init_results(data, url, r).failure.len() == r.failure.len() ==> exists|starts: Seq<int>|
            #[trigger]
            boxes_begin_at(data, 0, starts) && forall|i: int|
                0 <= i < starts.len() - 1 ==> kind_at(data, #[trigger] starts[i]) != mdat(),
        data.len() > 0 && frame_at(data, 0) is Some && kind_at(data, 0) == mdat() ==> init_results(
            data,
            url,
            r,
        ).failed(LIVEVIDEO_INIT_INVALID@),
{
    if mdat_from(data, 0, 0) == Ok::<bool, WalkDefect>(false) {
        lemma_no_media(data, 0, 0);
    }
    let after = init_results(data, url, r);
    if after.failure.len() > r.failure.len() {
        assert(after.failure[r.failure.len() as int].code == LIVEVIDEO_INIT_INVALID@);
    }
}

} // verus!
