//! What an offline verification could not settle without the network.
//!
//! Wherever a check was skipped or a resource was inaccessible, the request that
//! would have answered the question is recorded. A need is a description: nothing
//! here opens a connection.
use vstd::prelude::*;
use vstd::string::StringExecFns;
use crate::json;
use crate::json::{object2, object3, object4, Doc, Json};
use crate::text;
use crate::text::{
    bytes_eq, chars_of, contains_char, join3, join4, split_head, split_on, str_eq, strip_prefix,
};

verus! {

/// A verification records at most this many distinct needs.
pub const MAX_NETWORK_NEEDS: usize = 64;

/// Which certificate an OCSP query would be about.
#[derive(Debug, Clone, PartialEq, Eq)]
pub enum OcspPurpose {
    /// The claim signer's certificate chain.
    ClaimSigner,
    /// An identity assertion's certificate chain.
    CawgIdentity { assertion_label: String },
}

/// A purpose as the contracts see it.
pub enum Purpose {
    ClaimSigner,
    CawgIdentity { assertion_label: Seq<char> },
}

impl View for OcspPurpose {
    type V = Purpose;

    open spec fn view(&self) -> Purpose {
        match self {
            OcspPurpose::ClaimSigner => Purpose::ClaimSigner,
            OcspPurpose::CawgIdentity { assertion_label } => Purpose::CawgIdentity {
                assertion_label: assertion_label@,
            },
        }
    }
}

impl Purpose {
    pub open spec fn text(self) -> Seq<char> {
        match self {
            Purpose::ClaimSigner => "claim_signer"@,
            Purpose::CawgIdentity { .. } => "cawg_identity"@,
        }
    }
}

impl OcspPurpose {
    /// The stable `purpose` string used in the report.
    pub fn as_str(&self) -> (r: &'static str)
        ensures
            r@ == self@.text(),
    {
        match self {
            OcspPurpose::ClaimSigner => "claim_signer",
            OcspPurpose::CawgIdentity { .. } => "cawg_identity",
        }
    }
}

/// One network request that would settle a check this verification skipped.
#[derive(Debug, Clone, PartialEq, Eq)]
pub enum NetworkNeed {
    /// The asset names a manifest store stored elsewhere.
    RemoteManifest { uri: String },
    /// A certificate's issuer publishes an OCSP responder, and no embedded
    /// response settled that certificate's revocation status.
    Ocsp {
        purpose: OcspPurpose,
        responder_url: String,
        /// The DER request that asks about this certificate.
        request_der: Vec<u8>,
        /// Lowercase hex SHA-256 over the subject certificate.
        certificate_sha256_hex: String,
    },
    /// An identity issuer is a `did:web` DID, which resolves over the network.
    DidDocument { did: String, url: String },
    /// An assertion stores its content elsewhere.
    ExternalData {
        uri: String,
        /// The label of the assertion the external content carries.
        assertion_label: String,
    },
}

/// A need as the contracts see it.
pub enum Need {
    RemoteManifest { uri: Seq<char> },
    Ocsp {
        purpose: Purpose,
        responder_url: Seq<char>,
        request_der: Seq<u8>,
        certificate_sha256_hex: Seq<char>,
    },
    DidDocument { did: Seq<char>, url: Seq<char> },
    ExternalData { uri: Seq<char>, assertion_label: Seq<char> },
}

impl View for NetworkNeed {
    type V = Need;

    open spec fn view(&self) -> Need {
        match self {
            NetworkNeed::RemoteManifest { uri } => Need::RemoteManifest { uri: uri@ },
            NetworkNeed::Ocsp { purpose, responder_url, request_der, certificate_sha256_hex }
                => Need::Ocsp {
                purpose: purpose@,
                responder_url: responder_url@,
                request_der: request_der@,
                certificate_sha256_hex: certificate_sha256_hex@,
            },
            NetworkNeed::DidDocument { did, url } => Need::DidDocument { did: did@, url: url@ },
            NetworkNeed::ExternalData { uri, assertion_label } => Need::ExternalData {
                uri: uri@,
                assertion_label: assertion_label@,
            },
        }
    }
}

impl Need {
    /// The report shape. The request bytes stay out: they are fetch plumbing.
    pub open spec fn doc(self) -> Doc {
        match self {
            Need::RemoteManifest { uri } => Doc::Object(
                seq![("kind"@, Doc::Text("remote_manifest"@)), ("uri"@, Doc::Text(uri))],
            ),
            Need::Ocsp { purpose, responder_url, request_der: _, certificate_sha256_hex } => {
                let members = seq![
                    ("kind"@, Doc::Text("ocsp"@)),
                    ("purpose"@, Doc::Text(purpose.text())),
                    ("responder_url"@, Doc::Text(responder_url)),
                    ("certificate_sha256"@, Doc::Text(certificate_sha256_hex)),
                ];
                match purpose {
                    Purpose::CawgIdentity { assertion_label } => Doc::Object(
                        json::with_member(
                            members,
                            "assertion_label"@,
                            Doc::Text(assertion_label),
                        ),
                    ),
                    Purpose::ClaimSigner => Doc::Object(members),
                }
            },
            Need::DidDocument { did, url } => Doc::Object(
                seq![
                    ("kind"@, Doc::Text("did_document"@)),
                    ("did"@, Doc::Text(did)),
                    ("url"@, Doc::Text(url)),
                ],
            ),
            Need::ExternalData { uri, assertion_label } => Doc::Object(
                seq![
                    ("kind"@, Doc::Text("external_data"@)),
                    ("uri"@, Doc::Text(uri)),
                    ("assertion_label"@, Doc::Text(assertion_label)),
                ],
            ),
        }
    }
}

fn same_purpose(a: &OcspPurpose, b: &OcspPurpose) -> (r: bool)
    ensures
        r == (a@ == b@),
{
    match (a, b) {
        (OcspPurpose::ClaimSigner, OcspPurpose::ClaimSigner) => true,
        (
            OcspPurpose::CawgIdentity { assertion_label: x },
            OcspPurpose::CawgIdentity { assertion_label: y },
        ) => str_eq(x.as_str(), y.as_str()),
        _ => false,
    }
}

impl NetworkNeed {
    /// Whether two needs are the same request.
    pub fn same(&self, other: &NetworkNeed) -> (r: bool)
        ensures
            r == (self@ == other@),
    {
        match (self, other) {
            (NetworkNeed::RemoteManifest { uri: a }, NetworkNeed::RemoteManifest { uri: b })
                => str_eq(a.as_str(), b.as_str()),
            (
                NetworkNeed::Ocsp {
                    purpose: p,
                    responder_url: u,
                    request_der: d,
                    certificate_sha256_hex: h,
                },
                NetworkNeed::Ocsp {
                    purpose: p2,
                    responder_url: u2,
                    request_der: d2,
                    certificate_sha256_hex: h2,
                },
            ) => same_purpose(p, p2) && str_eq(u.as_str(), u2.as_str()) && bytes_eq(
                d.as_slice(),
                d2.as_slice(),
            ) && str_eq(h.as_str(), h2.as_str()),
            (
                NetworkNeed::DidDocument { did: a, url: b },
                NetworkNeed::DidDocument { did: a2, url: b2 },
            ) => str_eq(a.as_str(), a2.as_str()) && str_eq(b.as_str(), b2.as_str()),
            (
                NetworkNeed::ExternalData { uri: a, assertion_label: b },
                NetworkNeed::ExternalData { uri: a2, assertion_label: b2 },
            ) => str_eq(a.as_str(), a2.as_str()) && str_eq(b.as_str(), b2.as_str()),
            _ => false,
        }
    }

    /// The report shape, reproduced under `network.needed`.
    pub fn to_json(&self) -> (r: Json)
        ensures
            json::doc(r) == self@.doc(),
    {
        match self {
            NetworkNeed::RemoteManifest { uri } => object2(
                ("kind", Json::text("remote_manifest")),
                ("uri", Json::text(uri.as_str())),
            ),
            NetworkNeed::Ocsp { purpose, responder_url, request_der: _, certificate_sha256_hex }
                => {
                let mut out = object4(
                    ("kind", Json::text("ocsp")),
                    ("purpose", Json::text(purpose.as_str())),
                    ("responder_url", Json::text(responder_url.as_str())),
                    ("certificate_sha256", Json::text(certificate_sha256_hex.as_str())),
                );
                if let OcspPurpose::CawgIdentity { assertion_label } = purpose {
                    out.insert("assertion_label", Json::text(assertion_label.as_str()));
                }
                out
            },
            NetworkNeed::DidDocument { did, url } => object3(
                ("kind", Json::text("did_document")),
                ("did", Json::text(did.as_str())),
                ("url", Json::text(url.as_str())),
            ),
            NetworkNeed::ExternalData { uri, assertion_label } => object3(
                ("kind", Json::text("external_data")),
                ("uri", Json::text(uri.as_str())),
                ("assertion_label", Json::text(assertion_label.as_str())),
            ),
        }
    }
}

/// Needs as the contracts see them.
pub open spec fn need_views(s: Seq<NetworkNeed>) -> Seq<Need> {
    s.map_values(|n: NetworkNeed| n@)
}

/// The needs with one more, unless it is there already or the list is full.
pub open spec fn with_need(needs: Seq<Need>, need: Need) -> Seq<Need> {
    if needs.len() >= MAX_NETWORK_NEEDS || needs.contains(need) {
        needs
    } else {
        needs.push(need)
    }
}

/// Append `need` unless an identical one is already recorded, so a caller is
/// never asked to approve the same request twice.
pub fn push_unique(needs: &mut Vec<NetworkNeed>, need: NetworkNeed)
    ensures
        need_views(final(needs)@) == with_need(need_views(old(needs)@), need@),
{
    let ghost before = need_views(needs@);
    if needs.len() >= MAX_NETWORK_NEEDS {
        return;
    }
    let mut i: usize = 0;
    while i < needs.len()
        invariant
            i <= needs.len(),
            before == need_views(needs@),
            needs@ == old(needs)@,
            forall|k: int| 0 <= k < i ==> before[k] != need@,
        decreases needs.len() - i,
    {
        if needs[i].same(&need) {
            assert(before[i as int] == need@);
            assert(before.contains(need@));
            return;
        }
        i += 1;
    }
    needs.push(need);
    assert(need_views(needs@) =~= before.push(need@));
}

// ---------------------------------------------------------------------------
// did:web
// ---------------------------------------------------------------------------

/// `s` from `i` on with every percent-encoded colon, in the given spelling,
/// written out.
pub open spec fn colons_from(s: Seq<char>, spelling: Seq<char>, i: int) -> Seq<char>
    decreases s.len() - i,
{
    if i < 0 || i >= s.len() {
        Seq::empty()
    } else if spelling.len() > 0 && text::occurs_at(s, spelling, i) {
        seq![':'] + colons_from(s, spelling, i + spelling.len())
    } else {
        seq![s[i]] + colons_from(s, spelling, i + 1)
    }
}

/// The host of a method-specific identifier, with its port written out.
pub open spec fn host_of(segment: Seq<char>) -> Seq<char> {
    colons_from(colons_from(segment, "%3A"@, 0), "%3a"@, 0)
}

/// The path segments at or behind `i`, each with a slash in front, empty ones
/// left out.
pub open spec fn path_from(segments: Seq<Seq<char>>, i: int) -> Seq<char>
    decreases segments.len() - i,
{
    if i < 0 || i >= segments.len() {
        Seq::empty()
    } else if segments[i].len() == 0 {
        path_from(segments, i + 1)
    } else {
        "/"@ + segments[i] + path_from(segments, i + 1)
    }
}

/// The document URL of a `did:web` identifier.
pub open spec fn did_url(did: Seq<char>) -> Option<Seq<char>> {
    match text::after_prefix(did, "did:web:"@) {
        None => None,
        Some(rest) => {
            let identifier = text::head_before(text::head_before(rest, '#'), '?');
            let segments = text::split(identifier, ':');
            let host = host_of(segments[0]);
            let path = path_from(segments, 1);
            if identifier.len() == 0 || host.len() == 0 || host.contains('/') {
                None
            } else if path.len() == 0 {
                Some("https://"@ + host + "/.well-known/did.json"@)
            } else {
                Some("https://"@ + host + path + "/did.json"@)
            }
        },
    }
}

fn write_colons(s: &str, spelling: &str) -> (r: String)
    requires
        spelling@.len() == 3,
    ensures
        r@ == colons_from(s@, spelling@, 0),
{
    let chars = chars_of(s);
    let p = chars_of(spelling);
    let mut out = String::new();
    let mut i: usize = 0;
    assert(out@ + colons_from(s@, spelling@, 0) =~= colons_from(s@, spelling@, 0));
    while i < chars.len()
        invariant
            i <= chars.len(),
            chars@ == s@,
            p@ == spelling@,
            p@.len() == 3,
            out@ + colons_from(s@, spelling@, i as int) == colons_from(s@, spelling@, 0),
        decreases chars.len() - i,
    {
        let hit = chars.len() - i >= 3 && chars[i] == p[0] && chars[i + 1] == p[1] && chars[i + 2]
            == p[2];
        proof {
            let sub = s@.subrange(i as int, i + 3);
            if hit {
                assert(sub =~= spelling@);
            } else if text::occurs_at(s@, spelling@, i as int) {
                assert(sub[0] == p@[0] && sub[1] == p@[1] && sub[2] == p@[2]);
            }
        }
        let ghost before = out@;
        if hit {
            out.push(':');
            assert(out@ + colons_from(s@, spelling@, i + 3) =~= before + (seq![':'] + colons_from(
                s@,
                spelling@,
                i + 3,
            )));
            i += 3;
        } else {
            out.push(chars[i]);
            assert(out@ + colons_from(s@, spelling@, i + 1) =~= before + (seq![s@[i as int]]
                + colons_from(s@, spelling@, i + 1)));
            i += 1;
        }
    }
    assert(out@ + Seq::<char>::empty() =~= out@);
    out
}

fn is_empty_text(s: &str) -> (r: bool)
    ensures
        r == (s@.len() == 0),
{
    proof {
        reveal_strlit("");
        assert(s@.len() == 0 ==> s@ =~= ""@);
    }
    str_eq(s, "")
}

fn path_text(segments: &Vec<&str>) -> (r: String)
    ensures
        r@ == path_from(text::views(segments@), 1),
{
    let ghost sv = text::views(segments@);
    let mut out = String::new();
    let mut i: usize = 1;
    assert(out@ + path_from(sv, 1) =~= path_from(sv, 1));
    while i < segments.len()
        invariant
            1 <= i,
            sv == text::views(segments@),
            out@ + path_from(sv, i as int) == path_from(sv, 1),
        decreases segments.len() - i,
    {
        assert(sv[i as int] == segments@[i as int]@);
        if !is_empty_text(segments[i]) {
            let ghost before = out@;
            out.append("/");
            out.append(segments[i]);
            assert(out@ + path_from(sv, i + 1) =~= before + ("/"@ + sv[i as int] + path_from(
                sv,
                i + 1,
            )));
        }
        i += 1;
    }
    assert(path_from(sv, i as int) =~= Seq::empty());
    assert(out@ + Seq::<char>::empty() =~= out@);
    out
}

/// The `did:web` URL an issuer DID resolves to.
///
/// The method-specific identifier is a percent-encoded host, optionally followed
/// by colon-separated path segments. A bare host resolves to the well-known
/// document, a path to the document below it.
pub fn did_web_url(did: &str) -> (r: Option<String>)
    ensures
        match r {
            Some(url) => did_url(did@) == Some(url@),
            None => did_url(did@) is None,
        },
{
    let rest = match strip_prefix(did, "did:web:") {
        Some(rest) => rest,
        None => {
            return None;
        },
    };
    let identifier = split_head(split_head(rest, '#'), '?');
    if is_empty_text(identifier) {
        return None;
    }
    let segments = split_on(identifier, ':');
    assert(text::views(segments@)[0] == segments@[0]@);
    proof {
        reveal_strlit("%3A");
        reveal_strlit("%3a");
    }
    let upper = write_colons(segments[0], "%3A");
    let host = write_colons(upper.as_str(), "%3a");
    if is_empty_text(host.as_str()) || contains_char(host.as_str(), '/') {
        return None;
    }
    let path = path_text(&segments);
    if is_empty_text(path.as_str()) {
        return Some(join3("https://", host.as_str(), "/.well-known/did.json"));
    }
    Some(join4("https://", host.as_str(), path.as_str(), "/did.json"))
}

// ---------------------------------------------------------------------------
// Laws
// ---------------------------------------------------------------------------

/// No need is recorded twice.
pub open spec fn distinct(needs: Seq<Need>) -> bool {
    forall|i: int, j: int|
        0 <= i < j < needs.len() ==> #[trigger] needs[i] != #[trigger] needs[j]
}

/// Recording a need keeps the list free of repetitions and within its bound, and
/// keeps everything that was recorded before at its place.
pub proof fn needs_stay_distinct_and_bounded(needs: Seq<Need>, need: Need)
    requires
        distinct(needs),
        needs.len() <= MAX_NETWORK_NEEDS,
    ensures
        distinct(with_need(needs, need)),
        with_need(needs, need).len() <= MAX_NETWORK_NEEDS,
        needs.len() <= with_need(needs, need).len(),
        with_need(needs, need).take(needs.len() as int) == needs,
{
    let after = with_need(needs, need);
    assert(after.take(needs.len() as int) =~= needs);
    if after != needs {
        assert forall|i: int, j: int| 0 <= i < j < after.len() implies #[trigger] after[i]
            != #[trigger] after[j] by {
            if j == needs.len() {
                assert(needs.contains(needs[i]));
            }
        }
    }
}

/// A need is recorded unless the list is full: it stands in the list afterwards,
/// behind what was there, and one that stands there already is not repeated.
pub proof fn needs_are_recorded(needs: Seq<Need>, need: Need)
    ensures
        needs.len() < MAX_NETWORK_NEEDS ==> with_need(needs, need).contains(need),
        needs.contains(need) ==> with_need(needs, need) == needs,
        forall|other: Need| #[trigger]
            with_need(needs, need).contains(other) ==> needs.contains(other) || other == need,
{
    let after = with_need(needs, need);
    if after != needs {
        assert(after[needs.len() as int] == need);
    }
    assert forall|other: Need| #[trigger] after.contains(other) implies needs.contains(other)
        || other == need by {
        let i = choose|i: int| 0 <= i < after.len() && after[i] == other;
        if i < needs.len() {
            assert(needs[i] == other);
        }
    }
}

proof fn lemma_no_char(s: Seq<char>, c: char, i: int)
    requires
        0 <= i,
        !s.contains(c),
    ensures
        text::first_char(s, c, i) is None,
    decreases s.len() - i,
{
    if i < s.len() {
        assert(s[i] != c);
        lemma_no_char(s, c, i + 1);
    }
}

proof fn lemma_no_colons(s: Seq<char>, spelling: Seq<char>, i: int)
    requires
        0 <= i <= s.len(),
        spelling.len() > 0,
        spelling[0] == '%',
        !s.contains('%'),
    ensures
        colons_from(s, spelling, i) == s.subrange(i, s.len() as int),
    decreases s.len() - i,
{
    if i < s.len() {
        if text::occurs_at(s, spelling, i) {
            assert(s.subrange(i, i + spelling.len())[0] == '%');
            assert(s[i] == '%');
        }
        lemma_no_colons(s, spelling, i + 1);
        assert(s.subrange(i, s.len() as int) =~= seq![s[i]] + s.subrange(i + 1, s.len() as int));
    } else {
        assert(s.subrange(i, s.len() as int) =~= Seq::empty());
    }
}

/// A plain name: not empty, and without any of the characters that separate or
/// encode.
pub open spec fn plain(s: Seq<char>) -> bool {
    &&& s.len() > 0
    &&& !s.contains(':')
    &&& !s.contains('#')
    &&& !s.contains('?')
    &&& !s.contains('%')
    &&& !s.contains('/')
}

/// The document of a `did:web` identifier that is a plain host stands under the
/// well-known path of that host, and that of a host and a plain path segment
/// under the segment. No other method has a document URL.
pub proof fn did_documents_stand_where_the_identifier_says(
    did: Seq<char>,
    host: Seq<char>,
    segment: Seq<char>,
)
    requires
        plain(host),
        plain(segment),
    ensures
        did_url("did:web:"@ + host) == Some("https://"@ + host + "/.well-known/did.json"@),
        did_url("did:web:"@ + (host + seq![':'] + segment)) == Some(
            "https://"@ + host + ("/"@ + segment) + "/did.json"@,
        ),
        (did.len() < 8 || did.subrange(0, 8) != "did:web:"@) ==> did_url(did) is None,
{
    let p = "did:web:"@;
    reveal_strlit("did:web:");
    reveal_strlit("%3A");
    reveal_strlit("%3a");
    reveal_strlit("/");
    assert("%3A"@[0] == '%');
    assert("%3a"@[0] == '%');
    text::stripping_undoes_joining(p + host, p, host);
    lemma_no_char(host, '#', 0);
    lemma_no_char(host, '?', 0);
    lemma_no_char(host, ':', 0);
    lemma_no_colons(host, "%3A"@, 0);
    lemma_no_colons(host, "%3a"@, 0);
    assert(host.subrange(0, host.len() as int) =~= host);
    assert(text::split(host, ':') =~= seq![host]);
    let both = host + seq![':'] + segment;
    text::stripping_undoes_joining(p + both, p, both);
    assert(!both.contains('#') && !both.contains('?')) by {
        if both.contains('#') {
            let i = choose|i: int| 0 <= i < both.len() && both[i] == '#';
            if i < host.len() {
                assert(host[i] == '#');
            } else {
                assert(segment[i - host.len() - 1] == '#');
            }
        }
        if both.contains('?') {
            let i = choose|i: int| 0 <= i < both.len() && both[i] == '?';
            if i < host.len() {
                assert(host[i] == '?');
            } else {
                assert(segment[i - host.len() - 1] == '?');
            }
        }
    }
    lemma_no_char(both, '#', 0);
    lemma_no_char(both, '?', 0);
    lemma_first_colon(both, host.len() as int, 0);
    lemma_late_colon(both, host.len() as int + 1);
    let n = host.len() as int;
    assert(both.subrange(0, n) =~= host);
    assert(both.subrange(n + 1, both.len() as int) =~= segment);
    assert(text::split_from(both, ':', n + 1) =~= seq![segment]);
    assert(text::split(both, ':') =~= seq![host, segment]);
    let segments = text::split(both, ':');
    assert(path_from(segments, 2) =~= Seq::empty());
    assert(path_from(segments, 1) =~= "/"@ + segment);
}

proof fn lemma_first_colon(s: Seq<char>, n: int, from: int)
    requires
        0 <= from <= n < s.len(),
        s[n] == ':',
        forall|j: int| 0 <= j < n ==> #[trigger] s[j] != ':',
    ensures
        text::first_char(s, ':', from) == Some(n),
    decreases n - from,
{
    if from < n {
        lemma_first_colon(s, n, from + 1);
    }
}

proof fn lemma_late_colon(s: Seq<char>, from: int)
    requires
        0 <= from,
        forall|j: int| from <= j < s.len() ==> #[trigger] s[j] != ':',
    ensures
        text::first_char(s, ':', from) is None,
    decreases s.len() - from,
{
    if from < s.len() {
        lemma_late_colon(s, from + 1);
    }
}

} // verus!
