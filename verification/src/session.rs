//! Verifying whole streams: which lane a stream takes, live sessions under
//! delivered keys, streams bound by a Merkle tree, and the release of
//! progressively received portions.
use vstd::prelude::*;
use crate::error::{Refusal, ValidateError};
use crate::live_video;
use crate::live_video::{
    validate_emsg_segment, validate_init_segment, validate_segment_manifest, validate_session_keys,
    LiveVideoApplicability, MessageFacts, SessionKey, SessionKeyFacts, StreamMethod,
    ValidatedSessionKey, LIVEVIDEO_INIT_INVALID, LIVEVIDEO_MANIFEST_INVALID, LIVEVIDEO_SEGMENT_INVALID,
    LIVEVIDEO_SESSION_KEY_INVALID,
};
use crate::manifest::ParsedManifest;
use crate::output;
use crate::output::{restate_results, Output, VerifyOutput, VersionVerdict};
use crate::pipeline::ManifestFacts;
use crate::profile::EngineProfile;
use crate::status;
use crate::status::{Results, Status, StatusCode, ASSERTION_BMFF_HASH_MATCH};
use crate::stream;
use crate::stream::{
    check_stream_brands, is_seek, require_fragments_bound, session_key_delivery,
    validate_expected_seek_positions, validate_fragment_sequence, verify_per_segment, Delivery,
    PerSegment, PerSegmentVerifyOutput, SegmentAsset, SessionKeyDelivery, StreamNames,
    SESSION_KEYS_LABEL,
};
use crate::text;
use crate::text::{decimal_string, join2, join4, str_eq};
use crate::value;
use crate::value::Value;
use crate::verdict;
use crate::verdict::ValidationState;
use crate::verify;
use crate::verify::{read_active, verify, AssetInput, StoreReport};

verus! {

// ---------------------------------------------------------------------------
// Lanes
// ---------------------------------------------------------------------------

/// How the segments of a stream are bound to what was signed.
#[derive(Debug, Clone, Copy, PartialEq, Eq, Structural)]
pub enum Lane {
    /// By session keys that the init manifest delivers.
    LiveSession,
    /// By a Merkle tree in the init manifest.
    Merkle,
    /// By one manifest per segment.
    PerSegment,
}

/// The result of verifying a stream, told apart by the verified method.
#[derive(Debug)]
pub enum StreamVerifyOutput {
    /// The init segment's manifest verified against the supplied segments, by
    /// session key or by Merkle tree.
    VerifiableSegmentInfo(Box<VerifyOutput>),
    /// Every segment verified on its own, with the recomputed chain.
    PerSegment(PerSegmentVerifyOutput),
}

impl StreamVerifyOutput {
    /// The method this result describes.
    pub fn method(&self) -> (r: StreamMethod)
        ensures
            r == match self {
                StreamVerifyOutput::VerifiableSegmentInfo(_) => StreamMethod::VerifiableSegmentInfo,
                StreamVerifyOutput::PerSegment(_) => StreamMethod::PerSegment,
            },
    {
        match self {
            StreamVerifyOutput::VerifiableSegmentInfo(_) => StreamMethod::VerifiableSegmentInfo,
            StreamVerifyOutput::PerSegment(_) => StreamMethod::PerSegment,
        }
    }
}

/// The lane of a stream: for a declared method, read off the claim-bound
/// assertions of the init manifest.
pub open spec fn lane_of(
    method: StreamMethod,
    active: Result<Option<ParsedManifest>, Refusal>,
    seeks: Seq<usize>,
    segments: usize,
) -> Result<Lane, Refusal> {
    match stream::seek_refusal(seeks, 0, None, segments) {
        Some(e) => Err(e),
        None => match method {
            StreamMethod::PerSegment => Ok(Lane::PerSegment),
            StreamMethod::VerifiableSegmentInfo => match active {
                Err(e) => Err(e),
                Ok(m) => if stream::delivered(m) is Some {
                    Ok(Lane::LiveSession)
                } else {
                    Ok(Lane::Merkle)
                },
            },
        },
    }
}

pub open spec fn lane_view(r: Result<Lane, ValidateError>) -> Result<Lane, Refusal> {
    match r {
        Ok(l) => Ok(l),
        Err(e) => Err(e@),
    }
}

/// Choose the lane of a stream.
///
/// Which binding a stream used is read off the init manifest, never taken from
/// the caller: a verifier that needed a declaration to pick the right integrity
/// check would be trusting the party it is checking.
pub fn select_lane(
    method: StreamMethod,
    init: &AssetInput,
    extracted: &Result<Option<StoreReport>, String>,
    expected_seek_positions: &[usize],
    segment_count: usize,
) -> (r: Result<Lane, ValidateError>)
    ensures
        lane_view(r) == lane_of(
            method,
            verify::active_of(init@, *extracted),
            expected_seek_positions@,
            segment_count,
        ),
{
    if let Err(e) = validate_expected_seek_positions(expected_seek_positions, segment_count) {
        return Err(e);
    }
    match method {
        StreamMethod::PerSegment => Ok(Lane::PerSegment),
        StreamMethod::VerifiableSegmentInfo => match read_active(init, extracted) {
            Err(e) => Err(e),
            Ok(m) => if session_key_delivery(m).is_some() {
                Ok(Lane::LiveSession)
            } else {
                Ok(Lane::Merkle)
            },
        },
    }
}

// ---------------------------------------------------------------------------
// Live sessions
// ---------------------------------------------------------------------------

/// One media segment of a live session with what is known of its candidate
/// messages, in walk order.
#[derive(Debug)]
pub struct LiveSegment {
    pub data: Vec<u8>,
    pub messages: Vec<MessageFacts>,
}

/// The media segments of a live session and what is known of its keys and
/// messages.
#[derive(Debug)]
pub struct LiveFacts {
    /// One entry per delivered key.
    pub keys: Vec<SessionKeyFacts>,
    pub segments: Vec<LiveSegment>,
    /// The boxes that every structural hash excludes.
    pub exclusion_paths: Vec<String>,
}

/// What the segments of a live session are held to.
pub struct Delivered {
    /// The init segment.
    pub init_segment: Seq<u8>,
    /// The signer chain of the delivering manifest, leaf first.
    pub signer_chain: Seq<Vec<u8>>,
    /// The validation time, in nanoseconds of the Unix epoch.
    pub validation_time: i128,
    pub live: LiveFacts,
}

/// The signer chain among the certificates of `facts`.
pub open spec fn signer_chain(facts: ManifestFacts) -> Seq<Vec<u8>> {
    facts.pool.certificates@.take(facts.pool.chain_len as int)
}

/// A live session behind the init segment `data`.
pub open spec fn session_of(
    data: Seq<u8>,
    validation_time: i128,
    facts: ManifestFacts,
    live: LiveFacts,
) -> Delivered {
    Delivered { init_segment: data, signer_chain: signer_chain(facts), validation_time, live }
}

/// A live session after some of its segments.
pub struct Session {
    pub results: Results,
    /// The sequence number that the next segment must carry.
    pub next: Option<u64>,
}

pub open spec fn segment_url(index: int) -> Seq<char> {
    "self#segment="@ + text::decimal((index + 1) as nat)
}

/// One segment of a live session.
pub open spec fn after_live_segment(
    s: Session,
    index: int,
    seek: bool,
    manifest_id: Seq<char>,
    keys: Seq<SessionKey>,
    facts: Delivered,
) -> Session {
    let segment = facts.live.segments@[index];
    let expected = if seek {
        None
    } else {
        s.next
    };
    let noted = if !seek && s.next is None {
        s.results.fail(
            LIVEVIDEO_SEGMENT_INVALID@,
            segment_url(index),
            "unexpected sequence discontinuity: predecessor sequenceNumber cannot be incremented"@,
        )
    } else {
        s.results
    };
    let (info, results) = live_video::emsg_outcome(
        StreamMethod::VerifiableSegmentInfo,
        segment.data@,
        expected,
        manifest_id,
        keys,
        segment.messages@,
        facts.validation_time,
        facts.live.exclusion_paths@,
        segment_url(index),
        noted,
    );
    Session {
        results,
        next: match info {
            Some(i) => if i.sequence < u64::MAX {
                Some((i.sequence + 1) as u64)
            } else {
                None
            },
            None => s.next,
        },
    }
}

/// A live session after its first `k` segments.
pub open spec fn session_after(
    start: Results,
    k: int,
    seeks: Seq<usize>,
    manifest_id: Seq<char>,
    keys: Seq<SessionKey>,
    facts: Delivered,
) -> Session
    decreases k,
{
    if k <= 0 {
        Session { results: start, next: Some(1u64) }
    } else {
        after_live_segment(
            session_after(start, k - 1, seeks, manifest_id, keys, facts),
            k - 1,
            seeks.contains((k - 1) as usize),
            manifest_id,
            keys,
            facts,
        )
    }
}

/// The keys of a live session, and the results up to them: of the init manifest
/// as a whole, of the init segment, and of the delivery.
pub open spec fn opened_session(o: Output, d: Delivery, facts: Delivered) -> (
    Seq<SessionKey>,
    Results,
) {
    let url = "self#jumbf=/c2pa/"@ + d.label;
    let a = if o.state != ValidationState::Invalid {
        o.results
    } else {
        o.results.fail(
            LIVEVIDEO_MANIFEST_INVALID@,
            url,
            "segment manifest failed C2PA validation"@,
        )
    };
    let b = live_video::init_results(facts.init_segment, "self#init-segment"@, a);
    let keys_url = url + "/c2pa.assertions/"@ + SESSION_KEYS_LABEL@;
    match d.keys {
        Ok(p) => live_video::session_keys_outcome(
            StreamMethod::VerifiableSegmentInfo,
            p.value,
            facts.signer_chain,
            facts.live.keys@,
            keys_url,
            b,
        ),
        Err(e) => (Seq::empty(), b.fail(LIVEVIDEO_SESSION_KEY_INVALID@, keys_url, e)),
    }
}

/// The output of a live session: the init manifest's own, with every live-video
/// status filed into it.
pub open spec fn live_output(
    o: Output,
    d: Delivery,
    facts: Delivered,
    seeks: Seq<usize>,
    p: EngineProfile,
) -> Output {
    let (keys, start) = opened_session(o, d, facts);
    let s = session_after(start, facts.live.segments@.len() as int, seeks, d.label, keys, facts);
    output::restated(Output { results: s.results, ..o }, p)
}

fn open_session(
    out: &mut VerifyOutput,
    delivery: &SessionKeyDelivery,
    init_segment: &[u8],
    chain: &[Vec<u8>],
    live: &LiveFacts,
    Ghost(facts): Ghost<Delivered>,
) -> (r: Vec<ValidatedSessionKey>)
    requires
        facts.init_segment == init_segment@,
        facts.signer_chain == chain@,
        facts.live == *live,
    ensures
        (live_video::key_views(r@), final(out)@.results) == opened_session(
            old(out)@,
            delivery@,
            facts,
        ),
        final(out)@ == (Output { results: final(out)@.results, ..old(out)@ }),
{
    let applicability = LiveVideoApplicability::new(StreamMethod::VerifiableSegmentInfo);
    let url = join2("self#jumbf=/c2pa/", delivery.manifest_label);
    validate_segment_manifest(
        applicability,
        out.validation_state != ValidationState::Invalid,
        &mut out.results,
        url.as_str(),
    );
    validate_init_segment(
        applicability,
        init_segment,
        &mut out.results,
        "self#init-segment",
    );
    let keys_url = join4(
        "self#jumbf=/c2pa/",
        delivery.manifest_label,
        "/c2pa.assertions/",
        SESSION_KEYS_LABEL,
    );
    match delivery.session_keys {
        Ok(p) => {
            let assertion: Option<&Value> = match &p.value {
                Some(v) => Some(v),
                None => None,
            };
            validate_session_keys(
                applicability,
                assertion,
                chain,
                live.keys.as_slice(),
                &mut out.results,
                keys_url.as_str(),
            )
        },
        Err(e) => {
            out.results.push_failure(LIVEVIDEO_SESSION_KEY_INVALID, keys_url, e.to_owned());
            let none: Vec<ValidatedSessionKey> = Vec::new();
            assert(live_video::key_views(none@) =~= Seq::empty());
            none
        },
    }
}

/// Verify the segments of a live session whose delivery was read, behind the
/// verification of its init segment as an ordinary asset.
fn verify_delivered_live_session(
    out: &mut VerifyOutput,
    delivery: &SessionKeyDelivery,
    asset: &AssetInput,
    chain: &[Vec<u8>],
    live: &LiveFacts,
    expected_seek_positions: &[usize],
    Ghost(facts): Ghost<Delivered>,
)
    requires
        facts.init_segment == asset.data@,
        facts.signer_chain == chain@,
        facts.validation_time == asset.verification_time,
        facts.live == *live,
    ensures
        final(out)@ == live_output(
            old(out)@,
            delivery@,
            facts,
            expected_seek_positions@,
            asset.engine,
        ),
{
    let ghost o = out@;
    let applicability = LiveVideoApplicability::new(StreamMethod::VerifiableSegmentInfo);
    let keys = open_session(out, delivery, asset.data, chain, live, Ghost(facts));
    let ghost start = out@.results;
    let ghost known = live_video::key_views(keys@);
    let mut next: Option<u64> = Some(1);
    let mut index: usize = 0;
    let count = live.segments.len();
    while index < count
        invariant
            index <= count,
            count == live.segments@.len(),
            facts.live == *live,
            facts.validation_time == asset.verification_time,
            applicability.declared() == StreamMethod::VerifiableSegmentInfo,
            known == live_video::key_views(keys@),
            out@ == (Output { results: out@.results, ..o }),
            (Session { results: out@.results, next }) == session_after(
                start,
                index as int,
                expected_seek_positions@,
                delivery@.label,
                known,
                facts,
            ),
        decreases count - index,
    {
        let segment = &live.segments[index];
        let seek = is_seek(expected_seek_positions, index);
        let expected = if seek {
            None
        } else {
            next
        };
        let n = decimal_string((index + 1) as u64);
        let url = join2("self#segment=", n.as_str());
        if !seek && expected.is_none() {
            out.results.push_failure(
                LIVEVIDEO_SEGMENT_INVALID,
                url.as_str().to_owned(),
                "unexpected sequence discontinuity: predecessor sequenceNumber cannot be incremented".to_owned(),
            );
        }
        let info = validate_emsg_segment(
            applicability,
            segment.data.as_slice(),
            expected,
            delivery.manifest_label,
            keys.as_slice(),
            segment.messages.as_slice(),
            asset.verification_time,
            &live.exclusion_paths,
            &mut out.results,
            url.as_str(),
        );
        if let Some(info) = info {
            next = info.sequence_number.checked_add(1);
        }
        index += 1;
    }
    restate_results(out, asset.engine);
}

/// The facts about the active manifest fit the asset, where it has one.
pub open spec fn extracted_ready(
    asset: AssetInput,
    extracted: Result<Option<StoreReport>, String>,
    facts: ManifestFacts,
) -> bool {
    verify::extraction_ready(asset@, asset.verification_time, extracted, facts)
}

/// The facts about a live session fit its init segment, which stands alone, and
/// its media segments.
pub open spec fn live_ready(
    asset: AssetInput,
    extracted: Result<Option<StoreReport>, String>,
    facts: ManifestFacts,
    live: LiveFacts,
    media: nat,
) -> bool {
    &&& extracted_ready(asset, extracted, facts)
    &&& facts.asset.fragments@.len() == 0
    &&& live.segments@.len() == media
}

/// The outcome of verifying a live session.
pub open spec fn live_session_outcome(
    init_defect: Option<String>,
    defects: Seq<Option<String>>,
    encapsulation: Seq<char>,
    asset: verify::Asset,
    validation_time: i128,
    extracted: Result<Option<StoreReport>, String>,
    facts: ManifestFacts,
    version: VersionVerdict,
    live: LiveFacts,
    seeks: Seq<usize>,
) -> Result<Output, Refusal> {
    match stream::brand_refusal(init_defect, defects, encapsulation) {
        Some(e) => Err(e),
        None => match verify::active_of(asset, extracted) {
            Err(e) => Err(e),
            Ok(m) => match stream::delivered(m) {
                None => Err(
                    Refusal::Stream(
                        "init segment delivers no claim-bound session key, so it is not a live session"@,
                    ),
                ),
                Some(d) => match verify::embedded_outcome(asset, extracted, facts, version) {
                    Err(e) => Err(e),
                    Ok(o) => Ok(
                        live_output(
                            o,
                            d,
                            session_of(asset.data, validation_time, facts, live),
                            seeks,
                            asset.engine,
                        ),
                    ),
                },
            },
        },
    }
}

/// Verify a live session: an init segment whose manifest delivers a session
/// key, and media segments authenticated by that key.
///
/// `asset` is the init segment, verified as an ordinary asset. Every live-video
/// status is filed into that verification, so one report answers whether the
/// stream is what it claims to be.
pub fn verify_live_session(
    init_defect: &Option<String>,
    segment_defects: &[Option<String>],
    encapsulation: &str,
    asset: &AssetInput,
    extracted: &Result<Option<StoreReport>, String>,
    facts: &ManifestFacts,
    version: VersionVerdict,
    live: &LiveFacts,
    expected_seek_positions: &[usize],
) -> (r: Result<VerifyOutput, ValidateError>)
    requires
        live_ready(*asset, *extracted, *facts, *live, segment_defects@.len()),
    ensures
        verify::outcome_view(r) == live_session_outcome(
            *init_defect,
            segment_defects@,
            encapsulation@,
            asset@,
            asset.verification_time,
            *extracted,
            *facts,
            version,
            *live,
            expected_seek_positions@,
        ),
{
    if let Err(e) = check_stream_brands(init_defect, segment_defects, encapsulation) {
        return Err(e);
    }
    let active = match read_active(asset, extracted) {
        Ok(m) => m,
        Err(e) => {
            return Err(e);
        },
    };
    let delivery = match session_key_delivery(active) {
        Some(d) => d,
        None => {
            return Err(
                ValidateError::Stream(
                    "init segment delivers no claim-bound session key, so it is not a live session".to_owned(),
                ),
            );
        },
    };
    match verify(asset, extracted, facts, version) {
        Err(e) => Err(e),
        Ok(o) => {
            let mut out = o;
            let ghost session = session_of(asset.data@, asset.verification_time, *facts, *live);
            assert(facts.pool.wf());
            let chain = vstd::slice::slice_subrange(
                facts.pool.certificates.as_slice(),
                0,
                facts.pool.chain_len,
            );
            assert(chain@ =~= signer_chain(*facts));
            verify_delivered_live_session(
                &mut out,
                &delivery,
                asset,
                chain,
                live,
                expected_seek_positions,
                Ghost(session),
            );
            Ok(out)
        },
    }
}

// ---------------------------------------------------------------------------
// Merkle-bound streams
// ---------------------------------------------------------------------------

/// The active manifest of what was extracted from an asset.
pub open spec fn extracted_active(extracted: Result<Option<StoreReport>, String>) -> Option<
    ParsedManifest,
> {
    match extracted {
        Ok(Some(store)) => match store.manifests {
            Ok(manifests) => if manifests@.len() > 0 {
                Some(manifests@.last())
            } else {
                None
            },
            Err(_) => None,
        },
        _ => None,
    }
}

/// The outcome of verifying an init segment against its fragments: every
/// fragment must be bound, and they must stand in playback order.
pub open spec fn fragmented_outcome(
    asset: verify::Asset,
    extracted: Result<Option<StoreReport>, String>,
    facts: ManifestFacts,
    version: VersionVerdict,
    seeks: Seq<usize>,
) -> Result<Output, Refusal> {
    let fragments = facts.asset.fragments@;
    match stream::seek_refusal(seeks, 0, None, fragments.len() as usize) {
        Some(e) => Err(e),
        None => match verify::embedded_outcome(asset, extracted, facts, version) {
            Err(e) => Err(e),
            Ok(o) => match extracted_active(extracted) {
                None => Ok(o),
                Some(m) => Ok(
                    stream::ordered_output(
                        stream::bound_output(o, m, fragments.len() as usize, asset.engine),
                        m,
                        fragments,
                        seeks,
                        asset.engine,
                    ),
                ),
            },
        },
    }
}

/// Verify an init segment against its fragments.
///
/// The fragments are those of the facts, in presented order. A fragment that no
/// binding in the active manifest covers fails closed, and so does one that is
/// out of playback order, unless a seek was signalled before it.
pub fn verify_fragmented(
    asset: &AssetInput,
    extracted: &Result<Option<StoreReport>, String>,
    facts: &ManifestFacts,
    version: VersionVerdict,
    expected_seek_positions: &[usize],
) -> (r: Result<VerifyOutput, ValidateError>)
    requires
        extracted_ready(*asset, *extracted, *facts),
    ensures
        verify::outcome_view(r) == fragmented_outcome(
            asset@,
            *extracted,
            *facts,
            version,
            expected_seek_positions@,
        ),
{
    let fragments = facts.asset.fragments.as_slice();
    let count = fragments.len();
    if let Err(e) = validate_expected_seek_positions(expected_seek_positions, count) {
        return Err(e);
    }
    let mut out = match verify(asset, extracted, facts, version) {
        Ok(out) => out,
        Err(e) => {
            return Err(e);
        },
    };
    if let Ok(Some(store)) = extracted {
        if let Ok(manifests) = &store.manifests {
            if manifests.len() > 0 {
                let active = &manifests[manifests.len() - 1];
                require_fragments_bound(&mut out, active, count, asset.engine);
                validate_fragment_sequence(
                    &mut out,
                    active,
                    fragments,
                    expected_seek_positions,
                    asset.engine,
                );
            }
        }
    }
    Ok(out)
}

/// The outcome of verifying an init segment against its fragments under a
/// declared encapsulation.
pub open spec fn encapsulated_outcome(
    init_defect: Option<String>,
    defects: Seq<Option<String>>,
    encapsulation: Seq<char>,
    asset: verify::Asset,
    extracted: Result<Option<StoreReport>, String>,
    facts: ManifestFacts,
    version: VersionVerdict,
    seeks: Seq<usize>,
) -> Result<Output, Refusal> {
    match stream::brand_refusal(init_defect, defects, encapsulation) {
        Some(e) => Err(e),
        None => fragmented_outcome(asset, extracted, facts, version, seeks),
    }
}

/// Verify an init segment against its fragments under a declared encapsulation:
/// a stream whose bytes do not carry the declared brands is refused.
pub fn verify_fragmented_with_encapsulation(
    init_defect: &Option<String>,
    segment_defects: &[Option<String>],
    encapsulation: &str,
    asset: &AssetInput,
    extracted: &Result<Option<StoreReport>, String>,
    facts: &ManifestFacts,
    version: VersionVerdict,
    expected_seek_positions: &[usize],
) -> (r: Result<VerifyOutput, ValidateError>)
    requires
        extracted_ready(*asset, *extracted, *facts),
        facts.asset.fragments@.len() == segment_defects@.len(),
    ensures
        verify::outcome_view(r) == encapsulated_outcome(
            *init_defect,
            segment_defects@,
            encapsulation@,
            asset@,
            *extracted,
            *facts,
            version,
            expected_seek_positions@,
        ),
{
    if let Err(e) = check_stream_brands(init_defect, segment_defects, encapsulation) {
        return Err(e);
    }
    verify_fragmented(asset, extracted, facts, version, expected_seek_positions)
}

// ---------------------------------------------------------------------------
// Whole streams
// ---------------------------------------------------------------------------

/// A stream and what is known of it.
pub struct StreamInput<'a> {
    pub method: StreamMethod,
    /// What the declared encapsulation finds wrong with the init segment.
    pub init_defect: &'a Option<String>,
    /// What it finds wrong with each media segment.
    pub segment_defects: &'a [Option<String>],
    pub names: &'a StreamNames,
    /// The init segment as an asset of its own.
    pub init: &'a AssetInput<'a>,
    pub extracted: &'a Result<Option<StoreReport>, String>,
    /// Facts of the init manifest without and with the media segments as its
    /// fragments.
    pub alone: &'a ManifestFacts,
    pub fragmented: &'a ManifestFacts,
    pub live: &'a LiveFacts,
    /// The positions in front of which the presentation was moved.
    pub expected_seek_positions: &'a [usize],
}

/// The result of a stream as the contracts see it.
pub enum StreamResult {
    Info(Output),
    Chain(PerSegment),
}

pub open spec fn stream_view(r: Result<StreamVerifyOutput, ValidateError>) -> Result<
    StreamResult,
    Refusal,
> {
    match r {
        Ok(StreamVerifyOutput::VerifiableSegmentInfo(out)) => Ok(StreamResult::Info(out@)),
        Ok(StreamVerifyOutput::PerSegment(out)) => Ok(StreamResult::Chain(out@)),
        Err(e) => Err(e@),
    }
}

pub open spec fn info_result(r: Result<Output, Refusal>) -> Result<StreamResult, Refusal> {
    match r {
        Ok(o) => Ok(StreamResult::Info(o)),
        Err(e) => Err(e),
    }
}

impl<'a> StreamInput<'a> {
    /// The lane that the stream takes.
    pub open spec fn lane(self) -> Result<Lane, Refusal> {
        lane_of(
            self.method,
            verify::active_of(self.init@, *self.extracted),
            self.expected_seek_positions@,
            self.segment_defects@.len() as usize,
        )
    }

    /// What is known of the stream fits it, as far as its lane asks.
    pub open spec fn ready(self, segments: Seq<SegmentAsset>) -> bool {
        let media = self.segment_defects@.len();
        match self.lane() {
            Err(_) => true,
            Ok(Lane::LiveSession) => live_ready(
                *self.init,
                *self.extracted,
                *self.alone,
                *self.live,
                media,
            ),
            Ok(Lane::Merkle) => extracted_ready(*self.init, *self.extracted, *self.fragmented)
                && self.fragmented.asset.fragments@.len() == media,
            Ok(Lane::PerSegment) => segments.len() == media + 1 && forall|i: int|
                0 <= i < segments.len() ==> (#[trigger] segments[i]).ready(self.init.engine),
        }
    }
}

/// The outcome of verifying a stream, by the lane that its init manifest
/// selects.
pub open spec fn stream_outcome(
    s: StreamInput,
    version: VersionVerdict,
    segments: Seq<SegmentAsset>,
) -> Result<StreamResult, Refusal> {
    let seeks = s.expected_seek_positions@;
    let encapsulation = s.names.encapsulation_name@;
    match s.lane() {
        Err(e) => Err(e),
        Ok(Lane::LiveSession) => info_result(
            live_session_outcome(
                *s.init_defect,
                s.segment_defects@,
                encapsulation,
                s.init@,
                s.init.verification_time,
                *s.extracted,
                *s.alone,
                version,
                *s.live,
                seeks,
            ),
        ),
        Ok(Lane::Merkle) => info_result(
            encapsulated_outcome(
                *s.init_defect,
                s.segment_defects@,
                encapsulation,
                s.init@,
                *s.extracted,
                *s.fragmented,
                version,
                seeks,
            ),
        ),
        Ok(Lane::PerSegment) => match stream::per_segment_outcome(
            *s.init_defect,
            s.segment_defects@,
            segments,
            seeks,
            *s.names,
            s.init.engine,
        ) {
            Ok(o) => Ok(StreamResult::Chain(o)),
            Err(e) => Err(e),
        },
    }
}

/// Verify a stream end to end.
///
/// `segments` are the init segment and the media segments, each as an asset of
/// its own, and count only for the per-segment method.
pub fn verify_stream(
    s: &StreamInput,
    version: VersionVerdict,
    segments: Vec<SegmentAsset>,
) -> (r: Result<StreamVerifyOutput, ValidateError>)
    requires
        s.ready(segments@),
    ensures
        stream_view(r) == stream_outcome(*s, version, segments@),
{
    let seeks = s.expected_seek_positions;
    let lane = match select_lane(
        s.method,
        s.init,
        s.extracted,
        seeks,
        s.segment_defects.len(),
    ) {
        Ok(lane) => lane,
        Err(e) => {
            return Err(e);
        },
    };
    let encapsulation = s.names.encapsulation_name.as_str();
    let out = match lane {
        Lane::PerSegment => {
            return match verify_per_segment(
                s.init_defect,
                s.segment_defects,
                segments,
                seeks,
                s.names,
                s.init.engine,
            ) {
                Ok(out) => Ok(StreamVerifyOutput::PerSegment(out)),
                Err(e) => Err(e),
            };
        },
        Lane::LiveSession => verify_live_session(
            s.init_defect,
            s.segment_defects,
            encapsulation,
            s.init,
            s.extracted,
            s.alone,
            version,
            s.live,
            seeks,
        ),
        Lane::Merkle => verify_fragmented_with_encapsulation(
            s.init_defect,
            s.segment_defects,
            encapsulation,
            s.init,
            s.extracted,
            s.fragmented,
            version,
            seeks,
        ),
    };
    match out {
        Ok(out) => Ok(StreamVerifyOutput::VerifiableSegmentInfo(Box::new(out))),
        Err(e) => Err(e),
    }
}

// ---------------------------------------------------------------------------
// Progressive release
// ---------------------------------------------------------------------------

/// A progressively received portion that has passed its Merkle leaf check.
///
/// The bytes are private and can be obtained only by consuming this token, so
/// pending or failed content cannot be mistaken for releasable content.
#[derive(Debug)]
pub struct VerifiedBmffPortion<'a> {
    bytes: &'a [u8],
    /// The full result that authorized this release.
    pub verification: VerifyOutput,
}

impl<'a> VerifiedBmffPortion<'a> {
    /// The bytes that the token releases.
    pub closed spec fn released(self) -> Seq<u8> {
        self.bytes@
    }

    /// The result that authorized the release.
    pub closed spec fn authority(self) -> Output {
        self.verification@
    }

    /// Consume the token and release its exact, unmodified bytes.
    pub fn release(self) -> (r: &'a [u8])
        ensures
            r@ == self.released(),
    {
        self.bytes
    }
}

/// How many of the first `k` statuses carry `code`.
pub open spec fn occurrences(s: Seq<Status>, code: Seq<char>, k: int) -> nat
    decreases k,
{
    if k <= 0 {
        0
    } else {
        occurrences(s, code, k - 1) + if s[k - 1].code == code {
            1nat
        } else {
            0nat
        }
    }
}

/// How many structural hashes matched.
pub open spec fn matched_hashes(r: Results) -> nat {
    occurrences(r.success, ASSERTION_BMFF_HASH_MATCH@, r.success.len() as int)
}

/// The outcome of holding a verified portion to release: both the init hash and
/// the portion's leaf must have matched, and nothing may have failed.
pub open spec fn release_outcome(verified: Result<Output, Refusal>) -> Result<Output, Refusal> {
    match verified {
        Err(e) => Err(e),
        Ok(o) => if o.state == ValidationState::Invalid || matched_hashes(o.results) < 2 {
            Err(Refusal::Stream("BMFF portion was not Merkle-verified; release refused"@))
        } else {
            Ok(o)
        },
    }
}

/// A release as the contracts see it.
pub open spec fn release_view(r: Result<VerifiedBmffPortion, ValidateError>) -> Result<
    (Output, Seq<u8>),
    Refusal,
> {
    match r {
        Ok(t) => Ok((t.authority(), t.released())),
        Err(e) => Err(e@),
    }
}

/// The released bytes behind the verification that authorizes them.
pub open spec fn releasing(r: Result<Output, Refusal>, portion: Seq<u8>) -> Result<
    (Output, Seq<u8>),
    Refusal,
> {
    match r {
        Ok(o) => Ok((o, portion)),
        Err(e) => Err(e),
    }
}

fn count_code(s: &Vec<StatusCode>, code: &str) -> (r: usize)
    ensures
        r as nat == occurrences(status::statuses(s@), code@, s@.len() as int),
{
    let ghost all = status::statuses(s@);
    let mut n: usize = 0;
    let mut i: usize = 0;
    while i < s.len()
        invariant
            i <= s.len(),
            n <= i,
            all == status::statuses(s@),
            n as nat == occurrences(all, code@, i as int),
        decreases s.len() - i,
    {
        assert(all[i as int].code == s@[i as int].code@);
        if str_eq(s[i].code.as_str(), code) {
            n += 1;
        }
        i += 1;
    }
    n
}

/// Verify one progressively received portion before making it renderable.
///
/// `asset` is the signed init segment; the facts describe the portion as its
/// one fragment. Missing auxiliary data, a wrong leaf location, mutated bytes, a
/// broken claim binding or any other integrity failure returns an error and
/// releases no bytes.
pub fn verify_bmff_portion_before_release<'a>(
    portion: &'a [u8],
    init_defect: &Option<String>,
    portion_defects: &[Option<String>],
    encapsulation: &str,
    asset: &AssetInput,
    extracted: &Result<Option<StoreReport>, String>,
    facts: &ManifestFacts,
    version: VersionVerdict,
) -> (r: Result<VerifiedBmffPortion<'a>, ValidateError>)
    requires
        extracted_ready(*asset, *extracted, *facts),
        facts.asset.fragments@.len() == 1,
        portion_defects@.len() == 1,
    ensures
        release_view(r) == releasing(
            release_outcome(
                encapsulated_outcome(
                    *init_defect,
                    portion_defects@,
                    encapsulation@,
                    asset@,
                    *extracted,
                    *facts,
                    version,
                    Seq::empty(),
                ),
            ),
            portion@,
        ),
{
    let none: Vec<usize> = Vec::new();
    assert(none@ =~= Seq::empty());
    let verification = match verify_fragmented_with_encapsulation(
        init_defect,
        portion_defects,
        encapsulation,
        asset,
        extracted,
        facts,
        version,
        none.as_slice(),
    ) {
        Ok(v) => v,
        Err(e) => {
            return Err(e);
        },
    };
    let matched = count_code(&verification.results.success, ASSERTION_BMFF_HASH_MATCH);
    if verification.validation_state == ValidationState::Invalid || matched < 2 {
        return Err(
            ValidateError::Stream(
                "BMFF portion was not Merkle-verified; release refused".to_owned(),
            ),
        );
    }
    Ok(VerifiedBmffPortion { bytes: portion, verification })
}

// ---------------------------------------------------------------------------
// Laws
// ---------------------------------------------------------------------------

/// A live-video failure invalidates under every profile.
pub proof fn live_video_failures_always_invalidate(code: Seq<char>, p: EngineProfile)
    requires
        text::is_prefix("livevideo."@, code),
    ensures
        verdict::invalidating(code, p),
{
    reveal_strlit("livevideo.");
    reveal_strlit("cawg.");
    reveal_strlit("signingCredential.untrusted");
    reveal_strlit("claimSignature.outsideValidity");
    reveal_strlit("signingCredential.ocsp.skipped");
    reveal_strlit("signingCredential.ocsp.revoked");
    reveal_strlit("timeStamp.untrusted");
    reveal_strlit("timeStamp.outsideValidity");
    reveal_strlit("timeStamp.missing");
    reveal_strlit("conformanceScope.outOfScope");
    reveal_strlit("conformanceScope.specVersion.nonConformant");
    reveal_strlit("com.encypher.conformance.revocationInformationMissing");
    reveal_strlit("com.encypher.conformance.trustedTimeStampMissing");
    let head = code.subrange(0, "livevideo."@.len() as int);
    assert(head[0] == 'l');
    assert(code[0] == 'l');
    if verdict::identity_scoped(code) {
        assert(code.subrange(0, "cawg."@.len() as int)[0] == 'c');
    }
}

proof fn lemma_failure_invalidates(r: Results, code: Seq<char>, url: Seq<char>, why: Seq<char>, p: EngineProfile)
    requires
        text::is_prefix("livevideo."@, code),
    ensures
        verdict::state_of(r.fail(code, url, why), p) == ValidationState::Invalid,
{
    live_video_failures_always_invalidate(code, p);
    let after = r.fail(code, url, why);
    assert(after.failure[r.failure.len() as int].code == code);
    assert(verdict::integrity_failure(after, p));
}

proof fn lemma_segment_code_is_live()
    ensures
        text::is_prefix("livevideo."@, LIVEVIDEO_SEGMENT_INVALID@),
{
    reveal_strlit("livevideo.");
    reveal_strlit("livevideo.segment.invalid");
    assert(LIVEVIDEO_SEGMENT_INVALID@.subrange(0, 10) =~= "livevideo."@);
}

/// A stream whose init manifest binds session keys is never accepted on another
/// lane: its output is that of the live session, whatever the caller holds of
/// its fragments.
pub proof fn delivered_keys_select_the_live_session(
    s: StreamInput,
    m: ParsedManifest,
    version: VersionVerdict,
    segments: Seq<SegmentAsset>,
)
    requires
        s.method == StreamMethod::VerifiableSegmentInfo,
        verify::active_of(s.init@, *s.extracted) == Ok::<Option<ParsedManifest>, Refusal>(Some(m)),
        stream::delivered(Some(m)) is Some,
    ensures
        stream_outcome(s, version, segments) matches Ok(r) ==> {
            let init = verify::embedded_outcome(s.init@, *s.extracted, *s.alone, version);
            &&& init is Ok
            &&& r == StreamResult::Info(
                live_output(
                    init->Ok_0,
                    stream::delivered(Some(m))->0,
                    session_of(s.init@.data, s.init.verification_time, *s.alone, *s.live),
                    s.expected_seek_positions@,
                    s.init.engine,
                ),
            )
        },
{
}

/// A fragment that nothing in the active manifest binds never leaves a report
/// that says integrity is valid, under any profile.
pub proof fn unbound_fragments_always_invalidate(
    o: Output,
    m: ParsedManifest,
    fragments: usize,
    p: EngineProfile,
)
    requires
        fragments > 0,
        stream::fragment_label(m) is None,
    ensures
        stream::bound_output(o, m, fragments, p).state == ValidationState::Invalid,
{
    lemma_segment_code_is_live();
    lemma_failure_invalidates(
        o.results,
        LIVEVIDEO_SEGMENT_INVALID@,
        "self#jumbf=/c2pa/"@ + m.label@,
        text::decimal(fragments as nat)
            + " caller-supplied fragment(s) were not bound: the active manifest declares no fragment merkle tree. Verify this stream with the stream verifier, which selects the session-key or per-segment binding from the manifest"@,
        p,
    );
}

/// Bytes are released only behind a verification that is not invalid and in
/// which both the init hash and the portion's leaf matched.
pub proof fn released_portions_are_verified(verified: Result<Output, Refusal>)
    ensures
        release_outcome(verified) matches Ok(o) ==> verified == Ok::<Output, Refusal>(o) && o.state
            != ValidationState::Invalid && matched_hashes(o.results) >= 2,
{
}

/// A portion that nothing in the active manifest binds is never released.
pub proof fn unbound_portions_are_never_released(
    asset: verify::Asset,
    extracted: Result<Option<StoreReport>, String>,
    facts: ManifestFacts,
    version: VersionVerdict,
    m: ParsedManifest,
)
    requires
        facts.asset.fragments@.len() == 1,
        extracted_active(extracted) == Some(m),
        stream::fragment_label(m) is None,
    ensures
        release_outcome(fragmented_outcome(asset, extracted, facts, version, Seq::empty())) is Err,
{
    match verify::embedded_outcome(asset, extracted, facts, version) {
        Ok(o) => {
            unbound_fragments_always_invalidate(o, m, 1, asset.engine);
        },
        Err(_) => {},
    }
}

/// The next segment of a live session was authenticated as its predecessor's
/// successor, and nothing was reported against it.
pub open spec fn authenticated_at(
    start: Results,
    i: int,
    seeks: Seq<usize>,
    manifest_id: Seq<char>,
    keys: Seq<SessionKey>,
    facts: Delivered,
) -> bool {
    let before = session_after(start, i, seeks, manifest_id, keys, facts);
    let seek = seeks.contains(i as usize);
    let (info, after) = live_video::emsg_outcome(
        StreamMethod::VerifiableSegmentInfo,
        facts.live.segments@[i].data@,
        if seek {
            None
        } else {
            before.next
        },
        manifest_id,
        keys,
        facts.live.segments@[i].messages@,
        facts.validation_time,
        facts.live.exclusion_paths@,
        segment_url(i),
        before.results,
    );
    &&& info is Some
    &&& after == before.results
    &&& !seek ==> before.next is Some
}

proof fn lemma_session_extends(
    start: Results,
    k: int,
    n: int,
    seeks: Seq<usize>,
    manifest_id: Seq<char>,
    keys: Seq<SessionKey>,
    facts: Delivered,
)
    requires
        0 <= k <= n,
    ensures
        status::starts(
            session_after(start, k, seeks, manifest_id, keys, facts).results.failure,
            session_after(start, n, seeks, manifest_id, keys, facts).results.failure,
        ),
    decreases n - k,
{
    if k < n {
        lemma_session_extends(start, k, n - 1, seeks, manifest_id, keys, facts);
    }
}

/// Every segment of a live session that is not invalid was authenticated, in
/// order, with no seek that was not signalled.
pub proof fn accepted_live_sessions_authenticate_every_segment(
    o: Output,
    d: Delivery,
    facts: Delivered,
    seeks: Seq<usize>,
    p: EngineProfile,
    i: int,
)
    requires
        live_output(o, d, facts, seeks, p).state != ValidationState::Invalid,
        0 <= i < facts.live.segments@.len(),
    ensures
        authenticated_at(
            opened_session(o, d, facts).1,
            i,
            seeks,
            d.label,
            opened_session(o, d, facts).0,
            facts,
        ),
{
    let (keys, start) = opened_session(o, d, facts);
    let n = facts.live.segments@.len() as int;
    if !authenticated_at(start, i, seeks, d.label, keys, facts) {
        let before = session_after(start, i, seeks, d.label, keys, facts);
        let after = session_after(start, i + 1, seeks, d.label, keys, facts);
        let last = session_after(start, n, seeks, d.label, keys, facts);
        lemma_session_extends(start, i + 1, n, seeks, d.label, keys, facts);
        lemma_segment_code_is_live();
        live_video_failures_always_invalidate(LIVEVIDEO_SEGMENT_INVALID@, p);
        let at = before.results.failure.len() as int;
        assert(after.results.failure.len() > at);
        assert(after.results.failure[at].code == LIVEVIDEO_SEGMENT_INVALID@);
        assert(last.results.failure[at].code == LIVEVIDEO_SEGMENT_INVALID@);
        assert(verdict::integrity_failure(last.results, p));
    }
}

/// What the segment `i` of a live session is authenticated as.
pub open spec fn info_at(
    start: Results,
    i: int,
    seeks: Seq<usize>,
    manifest_id: Seq<char>,
    keys: Seq<SessionKey>,
    facts: Delivered,
) -> Option<live_video::SegmentInfo> {
    let before = session_after(start, i, seeks, manifest_id, keys, facts);
    live_video::emsg_outcome(
        StreamMethod::VerifiableSegmentInfo,
        facts.live.segments@[i].data@,
        if seeks.contains(i as usize) {
            None
        } else {
            before.next
        },
        manifest_id,
        keys,
        facts.live.segments@[i].messages@,
        facts.validation_time,
        facts.live.exclusion_paths@,
        segment_url(i),
        before.results,
    ).0
}

/// The segments of a live session that is not invalid count up: the first carries
/// number 1 and each other the number behind its predecessor's, unless a seek was
/// signalled at it; and each is authentic under one of the delivered keys.
pub proof fn accepted_live_sessions_count_up(
    o: Output,
    d: Delivery,
    facts: Delivered,
    seeks: Seq<usize>,
    p: EngineProfile,
    i: int,
)
    requires
        live_output(o, d, facts, seeks, p).state != ValidationState::Invalid,
        0 <= i < facts.live.segments@.len(),
    ensures
        ({
            let (keys, start) = opened_session(o, d, facts);
            let info = info_at(start, i, seeks, d.label, keys, facts);
            let before = info_at(start, i - 1, seeks, d.label, keys, facts);
            &&& info is Some
            &&& i == 0 && !seeks.contains(0) ==> info->0.sequence == 1
            &&& i > 0 && !seeks.contains(i as usize) ==> before is Some && info->0.sequence
                == before->0.sequence + 1
            &&& exists|k: int|
                0 <= k < facts.live.segments@[i].messages@.len() && live_video::authenticated_from(
                    #[trigger] facts.live.segments@[i].messages@[k],
                    keys,
                    0,
                    facts.validation_time,
                    d.label,
                    facts.live.exclusion_paths@,
                ) == info
        }),
{
    let (keys, start) = opened_session(o, d, facts);
    accepted_live_sessions_authenticate_every_segment(o, d, facts, seeks, p, i);
    let before = session_after(start, i, seeks, d.label, keys, facts);
    let expected = if seeks.contains(i as usize) {
        None
    } else {
        before.next
    };
    live_video::accepted_segments_carry_an_authentic_message(
        facts.live.segments@[i].data@,
        expected,
        d.label,
        keys,
        facts.live.segments@[i].messages@,
        facts.validation_time,
        facts.live.exclusion_paths@,
        segment_url(i),
        before.results,
    );
    if i > 0 {
        accepted_live_sessions_authenticate_every_segment(o, d, facts, seeks, p, i - 1);
        let earlier = session_after(start, i - 1, seeks, d.label, keys, facts);
        assert(before == after_live_segment(
            earlier,
            i - 1,
            seeks.contains((i - 1) as usize),
            d.label,
            keys,
            facts,
        ));
    }
}

proof fn lemma_occurrences(s: Seq<Status>, code: Seq<char>, k: int)
    requires
        0 <= k <= s.len(),
    ensures
        occurrences(s, code, k) > 0 ==> exists|i: int| 0 <= i < k && (#[trigger] s[i]).code == code,
        occurrences(s, code, k) > 1 ==> exists|i: int, j: int|
            0 <= i < j < k && (#[trigger] s[i]).code == code && (#[trigger] s[j]).code == code,
    decreases k,
{
    if k > 0 {
        lemma_occurrences(s, code, k - 1);
        if occurrences(s, code, k - 1) > 0 {
            let i = choose|i: int| 0 <= i < k - 1 && (#[trigger] s[i]).code == code;
            assert(s[i].code == code);
            if s[k - 1].code == code {
                assert(s[k - 1].code == code);
            }
        }
        if occurrences(s, code, k - 1) > 1 {
            let (i, j) = choose|i: int, j: int|
                0 <= i < j < k - 1 && (#[trigger] s[i]).code == code && (
                #[trigger] s[j]).code == code;
            assert(s[i].code == code && s[j].code == code);
        }
        if s[k - 1].code == code {
            assert(0 <= k - 1 < k);
        }
    }
}

/// Bytes are released only where the results of their verification hold two
/// separate structural matches, that of the init hash and that of the portion,
/// and the manifest is not invalid.
pub proof fn released_portions_matched_twice(verified: Result<Output, Refusal>)
    ensures
        release_outcome(verified) matches Ok(o) ==> o.state != ValidationState::Invalid && exists|
            i: int,
            j: int,
        |
            0 <= i < j < o.results.success.len() && (#[trigger] o.results.success[i]).code
                == ASSERTION_BMFF_HASH_MATCH@ && (#[trigger] o.results.success[j]).code
                == ASSERTION_BMFF_HASH_MATCH@,
{
    if let Ok(o) = release_outcome(verified) {
        lemma_occurrences(
            o.results.success,
            ASSERTION_BMFF_HASH_MATCH@,
            o.results.success.len() as int,
        );
    }
}

/// A live session that is not invalid was opened soundly: the init manifest was
/// not invalid on its own, the init segment holds no media, the keys were
/// delivered by one trusted assertion, and every entry of it delivers a key.
pub proof fn accepted_live_sessions_are_opened_soundly(
    o: Output,
    d: Delivery,
    facts: Delivered,
    seeks: Seq<usize>,
    p: EngineProfile,
)
    requires
        live_output(o, d, facts, seeks, p).state != ValidationState::Invalid,
    ensures
        o.state != ValidationState::Invalid,
        live_video::mdat_from(facts.init_segment, 0, 0) == Ok::<bool, live_video::WalkDefect>(
            false,
        ),
        d.keys is Ok,
        facts.signer_chain.len() > 0,
        live_video::key_entries(d.keys->Ok_0.value) is Ok,
        opened_session(o, d, facts).0.len() == live_video::key_entries(
            d.keys->Ok_0.value,
        )->Ok_0.len(),
{
    let (keys, start) = opened_session(o, d, facts);
    let n = facts.live.segments@.len() as int;
    let last = session_after(start, n, seeks, d.label, keys, facts);
    lemma_session_extends(start, 0, n, seeks, d.label, keys, facts);
    lemma_live_codes(p);
    let url = "self#jumbf=/c2pa/"@ + d.label;
    let a = if o.state != ValidationState::Invalid {
        o.results
    } else {
        o.results.fail(
            LIVEVIDEO_MANIFEST_INVALID@,
            url,
            "segment manifest failed C2PA validation"@,
        )
    };
    let b = live_video::init_results(facts.init_segment, "self#init-segment"@, a);
    if o.state == ValidationState::Invalid {
        let at = o.results.failure.len() as int;
        assert(a.failure[at].code == LIVEVIDEO_MANIFEST_INVALID@);
        assert(b.failure[at].code == LIVEVIDEO_MANIFEST_INVALID@);
        assert(start.failure[at].code == LIVEVIDEO_MANIFEST_INVALID@);
        assert(last.results.failure[at].code == LIVEVIDEO_MANIFEST_INVALID@);
        assert(verdict::integrity_failure(last.results, p));
    }
    if b.failure.len() > a.failure.len() {
        let at = a.failure.len() as int;
        assert(b.failure[at].code == LIVEVIDEO_INIT_INVALID@);
        assert(start.failure[at].code == LIVEVIDEO_INIT_INVALID@);
        assert(last.results.failure[at].code == LIVEVIDEO_INIT_INVALID@);
        assert(verdict::integrity_failure(last.results, p));
    }
    if start.failure.len() > b.failure.len() {
        let at = b.failure.len() as int;
        assert(start.failure[at].code == LIVEVIDEO_SESSION_KEY_INVALID@);
        assert(last.results.failure[at].code == LIVEVIDEO_SESSION_KEY_INVALID@);
        assert(verdict::integrity_failure(last.results, p));
    }
}

proof fn lemma_live_codes(p: EngineProfile)
    ensures
        verdict::invalidating(LIVEVIDEO_MANIFEST_INVALID@, p),
        verdict::invalidating(LIVEVIDEO_INIT_INVALID@, p),
        verdict::invalidating(LIVEVIDEO_SESSION_KEY_INVALID@, p),
{
    reveal_strlit("livevideo.");
    reveal_strlit("livevideo.manifest.invalid");
    reveal_strlit("livevideo.init.invalid");
    reveal_strlit("livevideo.sessionkey.invalid");
    assert(LIVEVIDEO_MANIFEST_INVALID@.subrange(0, 10) =~= "livevideo."@);
    assert(LIVEVIDEO_INIT_INVALID@.subrange(0, 10) =~= "livevideo."@);
    assert(LIVEVIDEO_SESSION_KEY_INVALID@.subrange(0, 10) =~= "livevideo."@);
    live_video_failures_always_invalidate(LIVEVIDEO_MANIFEST_INVALID@, p);
    live_video_failures_always_invalidate(LIVEVIDEO_INIT_INVALID@, p);
    live_video_failures_always_invalidate(LIVEVIDEO_SESSION_KEY_INVALID@, p);
}

} // verus!
