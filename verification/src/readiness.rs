//! Whether reported facts fit the store and the asset that they speak of: what
//! a caller tests before it hands them to the verifier.
use vstd::prelude::*;
use crate::binding;
use crate::binding::{fallback_payload_of, AssetFacts};
use crate::boxes;
use crate::boxes::SpanReport;
use crate::claim_refs;
use crate::claim_refs::ClaimAssertionRefs;
use crate::collection;
use crate::collection::{ZipEntry, ZipFacts};
use crate::credential::judging_time;
use crate::manifest::{AssetFormat, ParsedManifest};
use crate::multi_asset;
use crate::multi_asset::{locate_parts, LocatedPart, PartFacts};
use crate::ocsp::CertificatePool;
use crate::pdf_history;
use crate::pdf_history::{needs_verification, PdfManifestStoreSection, Rendition};
use crate::pipeline::ManifestFacts;
use crate::profile::EngineProfile;
use crate::session;
use crate::session::{select_lane, Lane, StreamInput};
use crate::stream::SegmentAsset;
use crate::value;
use crate::value::Value;
use crate::verify;
use crate::verify::{AssetInput, StoreReport};

verus! {

/// Whether reported spans lie inside `len` bytes, one behind the other.
pub fn spans_fit(report: &SpanReport, len: usize) -> (r: bool)
    ensures
        r == report.wf(len as nat),
{
    let spans = match report {
        SpanReport::Segmented(spans) => spans,
        _ => {
            return true;
        },
    };
    let mut furthest: usize = 0;
    let ghost mut at: int = -1;
    let mut i: usize = 0;
    while i < spans.len()
        invariant
            i <= spans.len(),
            *report == SpanReport::Segmented(*spans),
            boxes::spans_wf(spans@.take(i as int), len as nat),
            forall|k: int| 0 <= k < i ==> (#[trigger] spans@[k]).start <= furthest,
            i > 0 ==> 0 <= at < i && spans@[at].start == furthest,
        decreases spans.len() - i,
    {
        if i == 0 || spans[i].start > furthest {
            furthest = spans[i].start;
            proof {
                at = i as int;
            }
        }
        if furthest > spans[i].end || spans[i].end > len {
            assert(spans@[at].start > spans@[i as int].end || spans@[i as int].end > len);
            return false;
        }
        let ghost before = spans@.take(i as int);
        i += 1;
        let ghost now = spans@.take(i as int);
        assert forall|a: int, b: int| 0 <= a <= b < now.len() implies (#[trigger] now[a]).start
            <= (#[trigger] now[b]).end && now[b].end <= len by {
            if b < i - 1 {
                assert(before[a] == now[a] && before[b] == now[b]);
            } else {
                assert(spans@[a].start <= furthest);
            }
        }
    }
    assert(spans@.take(i as int) =~= spans@);
    true
}

fn span_fits(s: (usize, usize), len: usize) -> (r: bool)
    ensures
        r == collection::span_wf(s, len as nat),
{
    s.0 <= s.1 && s.1 <= len
}

fn entry_fits(e: &ZipEntry, len: usize) -> (r: bool)
    ensures
        r == collection::entry_wf(*e, len as nat),
{
    let hashed = match &e.hash_span {
        Ok(s) => span_fits(*s, len),
        Err(_) => true,
    };
    let local = match &e.local_span {
        Some(s) => span_fits(*s, len),
        None => true,
    };
    hashed && local
}

fn zip_fits(zip: &ZipFacts, len: usize) -> (r: bool)
    ensures
        r == zip.wf(len as nat),
{
    if let Some(parts) = &zip.central {
        let mut i: usize = 0;
        while i < parts.len()
            invariant
                i <= parts.len(),
                zip.central == Some(*parts),
                forall|k: int|
                    0 <= k < i ==> collection::span_wf(#[trigger] parts@[k], len as nat),
            decreases parts.len() - i,
        {
            if !span_fits(parts[i], len) {
                assert(!collection::span_wf(zip.central->0@[i as int], len as nat));
                return false;
            }
            i += 1;
        }
    }
    let mut i: usize = 0;
    while i < zip.entries.len()
        invariant
            i <= zip.entries.len(),
            forall|k: int|
                0 <= k < i ==> collection::entry_wf(#[trigger] zip.entries@[k], len as nat),
        decreases zip.entries.len() - i,
    {
        if !entry_fits(&zip.entries[i], len) {
            assert(!collection::entry_wf(zip.entries@[i as int], len as nat));
            return false;
        }
        i += 1;
    }
    true
}

fn pool_fits(pool: &CertificatePool) -> (r: bool)
    ensures
        r == pool.wf(),
{
    let n = pool.certificates.len();
    if pool.chain_len > n || pool.issuers.len() != n {
        return false;
    }
    let mut i: usize = 0;
    while i < n
        invariant
            i <= n,
            n == pool.certificates@.len(),
            n == pool.issuers@.len(),
            forall|k: int|
                0 <= k < i ==> ((#[trigger] pool.issuers@[k]) matches Some(j) ==> j < n),
        decreases n - i,
    {
        if let Some(j) = pool.issuers[i] {
            if j >= n {
                assert(pool.issuers@[i as int] == Some(j));
                return false;
            }
        }
        i += 1;
    }
    true
}

fn parts_fit(parts: &Vec<LocatedPart>, facts: &Vec<PartFacts>) -> (r: bool)
    ensures
        r == multi_asset::facts_fit(multi_asset::part_views(parts@), facts@),
{
    let ghost views = multi_asset::part_views(parts@);
    assert(views.len() == parts@.len());
    if facts.len() < parts.len() {
        return false;
    }
    let mut i: usize = 0;
    while i < parts.len()
        invariant
            i <= parts.len(),
            parts@.len() <= facts@.len(),
            views == multi_asset::part_views(parts@),
            views.len() == parts@.len(),
            forall|k: int|
                0 <= k < i ==> ((#[trigger] facts@[k]).spans matches Some(report) ==> report.wf(
                    views[k].place.content_length as nat,
                )),
        decreases parts.len() - i,
    {
        assert(views[i as int] == parts@[i as int]@);
        if let Some(report) = &facts[i].spans {
            let (_, length) = parts[i].locator.content_bounds();
            if !spans_fit(report, length) {
                assert(facts@[i as int].spans == Some(*report));
                return false;
            }
        }
        i += 1;
    }
    true
}

fn asset_fits(
    m: &ParsedManifest,
    claim: &Value,
    data: &[u8],
    format: AssetFormat,
    facts: &AssetFacts,
) -> (r: bool)
    ensures
        r == binding::facts_ready(
            *claim,
            claim_refs::refs_of(*m, *claim, m.generation),
            data@,
            format,
            *facts,
            m.label@,
        ),
{
    let len = data.len();
    if !spans_fit(&facts.spans, len) || !zip_fits(&facts.zip, len) {
        return false;
    }
    let refs = ClaimAssertionRefs::build(m, claim, m.generation);
    match fallback_payload_of(&refs) {
        None => true,
        Some(p) => {
            let ma: Option<&Value> = match &p.value {
                Some(v) => Some(v),
                None => None,
            };
            match locate_parts(
                ma,
                claim,
                &refs,
                data,
                format,
                m.label.as_str(),
                &facts.multi_asset.locator_ranges,
            ) {
                Ok(parts) => parts_fit(&parts, &facts.multi_asset.parts),
                Err(_) => true,
            }
        },
    }
}

fn times_fit(facts: &ManifestFacts, verification_time: i128) -> (r: bool)
    ensures
        r == facts.timed(verification_time),
{
    let (trusted, at) = judging_time(&facts.timestamp, verification_time);
    facts.credential.judged_at == at && facts.ocsp.signed_at == trusted
        && facts.ocsp.verification_time == verification_time && facts.online.verification_time
        == verification_time && facts.identity.judged_at == at
        && facts.identity.claim_timestamp == trusted
}

/// Whether the facts about the active manifest of `store` fit it: every one was
/// established at the instant that it calls for, and every reported span lies
/// inside what it was reported of.
pub fn facts_fit_store(
    store: &StoreReport,
    data: &[u8],
    format: AssetFormat,
    prehashed: Option<&[u8]>,
    engine: EngineProfile,
    verification_time: i128,
    facts: &ManifestFacts,
) -> (r: bool)
    ensures
        r == verify::store_ready(
            *store,
            data@,
            format,
            value::bytes_opt(prehashed),
            engine,
            verification_time,
            *facts,
        ),
{
    let manifests = match &store.manifests {
        Ok(manifests) => manifests,
        Err(_) => {
            return true;
        },
    };
    if manifests.len() == 0 {
        return true;
    }
    let m = &manifests[manifests.len() - 1];
    if !times_fit(facts, verification_time) || !pool_fits(&facts.pool) {
        return false;
    }
    match &m.claim {
        Some(p) => match &p.value {
            Some(claim) => asset_fits(m, claim, data, format, &facts.asset),
            None => true,
        },
        None => true,
    }
}

/// Whether the facts fit what was extracted from an asset.
pub fn facts_fit_asset(
    asset: &AssetInput,
    extracted: &Result<Option<StoreReport>, String>,
    facts: &ManifestFacts,
) -> (r: bool)
    ensures
        r == session::extracted_ready(*asset, *extracted, *facts),
{
    match asset.format {
        Some(format) => match extracted {
            Ok(Some(store)) => facts_fit_store(
                store,
                asset.data,
                format,
                None,
                asset.engine,
                asset.verification_time,
                facts,
            ),
            _ => true,
        },
        None => true,
    }
}

/// Whether every segment of a per-segment stream stands on its own under `p`,
/// with facts that fit it, and there is one for the init segment and one for
/// each of the `media` segments.
pub fn segments_fit(segments: &[SegmentAsset], p: EngineProfile, media: usize) -> (r: bool)
    ensures
        r == (segments@.len() == media + 1 && forall|i: int|
            0 <= i < segments@.len() ==> (#[trigger] segments@[i]).ready(p)),
{
    if segments.len() == 0 || segments.len() - 1 != media {
        return false;
    }
    let mut i: usize = 0;
    while i < segments.len()
        invariant
            i <= segments.len(),
            forall|k: int| 0 <= k < i ==> (#[trigger] segments@[k]).ready(p),
        decreases segments.len() - i,
    {
        let s = &segments[i];
        if s.asset.engine != p || s.facts.asset.fragments.len() != 0 || !facts_fit_asset(
            &s.asset,
            &s.extracted,
            &s.facts,
        ) {
            assert(!segments@[i as int].ready(p));
            return false;
        }
        i += 1;
    }
    true
}

/// Whether what is known of a stream fits it, as far as its lane asks.
pub fn stream_fits(s: &StreamInput, segments: &[SegmentAsset]) -> (r: bool)
    ensures
        r == s.ready(segments@),
{
    let media = s.segment_defects.len();
    match select_lane(s.method, s.init, s.extracted, s.expected_seek_positions, media) {
        Err(_) => true,
        Ok(Lane::LiveSession) => facts_fit_asset(s.init, s.extracted, s.alone)
            && s.alone.asset.fragments.len() == 0 && s.live.segments.len() == media,
        Ok(Lane::Merkle) => facts_fit_asset(s.init, s.extracted, s.fragmented)
            && s.fragmented.asset.fragments.len() == media,
        Ok(Lane::PerSegment) => segments_fit(segments, s.init.engine, media),
    }
}

fn rendition_fits(
    asset: &AssetInput,
    s: &PdfManifestStoreSection,
    rendition: &Option<Rendition>,
) -> (r: bool)
    ensures
        r == pdf_history::rendition_ready(*asset, *s, *rendition),
{
    if !needs_verification(s, asset.data.len()) {
        return true;
    }
    match rendition {
        None => false,
        Some(h) => {
            let past = AssetInput {
                mime: asset.mime,
                format: asset.format,
                permitted: asset.permitted,
                hash_mode: asset.hash_mode,
                data: vstd::slice::slice_subrange(asset.data, 0, s.section_end),
                engine: asset.engine,
                verification_time: asset.verification_time,
            };
            assert(past@ == pdf_history::rendition_asset(asset@, *s));
            h.facts.asset.fragments.len() == 0 && facts_fit_asset(&past, &h.extracted, &h.facts)
        },
    }
}

/// Whether what is known of the renditions of a PDF fits its update sections.
pub fn renditions_fit(
    asset: &AssetInput,
    sections: &[PdfManifestStoreSection],
    renditions: &[Option<Rendition>],
) -> (r: bool)
    ensures
        r == pdf_history::renditions_ready(*asset, sections@, renditions@),
{
    if renditions.len() != sections.len() {
        return false;
    }
    let mut i: usize = 0;
    while i < sections.len()
        invariant
            i <= sections.len(),
            renditions@.len() == sections@.len(),
            forall|k: int|
                0 <= k < i ==> pdf_history::rendition_ready(
                    *asset,
                    #[trigger] sections@[k],
                    renditions@[k],
                ),
        decreases sections.len() - i,
    {
        if !rendition_fits(asset, &sections[i], &renditions[i]) {
            assert(!pdf_history::rendition_ready(
                *asset,
                sections@[i as int],
                renditions@[i as int],
            ));
            return false;
        }
        i += 1;
    }
    true
}

} // verus!
