//! Verification of a manifest store: embedded in an asset, beside it, or
//! against a digest that the caller computed.
//!
//! Verification is generous by default: a format outside the certified scope is
//! read and verified, and noted in conformance analysis. Only a MIME type that
//! maps to no container is an error.
use vstd::prelude::*;
use crate::error::{Refusal, ValidateError};
use crate::exclusions;
use crate::exclusions::{
    has_conformance_additional_exclusions, regular_data_hash_exclusions,
    validate_regular_exclusion_geometry,
};
use crate::json;
use crate::json::{Doc, Json};
use crate::manifest;
use crate::manifest::{manifest_hashes, AssetFormat, ParsedManifest, Recorded, StoreContext};
use crate::output;
use crate::output::{
    append_store_manifests, no_manifest_output, note_additional_exclusions, note_out_of_scope,
    stamp_manifest_store_hash, stamp_profile, Output, SignatureInfo, VerifyOutput, VersionVerdict,
    MAX_REPORT_DECODED_VALUE_NODES,
};
use crate::pipeline;
use crate::pipeline::{verify_manifest, ManifestFacts, ManifestInput, Subject};
use crate::profile::{ComplianceLevel, EngineProfile, OperatingMode, SpecVersion};
use crate::text;
use crate::text::{decimal_string, join2};
use crate::value;
use crate::verdict::ValidationState;

verus! {

/// A manifest store with what its parser reported of it.
#[derive(Debug)]
pub struct StoreReport {
    pub bytes: Vec<u8>,
    /// The manifests in store order, the active one last; or why the store
    /// could not be parsed.
    pub manifests: Result<Vec<ParsedManifest>, String>,
    /// The content of each manifest superbox, or why one could not be read.
    pub contents: Result<Vec<Vec<u8>>, String>,
    /// The signer of each manifest, where it is known.
    pub signers: Vec<Option<SignatureInfo>>,
    /// The decoded contents of the store, rendered as content-credentials JSON.
    pub rendering: Json,
}

/// An asset whose manifest store is to be verified.
pub struct AssetInput<'a> {
    pub mime: &'a str,
    /// The container that the MIME type maps to, where it maps to one.
    pub format: Option<AssetFormat>,
    /// The profile's certified scope holds the MIME type.
    pub permitted: bool,
    /// Data-hash exclusions of the format can be resolved.
    pub hash_mode: bool,
    pub data: &'a [u8],
    pub engine: EngineProfile,
    /// The verification time, in nanoseconds of the Unix epoch.
    pub verification_time: i128,
}

/// An asset as the contracts see it.
pub struct Asset {
    pub mime: Seq<char>,
    pub format: Option<AssetFormat>,
    pub permitted: bool,
    pub hash_mode: bool,
    pub data: Seq<u8>,
    pub engine: EngineProfile,
}

impl<'a> View for AssetInput<'a> {
    type V = Asset;

    open spec fn view(&self) -> Asset {
        Asset {
            mime: self.mime@,
            format: self.format,
            permitted: self.permitted,
            hash_mode: self.hash_mode,
            data: self.data@,
            engine: self.engine,
        }
    }
}

impl Asset {
    /// Conformance analysis of a format outside the certified scope.
    pub open spec fn out_of_scope(self) -> bool {
        self.engine.mode == OperatingMode::Conformance && !self.permitted
    }
}

pub open spec fn outcome_view(r: Result<VerifyOutput, ValidateError>) -> Result<Output, Refusal> {
    match r {
        Ok(o) => Ok(o@),
        Err(e) => Err(e@),
    }
}

// ---------------------------------------------------------------------------
// The manifest carrier
// ---------------------------------------------------------------------------

/// What is wrong with the exclusions of the active data hash in regular mode:
/// every one must describe bytes inside the one resolved manifest carrier.
pub open spec fn carrier_refusal(
    m: ParsedManifest,
    carriers: Result<Vec<(usize, usize)>, String>,
) -> Option<Refusal> {
    match exclusions::regular_exclusions(m) {
        Err(why) => Some(Refusal::HardBinding(why)),
        Ok(None) => None,
        Ok(Some(ranges)) => match carriers {
            Err(e) => Some(Refusal::Format(e@)),
            Ok(spans) => if spans@.len() != 1 {
                Some(
                    Refusal::HardBinding(
                        "expected one resolved manifest carrier, found "@ + text::decimal(
                            spans@.len(),
                        ),
                    ),
                )
            } else if spans@[0].0 + spans@[0].1 > usize::MAX {
                Some(Refusal::HardBinding("resolved carrier output span overflows"@))
            } else if !exclusions::regular_geometry(ranges, spans@[0].0, spans@[0].1) {
                Some(
                    Refusal::HardBinding(
                        "signed exclusion does not fit within resolved carrier output span"@,
                    ),
                )
            } else {
                None
            },
        },
    }
}

/// The data hash excludes bytes beyond the one resolved carrier.
pub open spec fn excludes_more(
    m: ParsedManifest,
    carriers: Result<Vec<(usize, usize)>, String>,
) -> bool {
    match (exclusions::regular_exclusions(m), carriers) {
        (Ok(Some(ranges)), Ok(s)) => s@.len() == 1 && s@[0].0 + s@[0].1 <= usize::MAX
            && exclusions::reaches_outside(ranges, s@[0].0, s@[0].1),
        _ => false,
    }
}

pub open spec fn refusal_opt(r: Result<(), ValidateError>) -> Option<Refusal> {
    match r {
        Ok(_) => None,
        Err(e) => Some(e@),
    }
}

fn check_carrier(m: &ParsedManifest, carriers: &Result<Vec<(usize, usize)>, String>) -> (r: Result<
    (),
    ValidateError,
>)
    ensures
        refusal_opt(r) == carrier_refusal(*m, *carriers),
{
    let ranges = match regular_data_hash_exclusions(m) {
        Ok(Some(ranges)) => ranges,
        Ok(None) => {
            return Ok(());
        },
        Err(e) => {
            return Err(e);
        },
    };
    let spans = match carriers {
        Ok(spans) => spans,
        Err(e) => {
            return Err(ValidateError::Format(e.as_str().to_owned()));
        },
    };
    if spans.len() != 1 {
        let n = decimal_string(spans.len() as u64);
        return Err(
            ValidateError::HardBinding(
                join2("expected one resolved manifest carrier, found ", n.as_str()),
            ),
        );
    }
    let (start, length) = spans[0];
    validate_regular_exclusion_geometry(&ranges, start, length)
}

fn has_more_exclusions(m: &ParsedManifest, carriers: &Result<Vec<(usize, usize)>, String>) -> (r:
    bool)
    ensures
        r == excludes_more(*m, *carriers),
{
    match carriers {
        Ok(spans) => has_conformance_additional_exclusions(m, Some(spans.as_slice())),
        Err(_) => false,
    }
}

// ---------------------------------------------------------------------------
// A store
// ---------------------------------------------------------------------------

/// The active manifest of a store under verification.
pub open spec fn active_subject(
    manifests: Seq<ParsedManifest>,
    hashes: Seq<Recorded>,
    data: Seq<u8>,
    format: AssetFormat,
    prehashed: Option<Seq<u8>>,
    engine: EngineProfile,
    facts: ManifestFacts,
) -> Subject {
    Subject {
        m: manifests.last(),
        manifests,
        hashes,
        data,
        format,
        prehashed,
        engine,
        facts,
    }
}

/// The output with the store listed and its digest recorded.
pub open spec fn with_store_facts(
    o: Output,
    manifests: Seq<ParsedManifest>,
    signers: Seq<Option<SignatureInfo>>,
    bytes: Seq<u8>,
    left: nat,
) -> Output {
    output::with_report_member(
        Output {
            report: output::with_store(
                o.report,
                manifests,
                signers,
                manifests.last().label@,
                left,
            ),
            ..o
        },
        "manifest_store_sha256"@,
        Doc::Text(output::store_hash_text(bytes)),
    )
}

/// The output for a store without manifests.
pub open spec fn empty_store_output(bytes: Seq<u8>, engine: EngineProfile) -> Output {
    output::with_report_member(
        output::absent_output("manifest store contained no manifests"@, engine, true),
        "manifest_store_sha256"@,
        Doc::Text(output::store_hash_text(bytes)),
    )
}

/// The output with the scope noted, where the format is outside it.
pub open spec fn scoped(o: Output, asset: Asset) -> Output {
    if asset.out_of_scope() {
        output::with_scope_note(o, asset.mime)
    } else {
        o
    }
}

/// A finished output: the rendering of the store is attached where the
/// conformance program is the bar, and the profile is stamped on the report.
pub open spec fn completed(o: Output, rendering: Json, engine: EngineProfile) -> Output {
    output::with_report_member(
        Output {
            crjson: if engine.compliance == ComplianceLevel::ConformanceProgram {
                Some(json::doc(rendering))
            } else {
                None
            },
            ..o
        },
        "engine_profile"@,
        output::profile_doc(engine),
    )
}

/// Attach the rendering of the store under the conformance program, whose
/// evidence wants the manifest contents, and stamp the profile.
fn complete(out: &mut VerifyOutput, store: &StoreReport, engine: EngineProfile)
    ensures
        final(out)@ == completed(old(out)@, store.rendering, engine),
{
    out.crjson = match engine.compliance {
        ComplianceLevel::ConformanceProgram => Some(store.rendering.copy()),
        ComplianceLevel::CoreSpec => None,
    };
    stamp_profile(out, engine);
}

/// The facts about the active manifest of `store` fit it.
pub open spec fn store_ready(
    store: StoreReport,
    data: Seq<u8>,
    format: AssetFormat,
    prehashed: Option<Seq<u8>>,
    engine: EngineProfile,
    verification_time: i128,
    facts: ManifestFacts,
) -> bool {
    match store.manifests {
        Ok(manifests) => manifests@.len() > 0 ==> facts.timed(verification_time) && active_subject(
            manifests@,
            Seq::empty(),
            data,
            format,
            prehashed,
            engine,
            facts,
        ).ready(),
        Err(_) => true,
    }
}

/// The verification of the active manifest, with the store listed.
pub open spec fn store_outcome(
    manifests: Seq<ParsedManifest>,
    contents: Seq<Vec<u8>>,
    store: StoreReport,
    data: Seq<u8>,
    format: AssetFormat,
    prehashed: Option<Seq<u8>>,
    engine: EngineProfile,
    facts: ManifestFacts,
    version: VersionVerdict,
) -> Output {
    let subject = active_subject(
        manifests,
        manifest::store_hashes(contents, manifests),
        data,
        format,
        prehashed,
        engine,
        facts,
    );
    with_store_facts(
        pipeline::manifest_output(subject, version, MAX_REPORT_DECODED_VALUE_NODES as nat),
        manifests,
        store.signers@,
        store.bytes@,
        pipeline::manifest_left(subject, MAX_REPORT_DECODED_VALUE_NODES as nat),
    )
}

fn verify_active(
    manifests: &Vec<ParsedManifest>,
    contents: &Vec<Vec<u8>>,
    store: &StoreReport,
    data: &[u8],
    format: AssetFormat,
    prehashed: Option<&[u8]>,
    engine: EngineProfile,
    verification_time: i128,
    facts: &ManifestFacts,
    version: VersionVerdict,
) -> (r: VerifyOutput)
    requires
        manifests@.len() > 0,
        store.manifests == Ok::<Vec<ParsedManifest>, String>(*manifests),
        store_ready(
            *store,
            data@,
            format,
            value::bytes_opt(prehashed),
            engine,
            verification_time,
            *facts,
        ),
    ensures
        r@ == store_outcome(
            manifests@,
            contents@,
            *store,
            data@,
            format,
            value::bytes_opt(prehashed),
            engine,
            *facts,
            version,
        ),
{
    let active = &manifests[manifests.len() - 1];
    let hashes = manifest_hashes(contents.as_slice(), manifests.as_slice());
    let context = StoreContext {
        manifests: manifests.as_slice(),
        manifest_hashes: hashes.as_slice(),
    };
    let input = ManifestInput {
        manifest: active,
        store: &context,
        data,
        format,
        prehashed,
        engine,
        verification_time,
        facts,
    };
    let mut left: usize = MAX_REPORT_DECODED_VALUE_NODES;
    let ghost subject = active_subject(
        manifests@,
        manifest::store_hashes(contents@, manifests@),
        data@,
        format,
        value::bytes_opt(prehashed),
        engine,
        *facts,
    );
    assert(input@ == subject);
    let mut out = verify_manifest(&input, version, &mut left);
    append_store_manifests(
        &mut out.report_json,
        manifests.as_slice(),
        store.signers.as_slice(),
        active.label.as_str(),
        &mut left,
    );
    stamp_manifest_store_hash(&mut out, store.bytes.as_slice());
    out
}

// ---------------------------------------------------------------------------
// What was extracted
// ---------------------------------------------------------------------------

/// The facts about the active manifest fit the asset, where it has one.
pub open spec fn extraction_ready(
    asset: Asset,
    verification_time: i128,
    extracted: Result<Option<StoreReport>, String>,
    facts: ManifestFacts,
) -> bool {
    asset.format matches Some(format) ==> (extracted matches Ok(Some(store)) ==> store_ready(
        store,
        asset.data,
        format,
        None,
        asset.engine,
        verification_time,
        facts,
    ))
}

/// The active manifest of an asset, or why there is no saying.
pub open spec fn active_of(
    asset: Asset,
    extracted: Result<Option<StoreReport>, String>,
) -> Result<Option<ParsedManifest>, Refusal> {
    if asset.format is None {
        Err(Refusal::UnsupportedMime(asset.mime))
    } else {
        match extracted {
            Err(e) => Err(Refusal::Format(e@)),
            Ok(None) => Ok(None),
            Ok(Some(store)) => match store.manifests {
                Err(e) => Err(Refusal::Jumbf(e@)),
                Ok(manifests) => Ok(
                    if manifests@.len() > 0 {
                        Some(manifests@.last())
                    } else {
                        None
                    },
                ),
            },
        }
    }
}

pub open spec fn active_view<'a>(r: Result<Option<&'a ParsedManifest>, ValidateError>) -> Result<
    Option<ParsedManifest>,
    Refusal,
> {
    match r {
        Ok(m) => Ok(value::pointee(m)),
        Err(e) => Err(e@),
    }
}

/// Read the active manifest of an asset.
pub fn read_active<'a>(
    asset: &AssetInput,
    extracted: &'a Result<Option<StoreReport>, String>,
) -> (r: Result<Option<&'a ParsedManifest>, ValidateError>)
    ensures
        active_view(r) == active_of(asset@, *extracted),
{
    if asset.format.is_none() {
        return Err(ValidateError::UnsupportedMime(asset.mime.to_owned()));
    }
    match extracted {
        Err(e) => Err(ValidateError::Format(e.as_str().to_owned())),
        Ok(None) => Ok(None),
        Ok(Some(store)) => match &store.manifests {
            Err(e) => Err(ValidateError::Jumbf(e.as_str().to_owned())),
            Ok(manifests) => if manifests.len() > 0 {
                Ok(Some(&manifests[manifests.len() - 1]))
            } else {
                Ok(None)
            },
        },
    }
}

// ---------------------------------------------------------------------------
// Entry points
// ---------------------------------------------------------------------------

/// The outcome for a store that was found in an asset.
pub open spec fn found_outcome(
    asset: Asset,
    format: AssetFormat,
    store: StoreReport,
    facts: ManifestFacts,
    version: VersionVerdict,
) -> Result<Output, Refusal> {
    match store.manifests {
        Err(e) => Err(Refusal::Jumbf(e@)),
        Ok(manifests) => if manifests@.len() == 0 {
            Ok(scoped(empty_store_output(store.bytes@, asset.engine), asset))
        } else {
            let carriers = facts.asset.carriers;
            let active = manifests@.last();
            let refusal = if asset.engine.mode == OperatingMode::Regular && asset.hash_mode {
                carrier_refusal(active, carriers)
            } else {
                None
            };
            match (refusal, store.contents) {
                (Some(e), _) => Err(e),
                (None, Err(e)) => Err(Refusal::Jumbf(e@)),
                (None, Ok(contents)) => {
                    let o = store_outcome(
                        manifests@,
                        contents@,
                        store,
                        asset.data,
                        format,
                        None,
                        asset.engine,
                        facts,
                        version,
                    );
                    let more = asset.engine.mode == OperatingMode::Conformance
                        && asset.engine.version == SpecVersion::V2_4 && asset.hash_mode
                        && excludes_more(active, carriers);
                    Ok(
                        completed(
                            scoped(
                                if more {
                                    output::with_exclusions_note(o, active.label@)
                                } else {
                                    o
                                },
                                asset,
                            ),
                            store.rendering,
                            asset.engine,
                        ),
                    )
                },
            }
        },
    }
}

/// The outcome of verifying an asset with its embedded store.
pub open spec fn embedded_outcome(
    asset: Asset,
    extracted: Result<Option<StoreReport>, String>,
    facts: ManifestFacts,
    version: VersionVerdict,
) -> Result<Output, Refusal> {
    match asset.format {
        None => Err(Refusal::UnsupportedMime(asset.mime)),
        Some(format) => match extracted {
            Err(e) => Err(Refusal::Format(e@)),
            Ok(None) => Ok(
                scoped(
                    output::absent_output("no C2PA manifest found"@, asset.engine, false),
                    asset,
                ),
            ),
            Ok(Some(store)) => found_outcome(asset, format, store, facts, version),
        },
    }
}

/// Verify the manifest store that was extracted from an asset.
///
/// In regular mode every data-hash exclusion must describe bytes inside the
/// resolved manifest carrier, so a signed assertion cannot make host bytes
/// mutable.
pub fn verify(
    asset: &AssetInput,
    extracted: &Result<Option<StoreReport>, String>,
    facts: &ManifestFacts,
    version: VersionVerdict,
) -> (r: Result<VerifyOutput, ValidateError>)
    requires
        extraction_ready(asset@, asset.verification_time, *extracted, *facts),
    ensures
        outcome_view(r) == embedded_outcome(asset@, *extracted, *facts, version),
{
    let format = match asset.format {
        Some(format) => format,
        None => {
            return Err(ValidateError::UnsupportedMime(asset.mime.to_owned()));
        },
    };
    let out_of_scope = asset.engine.mode == OperatingMode::Conformance && !asset.permitted;
    let store = match extracted {
        Err(e) => {
            return Err(ValidateError::Format(e.as_str().to_owned()));
        },
        Ok(None) => {
            let mut out = no_manifest_output("no C2PA manifest found", asset.engine, false);
            if out_of_scope {
                note_out_of_scope(&mut out, asset.mime);
            }
            return Ok(out);
        },
        Ok(Some(store)) => store,
    };
    let manifests = match &store.manifests {
        Err(e) => {
            return Err(ValidateError::Jumbf(e.as_str().to_owned()));
        },
        Ok(manifests) => manifests,
    };
    if manifests.len() == 0 {
        let mut out = no_manifest_output(
            "manifest store contained no manifests",
            asset.engine,
            true,
        );
        stamp_manifest_store_hash(&mut out, store.bytes.as_slice());
        if out_of_scope {
            note_out_of_scope(&mut out, asset.mime);
        }
        return Ok(out);
    }
    let active = &manifests[manifests.len() - 1];
    let carriers = &facts.asset.carriers;
    if asset.engine.mode == OperatingMode::Regular && asset.hash_mode {
        if let Err(e) = check_carrier(active, carriers) {
            return Err(e);
        }
    }
    let more = asset.engine.mode == OperatingMode::Conformance && asset.engine.version
        == SpecVersion::V2_4 && asset.hash_mode && has_more_exclusions(active, carriers);
    let contents = match &store.contents {
        Ok(contents) => contents,
        Err(e) => {
            return Err(ValidateError::Jumbf(e.as_str().to_owned()));
        },
    };
    let mut out = verify_active(
        manifests,
        contents,
        store,
        asset.data,
        format,
        None,
        asset.engine,
        asset.verification_time,
        facts,
        version,
    );
    if more {
        note_additional_exclusions(&mut out, active.label.as_str());
    }
    if out_of_scope {
        note_out_of_scope(&mut out, asset.mime);
    }
    complete(&mut out, store, asset.engine);
    Ok(out)
}

/// The output with the scope noted, where the lane notes it.
pub open spec fn lane_scoped(o: Output, asset: Asset, prehashed: Option<Seq<u8>>) -> Output {
    if prehashed is None {
        scoped(o, asset)
    } else {
        o
    }
}

/// The outcome of verifying a store beside its asset, or against a digest. The
/// scope is noted of an asset alone.
pub open spec fn sidecar_outcome(
    asset: Asset,
    store: StoreReport,
    prehashed: Option<Seq<u8>>,
    facts: ManifestFacts,
    version: VersionVerdict,
) -> Result<Output, Refusal> {
    match asset.format {
        None => Err(Refusal::UnsupportedMime(asset.mime)),
        Some(format) => if format == AssetFormat::C2paStore {
            Err(Refusal::UnsupportedMime(asset.mime))
        } else {
            match store.manifests {
                Err(e) => Err(Refusal::Jumbf(e@)),
                Ok(manifests) => if manifests@.len() == 0 {
                    Ok(
                        lane_scoped(
                            empty_store_output(store.bytes@, asset.engine),
                            asset,
                            prehashed,
                        ),
                    )
                } else {
                    match store.contents {
                        Err(e) => Err(Refusal::Jumbf(e@)),
                        Ok(contents) => Ok(
                            completed(
                                lane_scoped(
                                    store_outcome(
                                        manifests@,
                                        contents@,
                                        store,
                                        asset.data,
                                        format,
                                        prehashed,
                                        asset.engine,
                                        facts,
                                        version,
                                    ),
                                    asset,
                                    prehashed,
                                ),
                                store.rendering,
                                asset.engine,
                            ),
                        ),
                    }
                },
            }
        },
    }
}

fn verify_sidecar(
    asset: &AssetInput,
    store: &StoreReport,
    prehashed: Option<&[u8]>,
    facts: &ManifestFacts,
    version: VersionVerdict,
) -> (r: Result<VerifyOutput, ValidateError>)
    requires
        asset.format matches Some(format) ==> store_ready(
            *store,
            asset.data@,
            format,
            value::bytes_opt(prehashed),
            asset.engine,
            asset.verification_time,
            *facts,
        ),
    ensures
        outcome_view(r) == sidecar_outcome(
            asset@,
            *store,
            value::bytes_opt(prehashed),
            *facts,
            version,
        ),
{
    let format = match asset.format {
        Some(format) => format,
        None => {
            return Err(ValidateError::UnsupportedMime(asset.mime.to_owned()));
        },
    };
    if format == AssetFormat::C2paStore {
        return Err(ValidateError::UnsupportedMime(asset.mime.to_owned()));
    }
    let out_of_scope = prehashed.is_none() && asset.engine.mode == OperatingMode::Conformance
        && !asset.permitted;
    let manifests = match &store.manifests {
        Err(e) => {
            return Err(ValidateError::Jumbf(e.as_str().to_owned()));
        },
        Ok(manifests) => manifests,
    };
    if manifests.len() == 0 {
        let mut out = no_manifest_output(
            "manifest store contained no manifests",
            asset.engine,
            true,
        );
        stamp_manifest_store_hash(&mut out, store.bytes.as_slice());
        if out_of_scope {
            note_out_of_scope(&mut out, asset.mime);
        }
        return Ok(out);
    }
    let contents = match &store.contents {
        Ok(contents) => contents,
        Err(e) => {
            return Err(ValidateError::Jumbf(e.as_str().to_owned()));
        },
    };
    let mut out = verify_active(
        manifests,
        contents,
        store,
        asset.data,
        format,
        prehashed,
        asset.engine,
        asset.verification_time,
        facts,
        version,
    );
    if out_of_scope {
        note_out_of_scope(&mut out, asset.mime);
    }
    complete(&mut out, store, asset.engine);
    Ok(out)
}

/// Verify a detached store against its external content.
///
/// The hard binding is evaluated against the content exactly as for an embedded
/// store. The content side must be a real asset: a host-less store is rejected.
pub fn verify_detached(
    content: &AssetInput,
    store: &StoreReport,
    facts: &ManifestFacts,
    version: VersionVerdict,
) -> (r: Result<VerifyOutput, ValidateError>)
    requires
        content.format matches Some(format) ==> store_ready(
            *store,
            content.data@,
            format,
            None,
            content.engine,
            content.verification_time,
            *facts,
        ),
    ensures
        outcome_view(r) == sidecar_outcome(content@, *store, None, *facts, version),
{
    verify_sidecar(content, store, None, facts, version)
}

/// Verify a detached store against a hard-binding digest that the caller
/// computed. Only the asset hashing step is replaced.
pub fn verify_prehashed_manifest(
    content: &AssetInput,
    store: &StoreReport,
    hard_binding_digest: &[u8],
    facts: &ManifestFacts,
    version: VersionVerdict,
) -> (r: Result<VerifyOutput, ValidateError>)
    requires
        content.format matches Some(format) ==> store_ready(
            *store,
            content.data@,
            format,
            Some(hard_binding_digest@),
            content.engine,
            content.verification_time,
            *facts,
        ),
    ensures
        outcome_view(r) == sidecar_outcome(
            content@,
            *store,
            Some(hard_binding_digest@),
            *facts,
            version,
        ),
{
    verify_sidecar(content, store, Some(hard_binding_digest), facts, version)
}

// ---------------------------------------------------------------------------
// Laws
// ---------------------------------------------------------------------------

/// Where a store that holds a manifest is verified in an asset, the rendering of
/// the store comes with the output exactly under the conformance program.
pub proof fn rendering_comes_with_the_program(
    asset: Asset,
    store: StoreReport,
    facts: ManifestFacts,
    version: VersionVerdict,
)
    requires
        store.manifests matches Ok(manifests) && manifests@.len() > 0,
    ensures
        embedded_outcome(asset, Ok(Some(store)), facts, version) matches Ok(o) ==> o.crjson == if asset.engine.compliance
            == ComplianceLevel::ConformanceProgram {
            Some(json::doc(store.rendering))
        } else {
            None
        },
{
}

/// The same holds of a store beside its asset, and against a digest.
pub proof fn sidecar_rendering_comes_with_the_program(
    asset: Asset,
    store: StoreReport,
    prehashed: Option<Seq<u8>>,
    facts: ManifestFacts,
    version: VersionVerdict,
)
    requires
        store.manifests matches Ok(manifests) && manifests@.len() > 0,
    ensures
        sidecar_outcome(asset, store, prehashed, facts, version) matches Ok(o) ==> o.crjson == if asset.engine.compliance
            == ComplianceLevel::ConformanceProgram {
            Some(json::doc(store.rendering))
        } else {
            None
        },
{
}

/// A manifest that was verified has a state of its own: absence is reported only
/// of an asset or a store without one.
pub proof fn verified_manifests_are_present(
    asset: Asset,
    store: StoreReport,
    facts: ManifestFacts,
    version: VersionVerdict,
)
    requires
        store.manifests matches Ok(manifests) && manifests@.len() > 0,
    ensures
        embedded_outcome(asset, Ok(Some(store)), facts, version) matches Ok(o) ==> o.state
            != ValidationState::Absent,
{
}

/// The active manifest of a store is its last one, and what is reported of an
/// asset is what verifying that manifest against the asset's own bytes comes to:
/// the same state, the same successes and the same failures. An asset without a
/// store, or with an empty one, is reported as having no manifest.
pub proof fn assets_are_judged_by_their_last_manifest(
    asset: Asset,
    extracted: Result<Option<StoreReport>, String>,
    facts: ManifestFacts,
    version: VersionVerdict,
    o: Output,
)
    requires
        embedded_outcome(asset, extracted, facts, version) == Ok::<Output, Refusal>(o),
    ensures
        extracted is Ok,
        asset.format is Some,
        extracted->Ok_0 is Some ==> extracted->Ok_0->0.manifests is Ok,
        extracted->Ok_0 is Some && extracted->Ok_0->0.manifests->Ok_0@.len() > 0 ==> ({
            let store = extracted->Ok_0->0;
            let manifests = store.manifests->Ok_0@;
            let subject = Subject {
                m: manifests[manifests.len() - 1],
                manifests,
                hashes: manifest::store_hashes(store.contents->Ok_0@, manifests),
                data: asset.data,
                format: asset.format->0,
                prehashed: None,
                engine: asset.engine,
                facts,
            };
            let alone = pipeline::manifest_output(
                subject,
                version,
                MAX_REPORT_DECODED_VALUE_NODES as nat,
            );
            &&& o.state == alone.state
            &&& o.results.success == alone.results.success
            &&& o.results.failure == alone.results.failure
        }),
        extracted->Ok_0 is None ==> (o.state == ValidationState::Absent || o.state
            == ValidationState::Invalid) && o.results.success.len() == 0,
        extracted->Ok_0 is Some && extracted->Ok_0->0.manifests->Ok_0@.len() == 0 ==> o.state
            == ValidationState::Invalid && o.results.success.len() == 0,
{
}

/// In the regular mode no data hash makes bytes of the host mutable: where an
/// asset whose one binding is a data hash is verified, there is exactly one
/// resolved carrier, and every range that the hash excludes lies inside it.
pub proof fn regular_exclusions_stay_in_the_carrier(
    asset: Asset,
    store: StoreReport,
    facts: ManifestFacts,
    version: VersionVerdict,
    ranges: Seq<(usize, usize)>,
    i: int,
)
    requires
        asset.engine.mode == OperatingMode::Regular,
        asset.hash_mode,
        store.manifests is Ok,
        store.manifests->Ok_0@.len() > 0,
        embedded_outcome(asset, Ok(Some(store)), facts, version) is Ok,
        exclusions::regular_exclusions(store.manifests->Ok_0@.last()) == Ok::<
            Option<Seq<(usize, usize)>>,
            Seq<char>,
        >(Some(ranges)),
        0 <= i < ranges.len(),
    ensures
        facts.asset.carriers is Ok,
        facts.asset.carriers->Ok_0@.len() == 1,
        ({
            let c = facts.asset.carriers->Ok_0@[0];
            c.0 <= ranges[i].0 && ranges[i].0 + ranges[i].1 <= c.0 + c.1
        }),
{
    let c = facts.asset.carriers->Ok_0@[0];
    assert(!exclusions::reaches_outside(ranges, c.0, c.1));
    assert(exclusions::inside_carrier(ranges[i], c.0, c.1));
}

} // verus!
