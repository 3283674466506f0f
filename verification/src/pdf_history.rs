//! The incremental-update history of a PDF.
//!
//! Each retained manifest store is verified against the exact historical
//! rendition that ends at its own update section. A malformed later store is a
//! failure of that section and cannot discard an earlier valid result.
use vstd::prelude::*;
use crate::error::{Refusal, ValidateError};
use crate::json;
use crate::json::{object2, object3, object4, Doc, Json};
use crate::output;
use crate::output::{no_manifest_output, restate_results, Output, VerifyOutput, VersionVerdict};
use crate::pipeline::ManifestFacts;
use crate::profile::EngineProfile;
use crate::session;
use crate::stream::reversed;
use crate::status::{Results, ValidationResults, MANIFEST_INACCESSIBLE};
use crate::value;
use crate::verdict::ValidationState;
use crate::verify;
use crate::verify::{verify, AssetInput, StoreReport};

verus! {

/// One update section of a PDF that holds a manifest store.
#[derive(Debug)]
pub struct PdfManifestStoreSection {
    pub section_index: usize,
    /// The length of the rendition that ends with this section.
    pub section_end: usize,
    /// Why the section's store cannot be reached, where it cannot.
    pub defect: Option<String>,
}

/// What is known of the historical rendition that ends with a section: what was
/// extracted from it, and the facts about its active manifest.
pub struct Rendition {
    pub extracted: Result<Option<StoreReport>, String>,
    pub facts: ManifestFacts,
    pub version: VersionVerdict,
}

/// The historical rendition of an asset that ends with the section `s`.
pub open spec fn rendition_asset(asset: verify::Asset, s: PdfManifestStoreSection) -> verify::Asset {
    verify::Asset { data: asset.data.subrange(0, s.section_end as int), ..asset }
}

/// What is known of the section fits its rendition, where that has to be
/// verified.
pub open spec fn rendition_ready(
    asset: AssetInput,
    s: PdfManifestStoreSection,
    rendition: Option<Rendition>,
) -> bool {
    historical(s, asset.data@.len()) ==> (rendition matches Some(h) && h.facts.asset.fragments@.len()
        == 0 && verify::extraction_ready(
        rendition_asset(asset@, s),
        asset.verification_time,
        h.extracted,
        h.facts,
    ))
}

/// What is known of the sections fits their renditions.
pub open spec fn renditions_ready(
    asset: AssetInput,
    sections: Seq<PdfManifestStoreSection>,
    renditions: Seq<Option<Rendition>>,
) -> bool {
    &&& renditions.len() == sections.len()
    &&& forall|i: int|
        0 <= i < sections.len() ==> rendition_ready(asset, #[trigger] sections[i], renditions[i])
}

/// The section is a historical rendition that has to be verified on its own.
pub open spec fn historical(s: PdfManifestStoreSection, data_len: nat) -> bool {
    s.defect is None && s.section_end < data_len
}

/// Whether the section is a historical rendition that has to be verified on its
/// own.
pub fn needs_verification(s: &PdfManifestStoreSection, data_len: usize) -> (r: bool)
    ensures
        r == historical(*s, data_len as nat),
{
    s.defect.is_none() && s.section_end < data_len
}

/// One inaccessible store.
pub open spec fn inaccessible_doc(why: Seq<char>) -> Doc {
    Doc::Array(
        seq![
            Doc::Object(
                seq![
                    ("code"@, Doc::Text(MANIFEST_INACCESSIBLE@)),
                    ("url"@, Doc::Text("self#jumbf"@)),
                    ("explanation"@, Doc::Text(why)),
                ],
            ),
        ],
    )
}

/// A section whose store cannot be reached.
pub open spec fn failed_section(s: PdfManifestStoreSection, why: Seq<char>) -> Doc {
    Doc::Object(
        seq![
            ("section_index"@, Doc::Integer(s.section_index as int)),
            ("section_end"@, Doc::Integer(s.section_end as int)),
            ("validation_state"@, Doc::Text("Invalid"@)),
            ("validation_status"@, inaccessible_doc(why)),
        ],
    )
}

/// A section that was verified.
pub open spec fn verified_section(
    s: PdfManifestStoreSection,
    state: ValidationState,
    report: Doc,
) -> Doc {
    Doc::Object(
        seq![
            ("section_index"@, Doc::Integer(s.section_index as int)),
            ("section_end"@, Doc::Integer(s.section_end as int)),
            ("validation_state"@, Doc::Text(state.text())),
            ("report"@, report),
        ],
    )
}

/// One section of the history, or why its own rendition could not be verified.
/// A historical section is verified against exactly the bytes that end with it.
#[verifier::opaque]
pub open spec fn section_doc(
    s: PdfManifestStoreSection,
    rendition: Option<Rendition>,
    o: Output,
    asset: verify::Asset,
) -> Result<Doc, Refusal> {
    match s.defect {
        Some(why) => Ok(failed_section(s, why@)),
        None => if s.section_end == asset.data.len() {
            Ok(verified_section(s, o.state, o.report))
        } else if s.section_end > asset.data.len() {
            Ok(failed_section(s, "PDF update boundary exceeds asset"@))
        } else {
            match rendition {
                Some(h) => match verify::embedded_outcome(
                    rendition_asset(asset, s),
                    h.extracted,
                    h.facts,
                    h.version,
                ) {
                    Ok(past) => Ok(verified_section(s, past.state, past.report)),
                    Err(e) => Err(e),
                },
                None => Ok(Doc::Null),
            }
        },
    }
}

/// The first `k` sections of the history, or why the first of them that could
/// not be verified was refused.
pub open spec fn history_docs(
    sections: Seq<PdfManifestStoreSection>,
    k: int,
    renditions: Seq<Option<Rendition>>,
    o: Output,
    asset: verify::Asset,
) -> Result<Seq<Doc>, Refusal>
    decreases k,
{
    if k <= 0 {
        Ok(Seq::empty())
    } else {
        match history_docs(sections, k - 1, renditions, o, asset) {
            Err(e) => Err(e),
            Ok(docs) => match section_doc(sections[k - 1], renditions[k - 1], o, asset) {
                Err(e) => Err(e),
                Ok(d) => Ok(docs.push(d)),
            },
        }
    }
}

/// The output with its history attached.
pub open spec fn with_history(
    o: Output,
    sections: Seq<PdfManifestStoreSection>,
    inventory_error: Option<Seq<char>>,
    renditions: Seq<Option<Rendition>>,
    asset: verify::Asset,
) -> Result<Output, Refusal> {
    match inventory_error {
        Some(why) => Ok(
            output::with_report_member(
                o,
                "pdf_incremental_history"@,
                Doc::Array(
                    seq![
                        Doc::Object(
                            seq![
                                ("validation_state"@, Doc::Text("Invalid"@)),
                                ("validation_status"@, inaccessible_doc(why)),
                            ],
                        ),
                    ],
                ),
            ),
        ),
        None => if sections.len() == 0 {
            Ok(o)
        } else {
            match history_docs(sections, sections.len() as int, renditions, o, asset) {
                Err(e) => Err(e),
                Ok(docs) => Ok(
                    output::with_report_member(o, "pdf_incremental_history"@, Doc::Array(docs)),
                ),
            }
        },
    }
}

fn single(item: Json) -> (r: Json)
    ensures
        json::doc(r) == Doc::Array(seq![json::doc(item)]),
{
    let mut items: Vec<Json> = Vec::new();
    items.push(item);
    assert(json::docs(items@) =~= seq![json::doc(item)]);
    Json::array(items)
}

fn inaccessible_json(why: &str) -> (r: Json)
    ensures
        json::doc(r) == inaccessible_doc(why@),
{
    single(
        object3(
            ("code", Json::text(MANIFEST_INACCESSIBLE)),
            ("url", Json::text("self#jumbf")),
            ("explanation", Json::text(why)),
        ),
    )
}

fn failed_section_json(s: &PdfManifestStoreSection, why: &str) -> (r: Json)
    ensures
        json::doc(r) == failed_section(*s, why@),
{
    object4(
        ("section_index", Json::Integer(s.section_index as i128)),
        ("section_end", Json::Integer(s.section_end as i128)),
        ("validation_state", Json::text("Invalid")),
        ("validation_status", inaccessible_json(why)),
    )
}

fn verified_section_json(s: &PdfManifestStoreSection, state: ValidationState, report: Json) -> (r:
    Json)
    ensures
        json::doc(r) == verified_section(*s, state, json::doc(report)),
{
    object4(
        ("section_index", Json::Integer(s.section_index as i128)),
        ("section_end", Json::Integer(s.section_end as i128)),
        ("validation_state", Json::text(state.as_str())),
        ("report", report),
    )
}

/// A rendered section as the contracts see it.
pub open spec fn doc_view(r: Result<Json, ValidateError>) -> Result<Doc, Refusal> {
    match r {
        Ok(j) => Ok(json::doc(j)),
        Err(e) => Err(e@),
    }
}

fn section_json(
    s: &PdfManifestStoreSection,
    rendition: Option<Rendition>,
    out: &VerifyOutput,
    asset: &AssetInput,
) -> (r: Result<Json, ValidateError>)
    requires
        rendition_ready(*asset, *s, rendition),
    ensures
        doc_view(r) == section_doc(*s, rendition, out@, asset@),
{
    proof {
        reveal(section_doc);
    }
    if let Some(why) = &s.defect {
        return Ok(failed_section_json(s, why.as_str()));
    }
    if s.section_end == asset.data.len() {
        return Ok(verified_section_json(s, out.validation_state, out.report_json.copy()));
    }
    if s.section_end > asset.data.len() {
        return Ok(failed_section_json(s, "PDF update boundary exceeds asset"));
    }
    match rendition {
        Some(h) => {
            let Rendition { extracted, facts, version } = h;
            let past = AssetInput {
                mime: asset.mime,
                format: asset.format,
                permitted: asset.permitted,
                hash_mode: asset.hash_mode,
                data: vstd::slice::slice_subrange(asset.data, 0, s.section_end),
                engine: asset.engine,
                verification_time: asset.verification_time,
            };
            assert(past@ == rendition_asset(asset@, *s));
            match verify(&past, &extracted, &facts, version) {
                Ok(past) => Ok(verified_section_json(s, past.validation_state, past.report_json)),
                Err(e) => Err(e),
            }
        },
        None => Ok(Json::Null),
    }
}

pub open spec fn unit_or(r: Result<(), ValidateError>, out: Output) -> Result<Output, Refusal> {
    match r {
        Ok(_) => Ok(out),
        Err(e) => Err(e@),
    }
}

/// Attach the validation of every retained manifest store, oldest first.
///
/// Each historical section is verified against the exact rendition that ends
/// with it; `renditions` holds what is known of these renditions. Where one of
/// them cannot be verified, its error is handed on and nothing is attached.
pub fn attach(
    out: &mut VerifyOutput,
    asset: &AssetInput,
    sections: &[PdfManifestStoreSection],
    inventory_error: Option<&str>,
    renditions: Vec<Option<Rendition>>,
) -> (r: Result<(), ValidateError>)
    requires
        renditions_ready(*asset, sections@, renditions@),
    ensures
        unit_or(r, final(out)@) == with_history(
            old(out)@,
            sections@,
            value::chars_opt(inventory_error),
            renditions@,
            asset@,
        ),
        r is Err ==> final(out)@ == old(out)@,
{
    if let Some(why) = inventory_error {
        let entry = object2(
            ("validation_state", Json::text("Invalid")),
            ("validation_status", inaccessible_json(why)),
        );
        out.report_json.insert("pdf_incremental_history", single(entry));
        return Ok(());
    }
    if sections.len() == 0 {
        return Ok(());
    }
    let ghost o = out@;
    let ghost all = renditions@;
    let ghost n = all.len() as int;
    let mut rest = reversed(renditions);
    let mut items: Vec<Json> = Vec::new();
    let mut i: usize = 0;
    assert(json::docs(items@) =~= Seq::empty());
    while i < sections.len()
        invariant
            i <= sections.len(),
            n == sections@.len(),
            n == all.len(),
            sections@.len() > 0,
            inventory_error is None,
            all == renditions@,
            renditions_ready(*asset, sections@, all),
            rest@.len() == n - i,
            forall|k: int| 0 <= k < rest@.len() ==> #[trigger] rest@[k] == all[n - 1 - k],
            o == out@,
            o == old(out)@,
            history_docs(sections@, i as int, all, o, asset@) == Ok::<Seq<Doc>, Refusal>(
                json::docs(items@),
            ),
        decreases sections.len() - i,
    {
        assert(rest@.last() == all[i as int]);
        if let Some(rendition) = rest.pop() {
            assert(rendition_ready(*asset, sections@[i as int], all[i as int]));
            match section_json(&sections[i], rendition, out, asset) {
                Ok(entry) => {
                    let ghost before = items@;
                    items.push(entry);
                    assert(json::docs(items@) =~= json::docs(before).push(json::doc(entry)));
                },
                Err(e) => {
                    proof {
                        lemma_history_refused(sections@, i + 1, n, all, o, asset@);
                    }
                    return Err(e);
                },
            }
        }
        i += 1;
    }
    out.report_json.insert("pdf_incremental_history", Json::array(items));
    Ok(())
}

/// A refusal among the first sections stands for the whole history.
proof fn lemma_history_refused(
    sections: Seq<PdfManifestStoreSection>,
    k: int,
    n: int,
    renditions: Seq<Option<Rendition>>,
    o: Output,
    asset: verify::Asset,
)
    requires
        0 <= k <= n,
        history_docs(sections, k, renditions, o, asset) is Err,
    ensures
        history_docs(sections, n, renditions, o, asset) == history_docs(
            sections,
            k,
            renditions,
            o,
            asset,
        ),
    decreases n - k,
{
    if k < n {
        lemma_history_refused(sections, k, n - 1, renditions, o, asset);
    }
}

/// The output for a store that cannot be reached.
pub open spec fn inaccessible_output(why: Seq<char>, p: EngineProfile) -> Output {
    output::restated(
        Output {
            results: Results::empty().fail(MANIFEST_INACCESSIBLE@, "self#jumbf"@, why),
            ..output::absent_output(why, p, true)
        },
        p,
    )
}

/// An outcome in which a structural defect of the latest store is reported
/// instead of refused, so that it cannot discard the earlier history.
pub open spec fn reported(
    r: Result<Output, Refusal>,
    sections: Seq<PdfManifestStoreSection>,
    p: EngineProfile,
) -> Result<Output, Refusal> {
    match r {
        Err(Refusal::Format(why)) => if sections.len() > 0 {
            Ok(inaccessible_output(why, p))
        } else {
            r
        },
        Err(Refusal::Jumbf(why)) => if sections.len() > 0 {
            Ok(inaccessible_output(why, p))
        } else {
            r
        },
        _ => r,
    }
}

fn inaccessible(why: &str, p: EngineProfile) -> (r: VerifyOutput)
    ensures
        r@ == inaccessible_output(why@, p),
{
    let mut out = no_manifest_output(why, p, true);
    let mut results = ValidationResults::new();
    results.push_failure(MANIFEST_INACCESSIBLE, "self#jumbf".to_owned(), why.to_owned());
    out.results = results;
    restate_results(&mut out, p);
    out
}

/// The outcome of verifying a PDF with its incremental-update history.
pub open spec fn history_outcome(
    asset: verify::Asset,
    extracted: Result<Option<StoreReport>, String>,
    facts: ManifestFacts,
    version: VersionVerdict,
    sections: Seq<PdfManifestStoreSection>,
    inventory_error: Option<Seq<char>>,
    renditions: Seq<Option<Rendition>>,
) -> Result<Output, Refusal> {
    match reported(
        verify::embedded_outcome(asset, extracted, facts, version),
        sections,
        asset.engine,
    ) {
        Ok(o) => with_history(o, sections, inventory_error, renditions, asset),
        Err(e) => Err(e),
    }
}

/// Verify the latest manifest store of a PDF and attach the history of its
/// update sections.
pub fn verify_with_history(
    asset: &AssetInput,
    extracted: &Result<Option<StoreReport>, String>,
    facts: &ManifestFacts,
    version: VersionVerdict,
    sections: &[PdfManifestStoreSection],
    inventory_error: Option<&str>,
    renditions: Vec<Option<Rendition>>,
) -> (r: Result<VerifyOutput, ValidateError>)
    requires
        session::extracted_ready(*asset, *extracted, *facts),
        renditions_ready(*asset, sections@, renditions@),
    ensures
        verify::outcome_view(r) == history_outcome(
            asset@,
            *extracted,
            *facts,
            version,
            sections@,
            value::chars_opt(inventory_error),
            renditions@,
        ),
{
    let mut out = match verify(asset, extracted, facts, version) {
        Ok(out) => out,
        Err(ValidateError::Format(why)) => if sections.len() > 0 {
            inaccessible(why.as_str(), asset.engine)
        } else {
            return Err(ValidateError::Format(why));
        },
        Err(ValidateError::Jumbf(why)) => if sections.len() > 0 {
            inaccessible(why.as_str(), asset.engine)
        } else {
            return Err(ValidateError::Jumbf(why));
        },
        Err(e) => {
            return Err(e);
        },
    };
    match attach(&mut out, asset, sections, inventory_error, renditions) {
        Ok(_) => Ok(out),
        Err(e) => Err(e),
    }
}

// ---------------------------------------------------------------------------
// Laws
// ---------------------------------------------------------------------------

proof fn lemma_history_entries(
    sections: Seq<PdfManifestStoreSection>,
    k: int,
    renditions: Seq<Option<Rendition>>,
    o: Output,
    asset: verify::Asset,
)
    requires
        0 <= k <= sections.len(),
        history_docs(sections, k, renditions, o, asset) is Ok,
    ensures
        history_docs(sections, k, renditions, o, asset)->Ok_0.len() == k,
        forall|i: int|
            #![trigger sections[i]]
            0 <= i < k ==> section_doc(sections[i], renditions[i], o, asset) == Ok::<Doc, Refusal>(
                history_docs(sections, k, renditions, o, asset)->Ok_0[i],
            ),
    decreases k,
{
    if k > 0 {
        lemma_history_entries(sections, k - 1, renditions, o, asset);
    }
}

proof fn lemma_history_stands(
    sections: Seq<PdfManifestStoreSection>,
    k: int,
    renditions: Seq<Option<Rendition>>,
    o: Output,
    asset: verify::Asset,
)
    requires
        0 <= k <= sections.len(),
        forall|i: int|
            0 <= i < k ==> section_doc(#[trigger] sections[i], renditions[i], o, asset) is Ok,
    ensures
        history_docs(sections, k, renditions, o, asset) is Ok,
    decreases k,
{
    if k > 0 {
        lemma_history_stands(sections, k - 1, renditions, o, asset);
    }
}

/// A store that cannot be reached is a failure of its own section: it is
/// reported there, the history is not refused on its account, and every other
/// entry stays as it was.
pub proof fn later_defects_keep_earlier_history(
    a: Seq<PdfManifestStoreSection>,
    b: Seq<PdfManifestStoreSection>,
    j: int,
    renditions: Seq<Option<Rendition>>,
    o: Output,
    asset: verify::Asset,
)
    requires
        a.len() == b.len(),
        0 <= j < b.len(),
        b[j].defect is Some,
        forall|i: int| 0 <= i < a.len() && i != j ==> #[trigger] a[i] == b[i],
        history_docs(a, a.len() as int, renditions, o, asset) is Ok,
    ensures
        history_docs(b, b.len() as int, renditions, o, asset) is Ok,
        ({
            let before = history_docs(a, a.len() as int, renditions, o, asset)->Ok_0;
            let after = history_docs(b, b.len() as int, renditions, o, asset)->Ok_0;
            &&& after.len() == before.len()
            &&& after[j] == failed_section(b[j], b[j].defect->0@)
            &&& forall|i: int| 0 <= i < a.len() && i != j ==> #[trigger] after[i] == before[i]
        }),
{
    reveal(section_doc);
    let n = a.len() as int;
    lemma_history_entries(a, n, renditions, o, asset);
    assert forall|i: int| 0 <= i < n implies section_doc(
        #[trigger] b[i],
        renditions[i],
        o,
        asset,
    ) is Ok by {
        if i != j {
            assert(a[i] == b[i]);
        }
    }
    lemma_history_stands(b, n, renditions, o, asset);
    lemma_history_entries(b, n, renditions, o, asset);
    let before = history_docs(a, n, renditions, o, asset)->Ok_0;
    let after = history_docs(b, n, renditions, o, asset)->Ok_0;
    assert forall|i: int| 0 <= i < n && i != j implies #[trigger] after[i] == before[i] by {
        assert(a[i] == b[i]);
    }
    assert(section_doc(b[j], renditions[j], o, asset) == Ok::<Doc, Refusal>(after[j]));
}

/// The entry of a historical section is what verifying exactly the bytes that
/// end with that section gives.
pub proof fn historical_entries_are_verified_renditions(
    sections: Seq<PdfManifestStoreSection>,
    renditions: Seq<Option<Rendition>>,
    o: Output,
    asset: verify::Asset,
    i: int,
)
    requires
        0 <= i < sections.len(),
        historical(sections[i], asset.data.len()),
        renditions[i] is Some,
        history_docs(sections, sections.len() as int, renditions, o, asset) is Ok,
    ensures
        ({
            let h = renditions[i]->0;
            let past = verify::embedded_outcome(
                rendition_asset(asset, sections[i]),
                h.extracted,
                h.facts,
                h.version,
            );
            &&& past is Ok
            &&& history_docs(sections, sections.len() as int, renditions, o, asset)->Ok_0[i]
                == verified_section(sections[i], past->Ok_0.state, past->Ok_0.report)
        }),
{
    reveal(section_doc);
    lemma_history_entries(sections, sections.len() as int, renditions, o, asset);
    let docs = history_docs(sections, sections.len() as int, renditions, o, asset)->Ok_0;
    assert(section_doc(sections[i], renditions[i], o, asset) == Ok::<Doc, Refusal>(docs[i]));
}

} // verus!
