//! Assertion labels, manifest labels and the JUMBF URIs that name them.
use vstd::prelude::*;
use crate::text;
use crate::text::{
    chars_of, contains_char, parse_usize, split_head, split_on, str_eq, strip_prefix, strip_suffix,
};
use crate::value;
use crate::value::Value;

verus! {

/// A label that names one box: not empty and without a path separator.
pub open spec fn is_leaf_label(label: Seq<char>) -> bool {
    label.len() > 0 && !label.contains('/')
}

pub open spec fn leaf_label(label: Option<Seq<char>>) -> Option<Seq<char>> {
    match label {
        Some(l) => if is_leaf_label(l) {
            Some(l)
        } else {
            None
        },
        None => None,
    }
}

fn leaf_only<'a>(label: &'a str) -> (r: Option<&'a str>)
    ensures
        value::chars_opt(r) == leaf_label(Some(label@)),
{
    if !label.is_empty() && !contains_char(label, '/') {
        Some(label)
    } else {
        None
    }
}

/// The assertion label that a hashed URI names inside the manifest
/// `manifest`: a manifest-relative URI, or an absolute one that names exactly
/// this manifest.
pub open spec fn local_assertion_label(url: Seq<char>, manifest: Seq<char>) -> Option<Seq<char>> {
    match text::after_prefix(url, "self#jumbf=c2pa.assertions/"@) {
        Some(label) => leaf_label(Some(label)),
        None => match text::after_prefix(url, "self#jumbf=/c2pa/"@) {
            Some(rest) => match text::after_prefix(rest, manifest) {
                Some(tail) => leaf_label(text::after_prefix(tail, "/c2pa.assertions/"@)),
                None => None,
            },
            None => None,
        },
    }
}

/// The assertion label that `url` names inside the manifest `manifest_label`.
pub fn assertion_label_for_manifest<'a>(url: &'a str, manifest_label: &str) -> (r: Option<&'a str>)
    ensures
        value::chars_opt(r) == local_assertion_label(url@, manifest_label@),
{
    if let Some(label) = strip_prefix(url, "self#jumbf=c2pa.assertions/") {
        return leaf_only(label);
    }
    let rest = match strip_prefix(url, "self#jumbf=/c2pa/") {
        Some(rest) => rest,
        None => {
            return None;
        },
    };
    let tail = match strip_prefix(rest, manifest_label) {
        Some(tail) => tail,
        None => {
            return None;
        },
    };
    match strip_prefix(tail, "/c2pa.assertions/") {
        Some(label) => leaf_only(label),
        None => None,
    }
}

/// The manifest that an absolute ingredient URI names exactly, with `suffix`
/// required behind the label where it is given.
pub open spec fn named_manifest(url: Seq<char>, suffix: Option<Seq<char>>) -> Option<Seq<char>> {
    match text::after_prefix(url, "self#jumbf=/c2pa/"@) {
        Some(rest) => match suffix {
            Some(s) => leaf_label(text::before_suffix(rest, s)),
            None => leaf_label(Some(rest)),
        },
        None => None,
    }
}

/// The exact manifest label in an absolute ingredient hashed URI.
pub fn ingredient_manifest_label<'a>(url: &'a str, suffix: Option<&str>) -> (r: Option<&'a str>)
    ensures
        value::chars_opt(r) == named_manifest(url@, value::chars_opt(suffix)),
{
    let rest = match strip_prefix(url, "self#jumbf=/c2pa/") {
        Some(rest) => rest,
        None => {
            return None;
        },
    };
    match suffix {
        Some(s) => match strip_suffix(rest, s) {
            Some(label) => leaf_only(label),
            None => None,
        },
        None => leaf_only(rest),
    }
}

/// The manifest that an absolute URI names, whatever box below it the URI names.
pub open spec fn manifest_of_uri(url: Seq<char>) -> Option<Seq<char>> {
    match text::after_prefix(url, "self#jumbf=/c2pa/"@) {
        Some(rest) => if text::head_before(rest, '/').len() > 0 {
            Some(text::head_before(rest, '/'))
        } else {
            None
        },
        None => None,
    }
}

/// The manifest label in an absolute URI that may name a child box.
pub fn extract_manifest_label<'a>(url: &'a str) -> (r: Option<&'a str>)
    ensures
        value::chars_opt(r) == manifest_of_uri(url@),
{
    match strip_prefix(url, "self#jumbf=/c2pa/") {
        Some(rest) => {
            let label = split_head(rest, '/');
            if !label.is_empty() {
                Some(label)
            } else {
                None
            }
        },
        None => None,
    }
}

/// The claim's signature URI stays inside its own manifest: the
/// manifest-relative form, or the absolute form that names this manifest.
pub open spec fn signature_uri_is_local(uri: Seq<char>, manifest: Seq<char>) -> bool {
    uri == "self#jumbf=c2pa.signature"@ || (!manifest.contains('/') && match text::after_prefix(
        uri,
        "self#jumbf=/c2pa/"@,
    ) {
        Some(target) => text::before_suffix(target, "/c2pa.signature"@) == Some(manifest),
        None => false,
    })
}

/// Whether the claim's signature URI names the signature box of its own manifest.
pub fn claim_signature_uri_is_local(uri: &str, manifest_label: &str) -> (r: bool)
    ensures
        r == signature_uri_is_local(uri@, manifest_label@),
{
    if str_eq(uri, "self#jumbf=c2pa.signature") {
        return true;
    }
    match strip_prefix(uri, "self#jumbf=/c2pa/") {
        Some(target) => match strip_suffix(target, "/c2pa.signature") {
            Some(label) => str_eq(label, manifest_label) && !contains_char(label, '/'),
            None => false,
        },
        None => false,
    }
}

/// `base` followed by two underscores and a positive decimal instance number.
pub open spec fn is_numbered_instance(label: Seq<char>, base: Seq<char>) -> bool {
    match text::after_prefix(label, base) {
        Some(rest) => match text::after_prefix(rest, "__"@) {
            Some(instance) => match text::usize_text(instance) {
                Some(n) => n > 0,
                None => false,
            },
            None => false,
        },
        None => false,
    }
}

/// Whether `label` is a numbered instance of `base`.
pub fn numbered_instance(label: &str, base: &str) -> (r: bool)
    ensures
        r == is_numbered_instance(label@, base@),
{
    match strip_prefix(label, base) {
        Some(rest) => match strip_prefix(rest, "__") {
            Some(instance) => match parse_usize(instance) {
                Some(n) => n > 0,
                None => false,
            },
            None => false,
        },
        None => false,
    }
}

/// The generator icon label or one of its numbered instances.
pub open spec fn icon_label(label: Seq<char>) -> bool {
    label == "c2pa.icon"@ || is_numbered_instance(label, "c2pa.icon"@)
}

/// Whether `label` names a generator icon assertion.
pub fn is_generator_icon_label(label: &str) -> (r: bool)
    ensures
        r == icon_label(label@),
{
    str_eq(label, "c2pa.icon") || numbered_instance(label, "c2pa.icon")
}

pub open spec fn bmff_hash_label(label: Seq<char>) -> bool {
    label == "c2pa.hash.bmff.v2"@ || label == "c2pa.hash.bmff.v3"@
}

/// Whether `label` is a supported BMFF hash binding.
pub fn is_supported_bmff_hash_label(label: &str) -> (r: bool)
    ensures
        r == bmff_hash_label(label@),
{
    str_eq(label, "c2pa.hash.bmff.v2") || str_eq(label, "c2pa.hash.bmff.v3")
}

pub open spec fn whole_asset_label(label: Seq<char>) -> bool {
    label == "c2pa.hash.data"@ || bmff_hash_label(label)
}

/// Whether `label` is a binding over the whole asset.
pub fn is_supported_whole_asset_hash_label(label: &str) -> (r: bool)
    ensures
        r == whole_asset_label(label@),
{
    str_eq(label, "c2pa.hash.data") || is_supported_bmff_hash_label(label)
}

/// A primary hard binding; the compound binding counts only where it is allowed.
pub open spec fn primary_label(label: Seq<char>, compound_ok: bool) -> bool {
    whole_asset_label(label) || label == "c2pa.hash.boxes"@ || label == "c2pa.hash.collection.data"@
        || (compound_ok && label == "c2pa.compound.content"@)
}

/// Whether `label` is a supported primary hard binding.
pub fn is_supported_hard_binding_label(label: &str, compound_ok: bool) -> (r: bool)
    ensures
        r == primary_label(label@, compound_ok),
{
    is_supported_whole_asset_hash_label(label) || str_eq(label, "c2pa.hash.boxes") || str_eq(
        label,
        "c2pa.hash.collection.data",
    ) || (compound_ok && str_eq(label, "c2pa.compound.content"))
}

pub open spec fn multi_asset_label(label: Seq<char>) -> bool {
    label == "c2pa.hash.multi-asset"@
}

/// Whether `label` is the supplemental multi-asset binding.
pub fn is_multi_asset_binding_label(label: &str) -> (r: bool)
    ensures
        r == multi_asset_label(label@),
{
    str_eq(label, "c2pa.hash.multi-asset")
}

/// The text under `alg` of `value`, else the one of `enclosing`.
pub open spec fn algorithm_for(v: Value, enclosing: Value) -> Option<Seq<char>> {
    match v.text_field("alg"@) {
        Some(a) => Some(a),
        None => enclosing.text_field("alg"@),
    }
}

/// The hash algorithm of `v`, inherited from `enclosing` where it names none.
pub fn resolved_hash_algorithm<'a>(v: &'a Value, enclosing: &'a Value) -> (r: Option<&'a str>)
    ensures
        value::chars_opt(r) == algorithm_for(*v, *enclosing),
{
    match v.get_text("alg") {
        Some(a) => Some(a),
        None => enclosing.get_text("alg"),
    }
}

/// At most 32 printable ASCII characters without whitespace.
pub open spec fn conformant_vendor(v: Seq<char>) -> bool {
    v.len() <= 32 && forall|i: int| 0 <= i < v.len() ==> '!' <= (#[trigger] v[i]) <= '~'
}

/// A number, optionally followed by an underscore and a numeric reason.
pub open spec fn conformant_version(v: Seq<char>) -> bool {
    let parts = text::split(v, '_');
    &&& text::usize_text(parts[0]) is Some
    &&& parts.len() > 1 ==> text::usize_text(parts[1]) is Some
}

/// The manifest label grammar: `urn:uuid:<guid>`,
/// `urn:c2pa:<guid>[:vendor[:version[_reason]]]` or
/// `<vendor>:urn:uuid:<guid>`.
pub open spec fn conformant_manifest_label(label: Seq<char>) -> bool {
    let parts = text::split(label, ':');
    if parts.len() < 3 {
        false
    } else if parts[0] == "urn"@ {
        parts[1] == "uuid"@ || {
            &&& parts[1] == "c2pa"@
            &&& parts.len() <= 5
            &&& parts.len() > 3 && parts[3].len() > 0 ==> conformant_vendor(parts[3])
            &&& parts.len() > 4 && parts[4].len() > 0 ==> conformant_version(parts[4])
        }
    } else {
        parts.len() == 4 && parts[1] == "urn"@ && parts[2] == "uuid"@
    }
}

fn vendor_conformant(v: &str) -> (r: bool)
    ensures
        r == conformant_vendor(v@),
{
    let chars = chars_of(v);
    if chars.len() > 32 {
        return false;
    }
    let mut i: usize = 0;
    while i < chars.len()
        invariant
            i <= chars.len(),
            chars@ == v@,
            forall|k: int| 0 <= k < i ==> '!' <= (#[trigger] v@[k]) <= '~',
        decreases chars.len() - i,
    {
        let c = chars[i];
        if c < '!' || c > '~' {
            assert(!('!' <= v@[i as int] <= '~'));
            return false;
        }
        i += 1;
    }
    true
}

fn version_conformant(v: &str) -> (r: bool)
    ensures
        r == conformant_version(v@),
{
    let parts = split_on(v, '_');
    assert(text::views(parts@)[0] == parts@[0]@);
    if parse_usize(parts[0]).is_none() {
        return false;
    }
    if parts.len() > 1 {
        assert(text::views(parts@)[1] == parts@[1]@);
        return parse_usize(parts[1]).is_some();
    }
    true
}

/// Whether a manifest label follows the label grammar.
pub fn manifest_label_conformant(label: &str) -> (r: bool)
    ensures
        r == conformant_manifest_label(label@),
{
    let parts = split_on(label, ':');
    proof {
        assert(forall|i: int|
            0 <= i < parts@.len() ==> #[trigger] text::views(parts@)[i] == parts@[i]@);
        assert(text::views(parts@).len() == parts@.len());
    }
    if parts.len() < 3 {
        return false;
    }
    if str_eq(parts[0], "urn") {
        if str_eq(parts[1], "uuid") {
            return true;
        }
        if !str_eq(parts[1], "c2pa") {
            return false;
        }
        if parts.len() > 5 {
            return false;
        }
        if parts.len() > 3 && !parts[3].is_empty() && !vendor_conformant(parts[3]) {
            return false;
        }
        if parts.len() > 4 && !parts[4].is_empty() && !version_conformant(parts[4]) {
            return false;
        }
        return true;
    }
    parts.len() == 4 && str_eq(parts[1], "urn") && str_eq(parts[2], "uuid")
}

// ---------------------------------------------------------------------------
// Laws
// ---------------------------------------------------------------------------


/// A URI names a manifest exactly where it is the manifest's own URI, with the
/// suffix that is asked for behind it; the label is never empty and never a path.
pub proof fn manifest_uris_name_one_manifest(
    url: Seq<char>,
    suffix: Seq<char>,
    label: Seq<char>,
)
    ensures
        (named_manifest(url, None) == Some(label)) == (label.len() > 0 && !label.contains('/')
            && url == "self#jumbf=/c2pa/"@ + label),
        (named_manifest(url, Some(suffix)) == Some(label)) == (label.len() > 0
            && !label.contains('/') && url == "self#jumbf=/c2pa/"@ + (label + suffix)),
{
    let p = "self#jumbf=/c2pa/"@;
    text::stripping_undoes_joining(url, p, label);
    text::stripping_undoes_joining(url, p, label + suffix);
    text::stripping_undoes_joining(label + suffix, suffix, label);
    if let Some(rest) = text::after_prefix(url, p) {
        text::stripping_undoes_joining(url, p, rest);
        text::stripping_undoes_joining(rest, suffix, label);
        if text::before_suffix(rest, suffix) is Some {
            text::stripping_undoes_joining(rest, suffix, text::before_suffix(rest, suffix)->0);
        }
    }
}

/// A URI that names a box below a manifest names that manifest: the label is what
/// stands between the prefix and the next separator.
pub proof fn uris_below_a_manifest_name_it(label: Seq<char>, tail: Seq<char>)
    requires
        label.len() > 0,
        !label.contains('/'),
        tail.len() == 0 || tail[0] == '/',
    ensures
        manifest_of_uri("self#jumbf=/c2pa/"@ + (label + tail)) == Some(label),
{
    let p = "self#jumbf=/c2pa/"@;
    let rest = label + tail;
    text::stripping_undoes_joining(p + rest, p, rest);
    text::split_pieces_join_again(rest, '/');
    lemma_head(label, tail);
}

proof fn lemma_head(label: Seq<char>, tail: Seq<char>)
    requires
        !label.contains('/'),
        tail.len() == 0 || tail[0] == '/',
    ensures
        text::head_before(label + tail, '/') == label,
{
    let s = label + tail;
    lemma_first_slash(s, label.len() as int, 0);
    if tail.len() == 0 {
        assert(s =~= label);
    } else {
        assert(s[label.len() as int] == tail[0]);
        assert(s.subrange(0, label.len() as int) =~= label);
    }
}

proof fn lemma_first_slash(s: Seq<char>, n: int, from: int)
    requires
        0 <= from <= n <= s.len(),
        forall|j: int| 0 <= j < n ==> #[trigger] s[j] != '/',
        n < s.len() ==> s[n] == '/',
    ensures
        text::first_char(s, '/', from) == if n < s.len() {
            Some(n)
        } else {
            None
        },
    decreases n - from,
{
    if from < n {
        lemma_first_slash(s, n, from + 1);
    }
}

/// A hashed URI names an assertion of a manifest exactly in one of two spellings:
/// relative to the manifest, or absolute under this manifest's own label. No URI
/// into another manifest, and no path, names one.
pub proof fn assertion_uris_stay_in_their_manifest(
    url: Seq<char>,
    manifest: Seq<char>,
    label: Seq<char>,
)
    ensures
        (local_assertion_label(url, manifest) == Some(label)) == (label.len() > 0
            && !label.contains('/') && (url == "self#jumbf=c2pa.assertions/"@ + label || url
            == "self#jumbf=/c2pa/"@ + (manifest + ("/c2pa.assertions/"@ + label)))),
{
    let a = "self#jumbf=c2pa.assertions/"@;
    let b = "self#jumbf=/c2pa/"@;
    let c = "/c2pa.assertions/"@;
    reveal_strlit("self#jumbf=c2pa.assertions/");
    reveal_strlit("self#jumbf=/c2pa/");
    assert(a[11] == 'c');
    assert(b[11] == '/');
    assert(a.len() == 27 && b.len() == 17);
    text::stripping_undoes_joining(url, a, label);
    text::stripping_undoes_joining(url, b, manifest + (c + label));
    text::stripping_undoes_joining(manifest + (c + label), manifest, c + label);
    text::stripping_undoes_joining(c + label, c, label);
    if let Some(rest) = text::after_prefix(url, a) {
        text::stripping_undoes_joining(url, a, rest);
        assert(url[11] == 'c');
    }
    if let Some(rest) = text::after_prefix(url, b) {
        text::stripping_undoes_joining(url, b, rest);
        assert(url[11] == '/');
        if let Some(tail) = text::after_prefix(rest, manifest) {
            text::stripping_undoes_joining(rest, manifest, tail);
            if let Some(l) = text::after_prefix(tail, c) {
                text::stripping_undoes_joining(tail, c, l);
            }
        }
    }
}

/// A claim names its own signature in exactly two spellings: relative, or
/// absolute under its own manifest's label.
pub proof fn own_signature_has_two_spellings(uri: Seq<char>, manifest: Seq<char>)
    ensures
        signature_uri_is_local(uri, manifest) == (uri == "self#jumbf=c2pa.signature"@ || (
        !manifest.contains('/') && uri == "self#jumbf=/c2pa/"@ + (manifest + "/c2pa.signature"@))),
{
    let p = "self#jumbf=/c2pa/"@;
    let t = "/c2pa.signature"@;
    text::stripping_undoes_joining(uri, p, manifest + t);
    text::stripping_undoes_joining(manifest + t, t, manifest);
    if let Some(rest) = text::after_prefix(uri, p) {
        text::stripping_undoes_joining(uri, p, rest);
        text::stripping_undoes_joining(rest, t, manifest);
    }
}

/// The numbered instances of a label are the label, two underscores and a number
/// above zero; every positive number has one.
pub proof fn numbered_instances_carry_a_positive_number(base: Seq<char>, n: usize, label: Seq<char>)
    ensures
        n > 0 ==> is_numbered_instance(base + ("__"@ + text::decimal(n as nat)), base),
        is_numbered_instance(label, base) ==> exists|t: Seq<char>|
            label == base + ("__"@ + t) && (#[trigger] text::usize_text(t)) is Some
                && text::usize_text(t)->0 > 0,
        !is_numbered_instance(base, base),
{
    let t = text::decimal(n as nat);
    text::decimal_reads_back(n as nat);
    text::stripping_undoes_joining(base + ("__"@ + t), base, "__"@ + t);
    text::stripping_undoes_joining("__"@ + t, "__"@, t);
    if is_numbered_instance(label, base) {
        let rest = text::after_prefix(label, base)->0;
        let u = text::after_prefix(rest, "__"@)->0;
        text::stripping_undoes_joining(label, base, rest);
        text::stripping_undoes_joining(rest, "__"@, u);
        assert(text::usize_text(u) is Some);
    }
    reveal_strlit("__");
    if let Some(rest) = text::after_prefix(base, base) {
        assert(rest.len() == 0);
    }
}

/// The manifest labels of the three forms are conformant: a plain identifier under
/// `urn:c2pa` or `urn:uuid`, and one behind a vendor prefix. Under `urn:c2pa` a
/// vendor may follow, of at most 32 printable characters; a label of fewer than
/// three parts, or under any other `urn`, is not conformant.
pub proof fn manifest_labels_have_three_forms(
    guid: Seq<char>,
    vendor: Seq<char>,
    other: Seq<char>,
)
    requires
        !guid.contains(':'),
        !vendor.contains(':'),
        !other.contains(':'),
        vendor.len() > 0,
        vendor != "urn"@,
        other != "uuid"@,
        other != "c2pa"@,
    ensures
        conformant_manifest_label("urn"@ + seq![':'] + ("uuid"@ + seq![':'] + guid)),
        conformant_manifest_label("urn"@ + seq![':'] + ("c2pa"@ + seq![':'] + guid)),
        conformant_manifest_label(
            vendor + seq![':'] + ("urn"@ + seq![':'] + ("uuid"@ + seq![':'] + guid)),
        ),
        conformant_manifest_label(
            "urn"@ + seq![':'] + ("c2pa"@ + seq![':'] + (guid + seq![':'] + vendor)),
        ) == (vendor.len() <= 32 && forall|i: int|
            0 <= i < vendor.len() ==> '!' <= (#[trigger] vendor[i]) <= '~'),
        !conformant_manifest_label(guid),
        !conformant_manifest_label("urn"@ + seq![':'] + (other + seq![':'] + guid)),
{
    reveal_strlit("urn");
    reveal_strlit("uuid");
    reveal_strlit("c2pa");
    let c = ':';
    assert("uuid"@[0] == 'u' && "c2pa"@[0] == 'c');
    assert("urn"@ =~= seq!['u', 'r', 'n']);
    assert("uuid"@ =~= seq!['u', 'u', 'i', 'd']);
    assert("c2pa"@ =~= seq!['c', '2', 'p', 'a']);
    text::pieces_in_front_split_off(guid, c, vendor);
    text::pieces_in_front_split_off(vendor, c, guid);
    text::pieces_in_front_split_off("uuid"@, c, guid);
    text::pieces_in_front_split_off("c2pa"@, c, guid);
    text::pieces_in_front_split_off(other, c, guid);
    let a = "uuid"@ + seq![c] + guid;
    let b = "c2pa"@ + seq![c] + guid;
    text::pieces_in_front_split_off("urn"@, c, a);
    text::pieces_in_front_split_off("urn"@, c, b);
    text::pieces_in_front_split_off("urn"@, c, other + seq![c] + guid);
    assert(text::split("urn"@ + seq![c] + a, c) =~= seq!["urn"@, "uuid"@, guid]);
    assert(text::split("urn"@ + seq![c] + b, c) =~= seq!["urn"@, "c2pa"@, guid]);
    assert(text::split("urn"@ + seq![c] + (other + seq![c] + guid), c) =~= seq![
        "urn"@,
        other,
        guid,
    ]);
    text::pieces_in_front_split_off(vendor, c, "urn"@ + seq![c] + a);
    assert(text::split(vendor + seq![c] + ("urn"@ + seq![c] + a), c) =~= seq![
        vendor,
        "urn"@,
        "uuid"@,
        guid,
    ]);
    let tail = guid + seq![c] + vendor;
    text::pieces_in_front_split_off("c2pa"@, c, tail);
    text::pieces_in_front_split_off("urn"@, c, "c2pa"@ + seq![c] + tail);
    assert(text::split("urn"@ + seq![c] + ("c2pa"@ + seq![c] + tail), c) =~= seq![
        "urn"@,
        "c2pa"@,
        guid,
        vendor,
    ]);
}

} // verus!
