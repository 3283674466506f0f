//! Rendering decoded CBOR values as JSON.
use vstd::prelude::*;
use vstd::string::StringExecFns;
use crate::base64;
use crate::base64::base64_encode;
use crate::json;
use crate::json::{Doc, Json};
use crate::text;
use crate::text::{debug_string, decimal_string, join3, join5, signed_string};
use crate::value::Value;

verus! {

// ---------------------------------------------------------------------------
// Debug form
// ---------------------------------------------------------------------------

/// What stands in front of item `k` of a list.
pub open spec fn separator(k: nat) -> Seq<char> {
    if k == 0 {
        Seq::empty()
    } else {
        ", "@
    }
}

/// The first `k` bytes as numbers.
pub open spec fn byte_list(b: Seq<u8>, k: nat) -> Seq<char>
    decreases k,
{
    if k == 0 {
        Seq::empty()
    } else {
        byte_list(b, (k - 1) as nat) + separator((k - 1) as nat) + text::decimal(
            b[k - 1] as nat,
        )
    }
}

/// A value in debug form.
pub open spec fn debug_form(v: Value) -> Seq<char>
    decreases v, 0nat,
{
    match v {
        Value::Integer(n) => "Integer("@ + text::signed_decimal(n as int) + ")"@,
        Value::Bytes(b) => "Bytes(["@ + byte_list(b@, b@.len()) + "])"@,
        Value::Text(t) => "Text("@ + text::debug_of(t@) + ")"@,
        Value::Array(items) => "Array(["@ + debug_items(items, items@.len()) + "])"@,
        Value::Dict(entries) => "Map(["@ + debug_entries(entries, entries@.len()) + "])"@,
        Value::Tag(n, inner) => "Tag("@ + text::decimal(n as nat) + ", "@ + debug_form(*inner)
            + ")"@,
        Value::Bool(b) => if b {
            "Bool(true)"@
        } else {
            "Bool(false)"@
        },
        Value::Null => "Null"@,
        Value::Float(_, shown) => "Float("@ + shown@ + ")"@,
    }
}

/// The first `k` items in debug form.
pub open spec fn debug_items(items: Vec<Value>, k: nat) -> Seq<char>
    decreases items, k,
{
    if k == 0 || k > items@.len() {
        Seq::empty()
    } else {
        debug_items(items, (k - 1) as nat) + separator((k - 1) as nat) + debug_form(items@[k - 1])
    }
}

/// The first `k` entries in debug form.
pub open spec fn debug_entries(entries: Vec<(Value, Value)>, k: nat) -> Seq<char>
    decreases entries, k,
{
    if k == 0 || k > entries@.len() {
        Seq::empty()
    } else {
        debug_entries(entries, (k - 1) as nat) + separator((k - 1) as nat) + ("("@ + debug_form(
            entries@[k - 1].0,
        ) + ", "@ + debug_form(entries@[k - 1].1) + ")"@)
    }
}

fn push_separator(out: &mut String, k: usize)
    ensures
        final(out)@ == old(out)@ + separator(k as nat),
{
    if k > 0 {
        out.append(", ");
    }
    assert(out@ =~= old(out)@ + separator(k as nat));
}

fn byte_list_text(b: &[u8]) -> (r: String)
    ensures
        r@ == byte_list(b@, b@.len()),
{
    let mut out = String::new();
    let mut i: usize = 0;
    while i < b.len()
        invariant
            i <= b.len(),
            out@ == byte_list(b@, i as nat),
        decreases b.len() - i,
    {
        push_separator(&mut out, i);
        let n = decimal_string(b[i] as u64);
        out.append(n.as_str());
        i += 1;
    }
    out
}

fn debug_text(v: &Value) -> (r: String)
    ensures
        r@ == debug_form(*v),
    decreases *v,
{
    match v {
        Value::Integer(n) => {
            let t = signed_string(*n);
            join3("Integer(", t.as_str(), ")")
        },
        Value::Bytes(b) => {
            let t = byte_list_text(b.as_slice());
            join3("Bytes([", t.as_str(), "])")
        },
        Value::Text(s) => {
            let t = debug_string(s.as_str());
            join3("Text(", t.as_str(), ")")
        },
        Value::Array(items) => {
            let mut out = String::new();
            let mut i: usize = 0;
            while i < items.len()
                invariant
                    i <= items.len(),
                    *v == Value::Array(*items),
                    out@ == debug_items(*items, i as nat),
                decreases items.len() - i,
            {
                assert(decreases_to!(*v => (*v)->Array_0));
                assert(decreases_to!(*items => items[i as int]));
                push_separator(&mut out, i);
                let t = debug_text(&items[i]);
                out.append(t.as_str());
                i += 1;
            }
            join3("Array([", out.as_str(), "])")
        },
        Value::Dict(entries) => {
            let mut out = String::new();
            let mut i: usize = 0;
            while i < entries.len()
                invariant
                    i <= entries.len(),
                    *v == Value::Dict(*entries),
                    out@ == debug_entries(*entries, i as nat),
                decreases entries.len() - i,
            {
                assert(decreases_to!(*v => (*v)->Dict_0));
                assert(decreases_to!(*entries => entries[i as int]));
                push_separator(&mut out, i);
                let k = debug_text(&entries[i].0);
                let t = debug_text(&entries[i].1);
                let pair = join5("(", k.as_str(), ", ", t.as_str(), ")");
                out.append(pair.as_str());
                i += 1;
            }
            join3("Map([", out.as_str(), "])")
        },
        Value::Tag(n, inner) => {
            let num = decimal_string(*n);
            let t = debug_text(inner);
            join5("Tag(", num.as_str(), ", ", t.as_str(), ")")
        },
        Value::Bool(b) => {
            if *b {
                "Bool(true)".to_owned()
            } else {
                "Bool(false)".to_owned()
            }
        },
        Value::Null => "Null".to_owned(),
        Value::Float(_, shown) => join3("Float(", shown.as_str(), ")"),
    }
}

// ---------------------------------------------------------------------------
// JSON
// ---------------------------------------------------------------------------

/// A map key as a JSON object key.
pub open spec fn key_text(key: Value) -> Seq<char> {
    match key {
        Value::Text(t) => t@,
        Value::Integer(n) => text::signed_decimal(n as int),
        _ => debug_form(key),
    }
}

/// The bit pattern is that of a finite number.
pub open spec fn finite(bits: u64) -> bool {
    (bits as nat) / 4503599627370496 % 2048 != 2047
}

/// A decoded value as JSON. Byte strings become base64 text, integers that do
/// not fit 64 bits become text, keys are stringified, tags are dropped and
/// non-finite floats become null.
pub open spec fn json_of(v: Value) -> Doc
    decreases v, 0nat,
{
    match v {
        Value::Integer(n) => if i64::MIN <= n <= i64::MAX {
            Doc::Integer(n as int)
        } else {
            Doc::Text(text::signed_decimal(n as int))
        },
        Value::Bytes(b) => Doc::Text(base64::base64_of(b@)),
        Value::Text(t) => Doc::Text(t@),
        Value::Array(items) => Doc::Array(json_items(items, items@.len())),
        Value::Dict(entries) => Doc::Object(json_members(entries, entries@.len())),
        Value::Tag(_, inner) => json_of(*inner),
        Value::Bool(b) => Doc::Bool(b),
        Value::Null => Doc::Null,
        Value::Float(bits, _) => if finite(bits) {
            Doc::Float(bits)
        } else {
            Doc::Null
        },
    }
}

/// The first `k` items as JSON.
pub open spec fn json_items(items: Vec<Value>, k: nat) -> Seq<Doc>
    decreases items, k,
{
    if k == 0 || k > items@.len() {
        Seq::empty()
    } else {
        json_items(items, (k - 1) as nat).push(json_of(items@[k - 1]))
    }
}

/// The first `k` entries as object members; a later entry replaces an earlier
/// one with the same key.
pub open spec fn json_members(entries: Vec<(Value, Value)>, k: nat) -> Seq<(Seq<char>, Doc)>
    decreases entries, k,
{
    if k == 0 || k > entries@.len() {
        Seq::empty()
    } else {
        json::with_member(
            json_members(entries, (k - 1) as nat),
            key_text(entries@[k - 1].0),
            json_of(entries@[k - 1].1),
        )
    }
}

/// Render a CBOR map key as a JSON object key.
pub fn key_to_string(key: &Value) -> (r: String)
    ensures
        r@ == key_text(*key),
{
    match key {
        Value::Text(t) => t.as_str().to_owned(),
        Value::Integer(n) => signed_string(*n),
        _ => debug_text(key),
    }
}

/// Convert a decoded CBOR value into a JSON value.
pub fn cbor_to_json(v: &Value) -> (r: Json)
    ensures
        json::doc(r) == json_of(*v),
    decreases *v,
{
    match v {
        Value::Integer(n) => {
            if *n >= -9223372036854775808 && *n <= 9223372036854775807 {
                Json::Integer(*n)
            } else {
                Json::Text(signed_string(*n))
            }
        },
        Value::Bytes(b) => Json::Text(base64_encode(b.as_slice())),
        Value::Text(t) => Json::text(t.as_str()),
        Value::Array(items) => {
            let mut out: Vec<Json> = Vec::new();
            let mut i: usize = 0;
            assert(json::docs(out@) =~= Seq::empty());
            while i < items.len()
                invariant
                    i <= items.len(),
                    *v == Value::Array(*items),
                    json::docs(out@) == json_items(*items, i as nat),
                decreases items.len() - i,
            {
                assert(decreases_to!(*v => (*v)->Array_0));
                assert(decreases_to!(*items => items[i as int]));
                let j = cbor_to_json(&items[i]);
                let ghost before = out@;
                out.push(j);
                assert(json::docs(out@) =~= json::docs(before).push(json::doc(j)));
                i += 1;
            }
            Json::array(out)
        },
        Value::Dict(entries) => {
            let mut out = Json::object();
            let mut i: usize = 0;
            while i < entries.len()
                invariant
                    i <= entries.len(),
                    *v == Value::Dict(*entries),
                    json::doc(out) == Doc::Object(json_members(*entries, i as nat)),
                decreases entries.len() - i,
            {
                assert(decreases_to!(*v => (*v)->Dict_0));
                assert(decreases_to!(*entries => entries[i as int]));
                let k = key_to_string(&entries[i].0);
                let j = cbor_to_json(&entries[i].1);
                out.insert(k.as_str(), j);
                i += 1;
            }
            out
        },
        Value::Tag(_, inner) => cbor_to_json(inner),
        Value::Bool(b) => Json::Bool(*b),
        Value::Null => Json::Null,
        Value::Float(bits, _) => {
            if *bits / 4503599627370496 % 2048 != 2047 {
                Json::Float(*bits)
            } else {
                Json::Null
            }
        },
    }
}

// ---------------------------------------------------------------------------
// Laws
// ---------------------------------------------------------------------------


/// An array becomes the array of its items, one for each and in order.
pub proof fn arrays_keep_their_items(items: Vec<Value>, k: nat, i: int)
    requires
        0 <= i < k <= items@.len(),
    ensures
        json_items(items, k).len() == k,
        json_items(items, k)[i] == json_of(items@[i]),
    decreases k,
{
    let before = json_items(items, (k - 1) as nat);
    if i < k - 1 {
        arrays_keep_their_items(items, (k - 1) as nat, i);
    } else if k > 1 {
        arrays_keep_their_items(items, (k - 1) as nat, 0);
    } else {
        assert(before.len() == 0);
    }
}

proof fn lemma_member(entries: Vec<(Value, Value)>, k: nat, i: int)
    requires
        0 <= i < k <= entries@.len(),
        forall|j: int|
            i < j < k ==> key_text((#[trigger] entries@[j]).0) != key_text(entries@[i].0),
    ensures
        Doc::Object(json_members(entries, k)).member(key_text(entries@[i].0)) == Some(
            json_of(entries@[i].1),
        ),
    decreases k,
{
    let before = json_members(entries, (k - 1) as nat);
    let last = entries@[k - 1];
    json::insert_then_get(before, key_text(last.0), json_of(last.1), key_text(entries@[i].0));
    assert(Doc::Object(json_members(entries, k)) == Doc::Object(before).with(
        key_text(last.0),
        json_of(last.1),
    ));
    if i < k - 1 {
        lemma_member(entries, (k - 1) as nat, i);
    }
}

/// A map becomes an object that reads, under the text of each key, the value of
/// the last entry with that text.
pub proof fn maps_keep_their_last_entries(entries: Vec<(Value, Value)>, i: int)
    requires
        0 <= i < entries@.len(),
        forall|j: int|
            i < j < entries@.len() ==> key_text((#[trigger] entries@[j]).0) != key_text(
                entries@[i].0,
            ),
    ensures
        json_of(Value::Dict(entries)).member(key_text(entries@[i].0)) == Some(
            json_of(entries@[i].1),
        ),
{
    lemma_member(entries, entries@.len(), i);
}

/// Plain values keep what they say: texts and booleans are themselves, byte
/// strings their base64 text, integers of 64 bits themselves and larger ones
/// their decimal text; a tag says what it holds.
pub proof fn plain_values_are_kept(
    t: String,
    b: Vec<u8>,
    n: i128,
    flag: bool,
    tag: u64,
    inner: Box<Value>,
)
    ensures
        json_of(Value::Text(t)) == Doc::Text(t@),
        json_of(Value::Bytes(b)) == Doc::Text(base64::base64_of(b@)),
        json_of(Value::Bool(flag)) == Doc::Bool(flag),
        json_of(Value::Null) == Doc::Null,
        -0x8000_0000_0000_0000 <= n <= 0x7fff_ffff_ffff_ffff ==> json_of(Value::Integer(n))
            == Doc::Integer(n as int),
        n > 0x7fff_ffff_ffff_ffff ==> json_of(Value::Integer(n)) == Doc::Text(
            text::decimal(n as nat),
        ),
        n < -0x8000_0000_0000_0000 ==> json_of(Value::Integer(n)) == Doc::Text(
            seq!['-'] + text::decimal((-n) as nat),
        ),
        json_of(Value::Tag(tag, inner)) == json_of(*inner),
{
}

} // verus!
