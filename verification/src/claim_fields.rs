//! The fields that a claim must carry, by its generation, and their shape.
use vstd::prelude::*;
use crate::profile::ClaimGeneration;
use crate::text;
use crate::value::Value;

verus! {

// ---------------------------------------------------------------------------
// Model
// ---------------------------------------------------------------------------

/// A hashed URI that names a generator's icon: a map with a URL and a digest.
pub open spec fn icon_sound(icon: Value) -> bool {
    icon.text_field("url"@) is Some && icon.bytes_field("hash"@) is Some
}

/// The description of one claim generator: a map with a non-empty name, whose
/// version, where it has one, is a text, and whose icon a hashed URI.
pub open spec fn generator_sound(info: Value) -> bool {
    &&& info.text_field("name"@) matches Some(name) && name.len() > 0
    &&& info.field("version"@) is Some ==> info.text_field("version"@) is Some
    &&& info.field("icon"@) matches Some(icon) ==> icon_sound(icon)
}

/// A claim of the second generation describes one generator.
pub open spec fn v2_generator_sound(claim: Value) -> bool {
    claim.field("claim_generator_info"@) matches Some(info) && generator_sound(info)
}

/// A claim of the first generation lists its generators.
pub open spec fn v1_generators_sound(claim: Value) -> bool {
    claim.items_field("claim_generator_info"@) matches Some(list) && forall|i: int|
        0 <= i < list.len() ==> generator_sound(#[trigger] list[i])
}

/// Every field that a claim of the second generation must carry is there, in
/// its required shape.
pub open spec fn v2_fields_sound(claim: Value) -> bool {
    &&& claim.text_field("instanceID"@) is Some
    &&& v2_generator_sound(claim)
    &&& claim.items_field("created_assertions"@) is Some
}

/// Every field that a claim of the first generation must carry is there, in its
/// required shape.
pub open spec fn v1_fields_sound(claim: Value) -> bool {
    &&& claim.text_field("instanceID"@) is Some
    &&& claim.text_field("claim_generator"@) is Some
    &&& v1_generators_sound(claim)
    &&& claim.text_field("dc:format"@) is Some
    &&& claim.items_field("assertions"@) is Some
}

/// `names`, with `name` behind them where the field is not sound.
pub open spec fn unless(sound: bool, name: Seq<char>, names: Seq<Seq<char>>) -> Seq<Seq<char>> {
    if sound {
        names
    } else {
        names.push(name)
    }
}

/// The fields that a claim of the second generation lacks or has in another
/// shape.
pub open spec fn v2_missing(claim: Value) -> Seq<Seq<char>> {
    let a = unless(claim.text_field("instanceID"@) is Some, "instanceID"@, Seq::empty());
    let b = unless(v2_generator_sound(claim), "claim_generator_info"@, a);
    unless(claim.items_field("created_assertions"@) is Some, "created_assertions"@, b)
}

/// The fields that a claim of the first generation lacks or has in another
/// shape.
pub open spec fn v1_missing(claim: Value) -> Seq<Seq<char>> {
    let a = unless(claim.text_field("instanceID"@) is Some, "instanceID"@, Seq::empty());
    let b = unless(claim.text_field("claim_generator"@) is Some, "claim_generator"@, a);
    let c = unless(v1_generators_sound(claim), "claim_generator_info"@, b);
    let d = unless(claim.text_field("dc:format"@) is Some, "dc:format"@, c);
    unless(claim.items_field("assertions"@) is Some, "assertions"@, d)
}

/// The required fields that a claim lacks or has in another shape.
pub open spec fn missing(claim: Value, generation: ClaimGeneration) -> Seq<Seq<char>> {
    match generation {
        ClaimGeneration::V1 => v1_missing(claim),
        ClaimGeneration::V2 => v2_missing(claim),
    }
}

// ---------------------------------------------------------------------------
// Reading
// ---------------------------------------------------------------------------

fn is_generator(info: &Value) -> (r: bool)
    ensures
        r == generator_sound(*info),
{
    let named = match info.get_text("name") {
        Some(name) => !name.is_empty(),
        None => false,
    };
    if !named {
        return false;
    }
    if info.get("version").is_some() && info.get_text("version").is_none() {
        return false;
    }
    match info.get("icon") {
        Some(icon) => icon.get_text("url").is_some() && icon.get_bytes("hash").is_some(),
        None => true,
    }
}

fn lists_generators(claim: &Value) -> (r: bool)
    ensures
        r == v1_generators_sound(*claim),
{
    let list = match claim.get_items("claim_generator_info") {
        Some(list) => list,
        None => {
            return false;
        },
    };
    let mut i: usize = 0;
    while i < list.len()
        invariant
            i <= list.len(),
            claim.items_field("claim_generator_info"@) == Some(list@),
            forall|k: int| 0 <= k < i ==> generator_sound(#[trigger] list@[k]),
        decreases list.len() - i,
    {
        if !is_generator(&list[i]) {
            let ghost all = claim.items_field("claim_generator_info"@)->0;
            assert(!generator_sound(all[i as int]));
            return false;
        }
        i += 1;
    }
    true
}

fn push_unless(names: &mut Vec<&'static str>, sound: bool, name: &'static str)
    ensures
        text::views(final(names)@) == unless(sound, name@, text::views(old(names)@)),
{
    if !sound {
        let ghost before = names@;
        names.push(name);
        assert(text::views(names@) =~= text::views(before).push(name@));
    }
}

/// The required fields that a claim of the second generation lacks or has in
/// another shape.
pub fn v2_missing_fields(claim: &Value) -> (r: Vec<&'static str>)
    ensures
        text::views(r@) == v2_missing(*claim),
        (r@.len() == 0) == v2_fields_sound(*claim),
{
    let mut names: Vec<&'static str> = Vec::new();
    assert(text::views(names@) =~= Seq::empty());
    push_unless(&mut names, claim.get_text("instanceID").is_some(), "instanceID");
    let generator = match claim.get("claim_generator_info") {
        Some(info) => is_generator(info),
        None => false,
    };
    push_unless(&mut names, generator, "claim_generator_info");
    push_unless(&mut names, claim.get_items("created_assertions").is_some(), "created_assertions");
    assert(text::views(names@).len() == names@.len());
    names
}

/// The required fields that a claim of the first generation lacks or has in
/// another shape.
pub fn v1_missing_fields(claim: &Value) -> (r: Vec<&'static str>)
    ensures
        text::views(r@) == v1_missing(*claim),
        (r@.len() == 0) == v1_fields_sound(*claim),
{
    let mut names: Vec<&'static str> = Vec::new();
    assert(text::views(names@) =~= Seq::empty());
    push_unless(&mut names, claim.get_text("instanceID").is_some(), "instanceID");
    push_unless(&mut names, claim.get_text("claim_generator").is_some(), "claim_generator");
    push_unless(&mut names, lists_generators(claim), "claim_generator_info");
    push_unless(&mut names, claim.get_text("dc:format").is_some(), "dc:format");
    push_unless(&mut names, claim.get_items("assertions").is_some(), "assertions");
    assert(text::views(names@).len() == names@.len());
    names
}

/// The required fields that a claim lacks or has in another shape.
pub fn missing_fields(claim: &Value, generation: ClaimGeneration) -> (r: Vec<&'static str>)
    ensures
        text::views(r@) == missing(*claim, generation),
{
    match generation {
        ClaimGeneration::V1 => v1_missing_fields(claim),
        ClaimGeneration::V2 => v2_missing_fields(claim),
    }
}

// ---------------------------------------------------------------------------
// Laws
// ---------------------------------------------------------------------------


/// The description of a generator as a claim must give it: a name that is not
/// empty, a version that is a text where there is one, and an icon with a URL and
/// a digest where there is one.
pub open spec fn describes_a_generator(info: Value) -> bool {
    &&& info.text_field("name"@) is Some
    &&& info.text_field("name"@)->0.len() > 0
    &&& info.field("version"@) is None || info.field("version"@)->0 is Text
    &&& info.field("icon"@) is None || (info.field("icon"@)->0.text_field("url"@) is Some
        && info.field("icon"@)->0.bytes_field("hash"@) is Some)
}

/// No required field of a claim is reported missing exactly where all of them are
/// there in their shape: in the second generation an instance ID, one described
/// generator and the list of created assertions; in the first an instance ID, a
/// generator text, a list of described generators, a format and the list of
/// assertions.
pub proof fn no_field_is_missing_exactly_where_all_are_sound(claim: Value)
    ensures
        (missing(claim, ClaimGeneration::V2).len() == 0) == (claim.text_field("instanceID"@) is Some
            && claim.field("claim_generator_info"@) is Some && describes_a_generator(
            claim.field("claim_generator_info"@)->0,
        ) && claim.items_field("created_assertions"@) is Some),
        (missing(claim, ClaimGeneration::V1).len() == 0) == (claim.text_field("instanceID"@) is Some
            && claim.text_field("claim_generator"@) is Some && claim.items_field(
            "claim_generator_info"@,
        ) is Some && (forall|i: int|
            0 <= i < claim.items_field("claim_generator_info"@)->0.len() ==> describes_a_generator(
                #[trigger] claim.items_field("claim_generator_info"@)->0[i],
            )) && claim.text_field("dc:format"@) is Some && claim.items_field("assertions"@)
            is Some),
{
    assert forall|info: Value| #[trigger]
        describes_a_generator(info) == generator_sound(info) by {}
    if let Some(list) = claim.items_field("claim_generator_info"@) {
        if v1_generators_sound(claim) {
            assert forall|i: int| 0 <= i < list.len() implies describes_a_generator(
                #[trigger] list[i],
            ) by {
                assert(generator_sound(list[i]));
            }
        }
        if forall|i: int| 0 <= i < list.len() ==> describes_a_generator(#[trigger] list[i]) {
            assert forall|i: int| 0 <= i < list.len() implies generator_sound(
                #[trigger] list[i],
            ) by {
                assert(describes_a_generator(list[i]));
            }
        }
    }
}

/// Each field that is missing is named, and no other: a field is named exactly
/// where it is not there in its shape.
pub proof fn missing_fields_are_named(claim: Value)
    ensures
        ({
            let m = missing(claim, ClaimGeneration::V2);
            &&& m.contains("instanceID"@) == (claim.text_field("instanceID"@) is None)
            &&& m.contains("created_assertions"@) == (claim.items_field("created_assertions"@)
                is None)
        }),
        ({
            let m = missing(claim, ClaimGeneration::V1);
            &&& m.contains("instanceID"@) == (claim.text_field("instanceID"@) is None)
            &&& m.contains("claim_generator"@) == (claim.text_field("claim_generator"@) is None)
            &&& m.contains("dc:format"@) == (claim.text_field("dc:format"@) is None)
            &&& m.contains("assertions"@) == (claim.items_field("assertions"@) is None)
        }),
{
    reveal_strlit("instanceID");
    reveal_strlit("claim_generator_info");
    reveal_strlit("created_assertions");
    reveal_strlit("claim_generator");
    reveal_strlit("dc:format");
    reveal_strlit("assertions");
    assert("instanceID"@[0] == 'i');
    assert("assertions"@[0] == 'a');
    assert("dc:format"@[0] == 'd');
    assert("claim_generator"@.len() == 15);
    assert("claim_generator_info"@.len() == 20);
    assert("created_assertions"@.len() == 18);
    let none = Seq::<Seq<char>>::empty();
    let a = unless(claim.text_field("instanceID"@) is Some, "instanceID"@, none);
    lemma_named(claim.text_field("instanceID"@) is Some, "instanceID"@, none);
    let b = unless(v2_generator_sound(claim), "claim_generator_info"@, a);
    lemma_named(v2_generator_sound(claim), "claim_generator_info"@, a);
    lemma_named(claim.items_field("created_assertions"@) is Some, "created_assertions"@, b);
    let b1 = unless(claim.text_field("claim_generator"@) is Some, "claim_generator"@, a);
    lemma_named(claim.text_field("claim_generator"@) is Some, "claim_generator"@, a);
    let c1 = unless(v1_generators_sound(claim), "claim_generator_info"@, b1);
    lemma_named(v1_generators_sound(claim), "claim_generator_info"@, b1);
    let d1 = unless(claim.text_field("dc:format"@) is Some, "dc:format"@, c1);
    lemma_named(claim.text_field("dc:format"@) is Some, "dc:format"@, c1);
    lemma_named(claim.items_field("assertions"@) is Some, "assertions"@, d1);
}

proof fn lemma_named(sound: bool, name: Seq<char>, names: Seq<Seq<char>>)
    ensures
        forall|l: Seq<char>| #[trigger]
            unless(sound, name, names).contains(l) == (names.contains(l) || (!sound && l == name)),
{
    let after = unless(sound, name, names);
    assert forall|l: Seq<char>| #[trigger]
        after.contains(l) == (names.contains(l) || (!sound && l == name)) by {
        if !sound {
            assert(after[names.len() as int] == name);
            if names.contains(l) {
                let i = choose|i: int| 0 <= i < names.len() && names[i] == l;
                assert(after[i] == l);
            }
            if after.contains(l) {
                let i = choose|i: int| 0 <= i < after.len() && after[i] == l;
                if i < names.len() {
                    assert(names[i] == l);
                }
            }
        }
    }
}

} // verus!
