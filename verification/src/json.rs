//! The JSON documents that reports are assembled in.
use vstd::prelude::*;
use crate::text::str_eq;

verus! {

/// A JSON value.
///
/// An object keeps its members in insertion order. A key occurs at most once in
/// an object that was filled through [`Json::insert`].
#[derive(Debug)]
pub enum Json {
    Null,
    Bool(bool),
    Integer(i128),
    /// A finite number, by its IEEE 754 bit pattern.
    Float(u64),
    Text(String),
    Array(Vec<Json>),
    Object(Vec<(String, Json)>),
}

/// A JSON value as the contracts see it.
pub enum Doc {
    Null,
    Bool(bool),
    Integer(int),
    Float(u64),
    Text(Seq<char>),
    Array(Seq<Doc>),
    Object(Seq<(Seq<char>, Doc)>),
}

/// What a JSON value holds.
pub open spec fn doc(j: Json) -> Doc
    decreases j,
{
    match j {
        Json::Null => Doc::Null,
        Json::Bool(b) => Doc::Bool(b),
        Json::Integer(n) => Doc::Integer(n as int),
        Json::Float(f) => Doc::Float(f),
        Json::Text(t) => Doc::Text(t@),
        Json::Array(items) => Doc::Array(
            Seq::new(
                items@.len(),
                |i: int|
                    if 0 <= i < items@.len() {
                        doc(items@[i])
                    } else {
                        Doc::Null
                    },
            ),
        ),
        Json::Object(members) => Doc::Object(
            Seq::new(
                members@.len(),
                |i: int|
                    if 0 <= i < members@.len() {
                        (members@[i].0@, doc(members@[i].1))
                    } else {
                        (Seq::empty(), Doc::Null)
                    },
            ),
        ),
    }
}

/// What several JSON values hold.
pub open spec fn docs(items: Seq<Json>) -> Seq<Doc> {
    items.map_values(|j: Json| doc(j))
}

/// What the members of an object hold.
pub open spec fn member_docs(members: Seq<(String, Json)>) -> Seq<(Seq<char>, Doc)> {
    members.map_values(|m: (String, Json)| (m.0@, doc(m.1)))
}

/// The position of the first member at or behind `i` with the key `key`.
pub open spec fn member_index(members: Seq<(Seq<char>, Doc)>, key: Seq<char>, i: int) -> Option<int>
    decreases members.len() - i,
{
    if i < 0 || i >= members.len() {
        None
    } else if members[i].0 == key {
        Some(i)
    } else {
        member_index(members, key, i + 1)
    }
}

/// `members` with `value` under `key`, in the place of what stood there.
pub open spec fn with_member(
    members: Seq<(Seq<char>, Doc)>,
    key: Seq<char>,
    value: Doc,
) -> Seq<(Seq<char>, Doc)> {
    match member_index(members, key, 0) {
        Some(i) => members.update(i, (key, value)),
        None => members.push((key, value)),
    }
}

impl Doc {
    /// The member under `key` of an object; nothing for any other kind.
    pub open spec fn member(self, key: Seq<char>) -> Option<Doc> {
        match self {
            Doc::Object(members) => match member_index(members, key, 0) {
                Some(i) => Some(members[i].1),
                None => None,
            },
            _ => None,
        }
    }

    /// This object with `value` under `key`; any other kind as it is.
    pub open spec fn with(self, key: Seq<char>, value: Doc) -> Doc {
        match self {
            Doc::Object(members) => Doc::Object(with_member(members, key, value)),
            _ => self,
        }
    }
}

/// What an optional JSON value holds.
pub open spec fn doc_opt(j: Option<&Json>) -> Option<Doc> {
    match j {
        Some(j) => Some(doc(*j)),
        None => None,
    }
}

/// An array holds what its items hold.
pub proof fn array_doc(items: Vec<Json>)
    ensures
        doc(Json::Array(items)) == Doc::Array(docs(items@)),
{
    assert(doc(Json::Array(items))->Array_0 =~= docs(items@));
}

/// An object holds what its members hold.
pub proof fn object_doc(members: Vec<(String, Json)>)
    ensures
        doc(Json::Object(members)) == Doc::Object(member_docs(members@)),
{
    assert(doc(Json::Object(members))->Object_0 =~= member_docs(members@));
}

fn find_member(members: &Vec<(String, Json)>, key: &str) -> (r: Option<usize>)
    ensures
        match r {
            Some(i) => i < members@.len() && member_index(member_docs(members@), key@, 0) == Some(
                i as int,
            ),
            None => member_index(member_docs(members@), key@, 0) is None,
        },
{
    let ghost md = member_docs(members@);
    let mut i: usize = 0;
    while i < members.len()
        invariant
            i <= members.len(),
            md == member_docs(members@),
            member_index(md, key@, i as int) == member_index(md, key@, 0),
        decreases members.len() - i,
    {
        assert(md[i as int].0 == members@[i as int].0@);
        if str_eq(members[i].0.as_str(), key) {
            return Some(i);
        }
        i += 1;
    }
    None
}

impl Json {
    /// A text.
    pub fn text(s: &str) -> (r: Json)
        ensures
            doc(r) == Doc::Text(s@),
    {
        Json::Text(s.to_owned())
    }

    /// An array.
    pub fn array(items: Vec<Json>) -> (r: Json)
        ensures
            doc(r) == Doc::Array(docs(items@)),
    {
        proof {
            array_doc(items);
        }
        Json::Array(items)
    }

    /// An object without members.
    pub fn object() -> (r: Json)
        ensures
            doc(r) == Doc::Object(Seq::empty()),
    {
        let members: Vec<(String, Json)> = Vec::new();
        proof {
            object_doc(members);
            assert(member_docs(members@) =~= Seq::empty());
        }
        Json::Object(members)
    }

    /// Put `value` under `key` of an object, in the place of what stood there.
    /// Any other kind stays as it is.
    pub fn insert(&mut self, key: &str, value: Json)
        ensures
            doc(*final(self)) == doc(*old(self)).with(key@, doc(value)),
    {
        match self {
            Json::Object(members) => {
                let ghost before = *members;
                proof {
                    object_doc(before);
                }
                match find_member(members, key) {
                    Some(i) => {
                        members.set(i, (key.to_owned(), value));
                        assert(member_docs(members@) =~= member_docs(before@).update(
                            i as int,
                            (key@, doc(value)),
                        ));
                    },
                    None => {
                        members.push((key.to_owned(), value));
                        assert(member_docs(members@) =~= member_docs(before@).push(
                            (key@, doc(value)),
                        ));
                    },
                }
                proof {
                    object_doc(*members);
                }
            },
            _ => {},
        }
    }

    /// The member under `key`.
    pub fn get(&self, key: &str) -> (r: Option<&Json>)
        ensures
            doc_opt(r) == doc(*self).member(key@),
    {
        match self {
            Json::Object(members) => {
                proof {
                    object_doc(*members);
                }
                match find_member(members, key) {
                    Some(i) => Some(&members[i].1),
                    None => None,
                }
            },
            _ => None,
        }
    }

    /// A copy.
    pub fn copy(&self) -> (r: Json)
        ensures
            doc(r) == doc(*self),
        decreases *self,
    {
        match self {
            Json::Null => Json::Null,
            Json::Bool(b) => Json::Bool(*b),
            Json::Integer(n) => Json::Integer(*n),
            Json::Float(f) => Json::Float(*f),
            Json::Text(t) => Json::Text(t.as_str().to_owned()),
            Json::Array(items) => {
                let mut out: Vec<Json> = Vec::new();
                let mut i: usize = 0;
                while i < items.len()
                    invariant
                        i <= items.len(),
                        *self == Json::Array(*items),
                        docs(out@) == docs(items@).take(i as int),
                    decreases items.len() - i,
                {
                    assert(decreases_to!(*self => (*self)->Array_0));
                    assert(decreases_to!(*items => items[i as int]));
                    let c = items[i].copy();
                    let ghost before = out@;
                    out.push(c);
                    assert(docs(out@) =~= docs(before).push(doc(c)));
                    assert(docs(items@).take(i + 1) =~= docs(items@).take(i as int).push(
                        doc(items@[i as int]),
                    ));
                    i += 1;
                }
                assert(docs(items@).take(i as int) =~= docs(items@));
                proof {
                    array_doc(*items);
                    array_doc(out);
                }
                Json::Array(out)
            },
            Json::Object(members) => {
                let mut out: Vec<(String, Json)> = Vec::new();
                let mut i: usize = 0;
                while i < members.len()
                    invariant
                        i <= members.len(),
                        *self == Json::Object(*members),
                        member_docs(out@) == member_docs(members@).take(i as int),
                    decreases members.len() - i,
                {
                    assert(decreases_to!(*self => (*self)->Object_0));
                    assert(decreases_to!(*members => members[i as int]));
                    let c = members[i].1.copy();
                    let k = members[i].0.as_str().to_owned();
                    let ghost before = out@;
                    out.push((k, c));
                    assert(member_docs(out@) =~= member_docs(before).push((k@, doc(c))));
                    assert(member_docs(members@).take(i + 1) =~= member_docs(members@).take(
                        i as int,
                    ).push((members@[i as int].0@, doc(members@[i as int].1))));
                    i += 1;
                }
                assert(member_docs(members@).take(i as int) =~= member_docs(members@));
                proof {
                    object_doc(*members);
                    object_doc(out);
                }
                Json::Object(out)
            },
        }
    }
}

/// An object of the given members.
pub fn object_of(members: Vec<(String, Json)>) -> (r: Json)
    ensures
        doc(r) == Doc::Object(member_docs(members@)),
{
    proof {
        object_doc(members);
    }
    Json::Object(members)
}

/// An object of one member.
pub fn object1(a: (&str, Json)) -> (r: Json)
    ensures
        doc(r) == Doc::Object(seq![(a.0@, doc(a.1))]),
{
    let (ka, va) = a;
    let mut members: Vec<(String, Json)> = Vec::new();
    members.push((ka.to_owned(), va));
    assert(member_docs(members@) =~= seq![(ka@, doc(va))]);
    object_of(members)
}

/// An object of two members.
pub fn object2(a: (&str, Json), b: (&str, Json)) -> (r: Json)
    ensures
        doc(r) == Doc::Object(seq![(a.0@, doc(a.1)), (b.0@, doc(b.1))]),
{
    let (ka, va) = a;
    let (kb, vb) = b;
    let mut members: Vec<(String, Json)> = Vec::new();
    members.push((ka.to_owned(), va));
    members.push((kb.to_owned(), vb));
    assert(member_docs(members@) =~= seq![(ka@, doc(va)), (kb@, doc(vb))]);
    object_of(members)
}

/// An object of three members.
pub fn object3(a: (&str, Json), b: (&str, Json), c: (&str, Json)) -> (r: Json)
    ensures
        doc(r) == Doc::Object(seq![(a.0@, doc(a.1)), (b.0@, doc(b.1)), (c.0@, doc(c.1))]),
{
    let (ka, va) = a;
    let (kb, vb) = b;
    let (kc, vc) = c;
    let mut members: Vec<(String, Json)> = Vec::new();
    members.push((ka.to_owned(), va));
    members.push((kb.to_owned(), vb));
    members.push((kc.to_owned(), vc));
    assert(member_docs(members@) =~= seq![(ka@, doc(va)), (kb@, doc(vb)), (kc@, doc(vc))]);
    object_of(members)
}

/// An object of four members.
pub fn object4(a: (&str, Json), b: (&str, Json), c: (&str, Json), d: (&str, Json)) -> (r: Json)
    ensures
        doc(r) == Doc::Object(
            seq![(a.0@, doc(a.1)), (b.0@, doc(b.1)), (c.0@, doc(c.1)), (d.0@, doc(d.1))],
        ),
{
    let (ka, va) = a;
    let (kb, vb) = b;
    let (kc, vc) = c;
    let (kd, vd) = d;
    let mut members: Vec<(String, Json)> = Vec::new();
    members.push((ka.to_owned(), va));
    members.push((kb.to_owned(), vb));
    members.push((kc.to_owned(), vc));
    members.push((kd.to_owned(), vd));
    assert(member_docs(members@) =~= seq![
        (ka@, doc(va)),
        (kb@, doc(vb)),
        (kc@, doc(vc)),
        (kd@, doc(vd)),
    ]);
    object_of(members)
}

// ---------------------------------------------------------------------------
// Laws
// ---------------------------------------------------------------------------

proof fn lemma_index_bounds(members: Seq<(Seq<char>, Doc)>, key: Seq<char>, i: int)
    requires
        0 <= i,
    ensures
        member_index(members, key, i) matches Some(k) ==> i <= k < members.len() && members[k].0
            == key && forall|j: int| i <= j < k ==> (#[trigger] members[j]).0 != key,
        member_index(members, key, i) is None ==> forall|j: int|
            i <= j < members.len() ==> (#[trigger] members[j]).0 != key,
    decreases members.len() - i,
{
    if i < members.len() && members[i].0 != key {
        lemma_index_bounds(members, key, i + 1);
    }
}

proof fn lemma_index_is(members: Seq<(Seq<char>, Doc)>, key: Seq<char>, i: int, k: int)
    requires
        0 <= i <= k < members.len(),
        members[k].0 == key,
        forall|j: int| i <= j < k ==> (#[trigger] members[j]).0 != key,
    ensures
        member_index(members, key, i) == Some(k),
    decreases k - i,
{
    if i < k {
        lemma_index_is(members, key, i + 1, k);
    }
}

/// What is put under a key of an object is what is read under it, and every
/// other key reads as before.
pub proof fn insert_then_get(members: Seq<(Seq<char>, Doc)>, key: Seq<char>, value: Doc, other: Seq<
    char,
>)
    ensures
        Doc::Object(members).with(key, value).member(key) == Some(value),
        other != key ==> Doc::Object(members).with(key, value).member(other) == Doc::Object(
            members,
        ).member(other),
{
    let after = with_member(members, key, value);
    lemma_index_bounds(members, key, 0);
    lemma_index_bounds(members, other, 0);
    lemma_index_bounds(after, other, 0);
    match member_index(members, key, 0) {
        Some(i) => {
            lemma_index_is(after, key, 0, i);
        },
        None => {
            lemma_index_is(after, key, 0, members.len() as int);
        },
    }
    if other != key {
        match member_index(members, other, 0) {
            Some(k) => {
                lemma_index_is(after, other, 0, k);
            },
            None => {
                if member_index(after, other, 0) is Some {
                    let k = member_index(after, other, 0)->0;
                    assert(after[k].0 == other);
                    assert(k < members.len());
                    assert(members[k].0 == other);
                }
            },
        }
    }
}

} // verus!
