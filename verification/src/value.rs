//! Decoded CBOR values and the typed reads that every check is written in.
use vstd::prelude::*;
use crate::text::str_eq;

verus! {

/// A decoded CBOR data item.
///
/// A floating-point item is carried by its IEEE 754 bit pattern and its
/// rendering in debug form.
#[derive(Debug)]
pub enum Value {
    Integer(i128),
    Bytes(Vec<u8>),
    Text(String),
    Array(Vec<Value>),
    Dict(Vec<(Value, Value)>),
    Tag(u64, Box<Value>),
    Bool(bool),
    Null,
    Float(u64, String),
}

/// The value of the first entry at or behind `i` whose key is the text `key`.
pub open spec fn entry_from(entries: Seq<(Value, Value)>, key: Seq<char>, i: int) -> Option<Value>
    decreases entries.len() - i,
{
    if i < 0 || i >= entries.len() {
        None
    } else if is_text(entries[i].0, key) {
        Some(entries[i].1)
    } else {
        entry_from(entries, key, i + 1)
    }
}

/// `v` is the text `key`.
pub open spec fn is_text(v: Value, key: Seq<char>) -> bool {
    match v {
        Value::Text(t) => t@ == key,
        _ => false,
    }
}

/// An optional reference as an optional value.
pub open spec fn pointee<T>(r: Option<&T>) -> Option<T> {
    match r {
        Some(v) => Some(*v),
        None => None,
    }
}

/// An optional string slice as optional characters.
pub open spec fn chars_opt(r: Option<&str>) -> Option<Seq<char>> {
    match r {
        Some(v) => Some(v@),
        None => None,
    }
}

/// An optional byte slice as optional bytes.
pub open spec fn bytes_opt(r: Option<&[u8]>) -> Option<Seq<u8>> {
    match r {
        Some(v) => Some(v@),
        None => None,
    }
}

/// An optional slice of values as an optional sequence.
pub open spec fn items_opt(r: Option<&[Value]>) -> Option<Seq<Value>> {
    match r {
        Some(v) => Some(v@),
        None => None,
    }
}

/// The text of an optional value.
pub open spec fn text_of(v: Option<Value>) -> Option<Seq<char>> {
    match v {
        Some(Value::Text(t)) => Some(t@),
        _ => None,
    }
}

/// The bytes of an optional value.
pub open spec fn bytes_of(v: Option<Value>) -> Option<Seq<u8>> {
    match v {
        Some(Value::Bytes(b)) => Some(b@),
        _ => None,
    }
}

/// The items of an optional array value.
pub open spec fn items_of(v: Option<Value>) -> Option<Seq<Value>> {
    match v {
        Some(Value::Array(a)) => Some(a@),
        _ => None,
    }
}

/// A non-negative integer value that fits a `usize`.
pub open spec fn usize_of(v: Option<Value>) -> Option<usize> {
    match v {
        Some(Value::Integer(n)) => if 0 <= n <= usize::MAX {
            Some(n as usize)
        } else {
            None
        },
        _ => None,
    }
}

impl Value {
    /// The value under the text key `key` of a map; nothing for any other kind.
    pub open spec fn field(self, key: Seq<char>) -> Option<Value> {
        match self {
            Value::Dict(entries) => entry_from(entries@, key, 0),
            _ => None,
        }
    }

    pub open spec fn text_field(self, key: Seq<char>) -> Option<Seq<char>> {
        text_of(self.field(key))
    }

    pub open spec fn bytes_field(self, key: Seq<char>) -> Option<Seq<u8>> {
        bytes_of(self.field(key))
    }

    pub open spec fn items_field(self, key: Seq<char>) -> Option<Seq<Value>> {
        items_of(self.field(key))
    }

    pub open spec fn usize_field(self, key: Seq<char>) -> Option<usize> {
        usize_of(self.field(key))
    }

    /// The value under the text key `key`.
    pub fn get(&self, key: &str) -> (r: Option<&Value>)
        ensures
            pointee(r) == self.field(key@),
    {
        match self {
            Value::Dict(entries) => {
                let mut i: usize = 0;
                while i < entries.len()
                    invariant
                        i <= entries.len(),
                        *self == Value::Dict(*entries),
                        entry_from(entries@, key@, i as int) == self.field(key@),
                    decreases entries.len() - i,
                {
                    if let Value::Text(t) = &entries[i].0 {
                        if str_eq(t.as_str(), key) {
                            return Some(&entries[i].1);
                        }
                    }
                    i += 1;
                }
                None
            },
            _ => None,
        }
    }

    /// The text of a text value.
    pub fn as_text(&self) -> (r: Option<&str>)
        ensures
            chars_opt(r) == text_of(Some(*self)),
    {
        match self {
            Value::Text(t) => Some(t.as_str()),
            _ => None,
        }
    }

    /// The bytes of a byte-string value.
    pub fn as_bytes(&self) -> (r: Option<&[u8]>)
        ensures
            bytes_opt(r) == bytes_of(Some(*self)),
    {
        match self {
            Value::Bytes(b) => Some(b.as_slice()),
            _ => None,
        }
    }

    /// The text under the text key `key`.
    pub fn get_text(&self, key: &str) -> (r: Option<&str>)
        ensures
            chars_opt(r) == self.text_field(key@),
    {
        match self.get(key) {
            Some(v) => v.as_text(),
            None => None,
        }
    }

    /// The byte string under the text key `key`.
    pub fn get_bytes(&self, key: &str) -> (r: Option<&[u8]>)
        ensures
            bytes_opt(r) == self.bytes_field(key@),
    {
        match self.get(key) {
            Some(v) => v.as_bytes(),
            None => None,
        }
    }

    /// The items of an array.
    pub fn as_items(&self) -> (r: Option<&[Value]>)
        ensures
            items_opt(r) == items_of(Some(*self)),
    {
        match self {
            Value::Array(a) => Some(a.as_slice()),
            _ => None,
        }
    }

    /// The array under the text key `key`.
    pub fn get_items(&self, key: &str) -> (r: Option<&[Value]>)
        ensures
            items_opt(r) == self.items_field(key@),
    {
        match self.get(key) {
            Some(Value::Array(a)) => Some(a.as_slice()),
            _ => None,
        }
    }

    /// The non-negative integer under the text key `key`.
    pub fn get_usize(&self, key: &str) -> (r: Option<usize>)
        ensures
            r == self.usize_field(key@),
    {
        match self.get(key) {
            Some(v) => int_usize(v),
            None => None,
        }
    }
}

/// Interpret a CBOR integer as a `usize`, rejecting negatives.
pub fn int_usize(value: &Value) -> (r: Option<usize>)
    ensures
        r == usize_of(Some(*value)),
{
    match value {
        Value::Integer(n) => match usize::try_from(*n) {
            Ok(x) => Some(x),
            Err(_) => None,
        },
        _ => None,
    }
}

} // verus!
