//! Length-bounded measurement of the manifest wrapper in unstructured text.
//!
//! A wrapper is U+FEFF followed by variation selectors, each of which stands
//! for one byte: a header (magic, version, manifest length), the manifest, and
//! padding selectors up to a length that the manifest length determines. The
//! span is measured from the wrapper's own length field, so a foreign selector
//! run beside the wrapper is never absorbed into it.
use vstd::prelude::*;
use vstd::utf8::encode_utf8;
use crate::bytes;
use crate::text::chars_of;

verus! {

/// Magic, version and manifest length.
pub const TEXT_WRAPPER_HEADER: usize = 13;

/// The byte that a variation selector stands for.
pub open spec fn selector(c: char) -> Option<u8> {
    let v = c as u32;
    if 0xFE00 <= v <= 0xFE0F {
        Some((v - 0xFE00) as u8)
    } else if 0xE0100 <= v <= 0xE01EF {
        Some((v - 0xE0100 + 16) as u8)
    } else {
        None
    }
}

/// The number of bytes that text takes up.
pub open spec fn byte_len(s: Seq<char>) -> nat {
    encode_utf8(s).len()
}

/// The `n` characters from `from` on are variation selectors.
pub open spec fn selectors(s: Seq<char>, from: int, n: nat) -> bool {
    from + n <= s.len() && forall|k: int| from <= k < from + n ==> selector(#[trigger] s[k]) is Some
}

/// The bytes that the `n` selectors from `from` on stand for.
pub open spec fn payload(s: Seq<char>, from: int, n: nat) -> Seq<u8> {
    Seq::new(n, |k: int| selector(s[from + k])->0)
}

/// `C2PATXT` and a zero byte.
pub open spec fn magic() -> Seq<u8> {
    seq![0x43u8, 0x32, 0x50, 0x41, 0x54, 0x58, 0x54, 0x00]
}

/// The manifest length that a header behind position `i` declares.
pub open spec fn declared_length(s: Seq<char>, i: int) -> Option<nat> {
    if selectors(s, i + 1, TEXT_WRAPPER_HEADER as nat) {
        let h = payload(s, i + 1, TEXT_WRAPPER_HEADER as nat);
        if h.subrange(0, 8) == magic() && h[8] == 1 {
            Some(bytes::be_number(h.subrange(9, 13)))
        } else {
            None
        }
    } else {
        None
    }
}

/// The character behind the manifest of a wrapper that begins at `i`.
pub open spec fn manifest_end(s: Seq<char>, i: int) -> Option<int> {
    if s[i] != '\u{feff}' {
        None
    } else {
        match declared_length(s, i) {
            Some(n) => if selectors(s, i + 1, TEXT_WRAPPER_HEADER as nat + n) {
                Some(i + 1 + TEXT_WRAPPER_HEADER as int + n as int)
            } else {
                None
            },
            None => None,
        }
    }
}

/// The byte length of a padded wrapper around a manifest of `n` bytes.
pub open spec fn padded_length(n: nat) -> nat {
    3 + (TEXT_WRAPPER_HEADER as nat + n) * 4 + 6
}

/// The character is a padding selector.
pub open spec fn is_padding(c: char) -> bool {
    selector(c) == Some(0x00u8) || selector(c) == Some(0xFFu8)
}

/// The end of the padding from `k` on, in a wrapper that begins at `i` and takes
/// up at most `bound` bytes.
pub open spec fn padding_end(s: Seq<char>, i: int, k: int, bound: nat) -> int
    decreases s.len() - k,
{
    if k < 0 || k >= s.len() || !is_padding(s[k]) || byte_len(s.subrange(i, k + 1)) > bound {
        k
    } else {
        padding_end(s, i, k + 1, bound)
    }
}

/// The span of the first wrapper at or behind `i`, in characters.
pub open spec fn wrapper_from(s: Seq<char>, i: int) -> Option<(int, int)>
    decreases s.len() - i,
{
    if i < 0 || i >= s.len() {
        None
    } else {
        match manifest_end(s, i) {
            Some(e) => Some((i, padding_end(s, i, e, padded_length(declared_length(s, i)->0)))),
            None => wrapper_from(s, i + 1),
        }
    }
}

/// The span of the first wrapper, in characters.
pub open spec fn wrapper_span(s: Seq<char>) -> Option<(int, int)> {
    wrapper_from(s, 0)
}

// ---------------------------------------------------------------------------
// Byte lengths
// ---------------------------------------------------------------------------

/// The number of bytes that a character takes up.
pub open spec fn char_width(c: char) -> nat {
    let v = c as u32;
    if v < 0x80 {
        1
    } else if v < 0x800 {
        2
    } else if v < 0x10000 {
        3
    } else {
        4
    }
}

proof fn lemma_concat(a: Seq<char>, b: Seq<char>)
    ensures
        byte_len(a + b) == byte_len(a) + byte_len(b),
    decreases a.len(),
{
    if a.len() == 0 {
        assert(a + b =~= b);
    } else {
        assert((a + b).drop_first() =~= a.drop_first() + b);
        lemma_concat(a.drop_first(), b);
    }
}

proof fn lemma_one(c: char)
    ensures
        byte_len(seq![c]) == char_width(c),
{
    assert(seq![c].drop_first() =~= Seq::<char>::empty());
    assert(encode_utf8(Seq::<char>::empty()).len() == 0);
}

proof fn lemma_extend(s: Seq<char>, i: int, k: int)
    requires
        0 <= i <= k < s.len(),
    ensures
        byte_len(s.subrange(i, k + 1)) == byte_len(s.subrange(i, k)) + char_width(s[k]),
{
    assert(s.subrange(i, k + 1) =~= s.subrange(i, k) + seq![s[k]]);
    lemma_concat(s.subrange(i, k), seq![s[k]]);
    lemma_one(s[k]);
}

proof fn lemma_part_fits(s: Seq<char>, i: int, k: int)
    requires
        0 <= i <= k <= s.len(),
    ensures
        byte_len(s.subrange(i, k)) <= byte_len(s),
        byte_len(s.subrange(0, i)) + byte_len(s.subrange(i, k)) <= byte_len(s),
{
    assert(s =~= (s.subrange(0, i) + s.subrange(i, k)) + s.subrange(k, s.len() as int));
    lemma_concat(s.subrange(0, i) + s.subrange(i, k), s.subrange(k, s.len() as int));
    lemma_concat(s.subrange(0, i), s.subrange(i, k));
}

fn width_of(c: char) -> (r: usize)
    ensures
        r == char_width(c),
        1 <= r <= 4,
{
    let v = c as u32;
    if v < 0x80 {
        1
    } else if v < 0x800 {
        2
    } else if v < 0x10000 {
        3
    } else {
        4
    }
}

/// The bytes that the characters from `i` up to `k` take up.
fn part_bytes(chars: &Vec<char>, i: usize, k: usize) -> (r: usize)
    requires
        i <= k <= chars@.len(),
        byte_len(chars@) <= usize::MAX,
    ensures
        r == byte_len(chars@.subrange(i as int, k as int)),
{
    let ghost s = chars@;
    let mut n: usize = 0;
    let mut j: usize = i;
    assert(s.subrange(i as int, i as int) =~= Seq::<char>::empty());
    while j < k
        invariant
            i <= j <= k <= s.len(),
            s == chars@,
            byte_len(s) <= usize::MAX,
            n == byte_len(s.subrange(i as int, j as int)),
        decreases k - j,
    {
        proof {
            lemma_extend(s, i as int, j as int);
            lemma_part_fits(s, i as int, j + 1);
        }
        n = n + width_of(chars[j]);
        j += 1;
    }
    n
}

// ---------------------------------------------------------------------------
// Measurement
// ---------------------------------------------------------------------------

/// The byte that a variation selector stands for.
pub fn vs_to_byte(c: char) -> (r: Option<u8>)
    ensures
        r == selector(c),
{
    let v = c as u32;
    if 0xFE00 <= v && v <= 0xFE0F {
        Some((v - 0xFE00) as u8)
    } else if 0xE0100 <= v && v <= 0xE01EF {
        Some((v - 0xE0100 + 16) as u8)
    } else {
        None
    }
}

fn are_selectors(chars: &Vec<char>, from: usize, n: u64) -> (r: bool)
    requires
        from <= chars@.len(),
    ensures
        r == selectors(chars@, from as int, n as nat),
{
    if n > (chars.len() - from) as u64 {
        return false;
    }
    let end: usize = from + n as usize;
    let mut k: usize = from;
    while k < end
        invariant
            from <= k <= end,
            end == from + n,
            end <= chars@.len(),
            forall|j: int| from <= j < k ==> selector(#[trigger] chars@[j]) is Some,
        decreases end - k,
    {
        if vs_to_byte(chars[k]).is_none() {
            return false;
        }
        k += 1;
    }
    true
}

fn byte_at(chars: &Vec<char>, k: usize) -> (r: u8)
    requires
        k < chars@.len(),
        selector(chars@[k as int]) is Some,
    ensures
        selector(chars@[k as int]) == Some(r),
{
    match vs_to_byte(chars[k]) {
        Some(b) => b,
        None => 0,
    }
}

fn read_header(chars: &Vec<char>, i: usize) -> (r: Option<u32>)
    requires
        i < chars@.len(),
    ensures
        match r {
            Some(n) => declared_length(chars@, i as int) == Some(n as nat),
            None => declared_length(chars@, i as int) is None,
        },
{
    let count = chars.len();
    if !are_selectors(chars, i + 1, TEXT_WRAPPER_HEADER as u64) {
        return None;
    }
    let ghost h = payload(chars@, i + 1, TEXT_WRAPPER_HEADER as nat);
    let mut raw: Vec<u8> = Vec::new();
    let mut k: usize = 0;
    while k < TEXT_WRAPPER_HEADER
        invariant
            k <= TEXT_WRAPPER_HEADER,
            i < count == chars@.len(),
            selectors(chars@, i + 1, TEXT_WRAPPER_HEADER as nat),
            h == payload(chars@, i + 1, TEXT_WRAPPER_HEADER as nat),
            raw@ =~= h.subrange(0, k as int),
        decreases TEXT_WRAPPER_HEADER - k,
    {
        assert(selector(chars@[i + 1 + k]) is Some);
        raw.push(byte_at(chars, i + 1 + k));
        k += 1;
    }
    assert(raw@ =~= h);
    let same = raw[0] == 0x43 && raw[1] == 0x32 && raw[2] == 0x50 && raw[3] == 0x41 && raw[4]
        == 0x54 && raw[5] == 0x58 && raw[6] == 0x54 && raw[7] == 0x00;
    proof {
        if same {
            assert(h.subrange(0, 8) =~= magic());
        } else {
            let m = h.subrange(0, 8);
            assert(forall|j: int| 0 <= j < 8 ==> m[j] == raw@[j]);
            assert(m == magic() ==> (forall|j: int| 0 <= j < 8 ==> m[j] == magic()[j]));
        }
    }
    if !same || raw[8] != 1 {
        return None;
    }
    let n: u32 = raw[9] as u32 * 16777216 + raw[10] as u32 * 65536 + raw[11] as u32 * 256
        + raw[12] as u32;
    proof {
        let t = h.subrange(9, 13);
        reveal_with_fuel(bytes::be_number, 5);
        assert(t.drop_last() =~= h.subrange(9, 12));
        assert(h.subrange(9, 12).drop_last() =~= h.subrange(9, 11));
        assert(h.subrange(9, 11).drop_last() =~= h.subrange(9, 10));
        assert(h.subrange(9, 10).drop_last() =~= h.subrange(9, 9));
        assert(bytes::be_number(h.subrange(9, 9)) == 0);
        assert(bytes::be_number(t) == n);
    }
    Some(n)
}

fn skip_padding(chars: &Vec<char>, i: usize, from: usize, bound: u64) -> (r: usize)
    requires
        i <= from <= chars@.len(),
        byte_len(chars@) <= usize::MAX,
    ensures
        r == padding_end(chars@, i as int, from as int, bound as nat),
        from <= r <= chars@.len(),
{
    let ghost s = chars@;
    let mut used: usize = part_bytes(chars, i, from);
    let mut k: usize = from;
    while k < chars.len()
        invariant
            i <= from <= k <= chars@.len(),
            s == chars@,
            byte_len(s) <= usize::MAX,
            used == byte_len(s.subrange(i as int, k as int)),
            padding_end(s, i as int, k as int, bound as nat) == padding_end(
                s,
                i as int,
                from as int,
                bound as nat,
            ),
        decreases chars.len() - k,
    {
        proof {
            lemma_extend(s, i as int, k as int);
            lemma_part_fits(s, i as int, k + 1);
        }
        let padding = match vs_to_byte(chars[k]) {
            Some(b) => b == 0x00 || b == 0xFF,
            None => false,
        };
        let next = used + width_of(chars[k]);
        if !padding || next as u64 > bound {
            return k;
        }
        used = next;
        k += 1;
    }
    k
}

/// The span of the first wrapper, in characters.
fn measure(chars: &Vec<char>) -> (r: Option<(usize, usize)>)
    requires
        byte_len(chars@) <= usize::MAX,
    ensures
        match r {
            Some((i, e)) => wrapper_span(chars@) == Some((i as int, e as int)) && i <= e
                && e <= chars@.len(),
            None => wrapper_span(chars@) is None,
        },
{
    let mut i: usize = 0;
    while i < chars.len()
        invariant
            i <= chars.len(),
            byte_len(chars@) <= usize::MAX,
            wrapper_from(chars@, i as int) == wrapper_span(chars@),
        decreases chars.len() - i,
    {
        if chars[i] == '\u{feff}' {
            if let Some(n) = read_header(chars, i) {
                let total: u64 = TEXT_WRAPPER_HEADER as u64 + n as u64;
                if are_selectors(chars, i + 1, total) {
                    let end: usize = i + 1 + total as usize;
                    let bound: u64 = 3 + total * 4 + 6;
                    let e = skip_padding(chars, i, end, bound);
                    return Some((i, e));
                }
            }
        }
        i += 1;
    }
    None
}

/// The byte span `(start, length)` of the first valid wrapper in `text`.
///
/// Exactly the declared payload is read, then padding selectors only, and only
/// while the span stays within the padded length for that manifest length.
pub fn locate_text_wrapper(text: &str) -> (r: Option<(usize, usize)>)
    ensures
        match wrapper_span(text@) {
            Some((i, e)) => r == Some(
                (
                    byte_len(text@.subrange(0, i)) as usize,
                    byte_len(text@.subrange(i, e)) as usize,
                ),
            ) && byte_len(text@.subrange(0, i)) + byte_len(text@.subrange(i, e)) <= usize::MAX,
            None => r is None,
        },
{
    let raw = text.as_bytes();
    let total = raw.len();
    assert(byte_len(text@) == total);
    let chars = chars_of(text);
    match measure(&chars) {
        Some((i, e)) => {
            proof {
                lemma_part_fits(text@, i as int, e as int);
            }
            let start = part_bytes(&chars, 0, i);
            let length = part_bytes(&chars, i, e);
            Some((start, length))
        },
        None => None,
    }
}

/// The half-open span of the first valid wrapper in characters.
pub fn text_wrapper_char_span(text: &str) -> (r: Option<(usize, usize)>)
    ensures
        match r {
            Some((i, e)) => wrapper_span(text@) == Some((i as int, e as int)),
            None => wrapper_span(text@) is None,
        },
{
    let raw = text.as_bytes();
    let total = raw.len();
    assert(byte_len(text@) == total);
    let chars = chars_of(text);
    measure(&chars)
}

// ---------------------------------------------------------------------------
// Laws
// ---------------------------------------------------------------------------

proof fn lemma_selector_bytes(s: Seq<char>, i: int, k: int)
    requires
        0 <= i < k <= s.len(),
        s[i] == '\u{feff}',
        forall|j: int| i < j < k ==> selector(#[trigger] s[j]) is Some,
    ensures
        byte_len(s.subrange(i, k)) <= 3 + (k - i - 1) * 4,
    decreases k - i,
{
    lemma_extend(s, i, k - 1);
    if k - 1 > i {
        lemma_selector_bytes(s, i, k - 1);
    } else {
        assert(s.subrange(i, i) =~= Seq::<char>::empty());
    }
}

proof fn lemma_padding_bound(s: Seq<char>, i: int, k: int, bound: nat)
    requires
        0 <= i <= k <= s.len(),
        byte_len(s.subrange(i, k)) <= bound,
    ensures
        k <= padding_end(s, i, k, bound) <= s.len(),
        byte_len(s.subrange(i, padding_end(s, i, k, bound))) <= bound,
    decreases s.len() - k,
{
    if k < s.len() && is_padding(s[k]) && byte_len(s.subrange(i, k + 1)) <= bound {
        lemma_padding_bound(s, i, k + 1, bound);
    }
}

proof fn lemma_wrapper_from(s: Seq<char>, i: int)
    requires
        0 <= i,
    ensures
        wrapper_from(s, i) matches Some(w) ==> i <= w.0 < s.len() && manifest_end(s, w.0) is Some
            && w.1 == padding_end(
            s,
            w.0,
            manifest_end(s, w.0)->0,
            padded_length(declared_length(s, w.0)->0),
        ),
    decreases s.len() - i,
{
    if i < s.len() && manifest_end(s, i) is None {
        lemma_wrapper_from(s, i + 1);
    }
}

/// The measured span begins with U+FEFF, holds the whole declared payload, and
/// never takes up more bytes than a padded wrapper for the declared manifest
/// length, whatever stands behind it.
pub proof fn span_is_bounded_by_its_own_length_field(s: Seq<char>)
    requires
        wrapper_span(s) is Some,
    ensures
        ({
            let (i, e) = wrapper_span(s)->0;
            &&& 0 <= i < s.len()
            &&& s[i] == '\u{feff}'
            &&& declared_length(s, i) matches Some(n)
            &&& i + 1 + TEXT_WRAPPER_HEADER + n <= e <= s.len()
            &&& byte_len(s.subrange(i, e)) <= padded_length(n)
        }),
{
    lemma_wrapper_from(s, 0);
    let (i, e) = wrapper_span(s)->0;
    let n = declared_length(s, i)->0;
    let m = manifest_end(s, i)->0;
    lemma_selector_bytes(s, i, m);
    lemma_padding_bound(s, i, m, padded_length(n));
}

proof fn lemma_same_payload(s: Seq<char>, t: Seq<char>, from: int, n: nat)
    requires
        0 <= from,
        from + n <= s.len(),
        s.len() <= t.len(),
        forall|k: int| 0 <= k < s.len() ==> s[k] == #[trigger] t[k],
    ensures
        selectors(s, from, n) == selectors(t, from, n),
        payload(s, from, n) =~= payload(t, from, n),
{
    if selectors(t, from, n) {
        assert forall|k: int| from <= k < from + n implies selector(#[trigger] s[k]) is Some by {
            assert(selector(t[k]) is Some);
        }
    }
    if selectors(s, from, n) {
        assert forall|k: int| from <= k < from + n implies selector(#[trigger] t[k]) is Some by {
            assert(selector(s[k]) is Some);
        }
    }
}

/// An unpadded wrapper at the end of a text keeps its span when text that does
/// not begin with a padding selector is appended.
pub proof fn foreign_text_is_never_absorbed(s: Seq<char>, rest: Seq<char>, i: int)
    requires
        0 <= i < s.len(),
        manifest_end(s, i) == Some(s.len() as int),
        rest.len() > 0 ==> !is_padding(rest[0]),
    ensures
        manifest_end(s + rest, i) == Some(s.len() as int),
        padding_end(
            s + rest,
            i,
            s.len() as int,
            padded_length(declared_length(s + rest, i)->0),
        ) == s.len(),
{
    let t = s + rest;
    let n = declared_length(s, i)->0;
    lemma_same_payload(s, t, i + 1, TEXT_WRAPPER_HEADER as nat);
    lemma_same_payload(s, t, i + 1, TEXT_WRAPPER_HEADER as nat + n);
    if rest.len() > 0 {
        assert(t[s.len() as int] == rest[0]);
    }
}

proof fn lemma_same_candidate(s: Seq<char>, t: Seq<char>, j: int, i: int)
    requires
        0 <= j < i < s.len(),
        s.len() <= t.len(),
        forall|k: int| 0 <= k < s.len() ==> s[k] == #[trigger] t[k],
        s[i] == '\u{feff}',
    ensures
        manifest_end(t, j) is Some == (manifest_end(s, j) is Some),
{
    assert(selector(t[i]) is None);
    assert(selector(s[i]) is None);
    let head = TEXT_WRAPPER_HEADER as nat;
    if j + 1 + head <= s.len() {
        lemma_same_payload(s, t, j + 1, head);
        if declared_length(s, j) is Some {
            let n = declared_length(s, j)->0;
            if j + 1 + head + n <= s.len() {
                lemma_same_payload(s, t, j + 1, head + n);
            }
        }
    }
}

proof fn lemma_same_start(s: Seq<char>, t: Seq<char>, j: int, i: int)
    requires
        0 <= j <= i < s.len(),
        s.len() <= t.len(),
        forall|k: int| 0 <= k < s.len() ==> s[k] == #[trigger] t[k],
        s[i] == '\u{feff}',
        wrapper_from(s, j) matches Some(w) && w.0 == i,
        manifest_end(t, i) is Some,
    ensures
        wrapper_from(t, j) == wrapper_from(t, i),
    decreases i - j,
{
    if j < i {
        lemma_same_candidate(s, t, j, i);
        lemma_same_start(s, t, j + 1, i);
    }
}

proof fn lemma_same_padding(s: Seq<char>, t: Seq<char>, i: int, k: int, bound: nat)
    requires
        0 <= i <= k <= s.len(),
        s.len() <= t.len(),
        forall|j: int| 0 <= j < s.len() ==> s[j] == #[trigger] t[j],
        ({
            let e = padding_end(s, i, k, bound);
            e < s.len() || byte_len(s.subrange(i, e)) + 3 > bound
        }),
    ensures
        padding_end(t, i, k, bound) == padding_end(s, i, k, bound),
    decreases s.len() - k,
{
    assert(t.subrange(i, k) =~= s.subrange(i, k));
    if k < s.len() {
        assert(t.subrange(i, k + 1) =~= s.subrange(i, k + 1));
        if is_padding(s[k]) && byte_len(s.subrange(i, k + 1)) <= bound {
            lemma_same_padding(s, t, i, k + 1, bound);
        }
    } else if k < t.len() && is_padding(t[k]) {
        lemma_extend(t, i, k);
    }
}

/// A suffix never changes the span of a wrapper that is settled: one that other
/// text already follows, or that has no room left for a padding selector. So no
/// adjacent run, of selectors or of padding look-alikes, is absorbed.
pub proof fn settled_wrappers_absorb_no_suffix(s: Seq<char>, rest: Seq<char>)
    requires
        wrapper_span(s) is Some,
        ({
            let (i, e) = wrapper_span(s)->0;
            e < s.len() || byte_len(s.subrange(i, e)) + 3 > padded_length(
                declared_length(s, i)->0,
            )
        }),
    ensures
        wrapper_span(s + rest) == wrapper_span(s),
        ({
            let (i, e) = wrapper_span(s)->0;
            &&& byte_len((s + rest).subrange(0, i)) == byte_len(s.subrange(0, i))
            &&& byte_len((s + rest).subrange(i, e)) == byte_len(s.subrange(i, e))
        }),
{
    let t = s + rest;
    span_is_bounded_by_its_own_length_field(s);
    lemma_wrapper_from(s, 0);
    let (i, e) = wrapper_span(s)->0;
    let n = declared_length(s, i)->0;
    let m = manifest_end(s, i)->0;
    lemma_same_payload(s, t, i + 1, TEXT_WRAPPER_HEADER as nat);
    lemma_same_payload(s, t, i + 1, TEXT_WRAPPER_HEADER as nat + n);
    assert(manifest_end(t, i) == Some(m));
    lemma_same_start(s, t, 0, i);
    lemma_same_padding(s, t, i, m, padded_length(n));
    assert(t.subrange(0, i) =~= s.subrange(0, i));
    assert(t.subrange(i, e) =~= s.subrange(i, e));
}

proof fn lemma_first_wrapper(s: Seq<char>, i: int)
    requires
        0 <= i,
    ensures
        match wrapper_from(s, i) {
            Some(w) => forall|j: int| i <= j < w.0 ==> (#[trigger] manifest_end(s, j)) is None,
            None => forall|j: int| i <= j < s.len() ==> (#[trigger] manifest_end(s, j)) is None,
        },
    decreases s.len() - i,
{
    if i < s.len() && manifest_end(s, i) is None {
        lemma_first_wrapper(s, i + 1);
    }
}

/// The wrapper begins at `i`: a U+FEFF, then selectors that stand for the magic,
/// the version and the big-endian length, and for as many further bytes.
pub open spec fn begins_wrapper(s: Seq<char>, i: int) -> bool {
    let header = payload(s, i + 1, 13);
    &&& 0 <= i < s.len()
    &&& s[i] == '\u{feff}'
    &&& i + 14 <= s.len()
    &&& forall|k: int| i < k < i + 14 ==> selector(#[trigger] s[k]) is Some
    &&& header.subrange(0, 8) == seq![0x43u8, 0x32, 0x50, 0x41, 0x54, 0x58, 0x54, 0x00]
    &&& header[8] == 1
    &&& ({
        let n = bytes::be_number(header.subrange(9, 13));
        &&& i + 14 + n <= s.len()
        &&& forall|k: int| i < k < i + 14 + n ==> selector(#[trigger] s[k]) is Some
    })
}

/// The span found is that of the first wrapper in the text; a text has none
/// exactly where no wrapper begins in it. What the span holds behind the declared
/// payload is padding alone.
pub proof fn the_first_wrapper_is_found(s: Seq<char>)
    ensures
        wrapper_span(s) is None == (forall|i: int|
            0 <= i < s.len() ==> !#[trigger] begins_wrapper(s, i)),
        wrapper_span(s) matches Some(w) ==> begins_wrapper(s, w.0) && (forall|j: int|
            0 <= j < w.0 ==> !#[trigger] begins_wrapper(s, j)) && ({
            let n = bytes::be_number(payload(s, w.0 + 1, 13).subrange(9, 13));
            &&& w.0 + 14 + n <= w.1 <= s.len()
            &&& forall|k: int| w.0 + 14 + n <= k < w.1 ==> is_padding(#[trigger] s[k])
        }),
{
    lemma_first_wrapper(s, 0);
    lemma_wrapper_from(s, 0);
    assert forall|i: int| 0 <= i < s.len() implies #[trigger] begins_wrapper(s, i)
        == manifest_end(s, i) is Some by {
        if begins_wrapper(s, i) {
            assert(selectors(s, i + 1, 13));
            let n = bytes::be_number(payload(s, i + 1, 13).subrange(9, 13));
            assert(declared_length(s, i) == Some(n));
            assert(selectors(s, i + 1, 13 + n));
        }
        if manifest_end(s, i) is Some {
            assert(selectors(s, i + 1, 13));
        }
    }
    if let Some(w) = wrapper_span(s) {
        let n = declared_length(s, w.0)->0;
        let m = manifest_end(s, w.0)->0;
        assert(begins_wrapper(s, w.0));
        lemma_selector_bytes(s, w.0, m);
        lemma_padding_bound(s, w.0, m, padded_length(n));
        lemma_only_padding(s, w.0, m, padded_length(n));
        assert forall|j: int| 0 <= j < w.0 implies !#[trigger] begins_wrapper(s, j) by {
            assert(manifest_end(s, j) is None);
        }
    } else {
        assert forall|i: int| 0 <= i < s.len() implies !#[trigger] begins_wrapper(s, i) by {
            assert(manifest_end(s, i) is None);
        }
    }
}

proof fn lemma_only_padding(s: Seq<char>, i: int, k: int, bound: nat)
    requires
        0 <= k <= s.len(),
    ensures
        forall|j: int| k <= j < padding_end(s, i, k, bound) ==> is_padding(#[trigger] s[j]),
    decreases s.len() - k,
{
    if k < s.len() && is_padding(s[k]) && byte_len(s.subrange(i, k + 1)) <= bound {
        lemma_only_padding(s, i, k + 1, bound);
    }
}

/// Every byte has a variation selector that stands for it, and no two selectors
/// stand for the same byte.
pub proof fn selectors_stand_for_every_byte(a: char, b: char)
    ensures
        selector(a) is Some && selector(a) == selector(b) ==> a == b,
        (selector(a) is Some) == ('\u{fe00}' <= a <= '\u{fe0f}' || '\u{e0100}' <= a
            <= '\u{e01ef}'),
        selector('\u{fe00}') == Some(0u8),
        selector('\u{e01ef}') == Some(255u8),
{
}

} // verus!
