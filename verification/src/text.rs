//! String primitives over `Seq<char>` views: equality, prefixes, splitting,
//! concatenation and decimal rendering.
use vstd::prelude::*;
use vstd::string::StrSliceExecFns;
use vstd::string::StringExecFns;

verus! {

/// `p` is a prefix of `s`.
pub open spec fn is_prefix(p: Seq<char>, s: Seq<char>) -> bool {
    p.len() <= s.len() && s.subrange(0, p.len() as int) == p
}

/// `p` occurs in `s` at position `i`.
pub open spec fn occurs_at(s: Seq<char>, p: Seq<char>, i: int) -> bool {
    0 <= i && i + p.len() <= s.len() && s.subrange(i, i + p.len()) == p
}

/// What remains of `s` behind the prefix `p`.
pub open spec fn after_prefix(s: Seq<char>, p: Seq<char>) -> Option<Seq<char>> {
    if is_prefix(p, s) {
        Some(s.subrange(p.len() as int, s.len() as int))
    } else {
        None
    }
}

/// The position of the first `c` in `s` at or behind `from`.
pub open spec fn first_char(s: Seq<char>, c: char, from: int) -> Option<int>
    decreases s.len() - from,
{
    if from < 0 || from >= s.len() {
        None
    } else if s[from] == c {
        Some(from)
    } else {
        first_char(s, c, from + 1)
    }
}

/// The position of the last occurrence of `p` in `s` that begins below `below`.
pub open spec fn last_occurrence(s: Seq<char>, p: Seq<char>, below: int) -> Option<int>
    decreases below,
{
    if below <= 0 {
        None
    } else if occurs_at(s, p, below - 1) {
        Some(below - 1)
    } else {
        last_occurrence(s, p, below - 1)
    }
}

/// The decimal digits of `n`, most significant first.
pub open spec fn decimal(n: nat) -> Seq<char>
    decreases n,
{
    if n < 10 {
        seq![digit_char(n)]
    } else {
        decimal(n / 10).push(digit_char(n % 10))
    }
}

/// The character of one decimal digit.
pub open spec fn digit_char(d: nat) -> char {
    ((('0' as u32) + d) as u32) as char
}

/// The decimal rendering of a signed number.
pub open spec fn signed_decimal(n: int) -> Seq<char> {
    if n < 0 {
        seq!['-'] + decimal((-n) as nat)
    } else {
        decimal(n as nat)
    }
}

proof fn lemma_encoding_injective(a: Seq<char>, b: Seq<char>)
    requires
        vstd::utf8::encode_utf8(a) == vstd::utf8::encode_utf8(b),
    ensures
        a == b,
{
    vstd::utf8::encode_utf8_decode_utf8(a);
    vstd::utf8::encode_utf8_decode_utf8(b);
}

/// Byte-slice equality.
pub fn bytes_eq(a: &[u8], b: &[u8]) -> (r: bool)
    ensures
        r == (a@ == b@),
{
    if a.len() != b.len() {
        return false;
    }
    let mut i: usize = 0;
    while i < a.len()
        invariant
            i <= a.len(),
            a.len() == b.len(),
            forall|k: int| 0 <= k < i ==> a[k] == b[k],
        decreases a.len() - i,
    {
        if a[i] != b[i] {
            return false;
        }
        i += 1;
    }
    assert(a@ =~= b@);
    true
}

/// String equality.
pub fn str_eq(a: &str, b: &str) -> (r: bool)
    ensures
        r == (a@ == b@),
{
    let r = bytes_eq(a.as_bytes(), b.as_bytes());
    proof {
        if r {
            lemma_encoding_injective(a@, b@);
        }
    }
    r
}

/// The characters of a string.
pub fn chars_of(s: &str) -> (r: Vec<char>)
    ensures
        r@ == s@,
{
    let mut out: Vec<char> = Vec::new();
    for c in it: s.chars()
        invariant
            out@ == it.seq().take(it.index() as int),
            it.seq() == s@,
    {
        out.push(c);
    }
    out
}

/// Whether `p` begins `s`.
pub fn starts_with(s: &str, p: &str) -> (r: bool)
    ensures
        r == is_prefix(p@, s@),
{
    let sc = chars_of(s);
    let pc = chars_of(p);
    if pc.len() > sc.len() {
        return false;
    }
    let mut i: usize = 0;
    while i < pc.len()
        invariant
            i <= pc.len() <= sc.len(),
            sc@ == s@,
            pc@ == p@,
            forall|k: int| 0 <= k < i ==> sc[k] == pc[k],
        decreases pc.len() - i,
    {
        if sc[i] != pc[i] {
            assert(s@.subrange(0, p@.len() as int)[i as int] != p@[i as int]);
            return false;
        }
        i += 1;
    }
    assert(s@.subrange(0, p@.len() as int) =~= p@);
    true
}

/// What remains of `s` behind the prefix `p`.
pub fn strip_prefix<'a>(s: &'a str, p: &str) -> (r: Option<&'a str>)
    ensures
        match r {
            Some(rest) => after_prefix(s@, p@) == Some(rest@),
            None => after_prefix(s@, p@) is None,
        },
{
    if starts_with(s, p) {
        Some(s.substring_char(p.unicode_len(), s.unicode_len()))
    } else {
        None
    }
}

/// `a` followed by `b`.
pub fn join2(a: &str, b: &str) -> (r: String)
    ensures
        r@ == a@ + b@,
{
    let mut out = a.to_owned();
    out.append(b);
    out
}

/// `a`, `b`, `c` one behind the other.
pub fn join3(a: &str, b: &str, c: &str) -> (r: String)
    ensures
        r@ == a@ + b@ + c@,
{
    let mut out = a.to_owned();
    out.append(b);
    out.append(c);
    out
}

/// Four strings one behind the other.
pub fn join4(a: &str, b: &str, c: &str, d: &str) -> (r: String)
    ensures
        r@ == a@ + b@ + c@ + d@,
{
    let mut out = a.to_owned();
    out.append(b);
    out.append(c);
    out.append(d);
    out
}

/// Five strings one behind the other.
pub fn join5(a: &str, b: &str, c: &str, d: &str, e: &str) -> (r: String)
    ensures
        r@ == a@ + b@ + c@ + d@ + e@,
{
    let mut out = a.to_owned();
    out.append(b);
    out.append(c);
    out.append(d);
    out.append(e);
    out
}

fn digit_str(d: u128) -> (r: &'static str)
    requires
        d < 10,
    ensures
        r@ == seq![digit_char(d as nat)],
{
    let digits = "0123456789";
    proof {
        reveal_strlit("0123456789");
    }
    let r = digits.substring_char(d as usize, d as usize + 1);
    assert(r@ =~= seq![digit_char(d as nat)]);
    r
}

/// The decimal rendering of `n`.
pub fn wide_decimal_string(n: u128) -> (r: String)
    ensures
        r@ == decimal(n as nat),
    decreases n,
{
    if n < 10 {
        let r = digit_str(n).to_owned();
        r
    } else {
        let mut head = wide_decimal_string(n / 10);
        head.append(digit_str(n % 10));
        assert(decimal((n / 10) as nat) + seq![digit_char((n % 10) as nat)]
            =~= decimal((n / 10) as nat).push(digit_char((n % 10) as nat)));
        head
    }
}

/// The decimal rendering of `n`.
pub fn decimal_string(n: u64) -> (r: String)
    ensures
        r@ == decimal(n as nat),
{
    wide_decimal_string(n as u128)
}

/// The decimal rendering of a signed number.
pub fn signed_string(n: i128) -> (r: String)
    ensures
        r@ == signed_decimal(n as int),
{
    if n < 0 {
        let low: u128 = (-(n + 1)) as u128;
        let mut out = "-".to_owned();
        let digits = wide_decimal_string(low + 1);
        out.append(digits.as_str());
        proof {
            reveal_strlit("-");
            assert("-"@ =~= seq!['-']);
        }
        out
    } else {
        wide_decimal_string(n as u128)
    }
}

/// `p` ends `s`.
pub open spec fn is_suffix(p: Seq<char>, s: Seq<char>) -> bool {
    p.len() <= s.len() && s.subrange(s.len() - p.len(), s.len() as int) == p
}

/// What stands in `s` in front of the suffix `p`.
pub open spec fn before_suffix(s: Seq<char>, p: Seq<char>) -> Option<Seq<char>> {
    if is_suffix(p, s) {
        Some(s.subrange(0, s.len() - p.len()))
    } else {
        None
    }
}

/// What stands in `s` in front of the suffix `p`.
pub fn strip_suffix<'a>(s: &'a str, p: &str) -> (r: Option<&'a str>)
    ensures
        match r {
            Some(rest) => before_suffix(s@, p@) == Some(rest@),
            None => before_suffix(s@, p@) is None,
        },
{
    let n = s.unicode_len();
    let m = p.unicode_len();
    if m > n {
        return None;
    }
    let tail = s.substring_char(n - m, n);
    if str_eq(tail, p) {
        Some(s.substring_char(0, n - m))
    } else {
        None
    }
}

/// Whether `c` occurs in `s`.
pub fn contains_char(s: &str, c: char) -> (r: bool)
    ensures
        r == s@.contains(c),
{
    find_char(s, c).is_some()
}

/// The position of the first `c` in `s`.
pub fn find_char(s: &str, c: char) -> (r: Option<usize>)
    ensures
        match r {
            Some(i) => first_char(s@, c, 0) == Some(i as int) && i < s@.len() && s@[i as int] == c,
            None => first_char(s@, c, 0) is None,
        },
        r is Some <==> s@.contains(c),
{
    let chars = chars_of(s);
    let mut i: usize = 0;
    while i < chars.len()
        invariant
            i <= chars.len(),
            chars@ == s@,
            first_char(s@, c, i as int) == first_char(s@, c, 0),
            forall|k: int| 0 <= k < i ==> s@[k] != c,
        decreases chars.len() - i,
    {
        if chars[i] == c {
            assert(s@.contains(c));
            return Some(i);
        }
        i += 1;
    }
    None
}

/// What stands in front of the first `c`, or all of `s` where it does not occur.
pub open spec fn head_before(s: Seq<char>, c: char) -> Seq<char> {
    match first_char(s, c, 0) {
        Some(i) => s.subrange(0, i),
        None => s,
    }
}

/// What stands in front of the first `c`, or all of `s`.
pub fn split_head<'a>(s: &'a str, c: char) -> (r: &'a str)
    ensures
        r@ == head_before(s@, c),
{
    match find_char(s, c) {
        Some(i) => s.substring_char(0, i),
        None => s,
    }
}

/// The pieces of `s` between the occurrences of `c`, from position `from` on.
pub open spec fn split_from(s: Seq<char>, c: char, from: int) -> Seq<Seq<char>>
    decreases s.len() - from,
{
    match first_char(s, c, from) {
        Some(i) => if from <= i < s.len() {
            seq![s.subrange(from, i)] + split_from(s, c, i + 1)
        } else {
            seq![s.subrange(from, s.len() as int)]
        },
        None => seq![s.subrange(from, s.len() as int)],
    }
}

/// The pieces of `s` between the occurrences of `c`.
pub open spec fn split(s: Seq<char>, c: char) -> Seq<Seq<char>> {
    split_from(s, c, 0)
}

/// The views of string slices.
pub open spec fn views(v: Seq<&str>) -> Seq<Seq<char>> {
    v.map_values(|s: &str| s@)
}

/// The pieces of `s` between the occurrences of `c`.
pub fn split_on<'a>(s: &'a str, c: char) -> (r: Vec<&'a str>)
    ensures
        views(r@) == split(s@, c),
        r@.len() > 0,
{
    let chars = chars_of(s);
    let mut out: Vec<&'a str> = Vec::new();
    let mut from: usize = 0;
    let mut i: usize = 0;
    while i < chars.len()
        invariant
            from <= i <= chars.len(),
            chars@ == s@,
            forall|k: int| from <= k < i ==> s@[k] != c,
            first_char(s@, c, from as int) == first_char(s@, c, i as int),
            views(out@) + split_from(s@, c, from as int) == split(s@, c),
        decreases chars.len() - i,
    {
        if chars[i] == c {
            let piece = s.substring_char(from, i);
            let ghost before = out@;
            out.push(piece);
            proof {
                assert(views(out@) =~= views(before).push(piece@));
                assert(views(out@) + split_from(s@, c, i + 1) =~= views(before) + (seq![piece@]
                    + split_from(s@, c, i + 1)));
            }
            from = i + 1;
        }
        i += 1;
    }
    let piece = s.substring_char(from, chars.len());
    let ghost before = out@;
    out.push(piece);
    proof {
        assert(views(out@) =~= views(before) + seq![piece@]);
    }
    out
}

pub open spec fn is_digit(c: char) -> bool {
    '0' <= c <= '9'
}

pub open spec fn digit_value(c: char) -> nat {
    ((c as u32) - ('0' as u32)) as nat
}

/// Every character is a decimal digit.
pub open spec fn all_digits(s: Seq<char>) -> bool {
    forall|i: int| 0 <= i < s.len() ==> is_digit(#[trigger] s[i])
}

/// The number written by decimal digits.
pub open spec fn digits_value(s: Seq<char>) -> nat
    decreases s.len(),
{
    if s.len() == 0 {
        0
    } else {
        digits_value(s.drop_last()) * 10 + digit_value(s.last())
    }
}

/// The digits behind an optional plus sign.
pub open spec fn unsigned_digits(s: Seq<char>) -> Seq<char> {
    if s.len() > 0 && s[0] == '+' {
        s.subrange(1, s.len() as int)
    } else {
        s
    }
}

/// The number that a decimal text stands for, where it fits a `usize`.
pub open spec fn usize_text(s: Seq<char>) -> Option<usize> {
    let d = unsigned_digits(s);
    if d.len() > 0 && all_digits(d) && digits_value(d) <= usize::MAX {
        Some(digits_value(d) as usize)
    } else {
        None
    }
}

proof fn lemma_digits_grow(s: Seq<char>, k: int)
    requires
        0 <= k <= s.len(),
    ensures
        digits_value(s.subrange(0, k)) <= digits_value(s),
    decreases s.len() - k,
{
    if k < s.len() {
        lemma_digits_grow(s, k + 1);
        assert(s.subrange(0, k + 1).drop_last() =~= s.subrange(0, k));
    } else {
        assert(s.subrange(0, k) =~= s);
    }
}

/// Parse a decimal `usize`, with an optional leading plus sign.
pub fn parse_usize(s: &str) -> (r: Option<usize>)
    ensures
        r == usize_text(s@),
{
    let chars = chars_of(s);
    let start: usize = if chars.len() > 0 && chars[0] == '+' {
        1
    } else {
        0
    };
    let ghost d = unsigned_digits(s@);
    if chars.len() == start {
        return None;
    }
    let mut n: usize = 0;
    let mut i: usize = start;
    proof {
        assert(d.subrange(0, 0) =~= Seq::<char>::empty());
    }
    while i < chars.len()
        invariant
            start <= i <= chars.len(),
            start <= 1,
            chars@ == s@,
            d == s@.subrange(start as int, s@.len() as int),
            d.len() > 0,
            d == unsigned_digits(s@),
            n == digits_value(d.subrange(0, i - start)),
            forall|k: int| 0 <= k < i - start ==> is_digit(#[trigger] d[k]),
        decreases chars.len() - i,
    {
        let c = chars[i];
        assert(d[i - start] == c);
        if c < '0' || c > '9' {
            return None;
        }
        let v: usize = (c as u32 - '0' as u32) as usize;
        proof {
            assert(d.subrange(0, i - start + 1).drop_last() =~= d.subrange(0, i - start));
            assert(d.subrange(0, i - start + 1).last() == c);
            lemma_digits_grow(d, i - start + 1);
        }
        n = match n.checked_mul(10) {
            Some(t) => match t.checked_add(v) {
                Some(u) => u,
                None => {
                    return None;
                },
            },
            None => {
                return None;
            },
        };
        i += 1;
    }
    assert(d.subrange(0, i - start) =~= d);
    Some(n)
}

/// Whether every character is a decimal digit.
pub fn is_all_digits(s: &str) -> (r: bool)
    ensures
        r == all_digits(s@),
{
    let chars = chars_of(s);
    let mut i: usize = 0;
    while i < chars.len()
        invariant
            i <= chars.len(),
            chars@ == s@,
            forall|k: int| 0 <= k < i ==> is_digit(#[trigger] s@[k]),
        decreases chars.len() - i,
    {
        if !('0' <= chars[i] && chars[i] <= '9') {
            assert(!is_digit(s@[i as int]));
            return false;
        }
        i += 1;
    }
    true
}

/// The position of the first occurrence of `p` in `s` at or behind `from`.
pub open spec fn first_occurrence(s: Seq<char>, p: Seq<char>, from: int) -> Option<int>
    decreases s.len() - from + 1,
{
    if from < 0 || from + p.len() > s.len() {
        None
    } else if occurs_at(s, p, from) {
        Some(from)
    } else {
        first_occurrence(s, p, from + 1)
    }
}

/// What stands in front of and behind the first `p` in `s`.
pub open spec fn split_at_first(s: Seq<char>, p: Seq<char>) -> Option<(Seq<char>, Seq<char>)> {
    match first_occurrence(s, p, 0) {
        Some(i) => Some((s.subrange(0, i), s.subrange(i + p.len(), s.len() as int))),
        None => None,
    }
}

/// What stands behind the last `p` in `s`, or all of `s` where it does not occur.
pub open spec fn behind_last(s: Seq<char>, p: Seq<char>) -> Seq<char> {
    match last_occurrence(s, p, s.len() as int + 1) {
        Some(i) => s.subrange(i + p.len(), s.len() as int),
        None => s,
    }
}

/// Two strings, where there are two.
pub open spec fn pair_opt(r: Option<(&str, &str)>) -> Option<(Seq<char>, Seq<char>)> {
    match r {
        Some(p) => Some((p.0@, p.1@)),
        None => None,
    }
}

/// What stands in front of and behind the first `p` in `s`.
pub fn split_once<'a>(s: &'a str, p: &str) -> (r: Option<(&'a str, &'a str)>)
    ensures
        pair_opt(r) == split_at_first(s@, p@),
{
    let n = s.unicode_len();
    let m = p.unicode_len();
    if m > n {
        return None;
    }
    let mut i: usize = 0;
    while i <= n - m
        invariant
            i <= n - m + 1,
            m <= n,
            n == s@.len(),
            m == p@.len(),
            first_occurrence(s@, p@, i as int) == first_occurrence(s@, p@, 0),
        decreases n - i,
    {
        if str_eq(s.substring_char(i, i + m), p) {
            return Some((s.substring_char(0, i), s.substring_char(i + m, n)));
        }
        if i == n - m {
            assert(first_occurrence(s@, p@, i + 1) is None);
            return None;
        }
        i += 1;
    }
    None
}

/// What stands behind the last `p` in `s`, or all of `s`.
pub fn after_last<'a>(s: &'a str, p: &str) -> (r: &'a str)
    ensures
        r@ == behind_last(s@, p@),
{
    let n = s.unicode_len();
    let m = p.unicode_len();
    if m > n {
        proof {
            lemma_no_late_occurrence(s@, p@, s@.len() as int + 1, 0);
        }
        return s;
    }
    let mut i: usize = n - m;
    proof {
        lemma_no_late_occurrence(s@, p@, s@.len() as int + 1, n - m + 1);
    }
    loop
        invariant
            i <= n - m,
            m <= n,
            n == s@.len(),
            m == p@.len(),
            last_occurrence(s@, p@, i + 1) == last_occurrence(s@, p@, s@.len() as int + 1),
        decreases i,
    {
        if str_eq(s.substring_char(i, i + m), p) {
            return s.substring_char(i + m, n);
        }
        if i == 0 {
            assert(last_occurrence(s@, p@, 0) is None);
            return s;
        }
        i -= 1;
    }
}

/// An occurrence begins early enough to end inside the text.
proof fn lemma_no_late_occurrence(s: Seq<char>, p: Seq<char>, below: int, low: int)
    requires
        0 <= low <= below,
        low + p.len() > s.len(),
    ensures
        last_occurrence(s, p, below) == last_occurrence(s, p, low),
    decreases below - low,
{
    if low < below {
        lemma_no_late_occurrence(s, p, below - 1, low);
    }
}

/// `String::push` appends one character.
pub assume_specification[ String::push ](s: &mut String, c: char)
    ensures
        final(s)@ == old(s)@.push(c),
;

/// How the standard library renders a string in debug form.
pub uninterp spec fn debug_of(s: Seq<char>) -> Seq<char>;

/// Renders `s` through its `std::fmt::Debug` impl: quoted, with the escapes
/// that impl chooses. The rendering is a function of the characters alone;
/// which characters it escapes is left to the name.
#[verifier::external_body]
pub(crate) fn debug_string(s: &str) -> (r: String)
    ensures
        r@ == debug_of(s@),
{
    format!("{s:?}")
}

// ---------------------------------------------------------------------------
// Laws
// ---------------------------------------------------------------------------


/// What remains behind a prefix or in front of a suffix is what, put back
/// together with it, gives the text again; and only such a text has it.
pub proof fn stripping_undoes_joining(s: Seq<char>, p: Seq<char>, rest: Seq<char>)
    ensures
        (after_prefix(s, p) == Some(rest)) == (s == p + rest),
        (before_suffix(s, p) == Some(rest)) == (s == rest + p),
        is_prefix(p, s) == (exists|t: Seq<char>| s == #[trigger] (p + t)),
{
    if after_prefix(s, p) == Some(rest) {
        assert(s =~= p + rest);
    }
    if s == p + rest {
        assert(s.subrange(0, p.len() as int) =~= p);
        assert(s.subrange(p.len() as int, s.len() as int) =~= rest);
    }
    if before_suffix(s, p) == Some(rest) {
        assert(s =~= rest + p);
    }
    if s == rest + p {
        assert(s.subrange(s.len() - p.len(), s.len() as int) =~= p);
        assert(s.subrange(0, s.len() - p.len()) =~= rest);
    }
    if is_prefix(p, s) {
        let t = s.subrange(p.len() as int, s.len() as int);
        assert(s =~= p + t);
    }
    if exists|t: Seq<char>| s == #[trigger] (p + t) {
        let t = choose|t: Seq<char>| s == #[trigger] (p + t);
        assert(s.subrange(0, p.len() as int) =~= p);
    }
}

proof fn lemma_first_occurrence(s: Seq<char>, p: Seq<char>, from: int)
    requires
        0 <= from,
    ensures
        match first_occurrence(s, p, from) {
            Some(i) => from <= i && occurs_at(s, p, i) && forall|j: int|
                from <= j < i ==> !#[trigger] occurs_at(s, p, j),
            None => forall|j: int| from <= j ==> !#[trigger] occurs_at(s, p, j),
        },
    decreases s.len() - from + 1,
{
    if from + p.len() <= s.len() && !occurs_at(s, p, from) {
        lemma_first_occurrence(s, p, from + 1);
    }
}

/// Splitting at a separator gives the two sides of its first occurrence: joined
/// round the separator they are the text again, and nowhere before does the
/// separator occur. A text without the separator is not split.
pub proof fn splitting_takes_the_first_separator(s: Seq<char>, p: Seq<char>)
    ensures
        match split_at_first(s, p) {
            Some((a, b)) => s == a + p + b && forall|j: int|
                0 <= j < a.len() ==> !#[trigger] occurs_at(s, p, j),
            None => forall|j: int| !#[trigger] occurs_at(s, p, j),
        },
{
    lemma_first_occurrence(s, p, 0);
    if let Some(i) = first_occurrence(s, p, 0) {
        let a = s.subrange(0, i);
        let b = s.subrange(i + p.len(), s.len() as int);
        assert(s.subrange(i, i + p.len()) == p);
        assert(s =~= a + p + b);
    }
}

/// The pieces with a separator between each two.
pub open spec fn joined(parts: Seq<Seq<char>>, c: char) -> Seq<char>
    decreases parts.len(),
{
    if parts.len() == 0 {
        Seq::empty()
    } else if parts.len() == 1 {
        parts[0]
    } else {
        parts[0] + seq![c] + joined(parts.drop_first(), c)
    }
}

proof fn lemma_first_char(s: Seq<char>, c: char, from: int)
    requires
        0 <= from,
    ensures
        match first_char(s, c, from) {
            Some(i) => from <= i < s.len() && s[i] == c && forall|j: int|
                from <= j < i ==> #[trigger] s[j] != c,
            None => forall|j: int| from <= j < s.len() ==> #[trigger] s[j] != c,
        },
    decreases s.len() - from,
{
    if from < s.len() && s[from] != c {
        lemma_first_char(s, c, from + 1);
    }
}

proof fn lemma_split(s: Seq<char>, c: char, from: int)
    requires
        0 <= from <= s.len(),
    ensures
        split_from(s, c, from).len() > 0,
        joined(split_from(s, c, from), c) == s.subrange(from, s.len() as int),
        forall|i: int|
            0 <= i < split_from(s, c, from).len() ==> !(#[trigger] split_from(
                s,
                c,
                from,
            )[i]).contains(c),
    decreases s.len() - from,
{
    lemma_first_char(s, c, from);
    let parts = split_from(s, c, from);
    match first_char(s, c, from) {
        Some(i) => {
            lemma_split(s, c, i + 1);
            let rest = split_from(s, c, i + 1);
            let head = s.subrange(from, i);
            assert(parts == seq![head] + rest);
            assert(parts.drop_first() =~= rest);
            assert(s.subrange(from, s.len() as int) =~= head + seq![c] + s.subrange(
                i + 1,
                s.len() as int,
            ));
            assert(!head.contains(c));
            assert forall|k: int| 0 <= k < parts.len() implies !(#[trigger] parts[k]).contains(
                c,
            ) by {
                if k > 0 {
                    assert(parts[k] == rest[k - 1]);
                }
            }
        },
        None => {},
    }
}

/// Splitting parts a text at every separator: no piece holds the separator, and
/// joined by it the pieces are the text again.
pub proof fn split_pieces_join_again(s: Seq<char>, c: char)
    ensures
        split(s, c).len() > 0,
        joined(split(s, c), c) == s,
        forall|i: int| 0 <= i < split(s, c).len() ==> !(#[trigger] split(s, c)[i]).contains(c),
        head_before(s, c) == split(s, c)[0],
{
    lemma_split(s, c, 0);
    assert(s.subrange(0, s.len() as int) =~= s);
    lemma_first_char(s, c, 0);
}

/// A number written in decimal reads back as itself: its digits are digits, they
/// stand for the number, and there is no leading zero.
pub proof fn decimal_reads_back(n: nat)
    ensures
        all_digits(decimal(n)),
        decimal(n).len() > 0,
        digits_value(decimal(n)) == n,
        n <= usize::MAX ==> usize_text(decimal(n)) == Some(n as usize),
        decimal(n).len() > 1 ==> decimal(n)[0] != '0',
    decreases n,
{
    lemma_digit(n % 10);
    if n < 10 {
        assert(decimal(n).drop_last() =~= Seq::empty());
        assert(digits_value(Seq::<char>::empty()) == 0);
    } else {
        decimal_reads_back(n / 10);
        let before = decimal(n / 10);
        assert(decimal(n).drop_last() =~= before);
        assert(decimal(n)[0] == before[0]);
        if before.len() == 1 {
            assert(n / 10 < 10) by {
                if n / 10 >= 10 {
                    decimal_reads_back(n / 100);
                    assert((n / 10) / 10 == n / 100);
                }
            }
            lemma_digit(n / 10);
        }
    }
    assert(is_digit(decimal(n)[0]));
    assert(decimal(n)[0] != '+');
}

proof fn lemma_digit(d: nat)
    requires
        d < 10,
    ensures
        is_digit(digit_char(d)),
        digit_value(digit_char(d)) == d,
        d > 0 ==> digit_char(d) != '0',
{
}

/// Two texts joined by a separator, the first of which does not hold the
/// separator's first character, split into the two again.
pub proof fn joined_texts_split_again(a: Seq<char>, p: Seq<char>, b: Seq<char>)
    requires
        p.len() > 0,
        !a.contains(p[0]),
    ensures
        split_at_first(a + (p + b), p) == Some((a, b)),
{
    let s = a + (p + b);
    let n = a.len() as int;
    assert(s.subrange(n, n + p.len()) =~= p);
    assert(occurs_at(s, p, n));
    lemma_first_occurrence(s, p, 0);
    let i = first_occurrence(s, p, 0)->0;
    if i < n {
        assert(s.subrange(i, i + p.len())[0] == p[0]);
        assert(a[i] == p[0]);
    }
    if i > n {
        assert(!occurs_at(s, p, n));
    }
    assert(s.subrange(0, n) =~= a);
    assert(s.subrange(n + p.len(), s.len() as int) =~= b);
}

proof fn lemma_split_shift(s: Seq<char>, b: Seq<char>, c: char, at: int, i: int)
    requires
        0 <= at,
        0 <= i <= b.len(),
        s.len() == at + b.len(),
        forall|k: int| 0 <= k < b.len() ==> #[trigger] b[k] == s[at + k],
    ensures
        split_from(s, c, at + i) == split_from(b, c, i),
    decreases b.len() - i,
{
    lemma_first_char(s, c, at + i);
    lemma_first_char(b, c, i);
    let here = first_char(b, c, i);
    let there = first_char(s, c, at + i);
    match here {
        Some(k) => {
            assert(s[at + k] == c);
            assert(there is Some);
            let q = there->0;
            assert(b[q - at] == s[at + (q - at)]);
            assert(q == at + k) by {
                if q < at + k {
                    assert(b[q - at] != c);
                }
                if q > at + k {
                    assert(s[at + k] != c);
                }
            }
            lemma_split_shift(s, b, c, at, k + 1);
            assert(s.subrange(at + i, q) =~= b.subrange(i, k));
        },
        None => {
            if let Some(q) = there {
                assert(b[q - at] == s[at + (q - at)]);
            }
            assert(s.subrange(at + i, s.len() as int) =~= b.subrange(i, b.len() as int));
        },
    }
}

/// A piece without the separator, in front of a separator and a text, is the
/// first piece, and the others are those of the text.
pub proof fn pieces_in_front_split_off(a: Seq<char>, c: char, b: Seq<char>)
    requires
        !a.contains(c),
    ensures
        split(a + seq![c] + b, c) == seq![a] + split(b, c),
        split(a, c) == seq![a],
{
    let s = a + seq![c] + b;
    let n = a.len() as int;
    lemma_first_char(s, c, 0);
    lemma_first_char(a, c, 0);
    assert(s[n] == c);
    let i = first_char(s, c, 0)->0;
    assert(i == n) by {
        if i < n {
            assert(a[i] == c);
        }
    }
    assert(s.subrange(0, n) =~= a);
    lemma_split_shift(s, b, c, n + 1, 0);
    assert(a.subrange(0, n) =~= a);
    if let Some(k) = first_char(a, c, 0) {
        assert(a[k] == c);
    }
}

} // verus!
