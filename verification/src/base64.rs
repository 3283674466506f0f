//! Standard base64 with padding.
use vstd::prelude::*;

verus! {

/// The character that stands for a six-bit number.
pub open spec fn sextet_char(v: u8) -> char {
    if v < 26 {
        (v + 65) as u8 as char
    } else if v < 52 {
        (v + 71) as u8 as char
    } else if v < 62 {
        (v - 4) as u8 as char
    } else if v == 62 {
        '+'
    } else {
        '/'
    }
}

/// The byte at `i`, or zero behind the end.
pub open spec fn byte_or_zero(s: Seq<u8>, i: int) -> int {
    if 0 <= i < s.len() {
        s[i] as int
    } else {
        0
    }
}

/// The number that the three bytes from `i` on make up.
pub open spec fn triple(s: Seq<u8>, i: int) -> int {
    byte_or_zero(s, i) * 65536 + byte_or_zero(s, i + 1) * 256 + byte_or_zero(s, i + 2)
}

/// The four characters for the bytes from `i` on.
pub open spec fn quad(s: Seq<u8>, i: int) -> Seq<char> {
    let n = triple(s, i);
    seq![
        sextet_char((n / 262144) as u8),
        sextet_char((n / 4096 % 64) as u8),
        if i + 1 < s.len() {
            sextet_char((n / 64 % 64) as u8)
        } else {
            '='
        },
        if i + 2 < s.len() {
            sextet_char((n % 64) as u8)
        } else {
            '='
        },
    ]
}

/// The base64 text of the bytes from `i` on.
pub open spec fn base64_from(s: Seq<u8>, i: int) -> Seq<char>
    decreases s.len() + 3 - i,
{
    if i < 0 || i >= s.len() {
        Seq::empty()
    } else {
        quad(s, i) + base64_from(s, i + 3)
    }
}

/// The base64 text of `s`.
pub open spec fn base64_of(s: Seq<u8>) -> Seq<char> {
    base64_from(s, 0)
}

fn sextet(v: u8) -> (r: char)
    requires
        v < 64,
    ensures
        r == sextet_char(v),
{
    if v < 26 {
        (v + 65) as char
    } else if v < 52 {
        (v + 71) as char
    } else if v < 62 {
        (v - 4) as char
    } else if v == 62 {
        '+'
    } else {
        '/'
    }
}

/// Standard base64 (RFC 4648) encoding with padding.
pub fn base64_encode(input: &[u8]) -> (r: String)
    ensures
        r@ == base64_of(input@),
{
    let mut out = String::new();
    let ghost s = input@;
    let n = input.len();
    let mut i: usize = 0;
    assert(out@ + base64_from(s, 0) =~= base64_of(s));
    while i < n
        invariant
            n == input@.len(),
            s == input@,
            i <= n + 2,
            out@ + base64_from(s, i as int) == base64_of(s),
        decreases n + 3 - i,
    {
        let b0 = input[i] as u32;
        let b1 = if n - i > 1 {
            input[i + 1] as u32
        } else {
            0
        };
        let b2 = if n - i > 2 {
            input[i + 2] as u32
        } else {
            0
        };
        let t: u32 = b0 * 65536 + b1 * 256 + b2;
        assert(t == triple(s, i as int));
        let ghost before = out@;
        out.push(sextet((t / 262144) as u8));
        out.push(sextet((t / 4096 % 64) as u8));
        if n - i > 1 {
            out.push(sextet((t / 64 % 64) as u8));
        } else {
            out.push('=');
        }
        if n - i > 2 {
            out.push(sextet((t % 64) as u8));
        } else {
            out.push('=');
        }
        assert(out@ =~= before + quad(s, i as int));
        assert(out@ + base64_from(s, i + 3) =~= before + (quad(s, i as int) + base64_from(
            s,
            i + 3,
        )));
        if n - i <= 3 {
            assert(base64_from(s, i + 3) =~= Seq::empty());
            assert(out@ + base64_from(s, i + 3) =~= out@);
            return out;
        }
        i += 3;
    }
    assert(base64_from(s, i as int) =~= Seq::empty());
    assert(out@ + base64_from(s, i as int) =~= out@);
    out
}

// ---------------------------------------------------------------------------
// Laws
// ---------------------------------------------------------------------------

/// Every three bytes, begun or complete, become four characters.
pub proof fn encoded_length(s: Seq<u8>)
    ensures
        base64_of(s).len() == (s.len() + 2) / 3 * 4,
{
    lemma_length_from(s, 0);
}

proof fn lemma_length_from(s: Seq<u8>, i: int)
    requires
        0 <= i,
    ensures
        base64_from(s, i).len() == if i >= s.len() {
            0
        } else {
            (s.len() - i + 2) / 3 * 4
        },
    decreases s.len() + 3 - i,
{
    if i < s.len() {
        lemma_length_from(s, i + 3);
    }
}

/// The six-bit number that a character stands for.
pub open spec fn char_sextet(c: char) -> int {
    if 'A' <= c <= 'Z' {
        c as u32 - 65
    } else if 'a' <= c <= 'z' {
        c as u32 - 71
    } else if '0' <= c <= '9' {
        c as u32 + 4
    } else if c == '+' {
        62
    } else if c == '/' {
        63
    } else {
        0
    }
}

/// The bytes that four characters stand for.
pub open spec fn decoded_quad(t: Seq<char>) -> Seq<u8> {
    let n = char_sextet(t[0]) * 262144 + char_sextet(t[1]) * 4096 + char_sextet(t[2]) * 64
        + char_sextet(t[3]);
    let bytes = seq![(n / 65536) as u8, (n / 256 % 256) as u8, (n % 256) as u8];
    if t[2] == '=' {
        bytes.take(1)
    } else if t[3] == '=' {
        bytes.take(2)
    } else {
        bytes
    }
}

/// The bytes that a base64 text stands for.
pub open spec fn decoded(t: Seq<char>) -> Seq<u8>
    decreases t.len(),
{
    if t.len() < 4 {
        Seq::empty()
    } else {
        decoded_quad(t.take(4)) + decoded(t.skip(4))
    }
}

proof fn lemma_sextet(v: u8)
    requires
        v < 64,
    ensures
        char_sextet(sextet_char(v)) == v,
        sextet_char(v) != '=',
{
}

proof fn lemma_split(b0: u32, b1: u32, b2: u32)
    by (bit_vector)
    requires
        b0 < 256,
        b1 < 256,
        b2 < 256,
    ensures
        (b0 * 65536 + b1 * 256 + b2) / 262144 < 64,
        (b0 * 65536 + b1 * 256 + b2) / 65536 == b0,
        (b0 * 65536 + b1 * 256 + b2) / 256 % 256 == b1,
        (b0 * 65536 + b1 * 256 + b2) % 256 == b2,
        (b0 * 65536 + b1 * 256 + b2) / 262144 * 262144 + (b0 * 65536 + b1 * 256 + b2) / 4096 % 64
            * 4096 + (b0 * 65536 + b1 * 256 + b2) / 64 % 64 * 64 + (b0 * 65536 + b1 * 256 + b2) % 64
            == b0 * 65536 + b1 * 256 + b2,
        b2 == 0 ==> (b0 * 65536 + b1 * 256 + b2) % 64 == 0,
        b1 == 0 && b2 == 0 ==> (b0 * 65536 + b1 * 256 + b2) / 64 % 64 == 0,
{
}

/// The number that four six-bit numbers make up, cut into three bytes.
spec fn bytes_of(n: int) -> Seq<u8> {
    seq![(n / 65536) as u8, (n / 256 % 256) as u8, (n % 256) as u8]
}

proof fn lemma_quad(s: Seq<u8>, i: int)
    requires
        0 <= i < s.len(),
    ensures
        decoded_quad(quad(s, i)) == s.subrange(
            i,
            if i + 3 <= s.len() {
                i + 3
            } else {
                s.len() as int
            },
        ),
{
    let n = triple(s, i);
    let q = quad(s, i);
    let b0 = byte_or_zero(s, i);
    let b1 = byte_or_zero(s, i + 1);
    let b2 = byte_or_zero(s, i + 2);
    lemma_split(b0 as u32, b1 as u32, b2 as u32);
    lemma_sextet((n / 262144) as u8);
    lemma_sextet((n / 4096 % 64) as u8);
    lemma_sextet((n / 64 % 64) as u8);
    lemma_sextet((n % 64) as u8);
    let m = char_sextet(q[0]) * 262144 + char_sextet(q[1]) * 4096 + char_sextet(q[2]) * 64
        + char_sextet(q[3]);
    assert(m == n) by {
        assert(char_sextet('=') == 0);
        assert(char_sextet(q[2]) == n / 64 % 64);
        assert(char_sextet(q[3]) == n % 64);
    }
    assert(bytes_of(n) =~= seq![b0 as u8, b1 as u8, b2 as u8]);
    if i + 1 >= s.len() {
        assert(q[2] == '=');
        assert(bytes_of(n).take(1) =~= s.subrange(i, s.len() as int));
    } else if i + 2 >= s.len() {
        assert(q[3] == '=' && q[2] != '=');
        assert(bytes_of(n).take(2) =~= s.subrange(i, s.len() as int));
    } else {
        assert(q[3] != '=' && q[2] != '=');
        assert(bytes_of(n) =~= s.subrange(i, i + 3));
    }
}

/// Decoding the base64 text of `s` gives `s` back, so two byte strings with one
/// base64 text are the same.
pub proof fn decoding_inverts_encoding(s: Seq<u8>)
    ensures
        decoded(base64_of(s)) == s,
{
    lemma_decode_from(s, 0);
    assert(s.skip(0) =~= s);
}

proof fn lemma_decode_from(s: Seq<u8>, i: int)
    requires
        0 <= i <= s.len(),
    ensures
        decoded(base64_from(s, i)) == s.skip(i),
    decreases s.len() - i,
{
    if i < s.len() {
        let t = base64_from(s, i);
        let rest = base64_from(s, i + 3);
        assert(t.take(4) =~= quad(s, i));
        assert(t.skip(4) =~= rest);
        lemma_quad(s, i);
        if i + 3 <= s.len() {
            lemma_decode_from(s, i + 3);
            assert(s.skip(i) =~= s.subrange(i, i + 3) + s.skip(i + 3));
        } else {
            assert(rest =~= Seq::empty());
            assert(s.skip(i) =~= s.subrange(i, s.len() as int));
            assert(decoded(rest) =~= Seq::empty());
            assert(decoded(t) =~= s.skip(i));
        }
    } else {
        assert(s.skip(i) =~= Seq::empty());
    }
}

} // verus!
