//! Big-endian integers in byte sequences.
use vstd::prelude::*;

verus! {

/// The big-endian number written by the bytes of `s`.
pub open spec fn be_number(s: Seq<u8>) -> nat
    decreases s.len(),
{
    if s.len() == 0 {
        0
    } else {
        be_number(s.drop_last()) * 256 + s.last() as nat
    }
}

/// `n` as `width` big-endian bytes.
pub open spec fn be_bytes(n: nat, width: nat) -> Seq<u8>
    decreases width,
{
    if width == 0 {
        Seq::empty()
    } else {
        be_bytes(n / 256, (width - 1) as nat).push((n % 256) as u8)
    }
}

/// Two to the power of eight times `width`.
pub open spec fn byte_range(width: nat) -> nat
    decreases width,
{
    if width == 0 {
        1
    } else {
        256 * byte_range((width - 1) as nat)
    }
}

/// Reading back `width` big-endian bytes of a number that fits them gives the number.
pub proof fn be_round_trip(n: nat, width: nat)
    requires
        n < byte_range(width),
    ensures
        be_bytes(n, width).len() == width,
        be_number(be_bytes(n, width)) == n,
    decreases width,
{
    if width > 0 {
        assert(n / 256 < byte_range((width - 1) as nat));
        be_round_trip(n / 256, (width - 1) as nat);
        let s = be_bytes(n, width);
        assert(s.drop_last() =~= be_bytes(n / 256, (width - 1) as nat));
        assert(n == (n / 256) * 256 + n % 256);
    }
}

/// The bytes written for a number have the requested width.
pub proof fn be_bytes_len(n: nat, width: nat)
    ensures
        be_bytes(n, width).len() == width,
    decreases width,
{
    if width > 0 {
        be_bytes_len(n / 256, (width - 1) as nat);
    }
}

/// A number of `s.len()` bytes is below the range of that width.
pub proof fn be_number_bound(s: Seq<u8>)
    ensures
        be_number(s) < byte_range(s.len()),
    decreases s.len(),
{
    if s.len() > 0 {
        be_number_bound(s.drop_last());
        assert(s.drop_last().len() == s.len() - 1);
    }
}

pub proof fn byte_range_values()
    ensures
        byte_range(4) == 0x1_0000_0000,
        byte_range(8) == 0x1_0000_0000_0000_0000,
{
    reveal_with_fuel(byte_range, 9);
}

/// The four-byte big-endian number at `at`.
pub fn read_be32(data: &[u8], at: usize) -> (r: u32)
    requires
        at + 4 <= data.len(),
    ensures
        r == be_number(data@.subrange(at as int, at + 4)),
{
    read_be(data, at, 4) as u32
}

/// The eight-byte big-endian number at `at`.
pub fn read_be64(data: &[u8], at: usize) -> (r: u64)
    requires
        at + 8 <= data.len(),
    ensures
        r == be_number(data@.subrange(at as int, at + 8)),
{
    read_be(data, at, 8)
}

fn read_be(data: &[u8], at: usize, width: usize) -> (r: u64)
    requires
        at + width <= data.len(),
        width <= 8,
    ensures
        r == be_number(data@.subrange(at as int, at + width)),
        width == 4 ==> r <= u32::MAX,
{
    let mut n: u64 = 0;
    let mut i: usize = 0;
    proof {
        assert(data@.subrange(at as int, at as int) =~= Seq::<u8>::empty());
    }
    while i < width
        invariant
            i <= width <= 8,
            at + width <= data.len(),
            n == be_number(data@.subrange(at as int, at + i)),
        decreases width - i,
    {
        proof {
            be_number_bound(data@.subrange(at as int, at + i));
            reveal_with_fuel(byte_range, 9);
            let next = data@.subrange(at as int, at + i + 1);
            assert(next.drop_last() =~= data@.subrange(at as int, at + i));
            assert(n < 0x100_0000_0000_0000);
        }
        n = n * 256 + data[at + i] as u64;
        i += 1;
    }
    proof {
        be_number_bound(data@.subrange(at as int, at + width));
        byte_range_values();
    }
    n
}

/// `n` as `width` big-endian bytes.
fn write_be(n: u64, width: usize) -> (r: Vec<u8>)
    ensures
        r@ == be_bytes(n as nat, width as nat),
    decreases width,
{
    if width == 0 {
        Vec::new()
    } else {
        let mut out = write_be(n / 256, width - 1);
        out.push((n % 256) as u8);
        out
    }
}

/// `n` as four big-endian bytes.
pub fn write_be32(n: u32) -> (r: Vec<u8>)
    ensures
        r@ == be_bytes(n as nat, 4),
{
    write_be(n as u64, 4)
}

/// `n` as eight big-endian bytes.
pub fn write_be64(n: u64) -> (r: Vec<u8>)
    ensures
        r@ == be_bytes(n as nat, 8),
{
    write_be(n, 8)
}

/// A copy of bytes.
pub fn copy_bytes(b: &Vec<u8>) -> (r: Vec<u8>)
    ensures
        r@ == b@,
{
    let mut out: Vec<u8> = Vec::new();
    let mut i: usize = 0;
    while i < b.len()
        invariant
            i <= b.len(),
            out@ == b@.take(i as int),
        decreases b.len() - i,
    {
        out.push(b[i]);
        assert(b@.take(i + 1) =~= b@.take(i as int).push(b@[i as int]));
        i += 1;
    }
    assert(b@.take(i as int) =~= b@);
    out
}

} // verus!
