//! Little-endian integers in byte buffers.
use vstd::prelude::*;

verus! {

/// The 16-bit little-endian number at offset `i`.
pub open spec fn u16_at(b: Seq<u8>, i: int) -> u16 {
    (b[i] + 0x100 * b[i + 1]) as u16
}

/// The 32-bit little-endian number at offset `i`.
pub open spec fn u32_at(b: Seq<u8>, i: int) -> u32 {
    (b[i] + 0x100 * b[i + 1] + 0x1_0000 * b[i + 2] + 0x100_0000 * b[i + 3]) as u32
}

/// The 64-bit little-endian number at offset `i`.
pub open spec fn u64_at(b: Seq<u8>, i: int) -> u64 {
    (u32_at(b, i) + 0x1_0000_0000 * u32_at(b, i + 4)) as u64
}

/// The 64-bit two's complement little-endian number at offset `i`.
pub open spec fn i64_at(b: Seq<u8>, i: int) -> i64 {
    u64_at(b, i) as i64
}

/// The two little-endian bytes of `n`.
pub open spec fn u16_bytes(n: u16) -> Seq<u8> {
    seq![(n % 0x100) as u8, (n / 0x100) as u8]
}

/// The four little-endian bytes of `n`.
pub open spec fn u32_bytes(n: u32) -> Seq<u8> {
    seq![
        (n % 0x100) as u8,
        (n / 0x100 % 0x100) as u8,
        (n / 0x1_0000 % 0x100) as u8,
        (n / 0x100_0000) as u8,
    ]
}

/// The eight little-endian bytes of `n`.
pub open spec fn u64_bytes(n: u64) -> Seq<u8> {
    u32_bytes((n % 0x1_0000_0000) as u32) + u32_bytes((n / 0x1_0000_0000) as u32)
}

pub fn read_u16(b: &[u8], i: usize) -> (r: u16)
    requires
        i + 2 <= b@.len(),
    ensures
        r == u16_at(b@, i as int),
{
    b[i] as u16 + 0x100 * (b[i + 1] as u16)
}

pub fn read_u32(b: &[u8], i: usize) -> (r: u32)
    requires
        i + 4 <= b@.len(),
    ensures
        r == u32_at(b@, i as int),
{
    b[i] as u32 + 0x100 * (b[i + 1] as u32) + 0x1_0000 * (b[i + 2] as u32) + 0x100_0000 * (b[i
        + 3] as u32)
}

pub fn read_u64(b: &[u8], i: usize) -> (r: u64)
    requires
        i + 8 <= b@.len(),
    ensures
        r == u64_at(b@, i as int),
{
    let n: usize = b.len();
    assert(i + 8 <= n);
    read_u32(b, i) as u64 + 0x1_0000_0000 * (read_u32(b, i + 4) as u64)
}

pub fn read_i64(b: &[u8], i: usize) -> (r: i64)
    requires
        i + 8 <= b@.len(),
    ensures
        r == i64_at(b@, i as int),
{
    read_u64(b, i) as i64
}

pub fn push_u16(out: &mut Vec<u8>, n: u16)
    ensures
        final(out)@ == old(out)@ + u16_bytes(n),
{
    out.push((n % 0x100) as u8);
    out.push((n / 0x100) as u8);
    assert(out@ =~= old(out)@ + u16_bytes(n));
}

pub fn push_u32(out: &mut Vec<u8>, n: u32)
    ensures
        final(out)@ == old(out)@ + u32_bytes(n),
{
    out.push((n % 0x100) as u8);
    out.push((n / 0x100 % 0x100) as u8);
    out.push((n / 0x1_0000 % 0x100) as u8);
    out.push((n / 0x100_0000) as u8);
    assert(out@ =~= old(out)@ + u32_bytes(n));
}

pub fn push_u64(out: &mut Vec<u8>, n: u64)
    ensures
        final(out)@ == old(out)@ + u64_bytes(n),
{
    push_u32(out, (n % 0x1_0000_0000) as u32);
    push_u32(out, (n / 0x1_0000_0000) as u32);
    assert(out@ =~= old(out)@ + u64_bytes(n));
}

pub fn push_bytes(out: &mut Vec<u8>, b: &[u8])
    ensures
        final(out)@ == old(out)@ + b@,
{
    let mut i: usize = 0;
    while i < b.len()
        invariant
            i <= b.len(),
            out@ == old(out)@ + b@.take(i as int),
        decreases b.len() - i,
    {
        out.push(b[i]);
        proof {
            assert(out@ =~= old(out)@ + b@.take(i + 1));
        }
        i += 1;
    }
    assert(b@.take(b@.len() as int) =~= b@);
}

/// Reading back a 16-bit number that was written.
pub proof fn law_u16_round_trip(n: u16)
    ensures
        u16_at(u16_bytes(n), 0) == n,
        u16_bytes(n).len() == 2,
{
}

/// Reading back a 32-bit number that was written.
pub proof fn law_u32_round_trip(n: u32)
    ensures
        u32_at(u32_bytes(n), 0) == n,
        u32_bytes(n).len() == 4,
{
}

/// Reading back a 64-bit number that was written.
pub proof fn law_u64_round_trip(n: u64)
    ensures
        u64_at(u64_bytes(n), 0) == n,
        u64_bytes(n).len() == 8,
{
    let lo = (n % 0x1_0000_0000) as u32;
    let hi = (n / 0x1_0000_0000) as u32;
    law_u32_round_trip(lo);
    law_u32_round_trip(hi);
    let b = u64_bytes(n);
    assert(u32_at(b, 0) == u32_at(u32_bytes(lo), 0));
    assert(u32_at(b, 4) == u32_at(u32_bytes(hi), 0));
}

/// A number is read from the bytes at its offset alone.
pub proof fn lemma_read_shifted(b: Seq<u8>, c: Seq<u8>, i: int, j: int)
    requires
        0 <= i,
        0 <= j,
    ensures
        (i + 2 <= b.len() && j + 2 <= c.len() && b.subrange(i, i + 2) == c.subrange(j, j + 2))
            ==> u16_at(b, i) == u16_at(c, j),
        (i + 4 <= b.len() && j + 4 <= c.len() && b.subrange(i, i + 4) == c.subrange(j, j + 4))
            ==> u32_at(b, i) == u32_at(c, j),
        (i + 8 <= b.len() && j + 8 <= c.len() && b.subrange(i, i + 8) == c.subrange(j, j + 8))
            ==> u64_at(b, i) == u64_at(c, j),
{
    assert forall|k: int| 0 <= k < 8 && i + 8 <= b.len() && j + 8 <= c.len() && b.subrange(
        i,
        i + 8,
    ) == c.subrange(j, j + 8) implies #[trigger] b[i + k] == c[j + k] by {
        assert(b.subrange(i, i + 8)[k] == c.subrange(j, j + 8)[k]);
    }
    assert forall|k: int| 0 <= k < 4 && i + 4 <= b.len() && j + 4 <= c.len() && b.subrange(
        i,
        i + 4,
    ) == c.subrange(j, j + 4) implies #[trigger] b[i + k] == c[j + k] by {
        assert(b.subrange(i, i + 4)[k] == c.subrange(j, j + 4)[k]);
    }
    assert forall|k: int| 0 <= k < 2 && i + 2 <= b.len() && j + 2 <= c.len() && b.subrange(
        i,
        i + 2,
    ) == c.subrange(j, j + 2) implies #[trigger] b[i + k] == c[j + k] by {
        assert(b.subrange(i, i + 2)[k] == c.subrange(j, j + 2)[k]);
    }
    assert(i + 0 == i && j + 0 == j);
    if i + 8 <= b.len() && j + 8 <= c.len() && b.subrange(i, i + 8) == c.subrange(j, j + 8) {
        assert(b[i + 0] == c[j + 0]);
        assert(b[i + 1] == c[j + 1]);
        assert(b[i + 2] == c[j + 2]);
        assert(b[i + 3] == c[j + 3]);
        assert(b[i + 4] == c[j + 4]);
        assert(b[i + 5] == c[j + 5]);
        assert(b[i + 6] == c[j + 6]);
        assert(b[i + 7] == c[j + 7]);
    }
    if i + 4 <= b.len() && j + 4 <= c.len() && b.subrange(i, i + 4) == c.subrange(j, j + 4) {
        assert(b[i + 0] == c[j + 0]);
        assert(b[i + 1] == c[j + 1]);
        assert(b[i + 2] == c[j + 2]);
        assert(b[i + 3] == c[j + 3]);
    }
    if i + 2 <= b.len() && j + 2 <= c.len() && b.subrange(i, i + 2) == c.subrange(j, j + 2) {
        assert(b[i + 0] == c[j + 0]);
        assert(b[i + 1] == c[j + 1]);
    }
}

/// What each byte counts: the first one is worth least.
pub proof fn law_byte_weights(b: Seq<u8>, i: int)
    ensures
        u16_at(b, i) == b[i] + 0x100 * b[i + 1],
        u32_at(b, i) == b[i] + 0x100 * b[i + 1] + 0x1_0000 * b[i + 2] + 0x100_0000 * b[i + 3],
        u64_at(b, i) == b[i] + 0x100 * b[i + 1] + 0x1_0000 * b[i + 2] + 0x100_0000 * b[i + 3]
            + 0x1_0000_0000 * b[i + 4] + 0x100_0000_0000 * b[i + 5] + 0x1_0000_0000_0000 * b[i + 6]
            + 0x100_0000_0000_0000 * b[i + 7],
        i64_at(b, i) == (if b[i + 7] < 0x80 {
            u64_at(b, i) as int
        } else {
            u64_at(b, i) - 0x1_0000_0000_0000_0000
        }),
{
    assert(i + 4 + 1 == i + 5 && i + 4 + 2 == i + 6 && i + 4 + 3 == i + 7);
    let n = u64_at(b, i);
    assert(n >= 0x8000_0000_0000_0000 <==> b[i + 7] >= 0x80);
    assert(n < 0x8000_0000_0000_0000u64 ==> n as i64 == n) by (bit_vector);
    assert(n >= 0x8000_0000_0000_0000u64 ==> n as i64 == n - 0x1_0000_0000_0000_0000) by (bit_vector);
}

} // verus!
