//! UTF-16 as the Windows interfaces carry it: little-endian units, unpaired surrogates read as
//! U+FFFD, and zero-terminated wide strings.
use vstd::prelude::*;
use crate::text;

verus! {

/// The UTF-16 units of one character.
pub open spec fn units(c: char) -> Seq<u16> {
    let n = c as u32;
    if n < 0x1_0000 {
        seq![n as u16]
    } else {
        seq![
            (0xD800 + (n - 0x1_0000) / 0x400) as u16,
            (0xDC00 + (n - 0x1_0000) % 0x400) as u16,
        ]
    }
}

/// The UTF-16 units of a text.
pub open spec fn encoded(s: Seq<char>) -> Seq<u16>
    decreases s.len(),
{
    if s.len() == 0 {
        Seq::empty()
    } else {
        encoded(s.drop_last()) + units(s.last())
    }
}

pub open spec fn high_surrogate(u: u16) -> bool {
    0xD800 <= u < 0xDC00
}

pub open spec fn low_surrogate(u: u16) -> bool {
    0xDC00 <= u < 0xE000
}

/// The text of a run of UTF-16 units; each unpaired surrogate reads as U+FFFD.
pub open spec fn decoded(u: Seq<u16>) -> Seq<char>
    decreases u.len(),
{
    if u.len() == 0 {
        Seq::empty()
    } else if u.len() >= 2 && high_surrogate(u[0]) && low_surrogate(u[1]) {
        seq![(0x1_0000 + 0x400 * (u[0] - 0xD800) + (u[1] - 0xDC00)) as char] + decoded(
            u.subrange(2, u.len() as int),
        )
    } else if high_surrogate(u[0]) || low_surrogate(u[0]) {
        seq!['\u{FFFD}'] + decoded(u.drop_first())
    } else {
        seq![u[0] as char] + decoded(u.drop_first())
    }
}

/// The units before the first zero, or all of them.
pub open spec fn until_zero(u: Seq<u16>) -> Seq<u16>
    decreases u.len(),
{
    if u.len() == 0 || u[0] == 0 {
        Seq::empty()
    } else {
        seq![u[0]] + until_zero(u.drop_first())
    }
}

/// The little-endian units of a byte run; a trailing odd byte is dropped.
pub open spec fn le_units(b: Seq<u8>) -> Seq<u16> {
    Seq::new((b.len() / 2) as nat, |i: int| crate::bytes::u16_at(b, 2 * i))
}

/// `char::from_u32` gives the character with that scalar value, and nothing for a surrogate or a
/// number past U+10FFFF.
pub assume_specification[ char::from_u32 ](n: u32) -> (r: Option<char>)
    ensures
        r == (if n < 0xD800 || (0xE000 <= n && n <= 0x10FFFF) {
            Some(n as char)
        } else {
            None
        }),
;

/// Appends the UTF-16 units of `s`.
fn push_units(out: &mut Vec<u16>, s: &str)
    ensures
        final(out)@ == old(out)@ + encoded(s@),
{
    let cs = text::chars_of(s);
    let mut i: usize = 0;
    proof {
        assert(out@ + encoded(s@.take(0)) =~= out@);
    }
    while i < cs.len()
        invariant
            i <= cs.len(),
            cs@ == s@,
            out@ == old(out)@ + encoded(s@.take(i as int)),
        decreases cs.len() - i,
    {
        let n: u32 = cs[i] as u32;
        let ghost before = out@;
        if n < 0x1_0000 {
            out.push(n as u16);
        } else {
            out.push((0xD800 + (n - 0x1_0000) / 0x400) as u16);
            out.push((0xDC00 + (n - 0x1_0000) % 0x400) as u16);
        }
        proof {
            assert(out@ =~= before + units(s@[i as int]));
            assert(s@.take(i + 1).drop_last() =~= s@.take(i as int));
            assert(out@ =~= old(out)@ + encoded(s@.take(i + 1)));
        }
        i += 1;
    }
    assert(s@.take(s@.len() as int) =~= s@);
}

/// The UTF-16 units of `s`.
pub fn to_wide(s: &str) -> (r: Vec<u16>)
    ensures
        r@ == encoded(s@),
{
    let mut out: Vec<u16> = Vec::new();
    push_units(&mut out, s);
    assert(out@ =~= encoded(s@));
    out
}

/// The UTF-16 units of `s` followed by the terminating zero.
pub fn to_wide_null(s: &str) -> (r: Vec<u16>)
    ensures
        r@ == encoded(s@).push(0),
{
    let mut out: Vec<u16> = to_wide(s);
    out.push(0);
    out
}

/// The text of a run of units.
pub fn from_wide(u: &[u16]) -> (r: String)
    ensures
        r@ == decoded(u@),
{
    let n: usize = u.len();
    let mut out = String::new();
    let mut i: usize = 0;
    proof {
        assert(u@.subrange(0, n as int) =~= u@);
        assert(out@ + decoded(u@) =~= decoded(u@));
    }
    while i < n
        invariant
            n == u@.len(),
            i <= n,
            out@ + decoded(u@.subrange(i as int, n as int)) == decoded(u@),
        decreases n - i,
    {
        let ghost rest = u@.subrange(i as int, n as int);
        let ghost before = out@;
        let a: u16 = u[i];
        let high = 0xD800 <= a && a < 0xDC00;
        let low = 0xDC00 <= a && a < 0xE000;
        if high && n - i >= 2 && 0xDC00 <= u[i + 1] && u[i + 1] < 0xE000 {
            let b: u16 = u[i + 1];
            let code: u32 = 0x1_0000 + 0x400 * (a as u32 - 0xD800) + (b as u32 - 0xDC00);
            match char::from_u32(code) {
                Some(c) => {
                    out.push(c);
                },
                None => {},
            }
            proof {
                assert(rest[0] == a && rest[1] == b);
                assert(rest.subrange(2, rest.len() as int) =~= u@.subrange(i + 2, n as int));
                assert(out@ + decoded(u@.subrange(i + 2, n as int)) =~= before + decoded(rest));
            }
            i += 2;
        } else {
            if high || low {
                out.push('\u{FFFD}');
            } else {
                match char::from_u32(a as u32) {
                    Some(c) => {
                        out.push(c);
                    },
                    None => {},
                }
            }
            proof {
                assert(rest[0] == a);
                if rest.len() >= 2 {
                    assert(rest[1] == u@[i + 1]);
                }
                assert(rest.drop_first() =~= u@.subrange(i + 1, n as int));
                assert(out@ + decoded(u@.subrange(i + 1, n as int)) =~= before + decoded(rest));
            }
            i += 1;
        }
    }
    assert(u@.subrange(n as int, n as int) =~= Seq::empty());
    assert(out@ =~= decoded(u@));
    out
}

/// The units held by a little-endian byte run.
pub fn units_of_bytes(b: &[u8]) -> (r: Vec<u16>)
    ensures
        r@ == le_units(b@),
{
    let n: usize = b.len() / 2;
    let mut out: Vec<u16> = Vec::new();
    let mut i: usize = 0;
    while i < n
        invariant
            n == b@.len() / 2,
            b@.len() <= usize::MAX,
            i <= n,
            out@ == le_units(b@).take(i as int),
        decreases n - i,
    {
        out.push(crate::bytes::read_u16(b, 2 * i));
        proof {
            assert(out@ =~= le_units(b@).take(i + 1));
        }
        i += 1;
    }
    assert(out@ =~= le_units(b@));
    out
}

/// The text held by a little-endian UTF-16 byte run.
pub fn text_of_bytes(b: &[u8]) -> (r: String)
    ensures
        r@ == decoded(le_units(b@)),
{
    let u = units_of_bytes(b);
    from_wide(&u)
}

/// The text of a byte run up to its terminating zero unit, as registry strings carry it.
pub fn from_wide_bytes(b: &[u8]) -> (r: String)
    ensures
        r@ == decoded(until_zero(le_units(b@))),
{
    let u = units_of_bytes(b);
    let n: usize = u.len();
    let mut i: usize = 0;
    while i < n && u[i] != 0
        invariant
            n == u@.len(),
            i <= n,
            forall|k: int| 0 <= k < i ==> u@[k] != 0,
        decreases n - i,
    {
        i += 1;
    }
    proof {
        lemma_until_zero(u@, i as int);
    }
    let mut head: Vec<u16> = Vec::new();
    let mut k: usize = 0;
    while k < i
        invariant
            k <= i <= u@.len(),
            head@ == u@.take(k as int),
        decreases i - k,
    {
        head.push(u[k]);
        proof {
            assert(head@ =~= u@.take(k + 1));
        }
        k += 1;
    }
    from_wide(&head)
}

proof fn lemma_until_zero(u: Seq<u16>, i: int)
    requires
        0 <= i <= u.len(),
        forall|k: int| 0 <= k < i ==> u[k] != 0,
        i < u.len() ==> u[i] == 0,
    ensures
        until_zero(u) == u.take(i),
    decreases u.len(),
{
    if i > 0 {
        let t = u.drop_first();
        assert forall|k: int| 0 <= k < i - 1 implies t[k] != 0 by {
            assert(t[k] == u[k + 1]);
        }
        lemma_until_zero(t, i - 1);
        assert(seq![u[0]] + t.take(i - 1) =~= u.take(i));
    } else {
        assert(u.take(0) =~= Seq::empty());
    }
}

proof fn lemma_decoded_units(c: char, rest: Seq<u16>)
    ensures
        decoded(units(c) + rest) == seq![c] + decoded(rest),
{
    let u = units(c) + rest;
    let n = c as u32;
    if n < 0x1_0000 {
        assert(u.drop_first() =~= rest);
        assert(u[0] == n as u16);
    } else {
        assert(u.subrange(2, u.len() as int) =~= rest);
        assert(u[0] == (0xD800 + (n - 0x1_0000) / 0x400) as u16);
        assert(u[1] == (0xDC00 + (n - 0x1_0000) % 0x400) as u16);
        let m = n - 0x1_0000;
        assert(0x400 * (m / 0x400) + m % 0x400 == m) by (nonlinear_arith)
            requires
                m >= 0,
        ;
    }
}

proof fn lemma_decoded_append(s: Seq<char>, rest: Seq<u16>)
    ensures
        decoded(encoded(s) + rest) == s + decoded(rest),
    decreases s.len(),
{
    if s.len() == 0 {
        assert(encoded(s) + rest =~= rest);
        assert(s + decoded(rest) =~= decoded(rest));
    } else {
        let t = s.drop_last();
        assert(encoded(s) + rest =~= encoded(t) + (units(s.last()) + rest));
        lemma_decoded_append(t, units(s.last()) + rest);
        lemma_decoded_units(s.last(), rest);
        assert(t + (seq![s.last()] + decoded(rest)) =~= s + decoded(rest));
    }
}

/// Reading back a text that was written as UTF-16 gives the text.
pub proof fn law_utf16_round_trip(s: Seq<char>)
    ensures
        decoded(encoded(s)) == s,
{
    lemma_decoded_append(s, Seq::empty());
    assert(encoded(s) + Seq::<u16>::empty() =~= encoded(s));
    assert(decoded(Seq::empty()) =~= Seq::empty());
    assert(s + Seq::<char>::empty() =~= s);
}

/// The little-endian bytes of wide units.
pub open spec fn wide_bytes(u: Seq<u16>) -> Seq<u8>
    decreases u.len(),
{
    if u.len() == 0 {
        Seq::empty()
    } else {
        wide_bytes(u.drop_last()) + crate::bytes::u16_bytes(u.last())
    }
}

/// The little-endian UTF-16 of a text, without a terminator.
pub open spec fn wide_text(s: Seq<char>) -> Seq<u8> {
    wide_bytes(encoded(s))
}

pub fn to_wide_bytes(s: &str) -> (r: Vec<u8>)
    ensures
        r@ == wide_text(s@),
{
    let u = to_wide(s);
    let mut out: Vec<u8> = Vec::new();
    let mut i: usize = 0;
    proof {
        assert(u@.take(0) =~= Seq::empty());
        assert(out@ =~= wide_bytes(u@.take(0)));
    }
    while i < u.len()
        invariant
            i <= u.len(),
            out@ == wide_bytes(u@.take(i as int)),
        decreases u.len() - i,
    {
        crate::bytes::push_u16(&mut out, u[i]);
        proof {
            assert(u@.take(i + 1).drop_last() =~= u@.take(i as int));
            assert(out@ =~= wide_bytes(u@.take(i + 1)));
        }
        i += 1;
    }
    proof {
        assert(u@.take(u@.len() as int) =~= u@);
    }
    out
}

pub proof fn lemma_wide_units(u: Seq<u16>, rest: Seq<u8>)
    ensures
        wide_bytes(u).len() == 2 * u.len(),
        forall|i: int| 0 <= i < u.len() ==> crate::bytes::u16_at(wide_bytes(u) + rest, 2 * i) == #[trigger] u[i],
    decreases u.len(),
{
    if u.len() > 0 {
        let t = u.drop_last();
        let tail = crate::bytes::u16_bytes(u.last()) + rest;
        lemma_wide_units(t, tail);
        assert(wide_bytes(u) + rest =~= wide_bytes(t) + tail);
        crate::bytes::law_u16_round_trip(u.last());
        assert forall|i: int| 0 <= i < u.len() implies crate::bytes::u16_at(wide_bytes(u) + rest, 2 * i)
            == #[trigger] u[i] by {
            if i < t.len() {
                assert(t[i] == u[i]);
            } else {
                let all = wide_bytes(t) + tail;
                assert(all[2 * i] == crate::bytes::u16_bytes(u.last())[0]);
                assert(all[2 * i + 1] == crate::bytes::u16_bytes(u.last())[1]);
            }
        }
    }
}

proof fn lemma_units_no_zero(c: char)
    requires
        c != '\0',
    ensures
        forall|i: int| 0 <= i < units(c).len() ==> #[trigger] units(c)[i] != 0,
{
}

proof fn lemma_encoded_no_zero(s: Seq<char>)
    requires
        !s.contains('\0'),
    ensures
        forall|i: int| 0 <= i < encoded(s).len() ==> #[trigger] encoded(s)[i] != 0,
    decreases s.len(),
{
    if s.len() > 0 {
        let t = s.drop_last();
        assert forall|k: int| 0 <= k < t.len() implies t[k] != '\0' by {
            assert(s.contains(s[k]));
        }
        lemma_encoded_no_zero(t);
        assert(s.contains(s[s.len() - 1]));
        let e = encoded(t);
        let u = units(s.last());
        lemma_units_no_zero(s.last());
        assert forall|i: int| 0 <= i < encoded(s).len() implies #[trigger] encoded(
            s,
        )[i] != 0 by {
            if i >= e.len() {
                assert(encoded(s)[i] == u[i - e.len()]);
            }
        }
    }
}

/// Reading up to the zero that ends a little-endian text gives the text back, whatever follows;
/// for every text without a zero character.
pub proof fn law_wide_text_reads_back(s: Seq<char>, rest: Seq<u8>)
    requires
        !s.contains('\0'),
    ensures
        decoded(until_zero(le_units(wide_text(s) + seq![0u8, 0u8] + rest))) == s,
{
    let u = encoded(s);
    let tail = seq![0u8, 0u8] + rest;
    let b = wide_text(s) + seq![0u8, 0u8] + rest;
    assert(b =~= wide_bytes(u) + tail);
    lemma_wide_units(u, tail);
    lemma_encoded_no_zero(s);
    let units = le_units(b);
    let n = u.len() as int;
    assert(b[2 * n] == 0 && b[2 * n + 1] == 0);
    assert(units[n] == 0);
    assert forall|k: int| 0 <= k < n implies #[trigger] units[k] != 0 && units[k] == u[k] by {
        assert(u[k] != 0);
    }
    lemma_until_zero(units, n);
    assert(units.take(n) =~= u);
    law_utf16_round_trip(s);
}

/// A character up to U+FFFF is its own unit; a later one is two units, of which the first carries
/// the upper and the second the lower ten bits of what it lies above U+FFFF.
pub proof fn law_units_of_a_character(c: char)
    ensures
        (c as u32) < 0x1_0000 ==> encoded(seq![c]) == seq![c as u16],
        (c as u32) >= 0x1_0000 ==> {
            let u = encoded(seq![c]);
            &&& u.len() == 2
            &&& 0xD800 <= u[0] < 0xDC00 <= u[1] < 0xE000
            &&& (u[0] - 0xD800) * 0x400 + (u[1] - 0xDC00) + 0x1_0000 == c as u32
        },
{
    let s = seq![c];
    assert(s.drop_last() =~= Seq::empty());
    assert(encoded(s.drop_last()) =~= Seq::empty());
    assert(encoded(s) =~= units(c));
    let n = c as u32;
    assert(n <= 0x10_FFFF);
}

/// The units of a text stand one after the other, each with its lower byte first.
pub proof fn law_units_in_bytes(s: Seq<char>, i: int)
    requires
        0 <= i < encoded(s).len(),
    ensures
        wide_text(s).len() == 2 * encoded(s).len(),
        wide_text(s)[2 * i] + 0x100 * wide_text(s)[2 * i + 1] == encoded(s)[i],
{
    lemma_wide_units(encoded(s), Seq::empty());
    assert(wide_text(s) + Seq::<u8>::empty() =~= wide_text(s));
    crate::bytes::law_byte_weights(wide_text(s), 2 * i);
    assert(crate::bytes::u16_at(wide_bytes(encoded(s)) + Seq::<u8>::empty(), 2 * i) == encoded(s)[i]);
}

/// The units of two texts in a row are those of the first and then those of the second.
pub proof fn law_units_of_texts_in_a_row(a: Seq<char>, b: Seq<char>)
    ensures
        encoded(a + b) == encoded(a) + encoded(b),
    decreases b.len(),
{
    if b.len() == 0 {
        assert(a + b =~= a);
        assert(encoded(a) + encoded(b) =~= encoded(a));
    } else {
        assert((a + b).drop_last() =~= a + b.drop_last());
        law_units_of_texts_in_a_row(a, b.drop_last());
        assert(encoded(a) + encoded(b.drop_last()) + units(b.last()) =~= encoded(a) + encoded(b));
    }
}

} // verus!
