//! Class identifiers: their text in the registry and hexadecimal numbers.
use vstd::prelude::*;
use crate::text;

verus! {

// ---- hexadecimal numbers ------------------------------------------------------------------

pub open spec fn hex_digit(c: char) -> bool {
    ('0' <= c && c <= '9') || ('A' <= c && c <= 'F') || ('a' <= c && c <= 'f')
}

pub open spec fn digit_value(c: char) -> nat {
    if '0' <= c && c <= '9' {
        (c as int - '0' as int) as nat
    } else if 'A' <= c && c <= 'F' {
        (c as int - 'A' as int + 10) as nat
    } else {
        (c as int - 'a' as int + 10) as nat
    }
}

pub open spec fn all_hex(s: Seq<char>) -> bool {
    forall|i: int| 0 <= i < s.len() ==> hex_digit(#[trigger] s[i])
}

/// The number that hexadecimal digits write.
pub open spec fn hex_value(s: Seq<char>) -> nat
    decreases s.len(),
{
    if s.len() == 0 {
        0
    } else {
        16 * hex_value(s.drop_last()) + digit_value(s.last())
    }
}

pub open spec fn big_digit(n: nat) -> char {
    if n < 10 {
        ('0' as int + n) as char
    } else {
        ('A' as int + (n - 10)) as char
    }
}

pub open spec fn small_digit(n: nat) -> char {
    if n < 10 {
        ('0' as int + n) as char
    } else {
        ('a' as int + (n - 10)) as char
    }
}

/// `n` in `width` digits with large letters.
pub open spec fn hex(n: nat, width: nat) -> Seq<char>
    decreases width,
{
    if width == 0 {
        Seq::empty()
    } else {
        hex(n / 16, (width - 1) as nat).push(big_digit(n % 16))
    }
}

/// `n` in as few digits as it takes, with small letters.
pub open spec fn short_hex(n: nat) -> Seq<char>
    decreases n,
{
    if n < 16 {
        seq![small_digit(n)]
    } else {
        short_hex(n / 16).push(small_digit(n % 16))
    }
}

fn nth_char(first: char, n: u32) -> (r: char)
    requires
        first as u32 + n < 0xD800,
    ensures
        r as int == first as int + n,
{
    match char::from_u32(first as u32 + n) {
        Some(c) => c,
        None => first,
    }
}

fn hex_text(n: u32, width: u32) -> (r: String)
    ensures
        r@ == hex(n as nat, width as nat),
    decreases width,
{
    if width == 0 {
        let s = String::new();
        assert(s@ =~= Seq::empty());
        return s;
    }
    let mut s = hex_text(n / 16, width - 1);
    let d: u32 = n % 16;
    if d < 10 {
        s.push(nth_char('0', d));
    } else {
        s.push(nth_char('A', d - 10));
    }
    s
}

pub fn short_hex_text(n: u32) -> (r: String)
    ensures
        r@ == short_hex(n as nat),
    decreases n,
{
    let mut s = if n < 16 {
        String::new()
    } else {
        short_hex_text(n / 16)
    };
    let d: u32 = n % 16;
    if d < 10 {
        s.push(nth_char('0', d));
    } else {
        s.push(nth_char('a', d - 10));
    }
    proof {
        if n < 16 {
            assert(s@ =~= seq![small_digit(n as nat)]);
        }
    }
    s
}

/// The numbers below this fit into `width` digits.
pub open spec fn hex_range(width: nat) -> nat
    decreases width,
{
    if width == 0 {
        1
    } else {
        16 * hex_range((width - 1) as nat)
    }
}

proof fn lemma_digit(n: nat)
    requires
        n < 16,
    ensures
        hex_digit(big_digit(n)),
        digit_value(big_digit(n)) == n,
{
}

/// A number is read back from its digits.
pub proof fn law_hex_round_trip(n: nat, width: nat)
    requires
        n < hex_range(width),
    ensures
        hex(n, width).len() == width,
        all_hex(hex(n, width)),
        hex_value(hex(n, width)) == n,
    decreases width,
{
    if width > 0 {
        let rest = hex(n / 16, (width - 1) as nat);
        law_hex_round_trip(n / 16, (width - 1) as nat);
        lemma_digit(n % 16);
        assert(hex(n, width).drop_last() =~= rest);
        assert forall|i: int| 0 <= i < width implies hex_digit(#[trigger] hex(n, width)[i]) by {
            if i < width - 1 {
                assert(hex_digit(rest[i]));
            }
        }
    }
}

// ---- identifiers --------------------------------------------------------------------------

#[derive(Debug, Clone, Copy, PartialEq, Eq)]
pub struct Clsid {
    pub data1: u32,
    pub data2: u16,
    pub data3: u16,
    pub data4: [u8; 8],
}

#[verifier::ext_equal]
pub struct ClsidView {
    pub data1: nat,
    pub data2: nat,
    pub data3: nat,
    pub data4: Seq<nat>,
}

impl View for Clsid {
    type V = ClsidView;

    open spec fn view(&self) -> ClsidView {
        ClsidView {
            data1: self.data1 as nat,
            data2: self.data2 as nat,
            data3: self.data3 as nat,
            data4: Seq::new(8, |i: int| self.data4@[i] as nat),
        }
    }
}

/// Eight, four, four, four and twelve hexadecimal digits with a dash between each two groups.
pub open spec fn is_id(s: Seq<char>) -> bool {
    &&& s.len() == 36
    &&& s[8] == '-' && s[13] == '-' && s[18] == '-' && s[23] == '-'
    &&& all_hex(s.subrange(0, 8))
    &&& all_hex(s.subrange(9, 13))
    &&& all_hex(s.subrange(14, 18))
    &&& all_hex(s.subrange(19, 23))
    &&& all_hex(s.subrange(24, 36))
}

/// Where the two digits of the byte `i` of the last two groups stand.
pub open spec fn byte_place(i: int) -> int {
    if i < 2 {
        19 + 2 * i
    } else {
        24 + 2 * (i - 2)
    }
}

pub open spec fn id_in(s: Seq<char>) -> ClsidView {
    ClsidView {
        data1: hex_value(s.subrange(0, 8)),
        data2: hex_value(s.subrange(9, 13)),
        data3: hex_value(s.subrange(14, 18)),
        data4: Seq::new(8, |i: int| hex_value(s.subrange(byte_place(i), byte_place(i) + 2))),
    }
}

/// `windows_core::GUID::try_from`: an identifier without braces, in letters of either size;
/// anything else is refused.
#[verifier::external_body]
fn guid_of(s: &str) -> (r: Option<Clsid>)
    ensures
        r is Some <==> is_id(s@),
        r is Some ==> r->0@ == id_in(s@),
{
    let g = windows_core::GUID::try_from(s).ok()?;
    Some(Clsid { data1: g.data1, data2: g.data2, data3: g.data3, data4: g.data4 })
}

/// The text between the braces, where there are any.
pub open spec fn bare(s: Seq<char>) -> Seq<char> {
    text::trimmed_end(text::drop_while(text::trimmed(s), text::only('{')), '}')
}

pub open spec fn parsed(s: Seq<char>) -> Option<ClsidView> {
    if is_id(bare(s)) {
        Some(id_in(bare(s)))
    } else {
        None
    }
}

pub open spec fn id_view(c: Option<Clsid>) -> Option<ClsidView> {
    match c {
        Some(c) => Some(c@),
        None => None,
    }
}

/// Reads an identifier with or without braces and white space around it.
pub fn parse_clsid(s: &str) -> (r: Option<Clsid>)
    ensures
        id_view(r) == parsed(s@),
{
    let t = text::trim(s);
    let t = text::trim_start_of(&t, '{');
    let t = text::trim_end_of(&t, '}');
    guid_of(&t)
}

/// The identifier with a dash between the groups.
pub open spec fn dashed(c: ClsidView) -> Seq<char> {
    hex(c.data1, 8) + "-"@ + hex(c.data2, 4) + "-"@ + hex(c.data3, 4) + "-"@ + hex(c.data4[0], 2)
        + hex(c.data4[1], 2) + "-"@ + hex(c.data4[2], 2) + hex(c.data4[3], 2) + hex(c.data4[4], 2)
        + hex(c.data4[5], 2) + hex(c.data4[6], 2) + hex(c.data4[7], 2)
}

/// The identifier as the registry writes it.
pub open spec fn written(c: ClsidView) -> Seq<char> {
    "{"@ + dashed(c) + "}"@
}

pub fn format_clsid(c: &Clsid) -> (r: String)
    ensures
        r@ == written(c@),
{
    let mut s = text::copied("{");
    s.push_str(&hex_text(c.data1, 8));
    s.push_str("-");
    s.push_str(&hex_text(c.data2 as u32, 4));
    s.push_str("-");
    s.push_str(&hex_text(c.data3 as u32, 4));
    s.push_str("-");
    s.push_str(&hex_text(c.data4[0] as u32, 2));
    s.push_str(&hex_text(c.data4[1] as u32, 2));
    s.push_str("-");
    s.push_str(&hex_text(c.data4[2] as u32, 2));
    s.push_str(&hex_text(c.data4[3] as u32, 2));
    s.push_str(&hex_text(c.data4[4] as u32, 2));
    s.push_str(&hex_text(c.data4[5] as u32, 2));
    s.push_str(&hex_text(c.data4[6] as u32, 2));
    s.push_str(&hex_text(c.data4[7] as u32, 2));
    s.push_str("}");
    assert(s@ =~= written(c@));
    s
}

proof fn lemma_dashed(c: Clsid)
    ensures
        is_id(dashed(c@)),
        id_in(dashed(c@)) == c@,
{
    reveal_strlit("-");
    reveal_with_fuel(hex_range, 9);
    let v = c@;
    law_hex_round_trip(v.data1, 8);
    law_hex_round_trip(v.data2, 4);
    law_hex_round_trip(v.data3, 4);
    assert forall|i: int| 0 <= i < 8 implies {
        let h = hex(#[trigger] v.data4[i], 2);
        h.len() == 2 && all_hex(h) && hex_value(h) == v.data4[i]
    } by {
        law_hex_round_trip(v.data4[i], 2);
    }
    let d = dashed(v);
    assert(hex(v.data4[0], 2).len() == 2 && hex(v.data4[1], 2).len() == 2);
    assert(hex(v.data4[2], 2).len() == 2 && hex(v.data4[3], 2).len() == 2);
    assert(hex(v.data4[4], 2).len() == 2 && hex(v.data4[5], 2).len() == 2);
    assert(hex(v.data4[6], 2).len() == 2 && hex(v.data4[7], 2).len() == 2);
    assert(d.len() == 36);
    assert(d.subrange(0, 8) =~= hex(v.data1, 8));
    assert(d.subrange(9, 13) =~= hex(v.data2, 4));
    assert(d.subrange(14, 18) =~= hex(v.data3, 4));
    assert(d.subrange(19, 21) =~= hex(v.data4[0], 2));
    assert(d.subrange(21, 23) =~= hex(v.data4[1], 2));
    assert(d.subrange(24, 26) =~= hex(v.data4[2], 2));
    assert(d.subrange(26, 28) =~= hex(v.data4[3], 2));
    assert(d.subrange(28, 30) =~= hex(v.data4[4], 2));
    assert(d.subrange(30, 32) =~= hex(v.data4[5], 2));
    assert(d.subrange(32, 34) =~= hex(v.data4[6], 2));
    assert(d.subrange(34, 36) =~= hex(v.data4[7], 2));
    assert(d.subrange(19, 23) =~= hex(v.data4[0], 2) + hex(v.data4[1], 2));
    assert(d.subrange(24, 36) =~= hex(v.data4[2], 2) + hex(v.data4[3], 2) + hex(v.data4[4], 2)
        + hex(v.data4[5], 2) + hex(v.data4[6], 2) + hex(v.data4[7], 2));
    assert(id_in(d).data4 =~= v.data4);
}

/// An identifier is read back from the text that the registry has for it.
pub proof fn law_clsid_round_trip(c: Clsid)
    ensures
        parsed(written(c@)) == Some(c@),
{
    reveal_strlit("{");
    reveal_strlit("}");
    lemma_dashed(c);
    let d = dashed(c@);
    let w = written(c@);
    assert(w.len() == 38);
    assert(w[0] == '{' && w[37] == '}');
    assert(d.subrange(0, 8)[0] == d[0]);
    assert(d.subrange(24, 36)[11] == d[35]);
    assert(w[1] == d[0]);
    assert(w[36] == d[35]);
    let white = |k: char| text::white(k);
    text::lemma_drop_while_is_suffix(w, white, 0);
    assert(w.subrange(0, 38) =~= w);
    text::lemma_drop_end_while_is_prefix(w, white, 38);
    assert(text::trimmed(w) == w);
    text::lemma_drop_while_is_suffix(w, text::only('{'), 1);
    let t = w.subrange(1, 38);
    text::lemma_drop_end_while_is_prefix(t, text::only('}'), 36);
    assert(t.subrange(0, 36) =~= d);
}

/// Two identifiers with the same text are the same.
pub proof fn law_text_tells_identifiers_apart(a: Clsid, b: Clsid)
    ensures
        written(a@) == written(b@) <==> a@ == b@,
{
    law_clsid_round_trip(a);
    law_clsid_round_trip(b);
}

/// Where each part of an identifier stands in its text: eight, four, four, four and twelve digits
/// between dashes and braces, the last eight bytes two digits each.
pub proof fn law_clsid_layout(c: Clsid, i: int)
    requires
        0 <= i < 8,
    ensures
        ({
            let t = written(c@);
            let at = if i < 2 {
                20 + 2 * i
            } else {
                21 + 2 * i
            };
            &&& t.len() == 38
            &&& t[0] == '{' && t[9] == '-' && t[14] == '-' && t[19] == '-' && t[24] == '-' && t[37] == '}'
            &&& hex_value(t.subrange(1, 9)) == c.data1
            &&& hex_value(t.subrange(10, 14)) == c.data2
            &&& hex_value(t.subrange(15, 19)) == c.data3
            &&& hex_value(t.subrange(at, at + 2)) == c.data4[i]
        }),
{
    reveal_strlit("-");
    reveal_strlit("{");
    reveal_strlit("}");
    reveal_with_fuel(hex_range, 9);
    let v = c@;
    law_hex_round_trip(v.data1, 8);
    law_hex_round_trip(v.data2, 4);
    law_hex_round_trip(v.data3, 4);
    law_hex_round_trip(v.data4[0], 2);
    law_hex_round_trip(v.data4[1], 2);
    law_hex_round_trip(v.data4[2], 2);
    law_hex_round_trip(v.data4[3], 2);
    law_hex_round_trip(v.data4[4], 2);
    law_hex_round_trip(v.data4[5], 2);
    law_hex_round_trip(v.data4[6], 2);
    law_hex_round_trip(v.data4[7], 2);
    let t = written(v);
    assert(t.subrange(1, 9) =~= hex(v.data1, 8));
    assert(t.subrange(10, 14) =~= hex(v.data2, 4));
    assert(t.subrange(15, 19) =~= hex(v.data3, 4));
    assert(t.subrange(20, 22) =~= hex(v.data4[0], 2));
    assert(t.subrange(22, 24) =~= hex(v.data4[1], 2));
    assert(t.subrange(25, 27) =~= hex(v.data4[2], 2));
    assert(t.subrange(27, 29) =~= hex(v.data4[3], 2));
    assert(t.subrange(29, 31) =~= hex(v.data4[4], 2));
    assert(t.subrange(31, 33) =~= hex(v.data4[5], 2));
    assert(t.subrange(33, 35) =~= hex(v.data4[6], 2));
    assert(t.subrange(35, 37) =~= hex(v.data4[7], 2));
}

/// What each digit counts, in either case of its letter.
pub proof fn law_hex_digits(c: char)
    ensures
        '0' <= c && c <= '9' ==> digit_value(c) == c as int - 48,
        'A' <= c && c <= 'F' ==> digit_value(c) == c as int - 55,
        'a' <= c && c <= 'f' ==> digit_value(c) == c as int - 87,
{
}

/// A number in hexadecimal has its last digit last, small letters for ten to fifteen, and no zero
/// before it.
pub proof fn law_short_hex(n: nat)
    ensures
        n < 16 ==> short_hex(n).len() == 1,
        n >= 16 ==> short_hex(n).drop_last() == short_hex(n / 16),
        n % 16 < 10 ==> short_hex(n).last() as int == 48 + n % 16,
        n % 16 >= 10 ==> short_hex(n).last() as int == 97 + n % 16 - 10,
{
    if n >= 16 {
        assert(short_hex(n).drop_last() =~= short_hex(n / 16));
    }
}

} // verus!
