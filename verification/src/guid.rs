//! Globally unique identifiers: their bytes, their text, and equality.

use vstd::prelude::*;

use crate::numerals::{self, hex_text};
use crate::text::chars_of;

verus! {

/// A globally unique identifier, in the four fields that Windows gives it.
#[derive(Clone, Copy)]
pub struct Guid {
    pub data1: u32,
    pub data2: u16,
    pub data3: u16,
    pub data4: [u8; 8],
}

#[verifier::ext_equal]
pub struct GuidView {
    pub data1: u32,
    pub data2: u16,
    pub data3: u16,
    pub data4: Seq<u8>,
}

impl View for Guid {
    type V = GuidView;

    open spec fn view(&self) -> GuidView {
        GuidView { data1: self.data1, data2: self.data2, data3: self.data3, data4: self.data4@ }
    }
}

/// Whether two identifiers are the same.
pub fn guid_eq(a: &Guid, b: &Guid) -> (r: bool)
    ensures
        r == (a@ == b@),
{
    if a.data1 != b.data1 || a.data2 != b.data2 || a.data3 != b.data3 {
        return false;
    }
    let mut i: usize = 0;
    while i < 8
        invariant
            i <= 8,
            forall|j: int| 0 <= j < i ==> a.data4@[j] == b.data4@[j],
        decreases 8 - i,
    {
        if a.data4[i] != b.data4[i] {
            return false;
        }
        i += 1;
    }
    assert(a@ =~= b@);
    true
}

// ----- little-endian numbers -----

/// The two bytes of a number, the least significant first.
pub open spec fn le16(x: u16) -> Seq<u8> {
    seq![(x % 256) as u8, (x / 256) as u8]
}

/// The four bytes of a number, the least significant first.
pub open spec fn le32(x: u32) -> Seq<u8> {
    seq![
        (x % 256) as u8,
        (x / 0x100 % 256) as u8,
        (x / 0x1_0000 % 256) as u8,
        (x / 0x100_0000) as u8,
    ]
}

/// The number in two bytes from position `i`.
pub open spec fn le16_at(b: Seq<u8>, i: int) -> u16 {
    (b[i] + 0x100 * b[i + 1]) as u16
}

/// The number in four bytes from position `i`.
pub open spec fn le32_at(b: Seq<u8>, i: int) -> u32 {
    (b[i] + 0x100 * b[i + 1] + 0x1_0000 * b[i + 2] + 0x100_0000 * b[i + 3]) as u32
}

/// The number in four bytes from position `i`.
pub fn read_le32(b: &[u8], i: usize) -> (r: u32)
    requires
        i + 4 <= b@.len(),
    ensures
        r == le32_at(b@, i as int),
{
    b[i] as u32 + 0x100 * b[i + 1] as u32 + 0x1_0000 * b[i + 2] as u32 + 0x100_0000 * b[i
        + 3] as u32
}

fn read_le16(b: &[u8], i: usize) -> (r: u16)
    requires
        i + 2 <= b@.len(),
    ensures
        r == le16_at(b@, i as int),
{
    b[i] as u16 + 0x100 * b[i + 1] as u16
}

/// Appends the four bytes of a number.
pub fn push_le32(v: &mut Vec<u8>, x: u32)
    ensures
        final(v)@ == old(v)@ + le32(x),
{
    let ghost before = v@;
    v.push((x % 256) as u8);
    v.push((x / 0x100 % 256) as u8);
    v.push((x / 0x1_0000 % 256) as u8);
    v.push((x / 0x100_0000) as u8);
    assert(v@ =~= before + le32(x));
}

// ----- bytes -----

/// The 16 bytes of an identifier.
pub open spec fn guid_bytes(g: GuidView) -> Seq<u8> {
    le32(g.data1) + le16(g.data2) + le16(g.data3) + g.data4
}

/// The identifier in 16 bytes from position `i`.
pub open spec fn guid_at(b: Seq<u8>, i: int) -> GuidView {
    GuidView {
        data1: le32_at(b, i),
        data2: le16_at(b, i + 4),
        data3: le16_at(b, i + 6),
        data4: b.subrange(i + 8, i + 16),
    }
}

/// The identifier in 16 bytes from position `i`.
pub fn bytes_to_guid(b: &[u8], i: usize) -> (r: Guid)
    requires
        i + 16 <= b@.len(),
    ensures
        r@ == guid_at(b@, i as int),
{
    let n = b.len();
    assert(i + 16 <= n);
    let r = Guid {
        data1: read_le32(b, i),
        data2: read_le16(b, i + 4),
        data3: read_le16(b, i + 6),
        data4: [
            b[i + 8],
            b[i + 9],
            b[i + 10],
            b[i + 11],
            b[i + 12],
            b[i + 13],
            b[i + 14],
            b[i + 15],
        ],
    };
    assert(r@ =~= guid_at(b@, i as int));
    r
}

/// The 16 bytes of an identifier.
pub fn guid_to_bytes(g: &Guid) -> (r: [u8; 16])
    ensures
        r@ == guid_bytes(g@),
{
    let r: [u8; 16] = [
        (g.data1 % 256) as u8,
        (g.data1 / 0x100 % 256) as u8,
        (g.data1 / 0x1_0000 % 256) as u8,
        (g.data1 / 0x100_0000) as u8,
        (g.data2 % 256) as u8,
        (g.data2 / 256) as u8,
        (g.data3 % 256) as u8,
        (g.data3 / 256) as u8,
        g.data4[0],
        g.data4[1],
        g.data4[2],
        g.data4[3],
        g.data4[4],
        g.data4[5],
        g.data4[6],
        g.data4[7],
    ];
    assert(r@ =~= guid_bytes(g@));
    r
}

/// Reading the bytes of an identifier gives it back, wherever they stand.
pub proof fn law_bytes_give_guid_back(g: GuidView, b: Seq<u8>, i: int)
    requires
        g.data4.len() == 8,
        0 <= i,
        i + 16 <= b.len(),
        b.subrange(i, i + 16) == guid_bytes(g),
    ensures
        guid_at(b, i) == g,
{
    let s = b.subrange(i, i + 16);
    assert forall|k: int| 0 <= k < 16 implies b[i + k] == guid_bytes(g)[k] by {
        assert(s[k] == b[i + k]);
    }
    assert(b[i + 0] == guid_bytes(g)[0]);
    assert(b[i + 1] == guid_bytes(g)[1]);
    assert(b[i + 2] == guid_bytes(g)[2]);
    assert(b[i + 3] == guid_bytes(g)[3]);
    assert(b[i + 4] == guid_bytes(g)[4]);
    assert(b[i + 5] == guid_bytes(g)[5]);
    assert(b[i + 6] == guid_bytes(g)[6]);
    assert(b[i + 7] == guid_bytes(g)[7]);
    assert(guid_at(b, i).data4 =~= g.data4) by {
        assert forall|k: int| 0 <= k < 8 implies b.subrange(i + 8, i + 16)[k] == g.data4[k] by {
            assert(b[i + (8 + k)] == guid_bytes(g)[8 + k]);
        }
    }
}

/// Writing the identifier read from 16 bytes gives those bytes back.
pub proof fn law_guid_gives_bytes_back(b: Seq<u8>, i: int)
    requires
        0 <= i,
        i + 16 <= b.len(),
    ensures
        guid_bytes(guid_at(b, i)) == b.subrange(i, i + 16),
{
    lemma_le32_at(b[i], b[i + 1], b[i + 2], b[i + 3]);
    lemma_le16_at(b[i + 4], b[i + 5]);
    lemma_le16_at(b[i + 6], b[i + 7]);
    let g = guid_at(b, i);
    let s = b.subrange(i, i + 16);
    assert(le32(g.data1) =~= s.subrange(0, 4));
    assert(le16(g.data2) =~= s.subrange(4, 6));
    assert(le16(g.data3) =~= s.subrange(6, 8));
    assert(g.data4 =~= s.subrange(8, 16));
    assert(guid_bytes(g) =~= s);
}

proof fn lemma_le32_at(b0: u8, b1: u8, b2: u8, b3: u8)
    ensures
        le32((b0 + 0x100 * b1 + 0x1_0000 * b2 + 0x100_0000 * b3) as u32) == seq![b0, b1, b2, b3],
{
    let x = (b0 + 0x100 * b1 + 0x1_0000 * b2 + 0x100_0000 * b3) as u32;
    let q1: u32 = (b1 + 0x100 * b2 + 0x1_0000 * b3) as u32;
    let q2: u32 = (b2 + 0x100 * b3) as u32;
    assert(x == 0x100 * q1 + b0);
    assert(q1 == 0x100 * q2 + b1);
    assert(q2 == 0x100 * b3 + b2);
    assert(x % 256 == b0);
    assert(x / 0x100 == q1);
    assert(q1 % 256 == b1);
    assert(x == 0x1_0000 * q2 + (b0 + 0x100 * b1));
    assert(x / 0x1_0000 == q2);
    assert(q2 % 256 == b2);
    assert(x == 0x100_0000 * b3 + (b0 + 0x100 * b1 + 0x1_0000 * b2));
    assert(x / 0x100_0000 == b3);
}

proof fn lemma_le16_at(b0: u8, b1: u8)
    ensures
        le16((b0 + 0x100 * b1) as u16) == seq![b0, b1],
{
    assert(le16((b0 + 0x100 * b1) as u16) =~= seq![b0, b1]);
}

// ----- text -----

/// The text of an identifier in braces, with capital digits.
pub open spec fn guid_text(g: GuidView) -> Seq<char> {
    seq!['{'] + bare_text(g) + seq!['}']
}

/// The text of an identifier: its 32 digits in five groups.
pub open spec fn bare_text(g: GuidView) -> Seq<char> {
    numerals::hex(g.data1 as nat, 8, true) + seq!['-'] + numerals::hex(g.data2 as nat, 4, true) + seq![
        '-',
    ] + numerals::hex(g.data3 as nat, 4, true) + seq!['-'] + numerals::hex(g.data4[0] as nat, 2, true)
        + numerals::hex(g.data4[1] as nat, 2, true) + seq!['-'] + numerals::hex(
        g.data4[2] as nat,
        2,
        true,
    ) + numerals::hex(g.data4[3] as nat, 2, true) + numerals::hex(g.data4[4] as nat, 2, true)
        + numerals::hex(g.data4[5] as nat, 2, true) + numerals::hex(g.data4[6] as nat, 2, true)
        + numerals::hex(g.data4[7] as nat, 2, true)
}

/// The text of an identifier in braces.
pub fn guid_to_string(g: &Guid) -> (r: String)
    ensures
        r@ == guid_text(g@),
{
    let mut s = String::new();
    s.push('{');
    s.append(hex_text(g.data1 as u64, 8, true).as_str());
    s.push('-');
    s.append(hex_text(g.data2 as u64, 4, true).as_str());
    s.push('-');
    s.append(hex_text(g.data3 as u64, 4, true).as_str());
    s.push('-');
    s.append(hex_text(g.data4[0] as u64, 2, true).as_str());
    s.append(hex_text(g.data4[1] as u64, 2, true).as_str());
    s.push('-');
    s.append(hex_text(g.data4[2] as u64, 2, true).as_str());
    s.append(hex_text(g.data4[3] as u64, 2, true).as_str());
    s.append(hex_text(g.data4[4] as u64, 2, true).as_str());
    s.append(hex_text(g.data4[5] as u64, 2, true).as_str());
    s.append(hex_text(g.data4[6] as u64, 2, true).as_str());
    s.append(hex_text(g.data4[7] as u64, 2, true).as_str());
    s.push('}');
    assert(s@ =~= guid_text(g@));
    s
}

/// Whether `c` is a hexadecimal digit.
pub open spec fn is_hex(c: char) -> bool {
    '0' <= c <= '9' || 'A' <= c <= 'F' || 'a' <= c <= 'f'
}

/// The value of a hexadecimal digit.
pub open spec fn hex_digit_value(c: char) -> nat {
    if '0' <= c <= '9' {
        (c as u32 - 48) as nat
    } else if 'A' <= c <= 'F' {
        (c as u32 - 55) as nat
    } else {
        (c as u32 - 87) as nat
    }
}

/// The number that hexadecimal digits write.
pub open spec fn hex_value(s: Seq<char>) -> nat
    decreases s.len(),
{
    if s.len() == 0 {
        0
    } else {
        16 * hex_value(s.drop_last()) + hex_digit_value(s.last())
    }
}

/// Whether a dash stands at position `i` of an identifier's text.
pub open spec fn is_dash_place(i: int) -> bool {
    i == 8 || i == 13 || i == 18 || i == 23
}

/// Whether a text is that of an identifier: 36 characters, dashes between the five groups, digits
/// everywhere else.
pub open spec fn is_guid_text(s: Seq<char>) -> bool {
    s.len() == 36 && forall|i: int|
        0 <= i < 36 ==> if is_dash_place(i) {
            #[trigger] s[i] == '-'
        } else {
            is_hex(s[i])
        }
}

/// The identifier that a text writes.
pub open spec fn guid_value(s: Seq<char>) -> GuidView {
    GuidView {
        data1: hex_value(s.subrange(0, 8)) as u32,
        data2: hex_value(s.subrange(9, 13)) as u16,
        data3: hex_value(s.subrange(14, 18)) as u16,
        data4: seq![
            hex_value(s.subrange(19, 21)) as u8,
            hex_value(s.subrange(21, 23)) as u8,
            hex_value(s.subrange(24, 26)) as u8,
            hex_value(s.subrange(26, 28)) as u8,
            hex_value(s.subrange(28, 30)) as u8,
            hex_value(s.subrange(30, 32)) as u8,
            hex_value(s.subrange(32, 34)) as u8,
            hex_value(s.subrange(34, 36)) as u8,
        ],
    }
}

/// Calls `windows_core::GUID::try_from`, which takes the 36 characters of an identifier without
/// braces, digits of either case, and refuses every other text.
#[verifier::external_body]
fn guid_try_from(s: &str) -> (r: Option<Guid>)
    ensures
        match r {
            Some(g) => is_guid_text(s@) && g@ == guid_value(s@),
            None => !is_guid_text(s@),
        },
{
    match windows_core::GUID::try_from(s) {
        Ok(g) => Some(Guid { data1: g.data1, data2: g.data2, data3: g.data3, data4: g.data4 }),
        Err(_) => None,
    }
}

/// `s` without the braces around it, where it has them.
pub open spec fn unbraced(s: Seq<char>) -> Seq<char> {
    if s.len() >= 2 && s[0] == '{' && s.last() == '}' {
        s.subrange(1, s.len() - 1)
    } else {
        s
    }
}

/// The identifier that a text writes, in braces or bare.
pub open spec fn parsed_guid(s: Seq<char>) -> Option<GuidView> {
    if is_guid_text(unbraced(s)) {
        Some(guid_value(unbraced(s)))
    } else {
        None
    }
}

pub open spec fn opt_guid(g: Option<Guid>) -> Option<GuidView> {
    match g {
        Some(g) => Some(g@),
        None => None,
    }
}

/// Reads the text of an identifier, in braces or bare.
pub fn parse_guid(s: &str) -> (r: Option<Guid>)
    ensures
        opt_guid(r) == parsed_guid(s@),
{
    let v = chars_of(s);
    let n = v.len();
    if n >= 2 && v[0] == '{' && v[n - 1] == '}' {
        guid_try_from(s.substring_char(1, n - 1))
    } else {
        guid_try_from(s)
    }
}

proof fn lemma_hex_places(n: nat, width: nat)
    ensures
        numerals::hex(n, width, true).len() == width,
        forall|i: int| 0 <= i < width ==> is_hex(#[trigger] numerals::hex(n, width, true)[i]),
    decreases width,
{
    if width > 0 {
        lemma_hex_places(n / 16, (width - 1) as nat);
    }
}

proof fn lemma_hex_value(n: nat, width: nat)
    requires
        n < vstd::arithmetic::power::pow(16, width),
    ensures
        hex_value(numerals::hex(n, width, true)) == n,
    decreases width,
{
    reveal(vstd::arithmetic::power::pow);
    if width > 0 {
        let w = (width - 1) as nat;
        let p = vstd::arithmetic::power::pow(16, w);
        assert(n / 16 < p) by (nonlinear_arith)
            requires
                n < 16 * p,
        ;
        lemma_hex_value(n / 16, w);
        let h = numerals::hex(n, width, true);
        assert(h.drop_last() =~= numerals::hex(n / 16, w, true));
    }
}

proof fn lemma_pow16()
    ensures
        vstd::arithmetic::power::pow(16, 2) == 0x100,
        vstd::arithmetic::power::pow(16, 4) == 0x1_0000,
        vstd::arithmetic::power::pow(16, 8) == 0x1_0000_0000,
{
    reveal_with_fuel(vstd::arithmetic::power::pow, 9);
}

/// The text that is written for an identifier is read back as that identifier.
pub proof fn law_text_gives_guid_back(g: GuidView)
    requires
        g.data4.len() == 8,
    ensures
        parsed_guid(guid_text(g)) == Some(g),
{
    let t = bare_text(g);
    lemma_pow16();
    lemma_hex_places(g.data1 as nat, 8);
    lemma_hex_places(g.data2 as nat, 4);
    lemma_hex_places(g.data3 as nat, 4);
    lemma_hex_value(g.data1 as nat, 8);
    lemma_hex_value(g.data2 as nat, 4);
    lemma_hex_value(g.data3 as nat, 4);
    assert forall|k: int| 0 <= k < 8 implies {
        let h = #[trigger] numerals::hex(g.data4[k] as nat, 2, true);
        &&& h.len() == 2
        &&& is_hex(h[0]) && is_hex(h[1])
        &&& hex_value(h) == g.data4[k]
    } by {
        lemma_hex_places(g.data4[k] as nat, 2);
        lemma_hex_value(g.data4[k] as nat, 2);
    }
    assert(numerals::hex(g.data4[0] as nat, 2, true).len() == 2);
    assert(numerals::hex(g.data4[1] as nat, 2, true).len() == 2);
    assert(numerals::hex(g.data4[2] as nat, 2, true).len() == 2);
    assert(numerals::hex(g.data4[3] as nat, 2, true).len() == 2);
    assert(numerals::hex(g.data4[4] as nat, 2, true).len() == 2);
    assert(numerals::hex(g.data4[5] as nat, 2, true).len() == 2);
    assert(numerals::hex(g.data4[6] as nat, 2, true).len() == 2);
    assert(numerals::hex(g.data4[7] as nat, 2, true).len() == 2);
    assert(t.len() == 36);
    assert(t.subrange(0, 8) =~= numerals::hex(g.data1 as nat, 8, true));
    assert(t.subrange(9, 13) =~= numerals::hex(g.data2 as nat, 4, true));
    assert(t.subrange(14, 18) =~= numerals::hex(g.data3 as nat, 4, true));
    assert(t.subrange(19, 21) =~= numerals::hex(g.data4[0] as nat, 2, true));
    assert(t.subrange(21, 23) =~= numerals::hex(g.data4[1] as nat, 2, true));
    assert(t.subrange(24, 26) =~= numerals::hex(g.data4[2] as nat, 2, true));
    assert(t.subrange(26, 28) =~= numerals::hex(g.data4[3] as nat, 2, true));
    assert(t.subrange(28, 30) =~= numerals::hex(g.data4[4] as nat, 2, true));
    assert(t.subrange(30, 32) =~= numerals::hex(g.data4[5] as nat, 2, true));
    assert(t.subrange(32, 34) =~= numerals::hex(g.data4[6] as nat, 2, true));
    assert(t.subrange(34, 36) =~= numerals::hex(g.data4[7] as nat, 2, true));
    assert(guid_value(t) =~= g);
    assert(is_guid_text(t));
    assert(unbraced(guid_text(g)) =~= t);
}

/// The bytes of a GUID: the three numbers with their low bytes first, then the eight bytes as they
/// are.
pub proof fn law_guid_bytes(g: GuidView)
    requires
        g.data4.len() == 8,
    ensures
        ({
            let b = guid_bytes(g);
            &&& b.len() == 16
            &&& b[0] + 0x100 * b[1] + 0x1_0000 * b[2] + 0x100_0000 * b[3] == g.data1
            &&& b[4] + 0x100 * b[5] == g.data2
            &&& b[6] + 0x100 * b[7] == g.data3
            &&& forall|i: int| 0 <= i < 8 ==> b[8 + i] == #[trigger] g.data4[i]
        }),
{
    let x = g.data1;
    assert(x % 256 + 0x100 * (x / 0x100 % 256) + 0x1_0000 * (x / 0x1_0000 % 256) + 0x100_0000 * (x
        / 0x100_0000) == x) by (bit_vector);
}

/// A number of four bytes is read with its low byte first, as it is written.
pub proof fn law_le32(x: u32, b: Seq<u8>, i: int)
    ensures
        le32(x).len() == 4,
        le32(x)[0] + 0x100 * le32(x)[1] + 0x1_0000 * le32(x)[2] + 0x100_0000 * le32(x)[3] == x,
        le32_at(b, i) == b[i] + 0x100 * b[i + 1] + 0x1_0000 * b[i + 2] + 0x100_0000 * b[i + 3],
        le16_at(b, i) == b[i] + 0x100 * b[i + 1],
{
    assert(x % 256 + 0x100 * (x / 0x100 % 256) + 0x1_0000 * (x / 0x1_0000 % 256) + 0x100_0000 * (x
        / 0x100_0000) == x) by (bit_vector);
}

/// A GUID is written between braces, its capital digits in five groups with dashes between them.
pub proof fn law_guid_text(g: GuidView, i: int)
    ensures
        ({
            let s = guid_text(g);
            &&& s.len() == 38
            &&& s[0] == '{' && s[37] == '}'
            &&& s[9] == '-' && s[14] == '-' && s[19] == '-' && s[24] == '-'
            &&& s.subrange(1, 9) == numerals::hex(g.data1 as nat, 8, true)
            &&& s.subrange(10, 14) == numerals::hex(g.data2 as nat, 4, true)
            &&& s.subrange(15, 19) == numerals::hex(g.data3 as nat, 4, true)
            &&& 0 <= i < 2 ==> s.subrange(20 + 2 * i, 22 + 2 * i) == numerals::hex(
                g.data4[i] as nat,
                2,
                true,
            )
            &&& 2 <= i < 8 ==> s.subrange(21 + 2 * i, 23 + 2 * i) == numerals::hex(
                g.data4[i] as nat,
                2,
                true,
            )
        }),
{
    numerals::law_hex(g.data1 as nat, 8, true);
    numerals::law_hex(g.data2 as nat, 4, true);
    numerals::law_hex(g.data3 as nat, 4, true);
    numerals::law_hex(g.data4[0] as nat, 2, true);
    numerals::law_hex(g.data4[1] as nat, 2, true);
    numerals::law_hex(g.data4[2] as nat, 2, true);
    numerals::law_hex(g.data4[3] as nat, 2, true);
    numerals::law_hex(g.data4[4] as nat, 2, true);
    numerals::law_hex(g.data4[5] as nat, 2, true);
    numerals::law_hex(g.data4[6] as nat, 2, true);
    numerals::law_hex(g.data4[7] as nat, 2, true);
}

/// Hexadecimal digits count in sixteens, and letters count alike in either case.
pub proof fn law_hex_value(s: Seq<char>, c: char)
    ensures
        hex_value(Seq::empty()) == 0,
        is_hex(c) ==> hex_digit_value(c) < 16 && hex_value(s.push(c)) == 16 * hex_value(s)
            + hex_digit_value(c),
        48 <= c as u32 <= 57 ==> is_hex(c) && hex_digit_value(c) == c as u32 - 48,
        65 <= c as u32 <= 70 ==> is_hex(c) && hex_digit_value(c) == c as u32 - 65 + 10,
        97 <= c as u32 <= 102 ==> is_hex(c) && hex_digit_value(c) == c as u32 - 97 + 10,
        !(48 <= c as u32 <= 57) && !(65 <= c as u32 <= 70) && !(97 <= c as u32 <= 102) ==> !is_hex(
            c,
        ),
{
    assert(s.push(c).drop_last() =~= s);
}

/// A GUID is read with its braces or without them; it has 36 characters, dashes where they belong
/// and digits everywhere else, and nothing else is read.
pub proof fn law_parsed_guid(s: Seq<char>)
    ensures
        s.len() == 36 ==> parsed_guid(seq!['{'] + s + seq!['}']) == parsed_guid(s),
        parsed_guid(s) is Some ==> s.len() == 36 || s.len() == 38 && s[0] == '{' && s[37] == '}',
        s.len() == 36 ==> (parsed_guid(s) is Some <==> forall|i: int|
            0 <= i < 36 ==> if i == 8 || i == 13 || i == 18 || i == 23 {
                #[trigger] s[i] == '-'
            } else {
                is_hex(s[i])
            }),
{
    let t = seq!['{'] + s + seq!['}'];
    assert(t.subrange(1, t.len() - 1) =~= s);
    if s.len() == 36 && s[0] == '{' {
        assert(!is_hex(s[0]));
        assert(!is_guid_text(s));
    }
}

} // verus!
