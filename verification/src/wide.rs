//! UTF-16, as the Windows shell takes and gives text.

use vstd::prelude::*;
use vstd::utf8::*;

use crate::text::chars_of;

verus! {

/// The code units of one character.
pub open spec fn units(c: char) -> Seq<u16> {
    let u = c as u32;
    if u < 0x10000 {
        seq![u as u16]
    } else {
        seq![
            (0xD800 + (u - 0x10000) / 0x400) as u16,
            (0xDC00 + (u - 0x10000) % 0x400) as u16,
        ]
    }
}

/// The code units of a text.
pub open spec fn utf16(s: Seq<char>) -> Seq<u16>
    decreases s.len(),
{
    if s.len() == 0 {
        Seq::empty()
    } else {
        units(s[0]) + utf16(s.drop_first())
    }
}

pub open spec fn is_high(u: u16) -> bool {
    0xD800 <= u <= 0xDBFF
}

pub open spec fn is_low(u: u16) -> bool {
    0xDC00 <= u <= 0xDFFF
}

/// The character that a surrogate pair stands for.
pub open spec fn paired(hi: u16, lo: u16) -> char {
    (0x10000 + (hi - 0xD800) * 0x400 + (lo - 0xDC00)) as char
}

/// The text of code units; a surrogate without its partner becomes U+FFFD.
pub open spec fn decoded(u: Seq<u16>) -> Seq<char>
    decreases u.len(),
{
    if u.len() == 0 {
        Seq::empty()
    } else if is_high(u[0]) && u.len() > 1 && is_low(u[1]) {
        seq![paired(u[0], u[1])] + decoded(u.skip(2))
    } else if is_high(u[0]) || is_low(u[0]) {
        seq!['\u{FFFD}'] + decoded(u.skip(1))
    } else {
        seq![u[0] as char] + decoded(u.skip(1))
    }
}

/// The position of the first zero unit; the length where there is none.
pub open spec fn nul_index(u: Seq<u16>) -> int
    decreases u.len(),
{
    if u.len() == 0 || u[0] == 0 {
        0
    } else {
        1 + nul_index(u.drop_first())
    }
}

/// What stands before the first zero unit.
pub open spec fn before_nul(u: Seq<u16>) -> Seq<u16> {
    u.take(nul_index(u))
}

pub proof fn lemma_nul_index_is(u: Seq<u16>, k: int)
    requires
        0 <= k <= u.len(),
        k < u.len() ==> u[k] == 0,
        forall|i: int| 0 <= i < k ==> u[i] != 0,
    ensures
        nul_index(u) == k,
    decreases u.len(),
{
    if u.len() > 0 && u[0] != 0 {
        let d = u.drop_first();
        assert forall|i: int| 0 <= i < k - 1 implies d[i] != 0 by {
            assert(d[i] == u[i + 1]);
        }
        lemma_nul_index_is(d, k - 1);
    }
}

proof fn lemma_decode_units(c: char, rest: Seq<u16>)
    ensures
        decoded(units(c) + rest) == seq![c] + decoded(rest),
{
    let u = c as u32;
    let all = units(c) + rest;
    if u < 0x10000 {
        assert(all.skip(1) =~= rest);
    } else {
        assert(all.skip(2) =~= rest);
        assert(all[0] == (0xD800 + (u - 0x10000) / 0x400) as u16);
        assert(all[1] == (0xDC00 + (u - 0x10000) % 0x400) as u16);
    }
}

/// Decoding gives back what was encoded.
pub proof fn law_decode_encode(s: Seq<char>)
    ensures
        decoded(utf16(s)) == s,
    decreases s.len(),
{
    if s.len() > 0 {
        lemma_decode_units(s[0], utf16(s.drop_first()));
        law_decode_encode(s.drop_first());
        assert(seq![s[0]] + s.drop_first() =~= s);
    } else {
        assert(decoded(utf16(s)) =~= s);
    }
}

/// The code units of a text.
pub fn encode(s: &str) -> (r: Vec<u16>)
    ensures
        r@ == utf16(s@),
{
    let v = chars_of(s);
    let mut out: Vec<u16> = Vec::new();
    let mut i: usize = 0;
    assert(s@.skip(0) =~= s@);
    assert(out@ + utf16(s@.skip(0)) =~= utf16(s@));
    while i < v.len()
        invariant
            i <= v.len(),
            v@ == s@,
            out@ + utf16(s@.skip(i as int)) == utf16(s@),
        decreases v.len() - i,
    {
        let ghost before = out@;
        let u: u32 = v[i] as u32;
        if u < 0x10000 {
            out.push(u as u16);
        } else {
            let w: u32 = u - 0x10000;
            out.push((0xD800 + w / 0x400) as u16);
            out.push((0xDC00 + w % 0x400) as u16);
        }
        proof {
            assert(s@.skip(i as int).drop_first() =~= s@.skip(i + 1));
            assert(out@ =~= before + units(v@[i as int]));
            assert(out@ + utf16(s@.skip(i + 1)) =~= before + utf16(s@.skip(i as int)));
        }
        i += 1;
    }
    assert(out@ + utf16(s@.skip(v.len() as int)) =~= out@);
    out
}

/// The text of code units, with U+FFFD for a surrogate that stands alone.
pub fn decode(u: &[u16]) -> (r: String)
    ensures
        r@ == decoded(u@),
{
    let mut out = String::new();
    let mut i: usize = 0;
    assert(u@.skip(0) =~= u@);
    assert(out@ + decoded(u@.skip(0)) =~= decoded(u@));
    while i < u.len()
        invariant
            i <= u.len(),
            out@ + decoded(u@.skip(i as int)) == decoded(u@),
        decreases u.len() - i,
    {
        let ghost before = out@;
        let ghost tail = u@.skip(i as int);
        let a: u16 = u[i];
        let mut step: usize = 1;
        let mut value: u32 = a as u32;
        if 0xD800 <= a && a <= 0xDBFF && i + 1 < u.len() && 0xDC00 <= u[i + 1] && u[i + 1]
            <= 0xDFFF {
            value = 0x10000 + (a as u32 - 0xD800) * 0x400 + (u[i + 1] as u32 - 0xDC00);
            step = 2;
        } else if 0xD800 <= a && a <= 0xDFFF {
            value = 0xFFFD;
        }
        match char::from_u32(value) {
            Some(c) => out.push(c),
            None => (),
        }
        proof {
            assert(is_scalar(value));
            assert(out@ == before.push(value as char));
            assert(tail.skip(step as int) =~= u@.skip(i + step));
            assert(out@ + decoded(u@.skip(i + step)) =~= before + decoded(tail));
        }
        i += step;
    }
    assert(out@ + decoded(u@.skip(u.len() as int)) =~= out@);
    out
}

/// The position of the first zero unit; the length where there is none.
pub fn find_nul(u: &[u16]) -> (k: usize)
    ensures
        k == nul_index(u@),
        k <= u@.len(),
{
    let mut i: usize = 0;
    while i < u.len() && u[i] != 0
        invariant
            i <= u.len(),
            forall|j: int| 0 <= j < i ==> u@[j] != 0,
        decreases u.len() - i,
    {
        i += 1;
    }
    proof {
        lemma_nul_index_is(u@, i as int);
    }
    i
}

/// The text in a buffer, up to the first zero unit or the end of the buffer.
pub fn buffer_text(u: &[u16]) -> (r: String)
    ensures
        r@ == decoded(before_nul(u@)),
{
    let k = find_nul(u);
    let head = &u[0..k];
    assert(head@ =~= before_nul(u@));
    decode(head)
}

/// The text in the first `len` units of a buffer, as far as the buffer reaches.
pub fn counted_text(u: &[u16], len: usize) -> (r: String)
    ensures
        r@ == decoded(u@.take(if len <= u@.len() {
            len as int
        } else {
            u@.len() as int
        })),
{
    let k: usize = if len <= u.len() {
        len
    } else {
        u.len()
    };
    let head = &u[0..k];
    assert(head@ =~= u@.take(k as int));
    decode(head)
}

/// A text in a buffer ends before the first zero, and at the end of a buffer without one.
pub proof fn law_before_nul(units: Seq<u16>, rest: Seq<u16>)
    requires
        !units.contains(0),
    ensures
        nul_index(units + seq![0u16] + rest) == units.len(),
        before_nul(units + seq![0u16] + rest) == units,
        nul_index(units) == units.len(),
        before_nul(units) == units,
    decreases units.len(),
{
    let all = units + seq![0u16] + rest;
    if units.len() > 0 {
        assert(units.contains(units[0]));
        assert(all.drop_first() =~= units.drop_first() + seq![0u16] + rest);
        assert(!units.drop_first().contains(0)) by {
            if units.drop_first().contains(0) {
                let i = choose|i: int|
                    0 <= i < units.drop_first().len() && units.drop_first()[i] == 0;
                assert(units[i + 1] == 0);
            }
        }
        law_before_nul(units.drop_first(), rest);
    }
    assert(all.take(units.len() as int) =~= units);
    assert(units.take(units.len() as int) =~= units);
}

/// A character of the basic plane is one unit, its own number; any other is a high and a low
/// surrogate, which together hold its number.
pub proof fn law_units(c: char)
    ensures
        (c as u32) < 0x1_0000 ==> units(c).len() == 1 && units(c)[0] == c as u32,
        c as u32 >= 0x1_0000 ==> {
            let u = units(c);
            &&& u.len() == 2
            &&& 0xD800 <= u[0] < 0xDC00 && 0xDC00 <= u[1] < 0xE000
            &&& 0x1_0000 + (u[0] - 0xD800) * 0x400 + (u[1] - 0xDC00) == c as u32
        },
{
}

/// A text is encoded character by character.
pub proof fn law_utf16(c: char, s: Seq<char>)
    ensures
        utf16(Seq::empty()).len() == 0,
        utf16(seq![c] + s) == units(c) + utf16(s),
{
    assert((seq![c] + s).drop_first() =~= s);
}

/// A surrogate without its partner is read as the replacement character, and what follows it as if
/// it stood alone.
pub proof fn law_lone_surrogates(u: u16, rest: Seq<u16>)
    requires
        0xD800 <= u < 0xE000,
        u < 0xDC00 && rest.len() > 0 ==> !(0xDC00 <= rest[0] < 0xE000),
    ensures
        decoded(seq![u] + rest) == seq!['\u{FFFD}'] + decoded(rest),
{
    assert((seq![u] + rest).skip(1) =~= rest);
}

} // verus!
