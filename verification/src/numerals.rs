//! Numbers as text: decimal, and hexadecimal of a fixed width.

use vstd::prelude::*;

use crate::text::string_of;

verus! {

/// The decimal digit of `d`.
pub open spec fn digit(d: nat) -> char {
    (48 + d) as char
}

/// The decimal digits of `n`, without leading zeros.
pub open spec fn decimal(n: nat) -> Seq<char>
    decreases n,
{
    if n < 10 {
        seq![digit(n)]
    } else {
        decimal(n / 10).push(digit(n % 10))
    }
}

/// Different numbers have different digits.
pub proof fn law_decimal_is_injective(a: nat, b: nat)
    requires
        decimal(a) == decimal(b),
    ensures
        a == b,
    decreases a,
{
    assert(decimal(a).last() == digit(a % 10));
    assert(decimal(b).last() == digit(b % 10));
    if a >= 10 && b >= 10 {
        assert(decimal(a).drop_last() =~= decimal(a / 10));
        assert(decimal(b).drop_last() =~= decimal(b / 10));
        law_decimal_is_injective(a / 10, b / 10);
    } else if a >= 10 {
        assert(decimal(a / 10).len() > 0);
    } else if b >= 10 {
        assert(decimal(b / 10).len() > 0);
    }
}

/// The decimal text of an integer, with a minus sign where it is negative.
pub open spec fn signed_decimal(n: int) -> Seq<char> {
    if n < 0 {
        seq!['-'] + decimal((-n) as nat)
    } else {
        decimal(n as nat)
    }
}

/// A decimal text is made of digits and perhaps a minus sign.
pub proof fn lemma_signed_digits(n: int)
    ensures
        forall|i: int|
            0 <= i < signed_decimal(n).len() ==> (#[trigger] signed_decimal(n)[i]) != ':',
{
    if n < 0 {
        lemma_digits((-n) as nat);
    } else {
        lemma_digits(n as nat);
    }
}

proof fn lemma_digits(n: nat)
    ensures
        forall|i: int|
            0 <= i < decimal(n).len() ==> '0' <= (#[trigger] decimal(n)[i]) && decimal(n)[i] <= '9',
        decimal(n).len() > 0,
    decreases n,
{
    if n >= 10 {
        lemma_digits(n / 10);
    }
}

/// Different integers have different decimal texts.
pub proof fn lemma_signed_decimal_is_injective(a: int, b: int)
    requires
        signed_decimal(a) == signed_decimal(b),
    ensures
        a == b,
{
    if a < 0 && b < 0 {
        assert(signed_decimal(a).skip(1) =~= decimal((-a) as nat));
        assert(signed_decimal(b).skip(1) =~= decimal((-b) as nat));
        law_decimal_is_injective((-a) as nat, (-b) as nat);
    } else if a >= 0 && b >= 0 {
        law_decimal_is_injective(a as nat, b as nat);
    } else if a < 0 {
        lemma_digits(b as nat);
        assert(signed_decimal(a)[0] == '-');
        assert(decimal(b as nat)[0] != '-');
    } else {
        lemma_digits(a as nat);
        assert(signed_decimal(b)[0] == '-');
        assert(decimal(a as nat)[0] != '-');
    }
}

/// The hexadecimal digit of `d`, with capitals where `upper` holds.
pub open spec fn hex_digit(d: nat, upper: bool) -> char {
    if d < 10 {
        (48 + d) as char
    } else if upper {
        (55 + d) as char
    } else {
        (87 + d) as char
    }
}

/// The last `width` hexadecimal digits of `n`, zeros in front where it has fewer.
pub open spec fn hex(n: nat, width: nat, upper: bool) -> Seq<char>
    decreases width,
{
    if width == 0 {
        Seq::empty()
    } else {
        hex(n / 16, (width - 1) as nat, upper).push(hex_digit(n % 16, upper))
    }
}

/// `a` written backwards.
fn reversed(a: &Vec<char>) -> (r: Vec<char>)
    ensures
        r@ == a@.reverse(),
{
    let mut r: Vec<char> = Vec::new();
    let mut i: usize = a.len();
    while i > 0
        invariant
            i <= a.len(),
            r@ =~= a@.reverse().take(a.len() - i),
        decreases i,
    {
        i -= 1;
        r.push(a[i]);
    }
    r
}

/// The decimal text of a number.
pub fn decimal_text(n: u64) -> (r: String)
    ensures
        r@ == decimal(n as nat),
{
    let mut back: Vec<char> = Vec::new();
    let mut m: u64 = n;
    while m >= 10
        invariant
            decimal(n as nat) =~= decimal(m as nat) + back@.reverse(),
        decreases m,
    {
        let ghost before = back@;
        let d: u8 = (m % 10) as u8;
        back.push((48 + d) as char);
        assert(back@.reverse() =~= seq![digit((m % 10) as nat)] + before.reverse());
        m = m / 10;
    }
    let ghost before = back@;
    back.push((48 + m as u8) as char);
    assert(back@.reverse() =~= seq![digit(m as nat)] + before.reverse());
    let v = reversed(&back);
    string_of(v.as_slice())
}

/// The decimal text of a signed number.
pub fn signed_text(n: i32) -> (r: String)
    ensures
        r@ == signed_decimal(n as int),
{
    let magnitude: u64 = if n < 0 {
        (-(n as i64)) as u64
    } else {
        n as u64
    };
    let digits = decimal_text(magnitude);
    if n < 0 {
        let mut s = String::new();
        s.push('-');
        s.append(digits.as_str());
        assert(s@ =~= seq!['-'] + digits@);
        s
    } else {
        digits
    }
}

/// The last `width` hexadecimal digits of a number.
pub fn hex_text(n: u64, width: usize, upper: bool) -> (r: String)
    ensures
        r@ == hex(n as nat, width as nat, upper),
{
    let mut back: Vec<char> = Vec::new();
    let mut m: u64 = n;
    let mut left: usize = width;
    while left > 0
        invariant
            left <= width,
            hex(n as nat, width as nat, upper) =~= hex(m as nat, left as nat, upper)
                + back@.reverse(),
        decreases left,
    {
        let ghost before = back@;
        let d: u8 = (m % 16) as u8;
        let c: char = if d < 10 {
            (48 + d) as char
        } else if upper {
            (55 + d) as char
        } else {
            (87 + d) as char
        };
        back.push(c);
        assert(back@.reverse() =~= seq![hex_digit((m % 16) as nat, upper)] + before.reverse());
        m = m / 16;
        left -= 1;
    }
    let v = reversed(&back);
    string_of(v.as_slice())
}

/// The value of decimal digits.
pub open spec fn decimal_value(s: Seq<char>) -> int
    decreases s.len(),
{
    if s.len() == 0 {
        0
    } else {
        10 * decimal_value(s.drop_last()) + (s.last() as u32 - 48)
    }
}

/// The decimal text of a number is made of digits, has the number as its value, and does not begin
/// with a zero unless it is nothing else.
pub proof fn law_decimal(n: nat)
    ensures
        decimal_value(decimal(n)) == n,
        decimal(n).len() > 0,
        forall|i: int| 0 <= i < decimal(n).len() ==> '0' <= (#[trigger] decimal(n)[i]) <= '9',
        decimal(n).len() > 1 ==> decimal(n)[0] != '0',
    decreases n,
{
    if n >= 10 {
        law_decimal(n / 10);
        assert(decimal(n).drop_last() =~= decimal(n / 10));
        if n / 10 < 10 {
            assert(decimal(n / 10)[0] == digit(n / 10));
        } else {
            assert(decimal(n / 10).len() > 1) by {
                lemma_digits(n / 100);
            }
        }
    } else {
        assert(decimal(n).drop_last() =~= Seq::empty());
        assert(decimal_value(Seq::empty()) == 0);
    }
}

/// The text of a negative number is a minus sign and the text of the number without its sign.
pub proof fn law_signed_decimal(n: nat)
    ensures
        signed_decimal(n as int) == decimal(n),
        n > 0 ==> signed_decimal(-n) == seq!['-'] + decimal(n),
{
}

/// A hexadecimal text of some width has that many digits, in the case that was asked for, and the
/// digit at each place is that of the number.
pub proof fn law_hex(n: nat, width: nat, upper: bool)
    ensures
        hex(n, width, upper).len() == width,
        forall|i: int|
            0 <= i < width ==> {
                let c = #[trigger] hex(n, width, upper)[i];
                '0' <= c <= '9' || (upper && 'A' <= c <= 'F') || (!upper && 'a' <= c <= 'f')
            },
        width > 0 ==> {
            let c = hex(n, width, upper).last();
            let d = n % 16;
            &&& d < 10 ==> c as u32 == 48 + d
            &&& d >= 10 && upper ==> c as u32 == 55 + d
            &&& d >= 10 && !upper ==> c as u32 == 87 + d
            &&& hex(n, width, upper).drop_last() == hex(n / 16, (width - 1) as nat, upper)
        },
    decreases width,
{
    if width > 0 {
        law_hex(n / 16, (width - 1) as nat, upper);
        assert(hex(n, width, upper).drop_last() =~= hex(n / 16, (width - 1) as nat, upper));
    }
}

} // verus!
