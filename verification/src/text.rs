//! Text primitives: ASCII case folding, trimming, splitting and joining over characters.

use vstd::prelude::*;
use vstd::string::*;
use vstd::utf8::*;

verus! {

/// `String::push` appends one character.
pub assume_specification[ String::push ](s: &mut String, c: char)
    ensures
        final(s)@ == old(s)@.push(c),
;

/// `char::from_u32` gives the character with the scalar value `i`, and nothing for the
/// surrogates and for values above `0x10FFFF`.
pub assume_specification[ char::from_u32 ](i: u32) -> (r: Option<char>)
    ensures
        r == (if is_scalar(i) {
            Some(i as char)
        } else {
            None
        }),
;

/// The characters of an optional text.
pub open spec fn opt_view(o: Option<String>) -> Option<Seq<char>> {
    match o {
        Some(s) => Some(s@),
        None => None,
    }
}

/// The characters of each text of a list.
pub open spec fn texts(v: Seq<String>) -> Seq<Seq<char>> {
    v.map_values(|s: String| s@)
}

/// The characters of a text, one by one.
pub fn chars_of(s: &str) -> (v: Vec<char>)
    ensures
        v@ == s@,
{
    let mut v: Vec<char> = Vec::new();
    for c in it: s.chars()
        invariant
            it.seq() == s@,
            v@ == s@.take(it.index()),
    {
        v.push(c);
        assert(s@.take(it.index() + 1) =~= s@.take(it.index()).push(c));
    }
    assert(s@.take(s@.len() as int) =~= s@);
    v
}

/// The text made of the given characters.
pub fn string_of(v: &[char]) -> (s: String)
    ensures
        s@ == v@,
{
    let mut s = String::new();
    let mut i: usize = 0;
    while i < v.len()
        invariant
            i <= v.len(),
            s@ == v@.take(i as int),
        decreases v.len() - i,
    {
        s.push(v[i]);
        assert(v@.take(i + 1) =~= v@.take(i as int).push(v@[i as int]));
        i += 1;
    }
    assert(v@.take(v@.len() as int) =~= v@);
    s
}

/// Whether two texts hold the same characters.
pub fn str_eq(a: &str, b: &str) -> (r: bool)
    ensures
        r == (a@ == b@),
{
    let x = a.as_bytes();
    let y = b.as_bytes();
    proof {
        encode_utf8_decode_utf8(a@);
        encode_utf8_decode_utf8(b@);
    }
    if x.len() != y.len() {
        return false;
    }
    let mut i: usize = 0;
    while i < x.len()
        invariant
            i <= x.len(),
            x.len() == y.len(),
            x@ == encode_utf8(a@),
            y@ == encode_utf8(b@),
            forall|j: int| 0 <= j < i ==> x@[j] == y@[j],
        decreases x.len() - i,
    {
        if x[i] != y[i] {
            return false;
        }
        i += 1;
    }
    assert(x@ =~= y@);
    true
}

/// `c` with an ASCII capital turned into its small letter.
pub open spec fn ascii_lower(c: char) -> char {
    if 'A' <= c <= 'Z' {
        ((c as u32) + 32) as char
    } else {
        c
    }
}

/// `c` with an ASCII small letter turned into its capital.
pub open spec fn ascii_upper(c: char) -> char {
    if 'a' <= c <= 'z' {
        ((c as u32) - 32) as char
    } else {
        c
    }
}

/// `s` with every ASCII capital turned into its small letter.
pub open spec fn lowered(s: Seq<char>) -> Seq<char> {
    s.map_values(|c: char| ascii_lower(c))
}

/// Equality up to the case of ASCII letters.
pub open spec fn same_ci(a: Seq<char>, b: Seq<char>) -> bool {
    lowered(a) == lowered(b)
}

/// The small letter of an ASCII capital; any other character as it is.
pub fn lower_char(c: char) -> (r: char)
    ensures
        r == ascii_lower(c),
{
    if 'A' <= c && c <= 'Z' {
        ((c as u8) + 32) as char
    } else {
        c
    }
}

/// The capital of an ASCII small letter; any other character as it is.
pub fn upper_char(c: char) -> (r: char)
    ensures
        r == ascii_upper(c),
{
    if 'a' <= c && c <= 'z' {
        ((c as u8) - 32) as char
    } else {
        c
    }
}

/// The text with every ASCII capital turned into its small letter.
pub fn lower_text(s: &str) -> (r: String)
    ensures
        r@ == lowered(s@),
{
    let v = chars_of(s);
    let mut out = String::new();
    let mut i: usize = 0;
    while i < v.len()
        invariant
            i <= v.len(),
            v@ == s@,
            out@ =~= lowered(s@).take(i as int),
        decreases v.len() - i,
    {
        out.push(lower_char(v[i]));
        i += 1;
    }
    out
}

/// Whether two texts are equal up to the case of ASCII letters.
pub fn eq_ignore_case(a: &str, b: &str) -> (r: bool)
    ensures
        r == same_ci(a@, b@),
{
    let x = lower_text(a);
    let y = lower_text(b);
    str_eq(x.as_str(), y.as_str())
}

/// Where `c` occurs last in `s`; -1 where it does not.
pub open spec fn last_index(s: Seq<char>, c: char) -> int
    decreases s.len(),
{
    if s.len() == 0 {
        -1
    } else if s.last() == c {
        s.len() - 1
    } else {
        last_index(s.drop_last(), c)
    }
}

/// Where `c` occurs first in `s`; the length of `s` where it does not.
pub open spec fn first_index(s: Seq<char>, c: char) -> int
    decreases s.len(),
{
    if s.len() == 0 {
        0
    } else if s[0] == c {
        0
    } else {
        1 + first_index(s.drop_first(), c)
    }
}

/// What follows the last `c` of `s`; all of `s` where there is none.
pub open spec fn last_part(s: Seq<char>, c: char) -> Seq<char> {
    s.skip(last_index(s, c) + 1)
}

pub proof fn lemma_last_index(s: Seq<char>, c: char)
    ensures
        -1 <= last_index(s, c) < s.len(),
        last_index(s, c) >= 0 ==> s[last_index(s, c)] == c,
        forall|i: int| last_index(s, c) < i < s.len() ==> s[i] != c,
    decreases s.len(),
{
    if s.len() > 0 && s.last() != c {
        lemma_last_index(s.drop_last(), c);
        assert forall|i: int| last_index(s, c) < i < s.len() implies s[i] != c by {
            if i < s.len() - 1 {
                assert(s.drop_last()[i] == s[i]);
            }
        }
    }
}

pub proof fn lemma_last_index_is(s: Seq<char>, c: char, k: int)
    requires
        -1 <= k < s.len(),
        k >= 0 ==> s[k] == c,
        forall|i: int| k < i < s.len() ==> s[i] != c,
    ensures
        last_index(s, c) == k,
{
    lemma_last_index(s, c);
}

pub proof fn lemma_first_index(s: Seq<char>, c: char)
    ensures
        0 <= first_index(s, c) <= s.len(),
        first_index(s, c) < s.len() ==> s[first_index(s, c)] == c,
        forall|i: int| 0 <= i < first_index(s, c) ==> s[i] != c,
    decreases s.len(),
{
    if s.len() > 0 && s[0] != c {
        lemma_first_index(s.drop_first(), c);
        assert forall|i: int| 0 <= i < first_index(s, c) implies s[i] != c by {
            if i > 0 {
                assert(s.drop_first()[i - 1] == s[i]);
            }
        }
    }
}

pub proof fn lemma_first_index_is(s: Seq<char>, c: char, k: int)
    requires
        0 <= k <= s.len(),
        k < s.len() ==> s[k] == c,
        forall|i: int| 0 <= i < k ==> s[i] != c,
    ensures
        first_index(s, c) == k,
{
    lemma_first_index(s, c);
}

/// The position of the last `c`, if there is one.
pub fn find_last(v: &[char], c: char) -> (r: Option<usize>)
    ensures
        match r {
            Some(i) => i == last_index(v@, c),
            None => last_index(v@, c) == -1,
        },
        r matches Some(i) ==> i < v@.len(),
{
    let mut i: usize = v.len();
    while i > 0
        invariant
            i <= v.len(),
            forall|j: int| i <= j < v.len() ==> v@[j] != c,
        decreases i,
    {
        i -= 1;
        if v[i] == c {
            proof {
                lemma_last_index_is(v@, c, i as int);
            }
            return Some(i);
        }
    }
    proof {
        lemma_last_index_is(v@, c, -1);
    }
    None
}

/// The position of the first `c`, if there is one.
pub fn find_first(v: &[char], c: char) -> (r: Option<usize>)
    ensures
        match r {
            Some(i) => i == first_index(v@, c) && i < v@.len(),
            None => first_index(v@, c) == v@.len(),
        },
{
    let mut i: usize = 0;
    while i < v.len()
        invariant
            i <= v.len(),
            forall|j: int| 0 <= j < i ==> v@[j] != c,
        decreases v.len() - i,
    {
        if v[i] == c {
            proof {
                lemma_first_index_is(v@, c, i as int);
            }
            return Some(i);
        }
        i += 1;
    }
    proof {
        lemma_first_index_is(v@, c, v@.len() as int);
    }
    None
}

/// What follows the last `c`; the whole text where there is none.
pub fn last_segment(s: &str, c: char) -> (r: &str)
    ensures
        r@ == last_part(s@, c),
{
    let v = chars_of(s);
    let n = v.len();
    let r = match find_last(v.as_slice(), c) {
        Some(i) => s.substring_char(i + 1, n),
        None => s,
    };
    assert(r@ =~= last_part(s@, c));
    r
}

/// `s` without the backslashes at its end.
pub open spec fn trimmed(s: Seq<char>) -> Seq<char>
    decreases s.len(),
{
    if s.len() > 0 && s.last() == '\\' {
        trimmed(s.drop_last())
    } else {
        s
    }
}

/// `trimmed` takes nothing but backslashes, and leaves none at the end.
pub proof fn lemma_trimmed(s: Seq<char>)
    ensures
        trimmed(s).len() <= s.len(),
        trimmed(s) == s.take(trimmed(s).len() as int),
        forall|i: int| trimmed(s).len() <= i < s.len() ==> s[i] == '\\',
        trimmed(s).len() > 0 ==> trimmed(s).last() != '\\',
    decreases s.len(),
{
    if s.len() > 0 && s.last() == '\\' {
        let d = s.drop_last();
        lemma_trimmed(d);
        assert(s.take(trimmed(s).len() as int) =~= d.take(trimmed(d).len() as int));
        assert forall|i: int| trimmed(s).len() <= i < s.len() implies s[i] == '\\' by {
            if i < s.len() - 1 {
                assert(d[i] == s[i]);
            }
        }
    } else {
        assert(s.take(s.len() as int) =~= s);
    }
}

/// The text without the backslashes at its end.
pub fn trim_backslashes(s: &str) -> (r: &str)
    ensures
        r@ == trimmed(s@),
{
    let v = chars_of(s);
    let mut n: usize = v.len();
    assert(s@.take(n as int) =~= s@);
    while n > 0 && v[n - 1] == '\\'
        invariant
            n <= v.len(),
            v@ == s@,
            trimmed(s@) == trimmed(s@.take(n as int)),
        decreases n,
    {
        assert(s@.take(n as int).drop_last() =~= s@.take(n - 1));
        n -= 1;
    }
    s.substring_char(0, n)
}

/// Whether `p` begins `s`.
pub open spec fn begins(s: Seq<char>, p: Seq<char>) -> bool {
    p.len() <= s.len() && s.take(p.len() as int) == p
}

/// What follows the prefix, where the text has it.
pub fn strip_prefix<'a>(s: &'a str, p: &str) -> (r: Option<&'a str>)
    ensures
        match r {
            Some(rest) => begins(s@, p@) && rest@ == s@.skip(p@.len() as int),
            None => !begins(s@, p@),
        },
{
    let n = s.unicode_len();
    let k = p.unicode_len();
    if k > n {
        return None;
    }
    let head = s.substring_char(0, k);
    if str_eq(head, p) {
        let rest = s.substring_char(k, n);
        assert(rest@ =~= s@.skip(k as int));
        Some(rest)
    } else {
        None
    }
}

/// Whether the text has the prefix.
pub fn starts_with(s: &str, p: &str) -> (r: bool)
    ensures
        r == begins(s@, p@),
{
    strip_prefix(s, p).is_some()
}

/// Whether `p` occurs in `s` at position `i`.
pub open spec fn occurs_at(s: Seq<char>, p: Seq<char>, i: int) -> bool {
    0 <= i && i + p.len() <= s.len() && s.subrange(i, i + p.len()) == p
}

/// Whether `p` occurs in the text.
pub fn contains_text(s: &str, p: &str) -> (r: bool)
    ensures
        r == exists|i: int| occurs_at(s@, p@, i),
{
    let n = s.unicode_len();
    let k = p.unicode_len();
    if k > n {
        return false;
    }
    let mut i: usize = n - k;
    loop
        invariant
            i + k <= n,
            n == s@.len(),
            k == p@.len(),
            forall|j: int| i < j ==> !occurs_at(s@, p@, j),
        decreases i,
    {
        if str_eq(s.substring_char(i, i + k), p) {
            assert(occurs_at(s@, p@, i as int));
            return true;
        }
        if i == 0 {
            return false;
        }
        i -= 1;
    }
}

/// `s` without any `c`.
pub open spec fn without(s: Seq<char>, c: char) -> Seq<char> {
    s.filter(|x: char| x != c)
}

/// A character that was taken out is not there.
pub proof fn lemma_without(s: Seq<char>, c: char)
    ensures
        !without(s, c).contains(c),
    decreases s.len(),
{
    reveal(Seq::filter);
    if s.len() > 0 {
        lemma_without(s.drop_last(), c);
        let rest = without(s.drop_last(), c);
        let all = without(s, c);
        assert forall|i: int| 0 <= i < all.len() implies all[i] != c by {
            if i < rest.len() {
                assert(all[i] == rest[i]);
                assert(rest.contains(rest[i]));
            }
        }
    }
}

/// The text without any `c`.
pub fn remove_char(s: &str, c: char) -> (r: String)
    ensures
        r@ == without(s@, c),
{
    let v = chars_of(s);
    let mut out = String::new();
    let mut i: usize = 0;
    assert(without(v@.take(0), c) =~= Seq::empty()) by {
        reveal(Seq::filter);
    }
    while i < v.len()
        invariant
            i <= v.len(),
            out@ == without(v@.take(i as int), c),
        decreases v.len() - i,
    {
        proof {
            reveal(Seq::filter);
            assert(v@.take(i + 1).drop_last() =~= v@.take(i as int));
        }
        if v[i] != c {
            out.push(v[i]);
        }
        i += 1;
    }
    assert(v@.take(v@.len() as int) =~= v@);
    out
}

/// Whether `c` has the Unicode property White_Space.
pub open spec fn is_white(c: char) -> bool {
    let u = c as u32;
    ||| 0x09 <= u <= 0x0D
    ||| u == 0x20
    ||| u == 0x85
    ||| u == 0xA0
    ||| u == 0x1680
    ||| 0x2000 <= u <= 0x200A
    ||| u == 0x2028
    ||| u == 0x2029
    ||| u == 0x202F
    ||| u == 0x205F
    ||| u == 0x3000
}

/// Whether the character has the Unicode property White_Space.
pub fn is_whitespace(c: char) -> (r: bool)
    ensures
        r == is_white(c),
{
    let u: u32 = c as u32;
    (0x09 <= u && u <= 0x0D) || u == 0x20 || u == 0x85 || u == 0xA0 || u == 0x1680 || (0x2000 <= u
        && u <= 0x200A) || u == 0x2028 || u == 0x2029 || u == 0x202F || u == 0x205F || u == 0x3000
}

/// `s` without the white space it begins with.
pub open spec fn skip_white(s: Seq<char>) -> Seq<char>
    decreases s.len(),
{
    if s.len() > 0 && is_white(s[0]) {
        skip_white(s.drop_first())
    } else {
        s
    }
}

/// `s` without the white space it ends with.
pub open spec fn drop_white(s: Seq<char>) -> Seq<char>
    decreases s.len(),
{
    if s.len() > 0 && is_white(s.last()) {
        drop_white(s.drop_last())
    } else {
        s
    }
}

/// `s` without the white space at either end.
pub open spec fn stripped(s: Seq<char>) -> Seq<char> {
    drop_white(skip_white(s))
}

/// The text without the white space at either end.
pub fn trim(s: &str) -> (r: &str)
    ensures
        r@ == stripped(s@),
{
    let v = chars_of(s);
    let n: usize = v.len();
    let mut a: usize = 0;
    assert(s@.skip(0) =~= s@);
    while a < n && is_whitespace(v[a])
        invariant
            a <= n,
            n == v.len(),
            v@ == s@,
            skip_white(s@) == skip_white(s@.skip(a as int)),
        decreases n - a,
    {
        assert(s@.skip(a as int).drop_first() =~= s@.skip(a + 1));
        a += 1;
    }
    let mut b: usize = n;
    assert(s@.subrange(a as int, n as int) =~= s@.skip(a as int));
    while b > a && is_whitespace(v[b - 1])
        invariant
            a <= b <= n,
            n == v.len(),
            v@ == s@,
            stripped(s@) == drop_white(s@.subrange(a as int, b as int)),
        decreases b,
    {
        assert(s@.subrange(a as int, b as int).drop_last() =~= s@.subrange(a as int, b - 1));
        b -= 1;
    }
    s.substring_char(a, b)
}

/// A text of white space alone is stripped to nothing, and no other is.
pub proof fn law_blank_is_white_space(s: Seq<char>)
    ensures
        stripped(s).len() == 0 <==> forall|i: int| 0 <= i < s.len() ==> is_white(#[trigger] s[i]),
{
    lemma_skip_white(s);
    lemma_drop_white(skip_white(s));
    let k = s.len() - skip_white(s).len();
    if stripped(s).len() == 0 {
        assert forall|i: int| 0 <= i < s.len() implies is_white(#[trigger] s[i]) by {
            if i >= k {
                assert(s.skip(k)[i - k] == s[i]);
            }
        }
    } else {
        assert(!is_white(s[k]));
    }
}

proof fn lemma_skip_white(s: Seq<char>)
    ensures
        skip_white(s).len() <= s.len(),
        skip_white(s) == s.skip(s.len() - skip_white(s).len()),
        forall|i: int| 0 <= i < s.len() - skip_white(s).len() ==> is_white(#[trigger] s[i]),
        skip_white(s).len() > 0 ==> !is_white(skip_white(s)[0]),
    decreases s.len(),
{
    if s.len() > 0 && is_white(s[0]) {
        let d = s.drop_first();
        lemma_skip_white(d);
        assert(s.skip(s.len() - skip_white(s).len()) =~= d.skip(d.len() - skip_white(d).len()));
        assert forall|i: int| 0 <= i < s.len() - skip_white(s).len() implies is_white(
            #[trigger] s[i],
        ) by {
            if i > 0 {
                assert(d[i - 1] == s[i]);
            }
        }
    } else {
        assert(s.skip(0) =~= s);
    }
}

proof fn lemma_drop_white(s: Seq<char>)
    ensures
        drop_white(s).len() <= s.len(),
        drop_white(s).len() == 0 ==> forall|i: int|
            0 <= i < s.len() ==> is_white(#[trigger] s[i]),
        s.len() > 0 && !is_white(s[0]) ==> drop_white(s).len() > 0,
    decreases s.len(),
{
    if s.len() > 0 && is_white(s.last()) {
        let d = s.drop_last();
        lemma_drop_white(d);
        assert forall|i: int| drop_white(s).len() == 0 && 0 <= i < s.len() implies is_white(
            #[trigger] s[i],
        ) by {
            if i < d.len() {
                assert(d[i] == s[i]);
            }
        }
        if d.len() > 0 {
            assert(d[0] == s[0]);
        }
    }
}

/// The pieces of `s` between the occurrences of `c`.
pub open spec fn pieces(s: Seq<char>, c: char) -> Seq<Seq<char>>
    decreases s.len(),
    via pieces_shrink
{
    let k = first_index(s, c);
    if k < s.len() {
        seq![s.take(k)] + pieces(s.skip(k + 1), c)
    } else {
        seq![s]
    }
}

#[via_fn]
proof fn pieces_shrink(s: Seq<char>, c: char) {
    lemma_first_index(s, c);
}

/// The pieces of the text between the occurrences of `c`.
pub fn split(s: &str, c: char) -> (r: Vec<String>)
    ensures
        texts(r@) == pieces(s@, c),
{
    let v = chars_of(s);
    let n: usize = v.len();
    let mut out: Vec<String> = Vec::new();
    let mut a: usize = 0;
    assert(s@.skip(0) =~= s@);
    assert(texts(out@) + pieces(s@.skip(0), c) =~= pieces(s@, c));
    let mut i: usize = 0;
    while i < n
        invariant
            a <= i <= n,
            n == v.len(),
            v@ == s@,
            forall|j: int| a <= j < i ==> v@[j] != c,
            texts(out@) + pieces(s@.skip(a as int), c) == pieces(s@, c),
        decreases n - i,
    {
        if v[i] == c {
            let ghost tail = s@.skip(a as int);
            let ghost before = out@;
            proof {
                lemma_first_index_is(tail, c, i - a);
            }
            out.push(string_of(&v.as_slice()[a..i]));
            proof {
                assert(out@.last()@ =~= tail.take(i - a));
                assert(tail.skip(i - a + 1) =~= s@.skip(i + 1));
                assert(texts(out@) =~= texts(before) + seq![tail.take(i - a)]);
                assert(texts(out@) + pieces(s@.skip(i + 1), c) =~= texts(before) + pieces(tail, c));
            }
            a = i + 1;
        }
        i += 1;
    }
    let ghost tail = s@.skip(a as int);
    let ghost before = out@;
    proof {
        lemma_first_index_is(tail, c, n - a);
    }
    out.push(string_of(&v.as_slice()[a..n]));
    proof {
        assert(out@.last()@ =~= tail);
        assert(texts(out@) =~= texts(before) + seq![tail]);
    }
    out
}

/// A copy of an optional text.
pub fn copy_opt(o: &Option<String>) -> (r: Option<String>)
    ensures
        opt_view(r) == opt_view(*o),
{
    match o {
        Some(s) => Some(s.clone()),
        None => None,
    }
}

/// The text, where there is one that is not empty.
pub fn non_empty(o: Option<String>) -> (r: Option<String>)
    ensures
        opt_view(r) == filled(opt_view(o)),
{
    match o {
        Some(s) => if s.as_str().is_empty() {
            None
        } else {
            Some(s)
        },
        None => None,
    }
}

/// The text, where there is one that is not empty.
pub open spec fn filled(o: Option<Seq<char>>) -> Option<Seq<char>> {
    match o {
        Some(s) => if s.len() == 0 {
            None
        } else {
            Some(s)
        },
        None => None,
    }
}

/// The text, or the empty one where there is none.
pub open spec fn or_empty(o: Option<Seq<char>>) -> Seq<char> {
    match o {
        Some(s) => s,
        None => Seq::empty(),
    }
}

/// The text, or the empty one where there is none.
pub fn text_or_empty(o: Option<String>) -> (r: String)
    ensures
        r@ == or_empty(opt_view(o)),
{
    match o {
        Some(s) => s,
        None => String::new(),
    }
}

// ----- laws -----

/// Whether two characters are the same, or the two cases of one ASCII letter.
pub open spec fn alike(a: char, b: char) -> bool {
    ||| a == b
    ||| 65 <= a as u32 <= 90 && b as u32 == a as u32 + 32
    ||| 65 <= b as u32 <= 90 && a as u32 == b as u32 + 32
}

/// Folding to lower case and folding to upper case tell apart exactly the same characters, change
/// nothing but ASCII letters, and leave no letter of the other case.
pub proof fn law_case_folding(a: char, b: char)
    ensures
        ascii_lower(a) == ascii_lower(b) <==> alike(a, b),
        ascii_upper(a) == ascii_upper(b) <==> alike(a, b),
        alike(a, ascii_lower(a)) && !(65 <= ascii_lower(a) as u32 <= 90),
        alike(a, ascii_upper(a)) && !(97 <= ascii_upper(a) as u32 <= 122),
{
}

/// Two texts are the same up to case where they are so character by character.
pub proof fn law_same_up_to_case(a: Seq<char>, b: Seq<char>)
    ensures
        same_ci(a, b) <==> a.len() == b.len() && forall|i: int|
            0 <= i < a.len() ==> alike(#[trigger] a[i], b[i]),
{
    let la = lowered(a);
    let lb = lowered(b);
    if same_ci(a, b) {
        assert(la.len() == lb.len());
        assert forall|i: int| 0 <= i < a.len() implies alike(#[trigger] a[i], b[i]) by {
            assert(la[i] == lb[i]);
            law_case_folding(a[i], b[i]);
        }
    }
    if a.len() == b.len() && forall|i: int| 0 <= i < a.len() ==> alike(#[trigger] a[i], b[i]) {
        assert forall|i: int| 0 <= i < la.len() implies la[i] == lb[i] by {
            assert(alike(a[i], b[i]));
            law_case_folding(a[i], b[i]);
        }
        assert(la =~= lb);
    }
}

/// A lower-case text has the length of the text and is the same up to case, without capitals.
pub proof fn law_lowered(s: Seq<char>)
    ensures
        lowered(s).len() == s.len(),
        forall|i: int|
            0 <= i < s.len() ==> alike(s[i], #[trigger] lowered(s)[i]) && !(65 <= lowered(
                s,
            )[i] as u32 <= 90),
{
    assert forall|i: int| 0 <= i < s.len() implies alike(s[i], #[trigger] lowered(s)[i]) && !(65
        <= lowered(s)[i] as u32 <= 90) by {
        law_case_folding(s[i], s[i]);
    }
}

/// The last part of a text that was joined with a separator is what was joined last.
pub proof fn law_last_part(head: Seq<char>, c: char, tail: Seq<char>)
    requires
        !tail.contains(c),
    ensures
        last_part(head + seq![c] + tail, c) == tail,
        last_part(tail, c) == tail,
{
    let s = head + seq![c] + tail;
    assert forall|i: int| head.len() < i < s.len() implies s[i] != c by {
        assert(s[i] == tail[i - head.len() - 1]);
        assert(tail.contains(tail[i - head.len() - 1]));
    }
    lemma_last_index_is(s, c, head.len() as int);
    assert(last_part(s, c) =~= tail);
    assert forall|i: int| -1 < i < tail.len() implies tail[i] != c by {
        assert(tail.contains(tail[i]));
    }
    lemma_last_index_is(tail, c, -1);
    assert(last_part(tail, c) =~= tail);
}

/// Backslashes behind a text that does not end with one are all trimmed, and nothing else is.
pub proof fn law_trimmed(body: Seq<char>, tail: Seq<char>)
    requires
        body.len() > 0 ==> body.last() != '\\',
        forall|i: int| 0 <= i < tail.len() ==> tail[i] == '\\',
    ensures
        trimmed(body + tail) == body,
    decreases tail.len(),
{
    if tail.len() > 0 {
        let s = body + tail;
        assert(s.last() == tail.last());
        assert(s.drop_last() =~= body + tail.drop_last());
        law_trimmed(body, tail.drop_last());
    } else {
        assert(body + tail =~= body);
    }
}

/// A text begins with another exactly where it goes on from it, and has it inside exactly where it
/// goes on from what stands before it.
pub proof fn law_begins_and_occurs(a: Seq<char>, p: Seq<char>, b: Seq<char>)
    ensures
        begins(p + b, p),
        occurs_at(a + p + b, p, a.len() as int),
        forall|s: Seq<char>| #[trigger] begins(s, p) ==> s == p + s.skip(p.len() as int),
        forall|s: Seq<char>, i: int| #[trigger]
            occurs_at(s, p, i) ==> s == s.take(i) + p + s.skip(i + p.len()),
{
    assert((p + b).take(p.len() as int) =~= p);
    assert((a + p + b).subrange(a.len() as int, (a.len() + p.len()) as int) =~= p);
    assert forall|s: Seq<char>| #[trigger] begins(s, p) implies s == p + s.skip(
        p.len() as int,
    ) by {
        assert(s =~= s.take(p.len() as int) + s.skip(p.len() as int));
    }
    assert forall|s: Seq<char>, i: int| #[trigger] occurs_at(s, p, i) implies s == s.take(i) + p
        + s.skip(i + p.len()) by {
        assert(s =~= s.take(i) + s.subrange(i, i + p.len()) + s.skip(i + p.len()));
    }
}

/// A character that is taken out leaves the others in their order.
pub proof fn law_without(a: Seq<char>, x: char, c: char)
    ensures
        without(Seq::empty(), c) == Seq::<char>::empty(),
        without(a.push(x), c) == (if x == c {
            without(a, c)
        } else {
            without(a, c).push(x)
        }),
        !a.contains(c) ==> without(a, c) == a,
    decreases a.len(),
{
    reveal(Seq::filter);
    assert(a.push(x).drop_last() =~= a);
    if a.len() > 0 && !a.contains(c) {
        let d = a.drop_last();
        assert(!d.contains(c)) by {
            if d.contains(c) {
                let i = choose|i: int| 0 <= i < d.len() && d[i] == c;
                assert(a[i] == c);
            }
        }
        law_without(d, a.last(), c);
        assert(d.push(a.last()) =~= a);
        assert(a.contains(a.last()));
    } else if a.len() == 0 {
        assert(without(a, c) =~= a);
    }
}

/// White space is what Unicode counts as such.
pub proof fn law_white_space(c: char)
    ensures
        is_white(c) <==> set![
            0x9u32, 0xAu32, 0xBu32, 0xCu32, 0xDu32, 0x20u32, 0x85u32, 0xA0u32, 0x1680u32, 0x2000u32,
            0x2001u32, 0x2002u32, 0x2003u32, 0x2004u32, 0x2005u32, 0x2006u32, 0x2007u32, 0x2008u32,
            0x2009u32, 0x200Au32, 0x2028u32, 0x2029u32, 0x202Fu32, 0x205Fu32, 0x3000u32,
        ].contains(c as u32),
{
}

proof fn lemma_drop_white_tail(body: Seq<char>, tail: Seq<char>)
    requires
        body.len() > 0 ==> !is_white(body.last()),
        forall|i: int| 0 <= i < tail.len() ==> is_white(#[trigger] tail[i]),
    ensures
        drop_white(body + tail) == body,
    decreases tail.len(),
{
    if tail.len() > 0 {
        let s = body + tail;
        assert(s.last() == tail.last());
        assert(is_white(tail[tail.len() - 1]));
        assert(s.drop_last() =~= body + tail.drop_last());
        assert forall|i: int| 0 <= i < tail.drop_last().len() implies is_white(
            #[trigger] tail.drop_last()[i],
        ) by {
            assert(is_white(tail[i]));
        }
        lemma_drop_white_tail(body, tail.drop_last());
    } else {
        assert(body + tail =~= body);
    }
}

/// White space around a text that neither begins nor ends with any is stripped off, and nothing
/// else is.
pub proof fn law_stripped(head: Seq<char>, body: Seq<char>, tail: Seq<char>)
    requires
        body.len() > 0 ==> !is_white(body[0]) && !is_white(body.last()),
        body.len() == 0 ==> tail.len() == 0,
        forall|i: int| 0 <= i < head.len() ==> is_white(#[trigger] head[i]),
        forall|i: int| 0 <= i < tail.len() ==> is_white(#[trigger] tail[i]),
    ensures
        stripped(head + body + tail) == body,
    decreases head.len(),
{
    let s = head + body + tail;
    if head.len() > 0 {
        assert(is_white(head[0]));
        assert(s[0] == head[0]);
        assert(s.drop_first() =~= head.drop_first() + body + tail);
        assert forall|i: int| 0 <= i < head.drop_first().len() implies is_white(
            #[trigger] head.drop_first()[i],
        ) by {
            assert(is_white(head[i + 1]));
        }
        law_stripped(head.drop_first(), body, tail);
    } else {
        assert(s =~= body + tail);
        if body.len() > 0 {
            assert(s[0] == body[0]);
        }
        assert(skip_white(s) == s);
        lemma_drop_white_tail(body, tail);
    }
}

/// Splitting gives the first piece up to the first separator, and then the pieces of the rest.
pub proof fn law_pieces(first: Seq<char>, c: char, rest: Seq<char>)
    requires
        !first.contains(c),
    ensures
        pieces(first, c) == seq![first],
        pieces(first + seq![c] + rest, c) == seq![first] + pieces(rest, c),
{
    assert forall|i: int| 0 <= i < first.len() implies first[i] != c by {
        assert(first.contains(first[i]));
    }
    lemma_first_index_is(first, c, first.len() as int);
    let s = first + seq![c] + rest;
    assert forall|i: int| 0 <= i < first.len() implies s[i] != c by {
        assert(s[i] == first[i]);
    }
    lemma_first_index_is(s, c, first.len() as int);
    assert(s.take(first.len() as int) =~= first);
    assert(s.skip(first.len() as int + 1) =~= rest);
}

/// A text counts as missing exactly where it is missing or empty, and a missing text as empty.
pub proof fn law_missing_texts(o: Option<Seq<char>>)
    ensures
        filled(o) is Some <==> or_empty(o).len() > 0,
        filled(o) is Some ==> filled(o) == o,
        or_empty(filled(o)) == or_empty(o),
        o is Some ==> Some(or_empty(o)) == o,
{
    if filled(o) is None {
        assert(or_empty(o) =~= Seq::empty());
    }
}

} // verus!
