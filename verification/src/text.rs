//! Character-level text helpers shared by the parser, the canonical form of
//! parameters and the signature: character classes, lexicographic order on
//! character sequences, and decimal rendering of integers.

use vstd::prelude::*;
use vstd::relations::total_ordering;

verus! {

/// A word character of the explicit intent syntax: ASCII letter, digit or
/// underscore.
pub open spec fn is_word_char(c: char) -> bool {
    (97 <= c as u32 && c as u32 <= 122)  // a-z
    || (65 <= c as u32 && c as u32 <= 90)  // A-Z
    || (48 <= c as u32 && c as u32 <= 57)  // 0-9
    || c == '_'
}

/// Executable test for [`is_word_char`].
pub fn word_char(c: char) -> (r: bool)
    ensures
        r == is_word_char(c),
{
    let n = c as u32;
    (97 <= n && n <= 122) || (65 <= n && n <= 90) || (48 <= n && n <= 57) || c == '_'
}

/// A white-space character, following the Unicode `White_Space` property
/// that `str::trim` goes by.
pub open spec fn is_space_char(c: char) -> bool {
    c == ' ' || c == '\t' || c == '\n' || c == '\r' || c as u32 == 0x0b || c as u32 == 0x0c
        || c as u32 == 0x85 || c as u32 == 0xa0 || c as u32 == 0x1680 || (0x2000 <= c as u32
        && c as u32 <= 0x200a) || c as u32 == 0x2028 || c as u32 == 0x2029 || c as u32 == 0x202f
        || c as u32 == 0x205f || c as u32 == 0x3000
}

/// Executable test for [`is_space_char`].
pub fn space_char(c: char) -> (r: bool)
    ensures
        r == is_space_char(c),
{
    let n = c as u32;
    n == 0x20 || n == 0x09 || n == 0x0a || n == 0x0d || n == 0x0b || n == 0x0c || n == 0x85
        || n == 0xa0 || n == 0x1680 || (0x2000 <= n && n <= 0x200a) || n == 0x2028 || n == 0x2029
        || n == 0x202f || n == 0x205f || n == 0x3000
}

/// A sequence is blank when every character is white space.
pub open spec fn is_blank(s: Seq<char>) -> bool {
    forall|i: int| 0 <= i < s.len() ==> is_space_char(#[trigger] s[i])
}

/// True iff every character of `s` is white space, so that `s` holds no
/// usable input.
pub fn blank(s: &Vec<char>) -> (r: bool)
    ensures
        r == is_blank(s@),
{
    let mut i: usize = 0;
    while i < s.len()
        invariant
            0 <= i <= s@.len(),
            forall|j: int| 0 <= j < i ==> is_space_char(#[trigger] s@[j]),
        decreases s@.len() - i,
    {
        if !space_char(s[i]) {
            return false;
        }
        i = i + 1;
    }
    true
}

/// Lexicographic order on character sequences by code point; matches the
/// byte order of the UTF-8 encodings, which is the order `sort` on strings
/// goes by.
pub open spec fn lex_leq(a: Seq<char>, b: Seq<char>) -> bool
    decreases a.len(),
{
    if a.len() == 0 {
        true
    } else if b.len() == 0 {
        false
    } else if a[0] == b[0] {
        lex_leq(a.skip(1), b.skip(1))
    } else {
        (a[0] as u32) < (b[0] as u32)
    }
}

pub proof fn lemma_lex_refl(a: Seq<char>)
    ensures
        lex_leq(a, a),
    decreases a.len(),
{
    if a.len() > 0 {
        lemma_lex_refl(a.skip(1));
    }
}

pub proof fn lemma_lex_connected(a: Seq<char>, b: Seq<char>)
    ensures
        lex_leq(a, b) || lex_leq(b, a),
    decreases a.len(),
{
    if a.len() > 0 && b.len() > 0 {
        if a[0] == b[0] {
            lemma_lex_connected(a.skip(1), b.skip(1));
        } else {
            assert((a[0] as u32) != (b[0] as u32)) by {
                vstd::utf8::char_u32_cast(a[0], a[0] as u32);
                vstd::utf8::char_u32_cast(b[0], b[0] as u32);
            }
        }
    }
}

pub proof fn lemma_lex_antisym(a: Seq<char>, b: Seq<char>)
    requires
        lex_leq(a, b),
        lex_leq(b, a),
    ensures
        a == b,
    decreases a.len(),
{
    if a.len() == 0 {
        assert(b.len() == 0);
        assert(a =~= b);
    } else {
        assert(b.len() > 0);
        assert(a[0] == b[0]);
        lemma_lex_antisym(a.skip(1), b.skip(1));
        assert(a =~= seq![a[0]] + a.skip(1));
        assert(b =~= seq![b[0]] + b.skip(1));
    }
}

pub proof fn lemma_lex_trans(a: Seq<char>, b: Seq<char>, c: Seq<char>)
    requires
        lex_leq(a, b),
        lex_leq(b, c),
    ensures
        lex_leq(a, c),
    decreases a.len(),
{
    if a.len() > 0 && b.len() > 0 && c.len() > 0 && a[0] == b[0] && b[0] == c[0] {
        lemma_lex_trans(a.skip(1), b.skip(1), c.skip(1));
    }
}

/// [`lex_leq`] as a binary relation value.
pub open spec fn lex_leq_rel() -> spec_fn(Seq<char>, Seq<char>) -> bool {
    |a: Seq<char>, b: Seq<char>| lex_leq(a, b)
}

/// [`lex_leq`] is a total ordering, so sorting by it is well defined and a
/// sorted sequence is determined by its multiset of elements.
pub proof fn lemma_lex_total_ordering()
    ensures
        total_ordering(lex_leq_rel()),
{
    let r = lex_leq_rel();
    assert forall|a: Seq<char>| #[trigger] r(a, a) by {
        lemma_lex_refl(a);
    }
    assert forall|a: Seq<char>, b: Seq<char>| #[trigger] r(a, b) && #[trigger] r(b, a) implies a
        == b by {
        lemma_lex_antisym(a, b);
    }
    assert forall|a: Seq<char>, b: Seq<char>, c: Seq<char>|
        #[trigger] r(a, b) && #[trigger] r(b, c) implies r(a, c) by {
        lemma_lex_trans(a, b, c);
    }
    assert forall|a: Seq<char>, b: Seq<char>| #[trigger] r(a, b) || #[trigger] r(b, a) by {
        lemma_lex_connected(a, b);
    }
}

/// Executable comparison deciding [`lex_leq`].
pub fn chars_leq(a: &Vec<char>, b: &Vec<char>) -> (r: bool)
    ensures
        r == lex_leq(a@, b@),
{
    let mut i: usize = 0;
    proof {
        assert(a@.skip(0) =~= a@);
        assert(b@.skip(0) =~= b@);
    }
    loop
        invariant
            0 <= i <= a@.len(),
            i <= b@.len(),
            lex_leq(a@, b@) == lex_leq(a@.skip(i as int), b@.skip(i as int)),
        decreases a@.len() - i,
    {
        if i == a.len() {
            return true;
        }
        if i == b.len() {
            return false;
        }
        let ca = a[i];
        let cb = b[i];
        proof {
            assert(a@.skip(i as int)[0] == a@[i as int]);
            assert(b@.skip(i as int)[0] == b@[i as int]);
            assert(a@.skip(i as int).skip(1) =~= a@.skip(i + 1));
            assert(b@.skip(i as int).skip(1) =~= b@.skip(i + 1));
        }
        if ca != cb {
            return (ca as u32) < (cb as u32);
        }
        i = i + 1;
    }
}

/// The character for one decimal digit.
pub open spec fn digit_char(d: nat) -> char {
    if d == 0 {
        '0'
    } else if d == 1 {
        '1'
    } else if d == 2 {
        '2'
    } else if d == 3 {
        '3'
    } else if d == 4 {
        '4'
    } else if d == 5 {
        '5'
    } else if d == 6 {
        '6'
    } else if d == 7 {
        '7'
    } else if d == 8 {
        '8'
    } else {
        '9'
    }
}

/// The decimal rendering of a natural number, most significant digit first.
pub open spec fn dec_chars(n: nat) -> Seq<char>
    decreases n,
{
    if n < 10 {
        seq![digit_char(n)]
    } else {
        dec_chars(n / 10) + seq![digit_char(n % 10)]
    }
}

/// The decimal rendering of an integer: a leading `-` for negative values.
pub open spec fn dec_chars_int(i: int) -> Seq<char> {
    if i < 0 {
        seq!['-'] + dec_chars((-i) as nat)
    } else {
        dec_chars(i as nat)
    }
}

proof fn lemma_dec_chars_len(n: nat)
    ensures
        dec_chars(n).len() >= 1,
        n < 10 <==> dec_chars(n).len() == 1,
        dec_chars(n)[0] != '-',
    decreases n,
{
    if n >= 10 {
        lemma_dec_chars_len(n / 10);
    }
}

proof fn lemma_digit_char_inj(a: nat, b: nat)
    requires
        a < 10,
        b < 10,
        digit_char(a) == digit_char(b),
    ensures
        a == b,
{
}

/// Distinct natural numbers render to distinct decimal strings.
pub proof fn lemma_dec_chars_inj(a: nat, b: nat)
    requires
        dec_chars(a) == dec_chars(b),
    ensures
        a == b,
    decreases a,
{
    lemma_dec_chars_len(a);
    lemma_dec_chars_len(b);
    if a < 10 && b < 10 {
        assert(dec_chars(a)[0] == digit_char(a));
        assert(dec_chars(b)[0] == digit_char(b));
        lemma_digit_char_inj(a, b);
    } else if a >= 10 && b >= 10 {
        let sa = dec_chars(a / 10);
        let sb = dec_chars(b / 10);
        assert(dec_chars(a).len() == sa.len() + 1);
        assert(dec_chars(b).len() == sb.len() + 1);
        assert(sa.len() == sb.len());
        assert(sa =~= sb) by {
            assert forall|i: int| 0 <= i < sa.len() implies sa[i] == sb[i] by {
                assert(dec_chars(a)[i] == sa[i]);
                assert(dec_chars(b)[i] == sb[i]);
            }
        }
        lemma_dec_chars_inj(a / 10, b / 10);
        let la = dec_chars(a).len() as int;
        assert(dec_chars(a)[la - 1] == digit_char(a % 10));
        assert(dec_chars(b)[la - 1] == digit_char(b % 10));
        lemma_digit_char_inj(a % 10, b % 10);
    } else {
        assert(dec_chars(a).len() != dec_chars(b).len());
    }
}

/// One decimal digit as a character.
fn digit_to_char(d: u64) -> (c: char)
    requires
        d < 10,
    ensures
        c == digit_char(d as nat),
{
    if d == 0 {
        '0'
    } else if d == 1 {
        '1'
    } else if d == 2 {
        '2'
    } else if d == 3 {
        '3'
    } else if d == 4 {
        '4'
    } else if d == 5 {
        '5'
    } else if d == 6 {
        '6'
    } else if d == 7 {
        '7'
    } else if d == 8 {
        '8'
    } else {
        '9'
    }
}

/// Decimal rendering of a `u64`.
pub fn u64_dec(n: u64) -> (r: Vec<char>)
    ensures
        r@ == dec_chars(n as nat),
    decreases n,
{
    if n < 10 {
        let mut v: Vec<char> = Vec::new();
        v.push(digit_to_char(n));
        proof {
            assert(v@ =~= dec_chars(n as nat));
        }
        v
    } else {
        let mut v = u64_dec(n / 10);
        v.push(digit_to_char(n % 10));
        proof {
            assert(v@ =~= dec_chars(n as nat));
        }
        v
    }
}

/// Decimal rendering of an `i64`, with a leading `-` when negative.
pub fn i64_dec(i: i64) -> (r: Vec<char>)
    ensures
        r@ == dec_chars_int(i as int),
{
    if i >= 0 {
        u64_dec(i as u64)
    } else {
        let wide: i128 = i as i128;
        let mag: u64 = (-wide) as u64;
        let digits = u64_dec(mag);
        let mut v: Vec<char> = Vec::new();
        v.push('-');
        let mut k: usize = 0;
        while k < digits.len()
            invariant
                0 <= k <= digits@.len(),
                v@ =~= seq!['-'] + digits@.subrange(0, k as int),
            decreases digits@.len() - k,
        {
            v.push(digits[k]);
            proof {
                assert(v@ =~= seq!['-'] + digits@.subrange(0, k + 1));
            }
            k = k + 1;
        }
        proof {
            assert(digits@.subrange(0, digits@.len() as int) =~= digits@);
        }
        v
    }
}

/// Append every character of `src` to `dst`.
pub fn push_all(dst: &mut Vec<char>, src: &Vec<char>)
    ensures
        final(dst)@ == old(dst)@ + src@,
{
    let mut k: usize = 0;
    while k < src.len()
        invariant
            0 <= k <= src@.len(),
            dst@ =~= old(dst)@ + src@.subrange(0, k as int),
        decreases src@.len() - k,
    {
        dst.push(src[k]);
        proof {
            assert(dst@ =~= old(dst)@ + src@.subrange(0, k + 1));
        }
        k = k + 1;
    }
    proof {
        assert(src@.subrange(0, src@.len() as int) =~= src@);
        assert(dst@ =~= old(dst)@ + src@);
    }
}

/// Executable equality of character sequences.
pub fn chars_eq(a: &Vec<char>, b: &Vec<char>) -> (r: bool)
    ensures
        r == (a@ == b@),
{
    if a.len() != b.len() {
        proof {
            assert(a@ != b@);
        }
        return false;
    }
    let mut i: usize = 0;
    while i < a.len()
        invariant
            0 <= i <= a@.len(),
            a@.len() == b@.len(),
            forall|j: int| 0 <= j < i ==> a@[j] == #[trigger] b@[j],
        decreases a@.len() - i,
    {
        if a[i] != b[i] {
            return false;
        }
        i = i + 1;
    }
    proof {
        assert(a@ =~= b@);
    }
    true
}

/// The characters of `s` from `from` on.
pub fn tail_of(s: &Vec<char>, from: usize) -> (r: Vec<char>)
    requires
        from <= s@.len(),
    ensures
        r@ == s@.skip(from as int),
{
    let mut out: Vec<char> = Vec::new();
    let mut k: usize = from;
    while k < s.len()
        invariant
            from <= k <= s@.len(),
            out@ == s@.subrange(from as int, k as int),
        decreases s@.len() - k,
    {
        out.push(s[k]);
        proof {
            assert(out@ =~= s@.subrange(from as int, k + 1));
        }
        k = k + 1;
    }
    proof {
        assert(s@.subrange(from as int, s@.len() as int) =~= s@.skip(from as int));
    }
    out
}

/// Executable equality of two string slices, by characters.
pub fn str_eq(a: &str, b: &str) -> (r: bool)
    ensures
        r == (a@ == b@),
{
    let av = str_chars(a);
    let bv = str_chars(b);
    chars_eq(&av, &bv)
}

/// Relies on `str::chars` of std: the characters of a string slice, in
/// order.
#[verifier::external_body]
pub(crate) fn str_chars(s: &str) -> (r: Vec<char>)
    ensures
        r@ == s@,
{
    s.chars().collect()
}

/// Relies on `FromIterator<char> for String` of std: collecting characters
/// builds the string of exactly those characters.
#[verifier::external_body]
pub(crate) fn chars_string(v: &Vec<char>) -> (r: String)
    ensures
        r@ == v@,
{
    v.iter().collect()
}

} // verus!
