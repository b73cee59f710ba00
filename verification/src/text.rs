//! Character-level helpers: decimal formatting, conversions between `str`,
//! `String` and character vectors, and case folding.

use vstd::prelude::*;
use vstd::std_specs::iter::IteratorSpec;

verus! {

broadcast use vstd::string::group_string_axioms;

/// The ASCII digit for `d` (0..=9).
pub open spec fn digit_char(d: nat) -> char {
    (48 + d) as char
}

/// Decimal digits of a natural number, most significant first, without leading zeros.
pub open spec fn spec_decimal_nat(n: nat) -> Seq<char>
    decreases n,
{
    if n < 10 {
        seq![digit_char(n)]
    } else {
        spec_decimal_nat(n / 10).push(digit_char(n % 10))
    }
}

/// Decimal text of an integer: a leading `-` for negative numbers.
pub open spec fn spec_decimal_int(v: int) -> Seq<char> {
    if v < 0 {
        seq!['-'] + spec_decimal_nat((-v) as nat)
    } else {
        spec_decimal_nat(v as nat)
    }
}

fn digit(d: u64) -> (c: char)
    requires
        d < 10,
    ensures
        c == digit_char(d as nat),
{
    let b: u8 = 48u8 + (d as u8);
    b as char
}

/// Decimal digits of `n`.
pub fn decimal_u64(n: u64) -> (v: Vec<char>)
    ensures
        v@ == spec_decimal_nat(n as nat),
    decreases n,
{
    if n < 10 {
        let mut v: Vec<char> = Vec::new();
        v.push(digit(n));
        v
    } else {
        let mut v = decimal_u64(n / 10);
        v.push(digit(n % 10));
        v
    }
}

/// Decimal text of `v`, with a leading `-` when negative.
pub fn decimal_i64(v: i64) -> (s: Vec<char>)
    ensures
        s@ == spec_decimal_int(v as int),
{
    if v < 0 {
        let mag: u64 = (-(v as i128)) as u64;
        let digits = decimal_u64(mag);
        let mut s: Vec<char> = Vec::new();
        s.push('-');
        let mut k: usize = 0;
        while k < digits.len()
            invariant
                k <= digits@.len(),
                s@ == seq!['-'] + digits@.subrange(0, k as int),
            decreases digits@.len() - k,
        {
            s.push(digits[k]);
            k = k + 1;
        }
        assert(digits@.subrange(0, digits@.len() as int) =~= digits@);
        s
    } else {
        decimal_u64(v as u64)
    }
}

/// Append all of `src` to `dst`.
pub fn extend_chars(dst: &mut Vec<char>, src: &Vec<char>)
    ensures
        final(dst)@ == old(dst)@ + src@,
{
    let mut k: usize = 0;
    while k < src.len()
        invariant
            k <= src@.len(),
            dst@ == old(dst)@ + src@.subrange(0, k as int),
        decreases src@.len() - k,
    {
        dst.push(src[k]);
        k = k + 1;
    }
    assert(src@.subrange(0, src@.len() as int) =~= src@);
}

/// The characters of `s`.
pub fn chars_of(s: &str) -> (v: Vec<char>)
    ensures
        v@ == s@,
{
    let mut it = s.chars();
    let mut v: Vec<char> = Vec::new();
    loop
        invariant_except_break
            v@ + it.remaining() == s@,
            it.decrease() is Some,
        ensures
            v@ == s@,
        decreases it.decrease()->0,
    {
        let ghost before = it.remaining();
        match it.next() {
            Some(c) => {
                v.push(c);
                assert(v@ + it.remaining() =~= s@) by {
                    assert(before.drop_first() == it.remaining());
                    assert(v@ + it.remaining() =~= (v@.drop_last() + before));
                }
            },
            None => {
                assert(before.len() == 0);
                assert(v@ =~= s@);
                break;
            },
        }
    }
    v
}

/// Build a `String` from its characters.
///
/// Trusted: calls `FromIterator<&char> for String` (via `collect`), which the
/// standard library documents as concatenating the characters in order.
#[verifier::external_body]
pub(crate) fn string_from_chars(v: &Vec<char>) -> (s: String)
    ensures
        s@ == v@,
{
    v.iter().collect()
}

/// The result of `str::to_uppercase` on a character sequence: the full Unicode
/// upper-case mapping.
pub uninterp spec fn spec_to_uppercase(s: Seq<char>) -> Seq<char>;

/// Whether every character is ASCII.
pub open spec fn ascii_text(s: Seq<char>) -> bool {
    forall|k: int| 0 <= k < s.len() ==> (#[trigger] s[k] as u32) < 128
}

/// The upper case of an ASCII character: `a`..`z` become `A`..`Z`, every other
/// character stays.
pub open spec fn ascii_upper(c: char) -> char {
    if 97 <= (c as u32) <= 122 { ((c as u32) - 32) as char } else { c }
}

/// Upper-case a string.
///
/// Trusted: calls `str::to_uppercase`. The result is named by `spec_to_uppercase`;
/// for ASCII text the contract also states the mapping (each of `a`..`z` becomes
/// its capital, every other character is kept). The Unicode case tables for other
/// characters are not stated.
#[verifier::external_body]
pub(crate) fn to_uppercase(s: &str) -> (r: String)
    ensures
        r@ == spec_to_uppercase(s@),
        ascii_text(s@) ==> r@ == s@.map_values(|c: char| ascii_upper(c)),
{
    s.to_uppercase()
}

/// Whether two string slices hold the same characters.
pub fn str_eq(a: &str, b: &str) -> (r: bool)
    ensures
        r == (a@ == b@),
{
    let x = chars_of(a);
    let y = chars_of(b);
    if x.len() != y.len() {
        return false;
    }
    let mut k: usize = 0;
    while k < x.len()
        invariant
            x@ == a@,
            y@ == b@,
            x@.len() == y@.len(),
            k <= x@.len(),
            forall|j: int| 0 <= j < k ==> x@[j] == y@[j],
        decreases x@.len() - k,
    {
        if x[k] != y[k] {
            return false;
        }
        k = k + 1;
    }
    assert(x@ =~= y@);
    true
}

/// Whether `u` is a Unicode scalar value.
pub open spec fn is_scalar(u: u32) -> bool {
    u < 0xD800 || (0xE000 <= u && u <= 0x10FFFF)
}

/// The character with code `u`, if `u` is a Unicode scalar value.
///
/// Trusted: calls `char::from_u32`, documented to return `None` exactly for
/// surrogates and values above `0x10FFFF`.
#[verifier::external_body]
pub(crate) fn char_from_u32(u: u32) -> (r: Option<char>)
    ensures
        r == (if is_scalar(u) { Some(u as char) } else { None::<char> }),
{
    char::from_u32(u)
}

/// The UTF-8 encoding of one character.
pub open spec fn utf8_char(c: char) -> Seq<u8> {
    let u = c as u32;
    if u < 0x80 {
        seq![u as u8]
    } else if u < 0x800 {
        seq![(0xC0 + u / 64) as u8, (0x80 + u % 64) as u8]
    } else if u < 0x10000 {
        seq![(0xE0 + u / 4096) as u8, (0x80 + (u / 64) % 64) as u8, (0x80 + u % 64) as u8]
    } else {
        seq![(0xF0 + u / 262144) as u8, (0x80 + (u / 4096) % 64) as u8, (0x80 + (u / 64) % 64) as u8,
            (0x80 + u % 64) as u8]
    }
}

/// The UTF-8 encoding of a text (what `str::as_bytes` gives).
pub open spec fn utf8_encode(s: Seq<char>) -> Seq<u8>
    decreases s.len(),
{
    if s.len() == 0 {
        Seq::empty()
    } else {
        utf8_encode(s.drop_last()) + utf8_char(s.last())
    }
}

/// The bytes of `s` in UTF-8.
pub fn utf8_bytes(s: &str) -> (b: Vec<u8>)
    ensures
        b@ == utf8_encode(s@),
{
    let cs = chars_of(s);
    let mut b: Vec<u8> = Vec::new();
    let mut k: usize = 0;
    while k < cs.len()
        invariant
            k <= cs@.len(),
            cs@ == s@,
            b@ == utf8_encode(cs@.subrange(0, k as int)),
        decreases cs@.len() - k,
    {
        let c = cs[k];
        let u = c as u32;
        if u < 0x80 {
            b.push(u as u8);
        } else if u < 0x800 {
            b.push((0xC0 + u / 64) as u8);
            b.push((0x80 + u % 64) as u8);
        } else if u < 0x10000 {
            b.push((0xE0 + u / 4096) as u8);
            b.push((0x80 + (u / 64) % 64) as u8);
            b.push((0x80 + u % 64) as u8);
        } else {
            b.push((0xF0 + u / 262144) as u8);
            b.push((0x80 + (u / 4096) % 64) as u8);
            b.push((0x80 + (u / 64) % 64) as u8);
            b.push((0x80 + u % 64) as u8);
        }
        assert(cs@.subrange(0, k + 1).drop_last() =~= cs@.subrange(0, k as int));
        assert(b@ =~= utf8_encode(cs@.subrange(0, k + 1)));
        k = k + 1;
    }
    assert(cs@.subrange(0, cs@.len() as int) =~= cs@);
    b
}

/// The text whose UTF-8 encoding is `b`, or `None` when there is none (the bytes
/// are not valid UTF-8). The encoding is one-to-one (`lemma_encode_injective`), so
/// the text is unique.
pub open spec fn utf8_decode(b: Seq<u8>) -> Option<Seq<char>> {
    if exists|s: Seq<char>| #[trigger] utf8_encode(s) == b {
        Some(choose|s: Seq<char>| #[trigger] utf8_encode(s) == b)
    } else {
        None
    }
}

proof fn lemma_encode_first(s: Seq<char>)
    requires
        s.len() > 0,
    ensures
        utf8_encode(s) == utf8_char(s[0]) + utf8_encode(s.drop_first()),
    decreases s.len(),
{
    if s.len() == 1 {
        assert(s.drop_last() =~= Seq::<char>::empty());
        assert(s.drop_first() =~= Seq::<char>::empty());
        assert(utf8_encode(s) =~= utf8_char(s[0]) + utf8_encode(s.drop_first()));
    } else {
        let p = s.drop_last();
        lemma_encode_first(p);
        assert(p.drop_first() =~= s.drop_first().drop_last());
        assert(s.drop_first().last() == s.last());
        assert(p[0] == s[0]);
        assert(utf8_encode(s) =~= utf8_char(s[0]) + utf8_encode(s.drop_first()));
    }
}

proof fn lemma_char_lead(c: char)
    ensures
        1 <= utf8_char(c).len() <= 4,
        utf8_char(c).len() == 1 <==> utf8_char(c)[0] < 0x80,
        utf8_char(c).len() == 2 <==> 0xC0 <= utf8_char(c)[0] < 0xE0,
        utf8_char(c).len() == 3 <==> 0xE0 <= utf8_char(c)[0] < 0xF0,
        utf8_char(c).len() == 4 <==> 0xF0 <= utf8_char(c)[0],
{
    let u = c as u32;
    assert(u <= 0x10FFFF);
}

proof fn lemma_char_injective(c1: char, c2: char)
    requires
        utf8_char(c1) == utf8_char(c2),
    ensures
        c1 == c2,
{
    let u = c1 as u32;
    let v = c2 as u32;
    let e = utf8_char(c1);
    lemma_char_lead(c1);
    lemma_char_lead(c2);
    assert(u <= 0x10FFFF && v <= 0x10FFFF);
    if e.len() == 1 {
        assert(u == v);
    } else if e.len() == 2 {
        assert(u / 64 == v / 64 && u % 64 == v % 64);
        assert(u == v) by (bit_vector)
            requires u / 64 == v / 64 && u % 64 == v % 64;
    } else if e.len() == 3 {
        assert(u / 4096 == v / 4096 && (u / 64) % 64 == (v / 64) % 64 && u % 64 == v % 64);
        assert(u == v) by (bit_vector)
            requires u / 4096 == v / 4096 && (u / 64) % 64 == (v / 64) % 64 && u % 64 == v % 64;
    } else {
        assert(u / 262144 == v / 262144 && (u / 4096) % 64 == (v / 4096) % 64
            && (u / 64) % 64 == (v / 64) % 64 && u % 64 == v % 64);
        assert(u == v) by (bit_vector)
            requires u / 262144 == v / 262144 && (u / 4096) % 64 == (v / 4096) % 64
                && (u / 64) % 64 == (v / 64) % 64 && u % 64 == v % 64;
    }
}

/// Different texts have different UTF-8 encodings.
pub proof fn lemma_encode_injective(s1: Seq<char>, s2: Seq<char>)
    requires
        utf8_encode(s1) == utf8_encode(s2),
    ensures
        s1 == s2,
    decreases s1.len(),
{
    if s1.len() > 0 {
        lemma_encode_first(s1);
        lemma_char_lead(s1[0]);
    }
    if s2.len() > 0 {
        lemma_encode_first(s2);
        lemma_char_lead(s2[0]);
    }
    if s1.len() > 0 && s2.len() > 0 {
        let b = utf8_encode(s1);
        let e1 = utf8_char(s1[0]);
        let e2 = utf8_char(s2[0]);
        assert(b[0] == e1[0]);
        assert(b[0] == e2[0]);
        assert(e1.len() == e2.len());
        let n = e1.len() as int;
        assert(b.subrange(0, n) =~= e1);
        assert(b.subrange(0, n) =~= e2);
        lemma_char_injective(s1[0], s2[0]);
        assert(b.subrange(n, b.len() as int) =~= utf8_encode(s1.drop_first()));
        assert(b.subrange(n, b.len() as int) =~= utf8_encode(s2.drop_first()));
        lemma_encode_injective(s1.drop_first(), s2.drop_first());
        assert(s1.len() == s2.len());
        assert forall|k: int| 0 <= k < s1.len() implies s1[k] == s2[k] by {
            if k > 0 {
                assert(s1[k] == s1.drop_first()[k - 1]);
                assert(s2[k] == s2.drop_first()[k - 1]);
            }
        }
        assert(s1 =~= s2);
    } else {
        assert(s1.len() == 0 && s2.len() == 0);
        assert(s1 =~= s2);
    }
}

/// Decoding the encoding of a text gives the text back.
pub proof fn lemma_decode_encode(t: Seq<char>)
    ensures
        utf8_decode(utf8_encode(t)) == Some(t),
{
    let b = utf8_encode(t);
    assert(exists|s: Seq<char>| #[trigger] utf8_encode(s) == b);
    let s = choose|s: Seq<char>| #[trigger] utf8_encode(s) == b;
    lemma_encode_injective(s, t);
}

/// The text of the error `String::from_utf8` reports for invalid bytes.
pub uninterp spec fn spec_utf8_error(b: Seq<u8>) -> Seq<char>;

/// Decode UTF-8 bytes into a `String`, or describe why they are not UTF-8.
///
/// Trusted: calls `String::from_utf8`; an error is turned into its `Display`
/// text. The contract states that a decoded text has `b` as its UTF-8 encoding,
/// and that an error comes exactly when no text has (the bytes are not valid
/// UTF-8). The error text is named by `spec_utf8_error`; its wording is not
/// stated.
#[verifier::external_body]
fn from_utf8_text(b: Vec<u8>) -> (r: Result<String, String>)
    ensures
        r is Ok ==> utf8_encode(r->Ok_0@) == b@,
        r is Err ==> utf8_decode(b@) is None && r->Err_0@ == spec_utf8_error(b@),
{
    match String::from_utf8(b) {
        Ok(t) => Ok(t),
        Err(e) => Err(format!("{}", e)),
    }
}

/// Decode UTF-8 bytes into a `String`, or describe why they are not UTF-8.
pub fn decode_utf8(b: Vec<u8>) -> (r: Result<String, String>)
    ensures
        r is Ok ==> utf8_decode(b@) == Some(r->Ok_0@),
        r is Err ==> utf8_decode(b@) is None && r->Err_0@ == spec_utf8_error(b@),
{
    let r = from_utf8_text(b);
    proof {
        if r is Ok {
            lemma_decode_encode(r->Ok_0@);
        }
    }
    r
}

} // verus!
