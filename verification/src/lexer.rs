//! Source text handling: comment stripping, whitespace splitting and number
//! recognition.

use vstd::prelude::*;
use crate::text::{chars_of, digit_char, extend_chars, string_from_chars, spec_decimal_int, spec_decimal_nat};

verus! {

broadcast use vstd::string::group_string_axioms;

/// Unicode `White_Space` characters (what `char::is_whitespace` accepts).
pub open spec fn is_ws(c: char) -> bool {
    let u = c as u32;
    ||| 9 <= u <= 13
    ||| u == 32
    ||| u == 0x85
    ||| u == 0xA0
    ||| u == 0x1680
    ||| 0x2000 <= u <= 0x200A
    ||| u == 0x2028
    ||| u == 0x2029
    ||| u == 0x202F
    ||| u == 0x205F
    ||| u == 0x3000
}

/// Whether `c` is whitespace in the Unicode sense.
pub fn is_whitespace(c: char) -> (b: bool)
    ensures
        b == is_ws(c),
{
    let u = c as u32;
    (9 <= u && u <= 13) || u == 32 || u == 0x85 || u == 0xA0 || u == 0x1680
        || (0x2000 <= u && u <= 0x200A) || u == 0x2028 || u == 0x2029 || u == 0x202F
        || u == 0x205F || u == 0x3000
}

// ---------------------------------------------------------------------------
// Comments
// ---------------------------------------------------------------------------

/// Index of the first backslash at or after `i`, or the length.
pub open spec fn backslash_from(s: Seq<char>, i: int) -> int
    decreases s.len() - i,
{
    if i >= s.len() {
        s.len() as int
    } else if s[i] == '\\' {
        i
    } else {
        backslash_from(s, i + 1)
    }
}

/// Whether, looking back from index `j` over whitespace, the first other
/// character is a `.`.
pub open spec fn dot_before(s: Seq<char>, j: int) -> bool
    decreases j + 1,
{
    if j < 0 {
        false
    } else if s[j] == '.' {
        true
    } else if is_ws(s[j]) {
        dot_before(s, j - 1)
    } else {
        false
    }
}

/// One step of the parenthesis scanner at index `i`, in a state (inside a
/// comment, inside `.( ... )`): the character kept, if any, and the next state.
pub open spec fn paren_step(s: Seq<char>, i: int, in_comment: bool, in_dot: bool)
    -> (Option<char>, bool, bool)
{
    let ch = s[i];
    if ch == '(' {
        if in_comment {
            (None, in_comment, in_dot)
        } else if dot_before(s, i - 1) {
            (Some(ch), in_comment, true)
        } else {
            (None, true, in_dot)
        }
    } else if ch == ')' {
        if in_comment {
            (None, false, in_dot)
        } else if in_dot {
            (Some(ch), in_comment, false)
        } else {
            (None, in_comment, in_dot)
        }
    } else if !in_comment {
        (Some(ch), in_comment, in_dot)
    } else {
        (None, in_comment, in_dot)
    }
}

/// Characters kept by the parenthesis scanner from index `i` on.
pub open spec fn paren_from(s: Seq<char>, i: int, in_comment: bool, in_dot: bool) -> Seq<char>
    decreases s.len() - i,
{
    if i < 0 || i >= s.len() {
        Seq::empty()
    } else {
        let (kept, c2, d2) = paren_step(s, i, in_comment, in_dot);
        let rest = paren_from(s, i + 1, c2, d2);
        match kept {
            Some(ch) => seq![ch] + rest,
            None => rest,
        }
    }
}

/// A line with its comments removed: everything from the first backslash on is
/// dropped, then `( ... )` comments are dropped, while `.( ... )` (a `(` whose
/// previous non-blank character is `.`) is kept with its closing parenthesis.
/// A `)` outside both is dropped.
pub open spec fn strip_spec(s: Seq<char>) -> Seq<char> {
    paren_from(s.subrange(0, backslash_from(s, 0)), 0, false, false)
}

proof fn lemma_backslash_from(s: Seq<char>, i: int)
    requires
        0 <= i <= s.len(),
    ensures
        i <= backslash_from(s, i) <= s.len(),
        backslash_from(s, i) < s.len() ==> s[backslash_from(s, i)] == '\\',
        forall|k: int| i <= k < backslash_from(s, i) ==> s[k] != '\\',
    decreases s.len() - i,
{
    if i < s.len() && s[i] != '\\' {
        lemma_backslash_from(s, i + 1);
    }
}

proof fn lemma_paren_from_no_backslash(s: Seq<char>, i: int, c: bool, d: bool)
    requires
        forall|k: int| 0 <= k < s.len() ==> s[k] != '\\',
    ensures
        forall|k: int| 0 <= k < paren_from(s, i, c, d).len() ==> paren_from(s, i, c, d)[k] != '\\',
    decreases s.len() - i,
{
    if 0 <= i < s.len() {
        let (kept, c2, d2) = paren_step(s, i, c, d);
        lemma_paren_from_no_backslash(s, i + 1, c2, d2);
        let rest = paren_from(s, i + 1, c2, d2);
        match kept {
            Some(ch) => {
                assert(ch == s[i]);
                assert forall|k: int| 0 <= k < paren_from(s, i, c, d).len()
                    implies paren_from(s, i, c, d)[k] != '\\' by {
                    if k > 0 {
                        assert(paren_from(s, i, c, d)[k] == rest[k - 1]);
                    }
                }
            },
            None => {},
        }
    }
}

/// The scanner state (inside a comment, inside `.( ... )`) after the first `n`
/// characters.
spec fn scan_state(s: Seq<char>, n: int) -> (bool, bool)
    decreases n,
{
    if n <= 0 {
        (false, false)
    } else {
        let (c, d) = scan_state(s, n - 1);
        let st = paren_step(s, n - 1, c, d);
        (st.1, st.2)
    }
}

/// The characters the scanner keeps from the first `n` characters.
spec fn kept_upto(s: Seq<char>, n: int) -> Seq<char>
    decreases n,
{
    if n <= 0 {
        Seq::empty()
    } else {
        let (c, d) = scan_state(s, n - 1);
        match paren_step(s, n - 1, c, d).0 {
            Some(ch) => kept_upto(s, n - 1).push(ch),
            None => kept_upto(s, n - 1),
        }
    }
}

proof fn lemma_paren_from_split(s: Seq<char>, i: int)
    requires
        0 <= i <= s.len(),
    ensures
        paren_from(s, 0, false, false)
            == kept_upto(s, i) + paren_from(s, i, scan_state(s, i).0, scan_state(s, i).1),
    decreases i,
{
    if i == 0 {
        assert(kept_upto(s, 0) + paren_from(s, 0, false, false) =~= paren_from(s, 0, false, false));
    } else {
        lemma_paren_from_split(s, i - 1);
        let (c, d) = scan_state(s, i - 1);
        let (kept, c2, d2) = paren_step(s, i - 1, c, d);
        let rest = paren_from(s, i, c2, d2);
        match kept {
            Some(ch) => {
                assert(kept_upto(s, i - 1) + (seq![ch] + rest) =~= kept_upto(s, i - 1).push(ch) + rest);
            },
            None => {},
        }
    }
}

proof fn lemma_kept_prefix(s: Seq<char>, n: int, m: int)
    requires
        0 <= n <= m,
    ensures
        kept_upto(s, n).len() <= kept_upto(s, m).len(),
        kept_upto(s, m).subrange(0, kept_upto(s, n).len() as int) == kept_upto(s, n),
    decreases m,
{
    if n == m {
        assert(kept_upto(s, m).subrange(0, kept_upto(s, m).len() as int) =~= kept_upto(s, m));
    } else {
        lemma_kept_prefix(s, n, m - 1);
        let p = kept_upto(s, m - 1);
        let k = kept_upto(s, n).len() as int;
        assert(kept_upto(s, m).subrange(0, k) =~= p.subrange(0, k));
    }
}

proof fn lemma_dot_before_prefix(s: Seq<char>, t: Seq<char>, j: int)
    requires
        j < s.len(),
        j < t.len(),
        forall|k: int| 0 <= k <= j ==> s[k] == t[k],
    ensures
        dot_before(s, j) == dot_before(t, j),
    decreases j + 1,
{
    if j >= 0 && s[j] != '.' && is_ws(s[j]) {
        lemma_dot_before_prefix(s, t, j - 1);
    }
}

/// A `.` followed by blanks, read outside a comment, is kept with its blanks.
proof fn lemma_dot_kept(s: Seq<char>, n: int)
    requires
        0 <= n <= s.len(),
        !scan_state(s, n).0,
        dot_before(s, n - 1),
    ensures
        dot_before(kept_upto(s, n), kept_upto(s, n).len() - 1),
    decreases n,
{
    let ch = s[n - 1];
    let (c, d) = scan_state(s, n - 1);
    assert(ch != '(' && ch != ')');
    let o = kept_upto(s, n);
    let p = kept_upto(s, n - 1);
    assert(o == p.push(ch));
    if ch != '.' {
        lemma_dot_kept(s, n - 1);
        lemma_dot_before_prefix(o, p, p.len() - 1);
    }
}

/// Scanning the kept characters again keeps each of them, in the same state.
proof fn lemma_restrip(s: Seq<char>, n: int)
    requires
        0 <= n <= s.len(),
    ensures
        ({
            let r = kept_upto(s, s.len() as int);
            let o = kept_upto(s, n);
            &&& o.len() <= r.len()
            &&& r.subrange(0, o.len() as int) == o
            &&& scan_state(r, o.len() as int) == (false, scan_state(s, n).1)
            &&& kept_upto(r, o.len() as int) == o
        }),
    decreases n,
{
    let r = kept_upto(s, s.len() as int);
    lemma_kept_prefix(s, n, s.len() as int);
    if n == 0 {
        assert(r.subrange(0, 0) =~= Seq::<char>::empty());
    } else {
        lemma_restrip(s, n - 1);
        let (c, d) = scan_state(s, n - 1);
        let st = paren_step(s, n - 1, c, d);
        let p = kept_upto(s, n - 1);
        let m = p.len() as int;
        match st.0 {
            Some(ch) => {
                let o = kept_upto(s, n);
                assert(o == p.push(ch));
                assert(r[m] == o[m]);
                assert(r[m] == ch);
                assert(!c);
                if ch == '(' {
                    lemma_dot_kept(s, n - 1);
                    if m > 0 {
                        assert forall|k: int| 0 <= k <= m - 1 implies p[k] == r[k] by {
                            assert(r.subrange(0, m)[k] == r[k]);
                        }
                        lemma_dot_before_prefix(p, r, m - 1);
                    }
                    assert(dot_before(r, m - 1));
                }
                assert(paren_step(r, m, false, d) == st);
            },
            None => {},
        }
    }
}

/// The characters the scanner keeps are kept again by a second scan.
proof fn lemma_paren_idempotent(s: Seq<char>)
    ensures
        paren_from(paren_from(s, 0, false, false), 0, false, false) == paren_from(s, 0, false, false),
{
    let n = s.len() as int;
    lemma_paren_from_split(s, n);
    let r = kept_upto(s, n);
    assert(paren_from(s, 0, false, false) =~= r);
    lemma_restrip(s, n);
    lemma_paren_from_split(r, r.len() as int);
    assert(paren_from(r, 0, false, false) =~= kept_upto(r, r.len() as int));
}

/// Stripping comments twice gives the same text as stripping once, and the
/// stripped text holds no backslash.
pub proof fn law_strip_idempotent(s: Seq<char>)
    ensures
        strip_spec(strip_spec(s)) == strip_spec(s),
        forall|k: int| 0 <= k < strip_spec(s).len() ==> strip_spec(s)[k] != '\\',
{
    lemma_backslash_from(s, 0);
    let line = s.subrange(0, backslash_from(s, 0));
    lemma_paren_from_no_backslash(line, 0, false, false);
    let r = strip_spec(s);
    lemma_backslash_from(r, 0);
    assert(backslash_from(r, 0) == r.len());
    assert(r.subrange(0, r.len() as int) =~= r);
    lemma_paren_idempotent(line);
}

fn dot_before_exec(s: &Vec<char>, i: usize) -> (b: bool)
    requires
        i <= s@.len(),
    ensures
        b == dot_before(s@, i - 1),
{
    if i == 0 {
        return false;
    }
    let mut j: usize = i - 1;
    loop
        invariant
            j < i <= s@.len(),
            dot_before(s@, i - 1) == dot_before(s@, j as int),
        decreases j,
    {
        if s[j] == '.' {
            return true;
        } else if is_whitespace(s[j]) {
            if j == 0 {
                assert(!dot_before(s@, -1));
                return false;
            }
            j = j - 1;
        } else {
            return false;
        }
    }
}

/// Remove `\` comments and `( ... )` comments from a line, keeping `.( ... )`.
pub fn strip_comments(input: &str) -> (r: String)
    ensures
        r@ == strip_spec(input@),
        forall|k: int| 0 <= k < r@.len() ==> r@[k] != '\\',
{
    let all = chars_of(input);
    proof { lemma_backslash_from(all@, 0); }
    let mut cut: usize = 0;
    while cut < all.len() && all[cut] != '\\'
        invariant
            cut <= all@.len(),
            backslash_from(all@, 0) == backslash_from(all@, cut as int),
        decreases all@.len() - cut,
    {
        cut = cut + 1;
    }
    let mut chars: Vec<char> = Vec::new();
    let mut k: usize = 0;
    while k < cut
        invariant
            cut <= all@.len(),
            k <= cut,
            chars@ == all@.subrange(0, k as int),
        decreases cut - k,
    {
        chars.push(all[k]);
        k = k + 1;
    }
    let ghost line = chars@;
    assert(line == input@.subrange(0, backslash_from(input@, 0)));
    let mut result: Vec<char> = Vec::new();
    let mut in_comment = false;
    let mut in_dot = false;
    let mut i: usize = 0;
    while i < chars.len()
        invariant
            i <= chars@.len(),
            chars@ == line,
            paren_from(line, 0, false, false) == result@ + paren_from(line, i as int, in_comment, in_dot),
        decreases chars@.len() - i,
    {
        let ch = chars[i];
        let ghost step = paren_step(line, i as int, in_comment, in_dot);
        if ch == '(' {
            if !in_comment {
                if dot_before_exec(&chars, i) {
                    in_dot = true;
                    result.push(ch);
                } else {
                    in_comment = true;
                }
            }
        } else if ch == ')' {
            if in_comment {
                in_comment = false;
            } else if in_dot {
                in_dot = false;
                result.push(ch);
            }
        } else if !in_comment {
            result.push(ch);
        }
        assert(in_comment == step.1 && in_dot == step.2);
        i = i + 1;
    }
    proof {
        lemma_backslash_from(input@, 0);
        lemma_paren_from_no_backslash(line, 0, false, false);
    }
    string_from_chars(&result)
}

// ---------------------------------------------------------------------------
// Splitting into tokens
// ---------------------------------------------------------------------------

/// First index at or after `i` that is whitespace, or the length.
pub open spec fn word_end(s: Seq<char>, i: int) -> int
    decreases s.len() - i,
{
    if i >= s.len() || is_ws(s[i]) {
        i
    } else {
        word_end(s, i + 1)
    }
}

/// The maximal runs of non-whitespace characters at or after `i`, in order.
pub open spec fn words_from(s: Seq<char>, i: int) -> Seq<Seq<char>>
    decreases s.len() - i,
{
    if i < 0 || i >= s.len() {
        Seq::empty()
    } else if is_ws(s[i]) {
        words_from(s, i + 1)
    } else {
        let k = word_end(s, i + 1);
        if i < k <= s.len() {
            seq![s.subrange(i, k)] + words_from(s, k)
        } else {
            Seq::empty()
        }
    }
}

/// The whitespace-separated words of a text (what `str::split_whitespace` yields).
pub open spec fn split_ws(s: Seq<char>) -> Seq<Seq<char>> {
    words_from(s, 0)
}

/// The views of a list of strings.
pub open spec fn strings_view(v: Seq<String>) -> Seq<Seq<char>> {
    v.map_values(|t: String| t@)
}

proof fn lemma_word_end(s: Seq<char>, i: int)
    requires
        0 <= i <= s.len(),
    ensures
        i <= word_end(s, i) <= s.len(),
        word_end(s, i) < s.len() ==> is_ws(s[word_end(s, i)]),
        forall|k: int| i <= k < word_end(s, i) ==> !is_ws(s[k]),
    decreases s.len() - i,
{
    if i < s.len() && !is_ws(s[i]) {
        lemma_word_end(s, i + 1);
    }
}

/// Split a text into its whitespace-separated words.
pub fn split_whitespace(text: &str) -> (v: Vec<String>)
    ensures
        strings_view(v@) == split_ws(text@),
{
    let s = chars_of(text);
    let ghost g = s@;
    let mut out: Vec<String> = Vec::new();
    let mut i: usize = 0;
    assert(strings_view(out@) =~= Seq::<Seq<char>>::empty());
    while i < s.len()
        invariant
            i <= g.len(),
            s@ == g,
            g == text@,
            split_ws(g) == strings_view(out@) + words_from(g, i as int),
        decreases g.len() - i,
    {
        if is_whitespace(s[i]) {
            i = i + 1;
        } else {
            let j = i;
            proof { lemma_word_end(g, j as int + 1); }
            let mut word: Vec<char> = Vec::new();
            word.push(s[i]);
            i = i + 1;
            assert(word@ =~= g.subrange(j as int, i as int));
            while i < s.len() && !is_whitespace(s[i])
                invariant
                    j < i <= g.len(),
                    s@ == g,
                    word@ == g.subrange(j as int, i as int),
                    word_end(g, j + 1) == word_end(g, i as int),
                decreases g.len() - i,
            {
                word.push(s[i]);
                i = i + 1;
                assert(word@ =~= g.subrange(j as int, i as int));
            }
            assert(word_end(g, j + 1) == i);
            let w = string_from_chars(&word);
            let ghost before = strings_view(out@);
            out.push(w);
            assert(strings_view(out@) =~= before.push(g.subrange(j as int, i as int)));
            assert(split_ws(g) =~= strings_view(out@) + words_from(g, i as int));
        }
    }
    assert(words_from(g, i as int) =~= Seq::<Seq<char>>::empty());
    assert(split_ws(g) =~= strings_view(out@));
    out
}

// ---------------------------------------------------------------------------
// Numbers
// ---------------------------------------------------------------------------

/// Whether `c` is an ASCII decimal digit.
pub open spec fn is_digit(c: char) -> bool {
    '0' <= c <= '9'
}

/// The value of a run of decimal digits.
pub open spec fn digits_value(s: Seq<char>) -> int
    decreases s.len(),
{
    if s.len() == 0 {
        0
    } else {
        digits_value(s.drop_last()) * 10 + ((s.last() as u32) - 48)
    }
}

/// Whether every character is a decimal digit and there is at least one.
pub open spec fn all_digits(s: Seq<char>) -> bool {
    s.len() > 0 && forall|k: int| 0 <= k < s.len() ==> is_digit(#[trigger] s[k])
}

/// What `str::parse::<i64>` gives: an optional sign (`+` or `-`) followed by one or
/// more decimal digits, with a value that fits in `i64`.
pub open spec fn parse_i64_spec(s: Seq<char>) -> Option<i64> {
    if s.len() > 0 && (s[0] == '-' || s[0] == '+') {
        let d = s.drop_first();
        let v = if s[0] == '-' { -digits_value(d) } else { digits_value(d) };
        if all_digits(d) && i64::MIN <= v <= i64::MAX { Some(v as i64) } else { None }
    } else {
        let v = digits_value(s);
        if all_digits(s) && v <= i64::MAX { Some(v as i64) } else { None }
    }
}

/// Parse a decimal integer the way `str::parse::<i64>` does.
pub fn parse_i64(t: &str) -> (r: Option<i64>)
    ensures
        r == parse_i64_spec(t@),
{
    let s = chars_of(t);
    let n = s.len();
    let mut start: usize = 0;
    let mut negative = false;
    if n > 0 && (s[0] == '-' || s[0] == '+') {
        negative = s[0] == '-';
        start = 1;
    }
    if start >= n {
        proof {
            if n > 0 {
                assert(!all_digits(s@.drop_first()));
            } else {
                assert(!all_digits(s@));
            }
        }
        return None;
    }
    let ghost d = s@.subrange(start as int, n as int);
    assert(start == 1 ==> d =~= s@.drop_first());
    assert(start == 0 ==> d =~= s@);
    // Magnitude accumulated in i128, bounded by 2^63 so it never overflows.
    let mut acc: i128 = 0;
    let mut k: usize = start;
    while k < n
        invariant
            start <= k <= n,
            n == s@.len(),
            d == s@.subrange(start as int, n as int),
            s@ == t@,
            start == 1 ==> d == s@.drop_first(),
            start == 0 ==> d == s@,
            (start == 1) == (n > 0 && (s@[0] == '-' || s@[0] == '+')),
            start <= 1,
            negative == (start == 1 && s@[0] == '-'),
            forall|j: int| start <= j < k ==> is_digit(#[trigger] s@[j]),
            acc == digits_value(s@.subrange(start as int, k as int)),
            0 <= acc <= 0x8000_0000_0000_0000,
        decreases n - k,
    {
        let c = s[k];
        if !('0' <= c && c <= '9') {
            assert(!is_digit(d[k - start]));
            return None;
        }
        let ghost prev = s@.subrange(start as int, k as int);
        assert(s@.subrange(start as int, k + 1).drop_last() =~= prev);
        let digit = (c as u32 - 48) as i128;
        let next = acc * 10 + digit;
        assert(next == digits_value(s@.subrange(start as int, k + 1)));
        if next > 0x8000_0000_0000_0000 {
            assert(d.subrange(0, (k + 1 - start) as int) =~= s@.subrange(start as int, k + 1));
            // Every later digit only makes the magnitude larger.
            proof {
                lemma_digits_prefix_bound(d, (k + 1 - start) as int);
            }
            return None;
        }
        acc = next;
        k = k + 1;
    }
    assert(s@.subrange(start as int, n as int) =~= d);
    assert(all_digits(d));
    if negative {
        Some((-acc) as i64)
    } else if acc > 0x7FFF_FFFF_FFFF_FFFF {
        None
    } else {
        Some(acc as i64)
    }
}

/// A digit string is at least as large as the value of any of its prefixes.
proof fn lemma_digits_prefix_bound(d: Seq<char>, p: int)
    requires
        0 <= p <= d.len(),
        forall|j: int| 0 <= j < p ==> is_digit(#[trigger] d[j]),
        digits_value(d.subrange(0, p)) > 0x8000_0000_0000_0000,
    ensures
        !all_digits(d) || digits_value(d) > 0x8000_0000_0000_0000,
    decreases d.len() - p,
{
    if p < d.len() && all_digits(d) {
        let q = d.subrange(0, p + 1);
        assert(q.drop_last() =~= d.subrange(0, p));
        assert(is_digit(d[p]));
        lemma_digits_prefix_bound(d, p + 1);
    } else if p == d.len() {
        assert(d.subrange(0, p) =~= d);
    }
}

// ---------------------------------------------------------------------------
// Source files
// ---------------------------------------------------------------------------

/// Index of the first `\n` at or after `i`, or the length.
pub open spec fn newline_from(s: Seq<char>, i: int) -> int
    decreases s.len() - i,
{
    if i < 0 || i >= s.len() {
        s.len() as int
    } else if s[i] == '\n' {
        i
    } else {
        newline_from(s, i + 1)
    }
}

/// The lines from index `i` on: the text split at `\n`, without a final empty line.
pub open spec fn lines_from(s: Seq<char>, i: int) -> Seq<Seq<char>>
    decreases s.len() - i,
{
    if i < 0 || i >= s.len() {
        Seq::empty()
    } else {
        let j = newline_from(s, i);
        if i <= j < s.len() {
            seq![s.subrange(i, j)] + lines_from(s, j + 1)
        } else if j == s.len() {
            seq![s.subrange(i, j)]
        } else {
            Seq::empty()
        }
    }
}

/// First index at or after `i` that is not whitespace, or the length.
pub open spec fn lead_end(s: Seq<char>, i: int) -> int
    decreases s.len() - i,
{
    if i < 0 || i >= s.len() || !is_ws(s[i]) {
        i
    } else {
        lead_end(s, i + 1)
    }
}

/// The end of `s.subrange(0, j)` once trailing whitespace is dropped.
pub open spec fn trail_end(s: Seq<char>, j: int) -> int
    decreases j,
{
    if j <= 0 || j > s.len() {
        0
    } else if is_ws(s[j - 1]) {
        trail_end(s, j - 1)
    } else {
        j
    }
}

/// A text without its leading and trailing whitespace (what `str::trim` gives).
pub open spec fn trim_spec(s: Seq<char>) -> Seq<char> {
    let a = lead_end(s, 0);
    let b = trail_end(s, s.len() as int);
    if 0 <= a < b <= s.len() { s.subrange(a, b) } else { Seq::empty() }
}

/// Each line trimmed and stripped of comments, followed by a space.
pub open spec fn joined_lines(lines: Seq<Seq<char>>) -> Seq<char>
    decreases lines.len(),
{
    if lines.len() == 0 {
        Seq::empty()
    } else {
        joined_lines(lines.drop_last()) + strip_spec(trim_spec(lines.last())) + seq![' ']
    }
}

/// The text of a source file as one line: every line trimmed and stripped of its
/// comments, joined with spaces.
pub open spec fn file_text(s: Seq<char>) -> Seq<char> {
    joined_lines(lines_from(s, 0))
}

proof fn lemma_newline_from(s: Seq<char>, i: int)
    requires
        0 <= i <= s.len(),
    ensures
        i <= newline_from(s, i) <= s.len(),
        newline_from(s, i) < s.len() ==> s[newline_from(s, i)] == '\n',
        forall|k: int| i <= k < newline_from(s, i) ==> s[k] != '\n',
    decreases s.len() - i,
{
    if i < s.len() && s[i] != '\n' {
        lemma_newline_from(s, i + 1);
    }
}

proof fn lemma_lead_end(s: Seq<char>, i: int)
    requires
        0 <= i <= s.len(),
    ensures
        i <= lead_end(s, i) <= s.len(),
    decreases s.len() - i,
{
    if i < s.len() && is_ws(s[i]) {
        lemma_lead_end(s, i + 1);
    }
}

proof fn lemma_trail_end(s: Seq<char>, j: int)
    requires
        0 <= j <= s.len(),
    ensures
        0 <= trail_end(s, j) <= j,
    decreases j,
{
    if j > 0 && is_ws(s[j - 1]) {
        lemma_trail_end(s, j - 1);
    }
}

/// Remove leading and trailing whitespace.
pub fn trim_chars(s: &Vec<char>) -> (r: Vec<char>)
    ensures
        r@ == trim_spec(s@),
{
    let n = s.len();
    let mut a: usize = 0;
    proof { lemma_lead_end(s@, 0); }
    while a < n && is_whitespace(s[a])
        invariant
            a <= n,
            n == s@.len(),
            lead_end(s@, 0) == lead_end(s@, a as int),
        decreases n - a,
    {
        a = a + 1;
    }
    let mut b: usize = n;
    proof { lemma_trail_end(s@, n as int); }
    while b > 0 && is_whitespace(s[b - 1])
        invariant
            b <= n,
            n == s@.len(),
            trail_end(s@, n as int) == trail_end(s@, b as int),
        decreases b,
    {
        b = b - 1;
    }
    let mut r: Vec<char> = Vec::new();
    if a < b {
        let mut k = a;
        while k < b
            invariant
                a <= k <= b,
                b <= n,
                n == s@.len(),
                r@ == s@.subrange(a as int, k as int),
            decreases b - k,
        {
            r.push(s[k]);
            k = k + 1;
        }
    } else {
        assert(r@ =~= Seq::<char>::empty());
    }
    r
}

/// Turn the contents of a source file into one line of Forth: every line is
/// trimmed and stripped of comments, and the lines are joined with spaces.
pub fn process_source(content: &str) -> (r: String)
    ensures
        r@ == file_text(content@),
{
    let s = chars_of(content);
    let ghost g = s@;
    let n = s.len();
    let mut out: Vec<char> = Vec::new();
    let mut i: usize = 0;
    let ghost mut done: Seq<Seq<char>> = Seq::empty();
    while i < n
        invariant
            i <= n,
            n == g.len(),
            s@ == g,
            g == content@,
            lines_from(g, 0) == done + lines_from(g, i as int),
            out@ == joined_lines(done),
        decreases n - i,
    {
        proof { lemma_newline_from(g, i as int); }
        let mut line: Vec<char> = Vec::new();
        let mut j = i;
        while j < n && s[j] != '\n'
            invariant
                i <= j <= n,
                n == g.len(),
                s@ == g,
                newline_from(g, i as int) == newline_from(g, j as int),
                line@ == g.subrange(i as int, j as int),
            decreases n - j,
        {
            line.push(s[j]);
            j = j + 1;
        }
        assert(newline_from(g, i as int) == j);
        let ghost this = g.subrange(i as int, j as int);
        let trimmed = trim_chars(&line);
        let text = string_from_chars(&trimmed);
        let stripped = strip_comments(text.as_str());
        let more = chars_of(stripped.as_str());
        extend_chars(&mut out, &more);
        out.push(' ');
        proof {
            let nd = done.push(this);
            assert(nd.drop_last() =~= done);
            if j < n {
                assert(lines_from(g, i as int) == seq![this] + lines_from(g, j + 1));
                assert(done + (seq![this] + lines_from(g, j + 1)) =~= nd + lines_from(g, j + 1));
            } else {
                assert(lines_from(g, i as int) == seq![this]);
                assert(lines_from(g, j as int) =~= Seq::<Seq<char>>::empty());
                assert(done + seq![this] =~= nd + lines_from(g, j as int));
            }
            done = nd;
        }
        if j < n {
            i = j + 1;
        } else {
            i = j;
        }
    }
    assert(lines_from(g, i as int) =~= Seq::<Seq<char>>::empty());
    assert(done + Seq::<Seq<char>>::empty() =~= done);
    string_from_chars(&out)
}

// ---------------------------------------------------------------------------
// Laws
// ---------------------------------------------------------------------------

proof fn lemma_decimal_nat_digits(n: nat)
    ensures
        all_digits(spec_decimal_nat(n)),
        digits_value(spec_decimal_nat(n)) == n,
    decreases n,
{
    let s = spec_decimal_nat(n);
    if n < 10 {
        assert(s.drop_last() =~= Seq::<char>::empty());
        assert((digit_char(n) as u32) == 48 + n);
        assert(s.last() == digit_char(n));
        assert(digits_value(s) == digits_value(s.drop_last()) * 10 + ((s.last() as u32) - 48));
        assert(digits_value(Seq::<char>::empty()) == 0);
        assert(is_digit(s[0]));
    } else {
        lemma_decimal_nat_digits(n / 10);
        let p = spec_decimal_nat(n / 10);
        assert(s.drop_last() =~= p);
        assert((digit_char(n % 10) as u32) == 48 + n % 10);
        assert(n == (n / 10) * 10 + n % 10);
        assert(s.last() == digit_char(n % 10));
        assert(digits_value(s) == digits_value(s.drop_last()) * 10 + ((s.last() as u32) - 48));
        assert forall|k: int| 0 <= k < s.len() implies is_digit(#[trigger] s[k]) by {
            if k < p.len() {
                assert(s[k] == p[k]);
            }
        }
    }
}

/// What `.` prints for a number (its decimal text) parses back to the same number.
pub proof fn law_number_roundtrip(v: i64)
    ensures
        parse_i64_spec(spec_decimal_int(v as int)) == Some(v),
{
    if v < 0 {
        let m = (-(v as int)) as nat;
        lemma_decimal_nat_digits(m);
        let s = spec_decimal_int(v as int);
        assert(s.drop_first() =~= spec_decimal_nat(m));
    } else {
        lemma_decimal_nat_digits(v as nat);
        let s = spec_decimal_nat(v as nat);
        assert(is_digit(s[0]));
    }
}

/// The words from `i` on are not empty and hold no whitespace.
pub open spec fn proper_words(ws: Seq<Seq<char>>) -> bool {
    forall|w: int| #![trigger ws[w]] 0 <= w < ws.len() ==> ws[w].len() > 0
        && forall|k: int| 0 <= k < ws[w].len() ==> !is_ws(ws[w][k])
}

proof fn lemma_words_from(s: Seq<char>, i: int)
    requires
        0 <= i,
    ensures
        proper_words(words_from(s, i)),
    decreases s.len() - i,
{
    if i < s.len() {
        if is_ws(s[i]) {
            lemma_words_from(s, i + 1);
            assert(words_from(s, i) == words_from(s, i + 1));
        } else {
            let k = word_end(s, i + 1);
            lemma_word_end(s, i + 1);
            lemma_words_from(s, k);
            let ws = words_from(s, i);
            let rest = words_from(s, k);
            assert(ws == seq![s.subrange(i, k)] + rest);
            assert forall|w: int| #![trigger ws[w]] 0 <= w < ws.len() implies ws[w].len() > 0
                && forall|c: int| 0 <= c < ws[w].len() ==> !is_ws(ws[w][c]) by {
                if w > 0 {
                    assert(ws[w] == rest[w - 1]);
                } else {
                    assert(ws[0] == s.subrange(i, k));
                    assert forall|c: int| 0 <= c < ws[0].len() implies !is_ws(ws[0][c]) by {
                        assert(ws[0][c] == s[i + c]);
                    }
                }
            }
        }
    } else {
        assert(words_from(s, i).len() == 0);
    }
}

/// Splitting on whitespace gives words that are not empty and hold no whitespace.
pub proof fn law_split_words(s: Seq<char>)
    ensures
        proper_words(split_ws(s)),
{
    lemma_words_from(s, 0);
}

} // verus!
