//! Parsing a list of tokens into an AST.

use vstd::prelude::*;
use crate::ast::{AstNode, SAst, view_node, view_list, lemma_view_list, opt_view};
use crate::dictionary::{Dictionary, DictView, AWord, Word};
use crate::lexer::{parse_i64, parse_i64_spec};
use crate::text::{chars_of, extend_chars, spec_to_uppercase, str_eq, string_from_chars, to_uppercase};

verus! {

broadcast use vstd::string::group_string_axioms;

/// The character views of a list of tokens.
pub open spec fn toks_view(t: Seq<&str>) -> Seq<Seq<char>> {
    t.map_values(|x: &str| x@)
}

/// How the parser treats an (upper-cased) token.
#[derive(PartialEq, Eq, Structural, Clone, Copy)]
pub enum Keyword {
    Recurse,
    DotQuote,
    DotParen,
    SQuote,
    Begin,
    Do,
    QuestionDo,
    If,
    ThenElse,
    Leave,
    Exit,
    Unloop,
    Inline,
    Other,
}

/// The keyword an upper-cased token stands for.
pub open spec fn keyword(up: Seq<char>) -> Keyword {
    if up == "RECURSE"@ {
        Keyword::Recurse
    } else if up == ".\""@ {
        Keyword::DotQuote
    } else if up == ".("@ {
        Keyword::DotParen
    } else if up == "S\""@ {
        Keyword::SQuote
    } else if up == "BEGIN"@ {
        Keyword::Begin
    } else if up == "DO"@ {
        Keyword::Do
    } else if up == "?DO"@ {
        Keyword::QuestionDo
    } else if up == "IF"@ {
        Keyword::If
    } else if up == "THEN"@ || up == "ELSE"@ {
        Keyword::ThenElse
    } else if up == "LEAVE"@ {
        Keyword::Leave
    } else if up == "EXIT"@ {
        Keyword::Exit
    } else if up == "UNLOOP"@ {
        Keyword::Unloop
    } else if up == "INLINE"@ {
        Keyword::Inline
    } else {
        Keyword::Other
    }
}

fn classify(up: &str) -> (k: Keyword)
    ensures
        k == keyword(up@),
{
    if str_eq(up, "RECURSE") {
        Keyword::Recurse
    } else if str_eq(up, ".\"") {
        Keyword::DotQuote
    } else if str_eq(up, ".(") {
        Keyword::DotParen
    } else if str_eq(up, "S\"") {
        Keyword::SQuote
    } else if str_eq(up, "BEGIN") {
        Keyword::Begin
    } else if str_eq(up, "DO") {
        Keyword::Do
    } else if str_eq(up, "?DO") {
        Keyword::QuestionDo
    } else if str_eq(up, "IF") {
        Keyword::If
    } else if str_eq(up, "THEN") || str_eq(up, "ELSE") {
        Keyword::ThenElse
    } else if str_eq(up, "LEAVE") {
        Keyword::Leave
    } else if str_eq(up, "EXIT") {
        Keyword::Exit
    } else if str_eq(up, "UNLOOP") {
        Keyword::Unloop
    } else if str_eq(up, "INLINE") {
        Keyword::Inline
    } else {
        Keyword::Other
    }
}

/// Whether a token ends with `c`.
pub open spec fn ends_with(t: Seq<char>, c: char) -> bool {
    t.len() > 0 && t.last() == c
}

fn ends_with_exec(t: &str, c: char) -> (b: bool)
    ensures
        b == ends_with(t@, c),
{
    let cs = chars_of(t);
    cs.len() > 0 && cs[cs.len() - 1] == c
}

/// Whether a token opens a printed string (`.(` or `."`), which the block scanners
/// skip over.
pub open spec fn opens_string(t: Seq<char>) -> bool {
    t == ".("@ || t == ".\""@
}

/// Whether a token closes a skipped string.
pub open spec fn closes_string(t: Seq<char>) -> bool {
    ends_with(t, ')') || ends_with(t, '"')
}

fn opens_string_exec(t: &str) -> (b: bool)
    ensures
        b == opens_string(t@),
{
    str_eq(t, ".(") || str_eq(t, ".\"")
}

fn closes_string_exec(t: &str) -> (b: bool)
    ensures
        b == closes_string(t@),
{
    ends_with_exec(t, ')') || ends_with_exec(t, '"')
}

// ---------------------------------------------------------------------------
// Block scanners
// ---------------------------------------------------------------------------

/// Scan for the THEN that closes an IF, from index `j` up to `hi`: its index and
/// the index of the first ELSE at the same depth.
pub open spec fn scan_then(t: Seq<Seq<char>>, j: int, hi: int, depth: nat, else_pos: Option<int>,
    in_str: bool) -> Option<(int, Option<int>)>
    decreases hi - j,
{
    if j < 0 || j >= hi || j >= t.len() {
        None
    } else if opens_string(t[j]) {
        scan_then(t, j + 1, hi, depth, else_pos, true)
    } else if in_str {
        scan_then(t, j + 1, hi, depth, else_pos, !closes_string(t[j]))
    } else {
        let up = spec_to_uppercase(t[j]);
        if up == "IF"@ {
            scan_then(t, j + 1, hi, depth + 1, else_pos, false)
        } else if up == "ELSE"@ {
            scan_then(t, j + 1, hi, depth,
                if depth == 0 && else_pos is None { Some(j) } else { else_pos }, false)
        } else if up == "THEN"@ {
            if depth == 0 {
                Some((j, else_pos))
            } else {
                scan_then(t, j + 1, hi, (depth - 1) as nat, else_pos, false)
            }
        } else {
            scan_then(t, j + 1, hi, depth, else_pos, false)
        }
    }
}

/// Scan for the UNTIL or REPEAT that closes a BEGIN: its index and, for REPEAT,
/// the index of the first WHILE at the same depth.
pub open spec fn scan_begin(t: Seq<Seq<char>>, j: int, hi: int, depth: nat, while_pos: Option<int>,
    in_str: bool) -> Option<(int, Option<int>)>
    decreases hi - j,
{
    if j < 0 || j >= hi || j >= t.len() {
        None
    } else if opens_string(t[j]) {
        scan_begin(t, j + 1, hi, depth, while_pos, true)
    } else if in_str {
        scan_begin(t, j + 1, hi, depth, while_pos, !closes_string(t[j]))
    } else {
        let up = spec_to_uppercase(t[j]);
        if up == "BEGIN"@ {
            scan_begin(t, j + 1, hi, depth + 1, while_pos, false)
        } else if up == "WHILE"@ {
            scan_begin(t, j + 1, hi, depth,
                if depth == 0 && while_pos is None { Some(j) } else { while_pos }, false)
        } else if up == "UNTIL"@ {
            if depth == 0 {
                Some((j, None))
            } else {
                scan_begin(t, j + 1, hi, (depth - 1) as nat, while_pos, false)
            }
        } else if up == "REPEAT"@ {
            if depth == 0 {
                Some((j, while_pos))
            } else {
                scan_begin(t, j + 1, hi, (depth - 1) as nat, while_pos, false)
            }
        } else {
            scan_begin(t, j + 1, hi, depth, while_pos, false)
        }
    }
}

/// Scan for the LOOP or +LOOP that closes a DO or ?DO.
pub open spec fn scan_do(t: Seq<Seq<char>>, j: int, hi: int, depth: nat, in_str: bool) -> Option<int>
    decreases hi - j,
{
    if j < 0 || j >= hi || j >= t.len() {
        None
    } else if opens_string(t[j]) {
        scan_do(t, j + 1, hi, depth, true)
    } else if in_str {
        scan_do(t, j + 1, hi, depth, !closes_string(t[j]))
    } else {
        let up = spec_to_uppercase(t[j]);
        if up == "DO"@ || up == "?DO"@ {
            scan_do(t, j + 1, hi, depth + 1, false)
        } else if up == "LOOP"@ || up == "+LOOP"@ {
            if depth == 0 {
                Some(j)
            } else {
                scan_do(t, j + 1, hi, (depth - 1) as nat, false)
            }
        } else {
            scan_do(t, j + 1, hi, depth, false)
        }
    }
}

proof fn lemma_scan_then(t: Seq<Seq<char>>, j: int, hi: int, depth: nat, e: Option<int>, s: bool)
    requires
        0 <= j,
        hi <= t.len(),
        e matches Some(p) ==> 0 <= p < j,
    ensures
        scan_then(t, j, hi, depth, e, s) matches Some((p, q)) ==> j <= p < hi && (q matches Some(w)
            ==> (e == q || j <= w) && w < p),
    decreases hi - j,
{
    if 0 <= j < hi {
        let up = spec_to_uppercase(t[j]);
        if opens_string(t[j]) {
            lemma_scan_then(t, j + 1, hi, depth, e, true);
        } else if s {
            lemma_scan_then(t, j + 1, hi, depth, e, !closes_string(t[j]));
        } else if up == "IF"@ {
            lemma_scan_then(t, j + 1, hi, depth + 1, e, false);
        } else if up == "ELSE"@ {
            lemma_scan_then(t, j + 1, hi, depth, if depth == 0 && e is None { Some(j) } else { e }, false);
        } else if up == "THEN"@ {
            if depth > 0 {
                lemma_scan_then(t, j + 1, hi, (depth - 1) as nat, e, false);
            }
        } else {
            lemma_scan_then(t, j + 1, hi, depth, e, false);
        }
    }
}

proof fn lemma_scan_begin(t: Seq<Seq<char>>, j: int, hi: int, depth: nat, w: Option<int>, s: bool)
    requires
        0 <= j,
        hi <= t.len(),
        w matches Some(p) ==> 0 <= p < j,
    ensures
        scan_begin(t, j, hi, depth, w, s) matches Some((p, q)) ==> j <= p < hi && (q matches Some(x)
            ==> (w == q || j <= x) && x < p),
    decreases hi - j,
{
    if 0 <= j < hi {
        let up = spec_to_uppercase(t[j]);
        if opens_string(t[j]) {
            lemma_scan_begin(t, j + 1, hi, depth, w, true);
        } else if s {
            lemma_scan_begin(t, j + 1, hi, depth, w, !closes_string(t[j]));
        } else if up == "BEGIN"@ {
            lemma_scan_begin(t, j + 1, hi, depth + 1, w, false);
        } else if up == "WHILE"@ {
            lemma_scan_begin(t, j + 1, hi, depth, if depth == 0 && w is None { Some(j) } else { w }, false);
        } else if up == "UNTIL"@ || up == "REPEAT"@ {
            if depth > 0 {
                lemma_scan_begin(t, j + 1, hi, (depth - 1) as nat, w, false);
            }
        } else {
            lemma_scan_begin(t, j + 1, hi, depth, w, false);
        }
    }
}

proof fn lemma_scan_do(t: Seq<Seq<char>>, j: int, hi: int, depth: nat, s: bool)
    requires
        0 <= j,
        hi <= t.len(),
    ensures
        scan_do(t, j, hi, depth, s) matches Some(p) ==> j <= p < hi,
    decreases hi - j,
{
    if 0 <= j < hi {
        let up = spec_to_uppercase(t[j]);
        if opens_string(t[j]) {
            lemma_scan_do(t, j + 1, hi, depth, true);
        } else if s {
            lemma_scan_do(t, j + 1, hi, depth, !closes_string(t[j]));
        } else if up == "DO"@ || up == "?DO"@ {
            lemma_scan_do(t, j + 1, hi, depth + 1, false);
        } else if up == "LOOP"@ || up == "+LOOP"@ {
            if depth > 0 {
                lemma_scan_do(t, j + 1, hi, (depth - 1) as nat, false);
            }
        } else {
            lemma_scan_do(t, j + 1, hi, depth, false);
        }
    }
}

fn find_then_else(tokens: &[&str], start: usize, hi: usize) -> (r: Option<(usize, Option<usize>)>)
    requires
        hi <= tokens@.len(),
    ensures
        match r {
            Some((p, q)) => scan_then(toks_view(tokens@), start as int, hi as int, 0, None, false)
                == Some((p as int, match q { Some(w) => Some(w as int), None => None::<int> })),
            None => scan_then(toks_view(tokens@), start as int, hi as int, 0, None, false) is None,
        },
{
    let ghost t = toks_view(tokens@);
    let mut j = start;
    let mut depth: usize = 0;
    let mut else_pos: Option<usize> = None;
    let mut in_str = false;
    while j < hi
        invariant
            hi <= tokens@.len(),
            t == toks_view(tokens@),
            scan_then(t, start as int, hi as int, 0, None, false) == scan_then(t, j as int, hi as int,
                depth as nat, match else_pos { Some(w) => Some(w as int), None => None::<int> }, in_str),
            depth <= j,
        decreases hi - j,
    {
        let tok = tokens[j];
        assert(t[j as int] == tok@);
        if opens_string_exec(tok) {
            in_str = true;
        } else if in_str {
            in_str = !closes_string_exec(tok);
        } else {
            let up = to_uppercase(tok);
            if str_eq(up.as_str(), "IF") {
                depth = depth + 1;
            } else if str_eq(up.as_str(), "ELSE") {
                if depth == 0 && else_pos.is_none() {
                    else_pos = Some(j);
                }
            } else if str_eq(up.as_str(), "THEN") {
                if depth == 0 {
                    return Some((j, else_pos));
                }
                depth = depth - 1;
            }
        }
        j = j + 1;
    }
    None
}

fn find_begin_end(tokens: &[&str], start: usize, hi: usize) -> (r: Option<(usize, Option<usize>)>)
    requires
        hi <= tokens@.len(),
    ensures
        match r {
            Some((p, q)) => scan_begin(toks_view(tokens@), start as int, hi as int, 0, None, false)
                == Some((p as int, match q { Some(w) => Some(w as int), None => None::<int> })),
            None => scan_begin(toks_view(tokens@), start as int, hi as int, 0, None, false) is None,
        },
{
    let ghost t = toks_view(tokens@);
    let mut j = start;
    let mut depth: usize = 0;
    let mut while_pos: Option<usize> = None;
    let mut in_str = false;
    while j < hi
        invariant
            hi <= tokens@.len(),
            t == toks_view(tokens@),
            scan_begin(t, start as int, hi as int, 0, None, false) == scan_begin(t, j as int, hi as int,
                depth as nat, match while_pos { Some(w) => Some(w as int), None => None::<int> }, in_str),
            depth <= j,
        decreases hi - j,
    {
        let tok = tokens[j];
        assert(t[j as int] == tok@);
        if opens_string_exec(tok) {
            in_str = true;
        } else if in_str {
            in_str = !closes_string_exec(tok);
        } else {
            let up = to_uppercase(tok);
            if str_eq(up.as_str(), "BEGIN") {
                depth = depth + 1;
            } else if str_eq(up.as_str(), "WHILE") {
                if depth == 0 && while_pos.is_none() {
                    while_pos = Some(j);
                }
            } else if str_eq(up.as_str(), "UNTIL") {
                if depth == 0 {
                    return Some((j, None));
                }
                depth = depth - 1;
            } else if str_eq(up.as_str(), "REPEAT") {
                if depth == 0 {
                    return Some((j, while_pos));
                }
                depth = depth - 1;
            }
        }
        j = j + 1;
    }
    None
}

fn find_do_loop(tokens: &[&str], start: usize, hi: usize) -> (r: Option<usize>)
    requires
        hi <= tokens@.len(),
    ensures
        match r {
            Some(p) => scan_do(toks_view(tokens@), start as int, hi as int, 0, false) == Some(p as int),
            None => scan_do(toks_view(tokens@), start as int, hi as int, 0, false) is None,
        },
{
    let ghost t = toks_view(tokens@);
    let mut j = start;
    let mut depth: usize = 0;
    let mut in_str = false;
    while j < hi
        invariant
            hi <= tokens@.len(),
            t == toks_view(tokens@),
            scan_do(t, start as int, hi as int, 0, false) == scan_do(t, j as int, hi as int, depth as nat, in_str),
            depth <= j,
        decreases hi - j,
    {
        let tok = tokens[j];
        assert(t[j as int] == tok@);
        if opens_string_exec(tok) {
            in_str = true;
        } else if in_str {
            in_str = !closes_string_exec(tok);
        } else {
            let up = to_uppercase(tok);
            if str_eq(up.as_str(), "DO") || str_eq(up.as_str(), "?DO") {
                depth = depth + 1;
            } else if str_eq(up.as_str(), "LOOP") || str_eq(up.as_str(), "+LOOP") {
                if depth == 0 {
                    return Some(j);
                }
                depth = depth - 1;
            }
        }
        j = j + 1;
    }
    None
}

// ---------------------------------------------------------------------------
// String literals
// ---------------------------------------------------------------------------

/// `content` with one more word appended, separated by a space unless it is the
/// first of `n` words.
pub open spec fn add_word(content: Seq<char>, n: nat, w: Seq<char>) -> Seq<char> {
    if n > 0 { content.push(' ') + w } else { content + w }
}

/// Collect the words of a string literal from index `i` (below `hi`) up to the
/// first token ending with `delim`: the words joined with single spaces, and the
/// index after the closing token. A closing token that is the delimiter alone adds
/// a trailing space (when some word came before); otherwise the closing token
/// contributes its text without the delimiter. Without a closing token, all
/// remaining tokens are taken.
pub open spec fn collect(t: Seq<Seq<char>>, i: int, hi: int, delim: char, content: Seq<char>, n: nat)
    -> (Seq<char>, int)
    decreases hi - i,
{
    if i < 0 || i >= hi || i >= t.len() {
        (content, i)
    } else if ends_with(t[i], delim) {
        if t[i].len() == 1 {
            (if n > 0 { content.push(' ') } else { content }, i + 1)
        } else {
            (add_word(content, n, t[i].drop_last()), i + 1)
        }
    } else {
        collect(t, i + 1, hi, delim, add_word(content, n, t[i]), n + 1)
    }
}

proof fn lemma_collect_bounds(t: Seq<Seq<char>>, i: int, hi: int, delim: char, c: Seq<char>, n: nat)
    requires
        0 <= i <= hi,
        hi <= t.len(),
    ensures
        i <= collect(t, i, hi, delim, c, n).1 <= hi,
    decreases hi - i,
{
    if i < hi && !ends_with(t[i], delim) {
        lemma_collect_bounds(t, i + 1, hi, delim, add_word(c, n, t[i]), n + 1);
    }
}

fn collect_string(tokens: &[&str], start: usize, hi: usize, delim: char) -> (r: (String, usize))
    requires
        start <= hi <= tokens@.len(),
    ensures
        (r.0@, r.1 as int) == collect(toks_view(tokens@), start as int, hi as int, delim, Seq::empty(), 0),
        start <= r.1 <= hi,
{
    let ghost t = toks_view(tokens@);
    proof { lemma_collect_bounds(t, start as int, hi as int, delim, Seq::empty(), 0); }
    let mut content: Vec<char> = Vec::new();
    let mut n: usize = 0;
    let mut i = start;
    while i < hi
        invariant
            start <= i <= hi,
            hi <= tokens@.len(),
            t == toks_view(tokens@),
            n <= i,
            collect(t, start as int, hi as int, delim, Seq::empty(), 0)
                == collect(t, i as int, hi as int, delim, content@, n as nat),
        decreases hi - i,
    {
        let tok = tokens[i];
        assert(t[i as int] == tok@);
        let cs = chars_of(tok);
        if cs.len() > 0 && cs[cs.len() - 1] == delim {
            if cs.len() == 1 {
                if n > 0 {
                    content.push(' ');
                }
            } else {
                if n > 0 {
                    content.push(' ');
                }
                let mut k: usize = 0;
                let ghost c0 = content@;
                while k < cs.len() - 1
                    invariant
                        k <= cs@.len() - 1,
                        content@ == c0 + cs@.subrange(0, k as int),
                    decreases cs@.len() - 1 - k,
                {
                    content.push(cs[k]);
                    k = k + 1;
                }
                assert(cs@.subrange(0, cs@.len() - 1) =~= tok@.drop_last());
            }
            let r = string_from_chars(&content);
            return (r, i + 1);
        }
        if n > 0 {
            content.push(' ');
        }
        extend_chars(&mut content, &cs);
        n = n + 1;
        i = i + 1;
    }
    let r = string_from_chars(&content);
    (r, i)
}

// ---------------------------------------------------------------------------
// The parser
// ---------------------------------------------------------------------------

/// The node list a sub-parse contributes: the nodes of a sequence, or the single
/// node itself.
pub open spec fn unwrap_seq(a: SAst) -> Seq<SAst> {
    match a {
        SAst::Sequence(v) => v,
        _ => seq![a],
    }
}

/// A parsed node list as one node: the node itself when there is exactly one,
/// a sequence otherwise.
pub open spec fn as_node(ns: Seq<SAst>) -> SAst {
    if ns.len() == 1 { ns[0] } else { SAst::Sequence(ns) }
}

/// Parse tokens `lo..hi`.
pub open spec fn parse_range(t: Seq<Seq<char>>, d: DictView, cw: Option<Seq<char>>, lo: int, hi: int)
    -> Result<SAst, Seq<char>>
    decreases hi - lo, 2int,
{
    match parse_items(t, d, cw, lo, hi) {
        Err(e) => Err(e),
        Ok(ns) => Ok(as_node(ns)),
    }
}

/// Parse the nodes of tokens `i..hi`, in order; the first error ends parsing.
pub open spec fn parse_items(t: Seq<Seq<char>>, d: DictView, cw: Option<Seq<char>>, i: int, hi: int)
    -> Result<Seq<SAst>, Seq<char>>
    decreases hi - i, 1int,
{
    if i < 0 || i >= hi || hi > t.len() {
        Ok(Seq::empty())
    } else {
        match parse_one(t, d, cw, i, hi) {
            Err(e) => Err(e),
            Ok((n, i2)) => if i < i2 <= hi {
                match parse_items(t, d, cw, i2, hi) {
                    Err(e) => Err(e),
                    Ok(rest) => Ok(seq![n] + rest),
                }
            } else {
                Ok(Seq::empty())
            },
        }
    }
}

/// The node that an ordinary token stands for: a number, the value of a constant
/// (a word defined as a single number), or a call of the upper-cased word.
pub open spec fn word_node(d: DictView, tok: Seq<char>) -> SAst {
    match parse_i64_spec(tok) {
        Some(v) => SAst::PushNumber(v),
        None => match d.lookup(spec_to_uppercase(tok)) {
            Some(AWord::Compiled(SAst::PushNumber(v))) => SAst::PushNumber(v),
            _ => SAst::CallWord(spec_to_uppercase(tok)),
        },
    }
}

/// Word names are case-insensitive: two tokens that are not numbers and have the
/// same upper-case form stand for the same node.
pub proof fn law_case_insensitive_words(d: DictView, a: Seq<char>, b: Seq<char>)
    requires
        spec_to_uppercase(a) == spec_to_uppercase(b),
        parse_i64_spec(a) is None,
        parse_i64_spec(b) is None,
    ensures
        word_node(d, a) == word_node(d, b),
{
}

/// Parse the construct that starts at token `i` (below `hi`): the node and the
/// index of the next token.
pub open spec fn parse_one(t: Seq<Seq<char>>, d: DictView, cw: Option<Seq<char>>, i: int, hi: int)
    -> Result<(SAst, int), Seq<char>>
    decreases hi - i, 0int,
{
    let tok = t[i];
    let up = spec_to_uppercase(tok);
    match keyword(up) {
        Keyword::Recurse => match cw {
            Some(w) => Ok((SAst::CallWord(w), i + 1)),
            None => Err("RECURSE can only be used inside a word definition"@),
        },
        Keyword::DotQuote => {
            let (c, j) = collect(t, i + 1, hi, '"', Seq::empty(), 0);
            Ok((SAst::PrintString(c), j))
        },
        Keyword::DotParen => {
            let (c, j) = collect(t, i + 1, hi, ')', Seq::empty(), 0);
            Ok((SAst::PrintString(c), j))
        },
        Keyword::SQuote => {
            let (c, j) = collect(t, i + 1, hi, '"', Seq::empty(), 0);
            Ok((SAst::StackString(c), j))
        },
        Keyword::Begin => match scan_begin(t, i + 1, hi, 0, None, false) {
            None => Err("Missing UNTIL or REPEAT"@),
            Some((e, w)) => {
                let ek = spec_to_uppercase(t[e]);
                if !(i + 1 <= e < hi) {
                    Err(Seq::empty())
                } else if ek == "UNTIL"@ {
                    match parse_range(t, d, cw, i + 1, e) {
                        Err(x) => Err(x),
                        Ok(b) => Ok((SAst::BeginUntil { body: unwrap_seq(b) }, e + 1)),
                    }
                } else if ek == "REPEAT"@ {
                    match w {
                        Some(wp) => if i + 1 <= wp < e {
                            match parse_range(t, d, cw, i + 1, wp) {
                                Err(x) => Err(x),
                                Ok(c) => match parse_range(t, d, cw, wp + 1, e) {
                                    Err(x) => Err(x),
                                    Ok(b) => Ok((SAst::BeginWhileRepeat {
                                        condition: unwrap_seq(c),
                                        body: unwrap_seq(b),
                                    }, e + 1)),
                                },
                            }
                        } else {
                            Err(Seq::empty())
                        },
                        None => Err("BEGIN...REPEAT requires WHILE"@),
                    }
                } else {
                    Err("Unexpected "@ + ek + " after BEGIN"@)
                }
            },
        },
        Keyword::Do | Keyword::QuestionDo => match scan_do(t, i + 1, hi, 0, false) {
            None => Err("Missing LOOP or +LOOP"@),
            Some(e) => if i + 1 <= e < hi {
                match parse_range(t, d, cw, i + 1, e) {
                    Err(x) => Err(x),
                    Ok(b) => Ok((SAst::DoLoop {
                        body: unwrap_seq(b),
                        increment: if t[e] == "+LOOP"@ { 0 } else { 1 },
                        conditional: keyword(up) == Keyword::QuestionDo,
                    }, e + 1)),
                }
            } else {
                Err(Seq::empty())
            },
        },
        Keyword::If => match scan_then(t, i + 1, hi, 0, None, false) {
            None => Err("Missing THEN"@),
            Some((te, ep)) => if !(i + 1 <= te < hi) {
                Err(Seq::empty())
            } else {
                match ep {
                    None => match parse_range(t, d, cw, i + 1, te) {
                        Err(x) => Err(x),
                        Ok(b) => Ok((SAst::IfThenElse { then_branch: unwrap_seq(b), else_branch: None },
                            te + 1)),
                    },
                    Some(e) => if i + 1 <= e < te {
                        match parse_range(t, d, cw, i + 1, e) {
                            Err(x) => Err(x),
                            Ok(b) => match parse_range(t, d, cw, e + 1, te) {
                                Err(x) => Err(x),
                                Ok(c) => Ok((SAst::IfThenElse {
                                    then_branch: unwrap_seq(b),
                                    else_branch: Some(unwrap_seq(c)),
                                }, te + 1)),
                            },
                        }
                    } else {
                        Err(Seq::empty())
                    },
                }
            },
        },
        Keyword::ThenElse => Err("Unexpected THEN or ELSE"@),
        Keyword::Leave => Ok((SAst::Leave, i + 1)),
        Keyword::Exit => Ok((SAst::Exit, i + 1)),
        Keyword::Unloop => Ok((SAst::Unloop, i + 1)),
        Keyword::Inline => if i + 1 >= hi {
            Err("INLINE requires an instruction name"@)
        } else {
            Ok((SAst::InlineInstruction(spec_to_uppercase(t[i + 1])), i + 2))
        },
        Keyword::Other => Ok((word_node(d, tok), i + 1)),
    }
}

/// The abstract form of a parse result.
pub open spec fn parsed(r: Result<AstNode, String>) -> Result<SAst, Seq<char>> {
    match r {
        Ok(n) => Ok(view_node(n)),
        Err(e) => Err(e@),
    }
}

proof fn lemma_view_push(s: Seq<AstNode>, x: AstNode)
    ensures
        view_list(s.push(x)) == view_list(s).push(view_node(x)),
{
    lemma_view_list(s);
    lemma_view_list(s.push(x));
    assert(view_list(s.push(x)) =~= view_list(s).push(view_node(x)));
}

fn unwrap_node(a: AstNode) -> (v: Vec<AstNode>)
    ensures
        view_list(v@) == unwrap_seq(view_node(a)),
{
    match a {
        AstNode::Sequence(v) => v,
        other => {
            let v = vec![other];
            proof {
                lemma_view_list(v@);
                assert(view_list(v@) =~= seq![view_node(other)]);
            }
            v
        },
    }
}

/// "prefix" + middle + "suffix".
pub(crate) fn message3(prefix: &str, middle: &str, suffix: &str) -> (s: String)
    ensures
        s@ == prefix@ + middle@ + suffix@,
{
    let mut all = chars_of(prefix);
    let m = chars_of(middle);
    extend_chars(&mut all, &m);
    let e = chars_of(suffix);
    extend_chars(&mut all, &e);
    string_from_chars(&all)
}

fn parse_one_exec(tokens: &[&str], dict: &Dictionary, cw: Option<&str>, i: usize, hi: usize)
    -> (r: Result<(AstNode, usize), String>)
    requires
        i < hi <= tokens@.len(),
    ensures
        match r {
            Ok((n, j)) => parse_one(toks_view(tokens@), dict@, opt_view(cw), i as int, hi as int)
                == Ok::<(SAst, int), Seq<char>>((view_node(n), j as int)) && i < j <= hi,
            Err(e) => parse_one(toks_view(tokens@), dict@, opt_view(cw), i as int, hi as int)
                == Err::<(SAst, int), Seq<char>>(e@),
        },
    decreases hi - i, 0int,
{
    let ghost t = toks_view(tokens@);
    let tok = tokens[i];
    assert(t[i as int] == tok@);
    let up = to_uppercase(tok);
    let k = classify(up.as_str());
    match k {
        Keyword::Recurse => match cw {
            Some(w) => Ok((AstNode::CallWord(w.to_string()), i + 1)),
            None => Err("RECURSE can only be used inside a word definition".to_string()),
        },
        Keyword::DotQuote => {
            let (c, j) = collect_string(tokens, i + 1, hi, '"');
            Ok((AstNode::PrintString(c), j))
        },
        Keyword::DotParen => {
            let (c, j) = collect_string(tokens, i + 1, hi, ')');
            Ok((AstNode::PrintString(c), j))
        },
        Keyword::SQuote => {
            let (c, j) = collect_string(tokens, i + 1, hi, '"');
            Ok((AstNode::StackString(c), j))
        },
        Keyword::Begin => {
            proof { lemma_scan_begin(t, i + 1, hi as int, 0, None, false); }
            match find_begin_end(tokens, i + 1, hi) {
                None => Err("Missing UNTIL or REPEAT".to_string()),
                Some((e, w)) => {
                    assert(t[e as int] == tokens@[e as int]@);
                    let ek = to_uppercase(tokens[e]);
                    if str_eq(ek.as_str(), "UNTIL") {
                        match parse_range_exec(tokens, dict, cw, i + 1, e) {
                            Err(x) => Err(x),
                            Ok(b) => Ok((AstNode::BeginUntil { body: unwrap_node(b) }, e + 1)),
                        }
                    } else if str_eq(ek.as_str(), "REPEAT") {
                        match w {
                            Some(wp) => match parse_range_exec(tokens, dict, cw, i + 1, wp) {
                                Err(x) => Err(x),
                                Ok(c) => match parse_range_exec(tokens, dict, cw, wp + 1, e) {
                                    Err(x) => Err(x),
                                    Ok(b) => Ok((AstNode::BeginWhileRepeat {
                                        condition: unwrap_node(c),
                                        body: unwrap_node(b),
                                    }, e + 1)),
                                },
                            },
                            None => Err("BEGIN...REPEAT requires WHILE".to_string()),
                        }
                    } else {
                        Err(message3("Unexpected ", ek.as_str(), " after BEGIN"))
                    }
                },
            }
        },
        Keyword::Do | Keyword::QuestionDo => {
            proof { lemma_scan_do(t, i + 1, hi as int, 0, false); }
            match find_do_loop(tokens, i + 1, hi) {
                None => Err("Missing LOOP or +LOOP".to_string()),
                Some(e) => match parse_range_exec(tokens, dict, cw, i + 1, e) {
                    Err(x) => Err(x),
                    Ok(b) => {
                        assert(t[e as int] == tokens@[e as int]@);
                        let increment: i64 = if str_eq(tokens[e], "+LOOP") { 0 } else { 1 };
                        let conditional = match k {
                            Keyword::QuestionDo => true,
                            _ => false,
                        };
                        Ok((AstNode::DoLoop { body: unwrap_node(b), increment, conditional }, e + 1))
                    },
                },
            }
        },
        Keyword::If => {
            proof { lemma_scan_then(t, i + 1, hi as int, 0, None, false); }
            match find_then_else(tokens, i + 1, hi) {
                None => Err("Missing THEN".to_string()),
                Some((te, ep)) => match ep {
                    None => match parse_range_exec(tokens, dict, cw, i + 1, te) {
                        Err(x) => Err(x),
                        Ok(b) => Ok((AstNode::IfThenElse { then_branch: unwrap_node(b), else_branch: None },
                            te + 1)),
                    },
                    Some(e) => match parse_range_exec(tokens, dict, cw, i + 1, e) {
                        Err(x) => Err(x),
                        Ok(b) => match parse_range_exec(tokens, dict, cw, e + 1, te) {
                            Err(x) => Err(x),
                            Ok(c) => Ok((AstNode::IfThenElse {
                                then_branch: unwrap_node(b),
                                else_branch: Some(unwrap_node(c)),
                            }, te + 1)),
                        },
                    },
                },
            }
        },
        Keyword::ThenElse => Err("Unexpected THEN or ELSE".to_string()),
        Keyword::Leave => Ok((AstNode::Leave, i + 1)),
        Keyword::Exit => Ok((AstNode::Exit, i + 1)),
        Keyword::Unloop => Ok((AstNode::Unloop, i + 1)),
        Keyword::Inline => {
            if i + 1 >= hi {
                Err("INLINE requires an instruction name".to_string())
            } else {
                assert(t[i + 1] == tokens@[i + 1]@);
                Ok((AstNode::InlineInstruction(to_uppercase(tokens[i + 1])), i + 2))
            }
        },
        Keyword::Other => {
            match parse_i64(tok) {
                Some(v) => Ok((AstNode::PushNumber(v), i + 1)),
                None => {
                    let node = match dict.get_word(up.as_str()) {
                        Some(w) => match w {
                            Word::Compiled(AstNode::PushNumber(v)) => AstNode::PushNumber(*v),
                            _ => AstNode::CallWord(up),
                        },
                        None => AstNode::CallWord(up),
                    };
                    Ok((node, i + 1))
                },
            }
        },
    }
}

pub(crate) fn parse_range_exec(tokens: &[&str], dict: &Dictionary, cw: Option<&str>, lo: usize, hi: usize)
    -> (r: Result<AstNode, String>)
    requires
        lo <= hi <= tokens@.len(),
    ensures
        parsed(r) == parse_range(toks_view(tokens@), dict@, opt_view(cw), lo as int, hi as int),
    decreases hi - lo, 2int,
{
    let ghost t = toks_view(tokens@);
    let ghost d = dict@;
    let ghost c = opt_view(cw);
    let mut nodes: Vec<AstNode> = Vec::new();
    let mut i = lo;
    assert(view_list(nodes@) =~= Seq::<SAst>::empty());
    while i < hi
        invariant
            lo <= i <= hi <= tokens@.len(),
            t == toks_view(tokens@),
            d == dict@,
            c == opt_view(cw),
            parse_items(t, d, c, lo as int, hi as int) == match parse_items(t, d, c, i as int, hi as int) {
                Ok(rest) => Ok(view_list(nodes@) + rest),
                Err(e) => Err(e),
            },
        decreases hi - i,
    {
        match parse_one_exec(tokens, dict, cw, i, hi) {
            Err(e) => {
                return Err(e);
            },
            Ok((node, j)) => {
                proof { lemma_view_push(nodes@, node); }
                let ghost before = view_list(nodes@);
                nodes.push(node);
                assert(forall|rest: Seq<SAst>| before + (seq![view_node(node)] + rest)
                    =~= view_list(nodes@) + rest);
                i = j;
            },
        }
    }
    assert(view_list(nodes@) + Seq::<SAst>::empty() =~= view_list(nodes@));
    proof { lemma_view_list(nodes@); }
    if nodes.len() == 1 {
        let n = nodes.pop().unwrap();
        Ok(n)
    } else {
        Ok(AstNode::Sequence(nodes))
    }
}

/// Parse tokens into an AST. Keywords and word names are case-insensitive (word
/// names are stored upper-cased); numbers push themselves; a word defined as a
/// constant is replaced by its value; `RECURSE` calls `current_word`. One node
/// is returned as itself, any other number of nodes as a sequence.
pub fn parse_tokens(tokens: &[&str], dict: &Dictionary, current_word: Option<&str>)
    -> (r: Result<AstNode, String>)
    ensures
        parsed(r) == parse_range(toks_view(tokens@), dict@, opt_view(current_word), 0,
            tokens@.len() as int),
{
    parse_range_exec(tokens, dict, current_word, 0, tokens.len())
}

// ---------------------------------------------------------------------------
// How IF ... ELSE ... THEN splits
// ---------------------------------------------------------------------------

/// How an upper-cased token changes the IF nesting depth.
pub open spec fn if_delta(u: Seq<char>) -> int {
    if u == "IF"@ { 1 } else if u == "THEN"@ { -1 } else { 0 }
}

/// The IF nesting depth after tokens `lo..k`: the IFs minus the THENs.
pub open spec fn if_depth(t: Seq<Seq<char>>, lo: int, k: int) -> int
    decreases k - lo,
{
    if k <= lo { 0 } else { if_depth(t, lo, k - 1) + if_delta(spec_to_uppercase(t[k - 1])) }
}

/// Tokens `lo..hi` form complete nested IF groups: no printed string, every THEN
/// closes an IF opened inside the range, every ELSE lies inside a nested IF, and
/// all IFs are closed at the end.
pub open spec fn if_block(t: Seq<Seq<char>>, lo: int, hi: int) -> bool {
    &&& 0 <= lo <= hi <= t.len()
    &&& forall|k: int| lo <= k < hi ==> !opens_string(#[trigger] t[k])
    &&& forall|k: int| lo <= k <= hi ==> #[trigger] if_depth(t, lo, k) >= 0
    &&& if_depth(t, lo, hi) == 0
    &&& forall|k: int| lo <= k < hi && (spec_to_uppercase(#[trigger] t[k]) == "THEN"@
        || spec_to_uppercase(t[k]) == "ELSE"@) ==> if_depth(t, lo, k) >= 1
}

proof fn lemma_reveal_keywords()
    ensures
        "IF"@ != "THEN"@, "IF"@ != "ELSE"@, "THEN"@ != "ELSE"@,
        "IF"@ != "RECURSE"@, "IF"@ != ".\""@, "IF"@ != ".("@, "IF"@ != "S\""@,
        "IF"@ != "BEGIN"@, "IF"@ != "DO"@, "IF"@ != "?DO"@,
{
    reveal_strlit("IF");
    reveal_strlit("THEN");
    reveal_strlit("ELSE");
    reveal_strlit("RECURSE");
    reveal_strlit(".\"");
    reveal_strlit(".(");
    reveal_strlit("S\"");
    reveal_strlit("BEGIN");
    reveal_strlit("DO");
    reveal_strlit("?DO");
    assert("IF"@.len() == 2 && "THEN"@.len() == 4 && "ELSE"@.len() == 4);
    assert("THEN"@[0] != "ELSE"@[0]);
    assert("IF"@[0] != "DO"@[0] && "IF"@[0] != "S\""@[0] && "IF"@[0] != ".("@[0] && "IF"@[0] != ".\""@[0]);
    assert("IF"@.len() != "RECURSE"@.len() && "IF"@.len() != "BEGIN"@.len() && "IF"@.len() != "?DO"@.len());
}

/// Scanning over complete nested IF groups changes neither the depth nor the ELSE found.
proof fn lemma_scan_block(t: Seq<Seq<char>>, lo: int, hi: int, j: int, h: int, ep: Option<int>)
    requires
        if_block(t, lo, hi),
        lo <= j <= hi,
        hi < h <= t.len(),
    ensures
        scan_then(t, lo, h, 0, ep, false) == scan_then(t, j, h, if_depth(t, lo, j) as nat, ep, false),
    decreases j - lo,
{
    lemma_reveal_keywords();
    if j > lo {
        lemma_scan_block(t, lo, hi, j - 1, h, ep);
        let k = j - 1;
        assert(!opens_string(t[k]));
        assert(if_depth(t, lo, k) >= 0);
        assert(if_depth(t, lo, j) >= 0);
        let u = spec_to_uppercase(t[k]);
        if u == "THEN"@ || u == "ELSE"@ {
            assert(if_depth(t, lo, k) >= 1);
        }
    }
}

/// `IF ... ELSE ... THEN` splits at the ELSE of its own depth: when the tokens
/// between IF and ELSE and between ELSE and THEN form complete nested IF groups
/// (ELSEs of nested IFs included), the then-branch is the parse of the tokens up to
/// that ELSE and the else-branch the parse of the tokens after it.
pub proof fn law_if_else_split(t: Seq<Seq<char>>, d: DictView, cw: Option<Seq<char>>, i: int, e: int, te: int)
    requires
        0 <= i < e < te < t.len(),
        spec_to_uppercase(t[i]) == "IF"@,
        spec_to_uppercase(t[e]) == "ELSE"@,
        spec_to_uppercase(t[te]) == "THEN"@,
        !opens_string(t[e]),
        !opens_string(t[te]),
        if_block(t, i + 1, e),
        if_block(t, e + 1, te),
    ensures
        parse_range(t, d, cw, i, te + 1) == match parse_range(t, d, cw, i + 1, e) {
            Err(x) => Err(x),
            Ok(b) => match parse_range(t, d, cw, e + 1, te) {
                Err(x) => Err(x),
                Ok(c) => Ok(SAst::IfThenElse { then_branch: unwrap_seq(b), else_branch: Some(unwrap_seq(c)) }),
            },
        },
{
    lemma_reveal_keywords();
    let h = te + 1;
    lemma_scan_block(t, i + 1, e, e, h, None);
    assert(scan_then(t, e, h, 0, None, false) == scan_then(t, e + 1, h, 0, Some(e), false));
    lemma_scan_block(t, e + 1, te, te, h, Some(e));
    assert(scan_then(t, te, h, 0, Some(e), false) == Some((te, Some(e))));
    assert(scan_then(t, i + 1, h, 0, None, false) == Some((te, Some(e))));
    assert(keyword(spec_to_uppercase(t[i])) == Keyword::If);
    assert(parse_items(t, d, cw, h, h) == Ok::<Seq<SAst>, Seq<char>>(Seq::empty()));
    match parse_one(t, d, cw, i, h) {
        Err(x) => {},
        Ok((n, i2)) => {
            assert(i2 == h);
            assert(seq![n] + Seq::<SAst>::empty() =~= seq![n]);
        },
    }
}

/// `IF ... THEN` with no ELSE of its own depth: when the tokens between IF and THEN
/// form complete nested IF groups, the then-branch is their parse and there is no
/// else-branch.
pub proof fn law_if_then(t: Seq<Seq<char>>, d: DictView, cw: Option<Seq<char>>, i: int, te: int)
    requires
        0 <= i < te < t.len(),
        spec_to_uppercase(t[i]) == "IF"@,
        spec_to_uppercase(t[te]) == "THEN"@,
        !opens_string(t[te]),
        if_block(t, i + 1, te),
    ensures
        parse_range(t, d, cw, i, te + 1) == match parse_range(t, d, cw, i + 1, te) {
            Err(x) => Err(x),
            Ok(b) => Ok(SAst::IfThenElse { then_branch: unwrap_seq(b), else_branch: None }),
        },
{
    lemma_reveal_keywords();
    let h = te + 1;
    lemma_scan_block(t, i + 1, te, te, h, None);
    assert(scan_then(t, te, h, 0, None, false) == Some((te, None::<int>)));
    assert(keyword(spec_to_uppercase(t[i])) == Keyword::If);
    assert(parse_items(t, d, cw, h, h) == Ok::<Seq<SAst>, Seq<char>>(Seq::empty()));
    match parse_one(t, d, cw, i, h) {
        Err(x) => {},
        Ok((n, i2)) => {
            assert(i2 == h);
            assert(seq![n] + Seq::<SAst>::empty() =~= seq![n]);
        },
    }
}

/// How an upper-cased token changes the BEGIN nesting depth.
pub open spec fn begin_delta(u: Seq<char>) -> int {
    if u == "BEGIN"@ { 1 } else if u == "UNTIL"@ || u == "REPEAT"@ { -1 } else { 0 }
}

/// The BEGIN nesting depth after tokens `lo..k`.
pub open spec fn begin_depth(t: Seq<Seq<char>>, lo: int, k: int) -> int
    decreases k - lo,
{
    if k <= lo { 0 } else { begin_depth(t, lo, k - 1) + begin_delta(spec_to_uppercase(t[k - 1])) }
}

/// Tokens `lo..hi` form complete nested BEGIN loops: no printed string, every
/// UNTIL, REPEAT and WHILE lies inside a nested BEGIN, and all are closed.
pub open spec fn begin_block(t: Seq<Seq<char>>, lo: int, hi: int) -> bool {
    &&& 0 <= lo <= hi <= t.len()
    &&& forall|k: int| lo <= k < hi ==> !opens_string(#[trigger] t[k])
    &&& forall|k: int| lo <= k <= hi ==> #[trigger] begin_depth(t, lo, k) >= 0
    &&& begin_depth(t, lo, hi) == 0
    &&& forall|k: int| lo <= k < hi && (spec_to_uppercase(#[trigger] t[k]) == "UNTIL"@
        || spec_to_uppercase(t[k]) == "REPEAT"@ || spec_to_uppercase(t[k]) == "WHILE"@)
        ==> begin_depth(t, lo, k) >= 1
}

/// How an upper-cased token changes the DO nesting depth.
pub open spec fn do_delta(u: Seq<char>) -> int {
    if u == "DO"@ || u == "?DO"@ { 1 } else if u == "LOOP"@ || u == "+LOOP"@ { -1 } else { 0 }
}

/// The DO nesting depth after tokens `lo..k`.
pub open spec fn do_depth(t: Seq<Seq<char>>, lo: int, k: int) -> int
    decreases k - lo,
{
    if k <= lo { 0 } else { do_depth(t, lo, k - 1) + do_delta(spec_to_uppercase(t[k - 1])) }
}

/// Tokens `lo..hi` form complete nested DO loops: no printed string, every LOOP
/// and +LOOP closes a DO opened inside the range, and all are closed.
pub open spec fn do_block(t: Seq<Seq<char>>, lo: int, hi: int) -> bool {
    &&& 0 <= lo <= hi <= t.len()
    &&& forall|k: int| lo <= k < hi ==> !opens_string(#[trigger] t[k])
    &&& forall|k: int| lo <= k <= hi ==> #[trigger] do_depth(t, lo, k) >= 0
    &&& do_depth(t, lo, hi) == 0
    &&& forall|k: int| lo <= k < hi && (spec_to_uppercase(#[trigger] t[k]) == "LOOP"@
        || spec_to_uppercase(t[k]) == "+LOOP"@) ==> do_depth(t, lo, k) >= 1
}

proof fn lemma_reveal_loop_keywords()
    ensures
        "BEGIN"@ != "UNTIL"@, "BEGIN"@ != "REPEAT"@, "BEGIN"@ != "WHILE"@, "UNTIL"@ != "REPEAT"@,
        "UNTIL"@ != "WHILE"@, "REPEAT"@ != "WHILE"@,
        "BEGIN"@ != "RECURSE"@, "BEGIN"@ != ".\""@, "BEGIN"@ != ".("@, "BEGIN"@ != "S\""@,
        "DO"@ != "?DO"@, "DO"@ != "LOOP"@, "DO"@ != "+LOOP"@, "?DO"@ != "LOOP"@, "?DO"@ != "+LOOP"@,
        "LOOP"@ != "+LOOP"@,
        "DO"@ != "RECURSE"@, "DO"@ != ".\""@, "DO"@ != ".("@, "DO"@ != "S\""@, "DO"@ != "BEGIN"@,
{
    reveal_strlit("BEGIN");
    reveal_strlit("UNTIL");
    reveal_strlit("REPEAT");
    reveal_strlit("WHILE");
    reveal_strlit("RECURSE");
    reveal_strlit(".\"");
    reveal_strlit(".(");
    reveal_strlit("S\"");
    reveal_strlit("DO");
    reveal_strlit("?DO");
    reveal_strlit("LOOP");
    reveal_strlit("+LOOP");
    assert("BEGIN"@.len() == 5 && "UNTIL"@.len() == 5 && "REPEAT"@.len() == 6 && "WHILE"@.len() == 5);
    assert("BEGIN"@[0] != "UNTIL"@[0] && "BEGIN"@[0] != "WHILE"@[0] && "UNTIL"@[0] != "WHILE"@[0]);
    assert("BEGIN"@.len() != "RECURSE"@.len() && "BEGIN"@.len() != "S\""@.len() && "BEGIN"@.len() != ".("@.len());
    assert("DO"@.len() == 2 && "?DO"@.len() == 3 && "LOOP"@.len() == 4 && "+LOOP"@.len() == 5);
    assert("DO"@[0] != ".\""@[0] && "DO"@[0] != ".("@[0] && "DO"@[0] != "S\""@[0]);
    assert("DO"@.len() != "RECURSE"@.len() && "DO"@.len() != "BEGIN"@.len());
}

proof fn lemma_scan_begin_block(t: Seq<Seq<char>>, lo: int, hi: int, j: int, h: int, w: Option<int>)
    requires
        begin_block(t, lo, hi),
        lo <= j <= hi,
        hi < h <= t.len(),
    ensures
        scan_begin(t, lo, h, 0, w, false) == scan_begin(t, j, h, begin_depth(t, lo, j) as nat, w, false),
    decreases j - lo,
{
    lemma_reveal_loop_keywords();
    if j > lo {
        lemma_scan_begin_block(t, lo, hi, j - 1, h, w);
        let k = j - 1;
        assert(!opens_string(t[k]));
        assert(begin_depth(t, lo, k) >= 0);
        assert(begin_depth(t, lo, j) >= 0);
        let u = spec_to_uppercase(t[k]);
        if u == "UNTIL"@ || u == "REPEAT"@ || u == "WHILE"@ {
            assert(begin_depth(t, lo, k) >= 1);
        }
    }
}

proof fn lemma_scan_do_block(t: Seq<Seq<char>>, lo: int, hi: int, j: int, h: int)
    requires
        do_block(t, lo, hi),
        lo <= j <= hi,
        hi < h <= t.len(),
    ensures
        scan_do(t, lo, h, 0, false) == scan_do(t, j, h, do_depth(t, lo, j) as nat, false),
    decreases j - lo,
{
    lemma_reveal_loop_keywords();
    if j > lo {
        lemma_scan_do_block(t, lo, hi, j - 1, h);
        let k = j - 1;
        assert(!opens_string(t[k]));
        assert(do_depth(t, lo, k) >= 0);
        assert(do_depth(t, lo, j) >= 0);
        let u = spec_to_uppercase(t[k]);
        if u == "LOOP"@ || u == "+LOOP"@ {
            assert(do_depth(t, lo, k) >= 1);
        }
    }
}

/// `BEGIN ... UNTIL` ends at the UNTIL of its own depth: when the tokens between
/// form complete nested BEGIN loops, the body is their parse.
pub proof fn law_begin_until(t: Seq<Seq<char>>, d: DictView, cw: Option<Seq<char>>, i: int, u: int)
    requires
        0 <= i < u < t.len(),
        spec_to_uppercase(t[i]) == "BEGIN"@,
        spec_to_uppercase(t[u]) == "UNTIL"@,
        !opens_string(t[u]),
        begin_block(t, i + 1, u),
    ensures
        parse_range(t, d, cw, i, u + 1) == match parse_range(t, d, cw, i + 1, u) {
            Err(x) => Err(x),
            Ok(b) => Ok(SAst::BeginUntil { body: unwrap_seq(b) }),
        },
{
    lemma_reveal_loop_keywords();
    let h = u + 1;
    lemma_scan_begin_block(t, i + 1, u, u, h, None);
    assert(scan_begin(t, u, h, 0, None, false) == Some((u, None::<int>)));
    assert(keyword(spec_to_uppercase(t[i])) == Keyword::Begin);
    assert(parse_items(t, d, cw, h, h) == Ok::<Seq<SAst>, Seq<char>>(Seq::empty()));
    match parse_one(t, d, cw, i, h) {
        Err(x) => {},
        Ok((n, i2)) => {
            assert(i2 == h);
            assert(seq![n] + Seq::<SAst>::empty() =~= seq![n]);
        },
    }
}

/// `BEGIN ... WHILE ... REPEAT` splits at the WHILE of its own depth: when the
/// tokens before and after it form complete nested BEGIN loops, the condition is
/// the parse of the tokens before the WHILE and the body the parse of those after.
pub proof fn law_begin_while_repeat(t: Seq<Seq<char>>, d: DictView, cw: Option<Seq<char>>, i: int, w: int,
    r: int)
    requires
        0 <= i < w < r < t.len(),
        spec_to_uppercase(t[i]) == "BEGIN"@,
        spec_to_uppercase(t[w]) == "WHILE"@,
        spec_to_uppercase(t[r]) == "REPEAT"@,
        !opens_string(t[w]),
        !opens_string(t[r]),
        begin_block(t, i + 1, w),
        begin_block(t, w + 1, r),
    ensures
        parse_range(t, d, cw, i, r + 1) == match parse_range(t, d, cw, i + 1, w) {
            Err(x) => Err(x),
            Ok(c) => match parse_range(t, d, cw, w + 1, r) {
                Err(x) => Err(x),
                Ok(b) => Ok(SAst::BeginWhileRepeat { condition: unwrap_seq(c), body: unwrap_seq(b) }),
            },
        },
{
    lemma_reveal_loop_keywords();
    let h = r + 1;
    lemma_scan_begin_block(t, i + 1, w, w, h, None);
    assert(scan_begin(t, w, h, 0, None, false) == scan_begin(t, w + 1, h, 0, Some(w), false));
    lemma_scan_begin_block(t, w + 1, r, r, h, Some(w));
    assert(scan_begin(t, r, h, 0, Some(w), false) == Some((r, Some(w))));
    assert(keyword(spec_to_uppercase(t[i])) == Keyword::Begin);
    assert(parse_items(t, d, cw, h, h) == Ok::<Seq<SAst>, Seq<char>>(Seq::empty()));
    match parse_one(t, d, cw, i, h) {
        Err(x) => {},
        Ok((n, i2)) => {
            assert(i2 == h);
            assert(seq![n] + Seq::<SAst>::empty() =~= seq![n]);
        },
    }
}

/// `DO ... LOOP` ends at the LOOP (or +LOOP) of its own depth: when the tokens
/// between form complete nested DO loops, the body is their parse.
pub proof fn law_do_loop(t: Seq<Seq<char>>, d: DictView, cw: Option<Seq<char>>, i: int, e: int)
    requires
        0 <= i < e < t.len(),
        spec_to_uppercase(t[i]) == "DO"@,
        spec_to_uppercase(t[e]) == "LOOP"@ || spec_to_uppercase(t[e]) == "+LOOP"@,
        !opens_string(t[e]),
        do_block(t, i + 1, e),
    ensures
        parse_range(t, d, cw, i, e + 1) == match parse_range(t, d, cw, i + 1, e) {
            Err(x) => Err(x),
            Ok(b) => Ok(SAst::DoLoop {
                body: unwrap_seq(b),
                increment: if t[e] == "+LOOP"@ { 0 } else { 1 },
                conditional: false,
            }),
        },
{
    lemma_reveal_loop_keywords();
    let h = e + 1;
    lemma_scan_do_block(t, i + 1, e, e, h);
    assert(scan_do(t, e, h, 0, false) == Some(e));
    assert(keyword(spec_to_uppercase(t[i])) == Keyword::Do);
    assert(parse_items(t, d, cw, h, h) == Ok::<Seq<SAst>, Seq<char>>(Seq::empty()));
    match parse_one(t, d, cw, i, h) {
        Err(x) => {},
        Ok((n, i2)) => {
            assert(i2 == h);
            assert(seq![n] + Seq::<SAst>::empty() =~= seq![n]);
        },
    }
}

// ---------------------------------------------------------------------------
// Compile-only words
// ---------------------------------------------------------------------------

/// Control-flow words that only make sense inside a definition.
pub open spec fn compile_only_word(up: Seq<char>) -> bool {
    ||| up == "IF"@
    ||| up == "THEN"@
    ||| up == "ELSE"@
    ||| up == "BEGIN"@
    ||| up == "UNTIL"@
    ||| up == "WHILE"@
    ||| up == "REPEAT"@
    ||| up == "DO"@
    ||| up == "?DO"@
    ||| up == "LOOP"@
    ||| up == "+LOOP"@
    ||| up == "LEAVE"@
    ||| up == "EXIT"@
    ||| up == "UNLOOP"@
}

fn compile_only_word_exec(up: &str) -> (b: bool)
    ensures
        b == compile_only_word(up@),
{
    str_eq(up, "IF") || str_eq(up, "THEN") || str_eq(up, "ELSE") || str_eq(up, "BEGIN")
        || str_eq(up, "UNTIL") || str_eq(up, "WHILE") || str_eq(up, "REPEAT") || str_eq(up, "DO")
        || str_eq(up, "?DO") || str_eq(up, "LOOP") || str_eq(up, "+LOOP") || str_eq(up, "LEAVE")
        || str_eq(up, "EXIT") || str_eq(up, "UNLOOP")
}

/// The index after the first token at or after `j` that ends with `"`, or the
/// length.
pub open spec fn skip_quoted(t: Seq<Seq<char>>, j: int) -> int
    decreases t.len() - j,
{
    if j < 0 || j >= t.len() {
        t.len() as int
    } else if ends_with(t[j], '"') {
        j + 1
    } else {
        skip_quoted(t, j + 1)
    }
}

/// Whether tokens from `i` on hold a compile-only word outside `S" ..."` and
/// `." ..."` strings.
pub open spec fn has_compile_only(t: Seq<Seq<char>>, i: int) -> bool
    decreases t.len() - i,
{
    if i < 0 || i >= t.len() {
        false
    } else {
        let up = spec_to_uppercase(t[i]);
        if up == "S\""@ || up == ".\""@ {
            let j = skip_quoted(t, i + 1);
            if i < j <= t.len() { has_compile_only(t, j) } else { false }
        } else if compile_only_word(up) {
            true
        } else {
            has_compile_only(t, i + 1)
        }
    }
}

/// The error for control-flow words used outside a definition.
pub open spec fn compile_only_msg() -> Seq<char> {
    "Control flow words (IF/THEN/ELSE/BEGIN/UNTIL/WHILE/REPEAT/DO/?DO/LOOP/LEAVE/EXIT/UNLOOP) are compile-only"@
}

proof fn lemma_skip_quoted(t: Seq<Seq<char>>, j: int)
    requires
        0 <= j <= t.len(),
    ensures
        j < skip_quoted(t, j) <= t.len() || (j == t.len() && skip_quoted(t, j) == t.len()),
    decreases t.len() - j,
{
    if j < t.len() && !ends_with(t[j], '"') {
        lemma_skip_quoted(t, j + 1);
    }
}

/// Whether the tokens hold a control-flow word outside a string literal.
pub fn contains_compile_only(tokens: &[&str]) -> (b: bool)
    ensures
        b == has_compile_only(toks_view(tokens@), 0),
{
    let ghost t = toks_view(tokens@);
    let mut i: usize = 0;
    while i < tokens.len()
        invariant
            i <= tokens@.len(),
            t == toks_view(tokens@),
            has_compile_only(t, 0) == has_compile_only(t, i as int),
        decreases tokens@.len() - i,
    {
        assert(t[i as int] == tokens@[i as int]@);
        let up = to_uppercase(tokens[i]);
        if str_eq(up.as_str(), "S\"") || str_eq(up.as_str(), ".\"") {
            proof { lemma_skip_quoted(t, i + 1); }
            let ghost i0 = i;
            i = i + 1;
            while i < tokens.len()
                invariant_except_break
                    i0 < i <= tokens@.len(),
                    t == toks_view(tokens@),
                    skip_quoted(t, i0 + 1) == skip_quoted(t, i as int),
                ensures
                    i0 < i <= tokens@.len(),
                    skip_quoted(t, i0 + 1) == i,
                decreases tokens@.len() - i,
            {
                assert(t[i as int] == tokens@[i as int]@);
                if ends_with_exec(tokens[i], '"') {
                    i = i + 1;
                    break;
                }
                i = i + 1;
            }
            assert(skip_quoted(t, i0 + 1) == i);
        } else if compile_only_word_exec(up.as_str()) {
            return true;
        } else {
            i = i + 1;
        }
    }
    false
}

} // verus!
