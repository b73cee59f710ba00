//! The abstract syntax tree of parsed Forth code, and its validation.

use vstd::prelude::*;
use crate::dictionary::{Dictionary, DictView};
use crate::text::{chars_of, extend_chars, spec_to_uppercase, string_from_chars, to_uppercase, str_eq};

verus! {

broadcast use vstd::string::group_string_axioms;

/// A parsed Forth program fragment.
#[derive(Debug)]
pub enum AstNode {
    /// Push a number.
    PushNumber(i64),
    /// Call a word by (upper-case) name.
    CallWord(String),
    /// Run the nodes in order.
    Sequence(Vec<AstNode>),
    /// `IF ... [ELSE ...] THEN`.
    IfThenElse { then_branch: Vec<AstNode>, else_branch: Option<Vec<AstNode>> },
    /// `BEGIN ... UNTIL`.
    BeginUntil { body: Vec<AstNode> },
    /// `BEGIN ... WHILE ... REPEAT`.
    BeginWhileRepeat { condition: Vec<AstNode>, body: Vec<AstNode> },
    /// `DO ... LOOP` (increment 1) or `DO ... +LOOP` (increment 0: taken from the stack).
    DoLoop { body: Vec<AstNode>, increment: i64, conditional: bool },
    /// `." text"`: print text.
    PrintString(String),
    /// `S" text"`: store text at HERE and push its address and length.
    StackString(String),
    /// LEAVE the innermost loop.
    Leave,
    /// EXIT the current word.
    Exit,
    /// Discard the innermost loop frame.
    Unloop,
    /// EXECUTE an execution token.
    Execute,
    /// An instruction for compiled code only.
    InlineInstruction(String),
    /// `['] name`: push an execution token for `name`.
    TickLiteral(String),
}

/// The mathematical form of an AST: strings become character sequences.
pub ghost enum SAst {
    PushNumber(i64),
    CallWord(Seq<char>),
    Sequence(Seq<SAst>),
    IfThenElse { then_branch: Seq<SAst>, else_branch: Option<Seq<SAst>> },
    BeginUntil { body: Seq<SAst> },
    BeginWhileRepeat { condition: Seq<SAst>, body: Seq<SAst> },
    DoLoop { body: Seq<SAst>, increment: i64, conditional: bool },
    PrintString(Seq<char>),
    StackString(Seq<char>),
    Leave,
    Exit,
    Unloop,
    Execute,
    InlineInstruction(Seq<char>),
    TickLiteral(Seq<char>),
}

/// The mathematical form of a list of nodes.
pub open spec fn view_list(s: Seq<AstNode>) -> Seq<SAst>
    decreases s,
{
    if s.len() == 0 {
        Seq::empty()
    } else {
        seq![view_node(s[0])] + view_list(s.drop_first())
    }
}

/// The mathematical form of a node.
pub open spec fn view_node(n: AstNode) -> SAst
    decreases n,
{
    match n {
        AstNode::PushNumber(v) => SAst::PushNumber(v),
        AstNode::CallWord(s) => SAst::CallWord(s@),
        AstNode::Sequence(v) => SAst::Sequence(view_list(v@)),
        AstNode::IfThenElse { then_branch, else_branch } => SAst::IfThenElse {
            then_branch: view_list(then_branch@),
            else_branch: match else_branch {
                Some(e) => Some(view_list(e@)),
                None => None,
            },
        },
        AstNode::BeginUntil { body } => SAst::BeginUntil { body: view_list(body@) },
        AstNode::BeginWhileRepeat { condition, body } => SAst::BeginWhileRepeat {
            condition: view_list(condition@),
            body: view_list(body@),
        },
        AstNode::DoLoop { body, increment, conditional } => SAst::DoLoop {
            body: view_list(body@),
            increment,
            conditional,
        },
        AstNode::PrintString(s) => SAst::PrintString(s@),
        AstNode::StackString(s) => SAst::StackString(s@),
        AstNode::Leave => SAst::Leave,
        AstNode::Exit => SAst::Exit,
        AstNode::Unloop => SAst::Unloop,
        AstNode::Execute => SAst::Execute,
        AstNode::InlineInstruction(s) => SAst::InlineInstruction(s@),
        AstNode::TickLiteral(s) => SAst::TickLiteral(s@),
    }
}

/// Length and elements of a list view.
pub proof fn lemma_view_list(s: Seq<AstNode>)
    ensures
        view_list(s).len() == s.len(),
        forall|i: int| 0 <= i < s.len() ==> #[trigger] view_list(s)[i] == view_node(s[i]),
    decreases s.len(),
{
    if s.len() > 0 {
        lemma_view_list(s.drop_first());
        assert forall|i: int| 0 <= i < s.len() implies #[trigger] view_list(s)[i] == view_node(s[i]) by {
            if i > 0 {
                assert(view_list(s)[i] == view_list(s.drop_first())[i - 1]);
            }
        }
    }
}

/// Message for an undefined word.
pub open spec fn undefined_word_msg(name: Seq<char>) -> Seq<char> {
    "Undefined word: "@ + name
}

/// Message for an undefined word after `[']`.
pub open spec fn undefined_tick_msg(name: Seq<char>) -> Seq<char> {
    "Undefined word in [']:  "@ + name
}

/// Validation of one node: every called word exists, except a call of the word
/// being defined (compared case-insensitively).
pub open spec fn validate_spec(node: SAst, d: DictView, def: Option<Seq<char>>) -> Result<(), Seq<char>>
    decreases node,
{
    match node {
        SAst::TickLiteral(name) => if d.lookup(name) is Some { Ok(()) } else {
            Err(undefined_tick_msg(name)) },
        SAst::CallWord(name) => {
            if def is Some && spec_to_uppercase(name) == spec_to_uppercase(def->0) {
                Ok(())
            } else if d.lookup(name) is Some {
                Ok(())
            } else {
                Err(undefined_word_msg(name))
            }
        },
        SAst::Sequence(nodes) => validate_list(nodes, d, def),
        SAst::IfThenElse { then_branch, else_branch } => {
            match validate_list(then_branch, d, def) {
                Err(e) => Err(e),
                Ok(()) => match else_branch {
                    Some(e) => validate_list(e, d, def),
                    None => Ok(()),
                },
            }
        },
        SAst::BeginUntil { body } => validate_list(body, d, def),
        SAst::BeginWhileRepeat { condition, body } => {
            match validate_list(condition, d, def) {
                Err(e) => Err(e),
                Ok(()) => validate_list(body, d, def),
            }
        },
        SAst::DoLoop { body, .. } => validate_list(body, d, def),
        _ => Ok(()),
    }
}

/// Validation of a list of nodes: the first error, in order.
pub open spec fn validate_list(nodes: Seq<SAst>, d: DictView, def: Option<Seq<char>>) -> Result<(), Seq<char>>
    decreases nodes,
{
    if nodes.len() == 0 {
        Ok(())
    } else {
        match validate_spec(nodes[0], d, def) {
            Err(e) => Err(e),
            Ok(()) => validate_list(nodes.subrange(1, nodes.len() as int), d, def),
        }
    }
}

/// Whether a call of `name` may stand in a definition of `def`: the word exists,
/// or it is the word being defined (compared case-insensitively).
pub open spec fn call_allowed(name: Seq<char>, d: DictView, def: Option<Seq<char>>) -> bool {
    (def is Some && spec_to_uppercase(name) == spec_to_uppercase(def->0)) || d.lookup(name) is Some
}

/// Whether every node of a list passes `calls_defined`.
pub open spec fn all_calls_defined(v: Seq<SAst>, d: DictView, def: Option<Seq<char>>) -> bool
    decreases v, 0int,
{
    forall|i: int| 0 <= i < v.len() ==> calls_defined(#[trigger] v[i], d, def)
}

/// Whether every word call nested anywhere in `n` (in sequences, both branches of
/// IF, loop bodies and conditions) is allowed, and every `[']` names an existing
/// word.
pub open spec fn calls_defined(n: SAst, d: DictView, def: Option<Seq<char>>) -> bool
    decreases n, 1int,
{
    match n {
        SAst::CallWord(name) => call_allowed(name, d, def),
        SAst::TickLiteral(name) => d.lookup(name) is Some,
        SAst::Sequence(v) => all_calls_defined(v, d, def),
        SAst::IfThenElse { then_branch, else_branch } => all_calls_defined(then_branch, d, def)
            && match else_branch {
                Some(e) => all_calls_defined(e, d, def),
                None => true,
            },
        SAst::BeginUntil { body } => all_calls_defined(body, d, def),
        SAst::BeginWhileRepeat { condition, body } => all_calls_defined(condition, d, def)
            && all_calls_defined(body, d, def),
        SAst::DoLoop { body, .. } => all_calls_defined(body, d, def),
        _ => true,
    }
}

/// Validation succeeds exactly when every nested call names an existing word or
/// the word being defined, and every `[']` names an existing word.
pub proof fn law_validate_iff_defined(n: SAst, d: DictView, def: Option<Seq<char>>)
    ensures
        validate_spec(n, d, def) is Ok <==> calls_defined(n, d, def),
    decreases n, 1int,
{
    match n {
        SAst::Sequence(v) => lemma_validate_list(v, d, def),
        SAst::IfThenElse { then_branch, else_branch } => {
            lemma_validate_list(then_branch, d, def);
            if let Some(e) = else_branch {
                lemma_validate_list(e, d, def);
            }
        },
        SAst::BeginUntil { body } => lemma_validate_list(body, d, def),
        SAst::BeginWhileRepeat { condition, body } => {
            lemma_validate_list(condition, d, def);
            lemma_validate_list(body, d, def);
        },
        SAst::DoLoop { body, .. } => lemma_validate_list(body, d, def),
        _ => {},
    }
}

proof fn lemma_validate_list(v: Seq<SAst>, d: DictView, def: Option<Seq<char>>)
    ensures
        validate_list(v, d, def) is Ok <==> all_calls_defined(v, d, def),
    decreases v, 0int,
{
    if v.len() > 0 {
        let rest = v.subrange(1, v.len() as int);
        law_validate_iff_defined(v[0], d, def);
        lemma_validate_list(rest, d, def);
        assert forall|i: int| 0 < i < v.len() implies v[i] == #[trigger] rest[i - 1] by {}
        if all_calls_defined(v, d, def) {
            assert(calls_defined(v[0], d, def));
            assert forall|i: int| 0 <= i < rest.len() implies calls_defined(#[trigger] rest[i], d, def) by {
                assert(rest[i] == v[i + 1]);
            }
        }
        if validate_list(v, d, def) is Ok {
            assert forall|i: int| 0 <= i < v.len() implies calls_defined(#[trigger] v[i], d, def) by {
                if i > 0 {
                    assert(v[i] == rest[i - 1]);
                }
            }
        }
    }
}

/// The view of an optional string slice.
pub open spec fn opt_view(o: Option<&str>) -> Option<Seq<char>> {
    match o {
        Some(s) => Some(s@),
        None => None,
    }
}

/// The view of a string result.
pub open spec fn result_view(r: Result<(), String>) -> Result<(), Seq<char>> {
    match r {
        Ok(()) => Ok(()),
        Err(e) => Err(e@),
    }
}

fn message(prefix: &str, name: &String) -> (s: String)
    ensures
        s@ == prefix@ + name@,
{
    let mut all = chars_of(prefix);
    let n = chars_of(name.as_str());
    extend_chars(&mut all, &n);
    string_from_chars(&all)
}

fn validate_all(nodes: &Vec<AstNode>, dict: &Dictionary, defining_word: Option<&str>) -> (r: Result<(), String>)
    ensures
        result_view(r) == validate_list(view_list(nodes@), dict@, opt_view(defining_word)),
    decreases nodes@, 0int,
{
    let ghost v = view_list(nodes@);
    proof { lemma_view_list(nodes@); }
    let mut i: usize = 0;
    assert(v.subrange(0, v.len() as int) =~= v);
    while i < nodes.len()
        invariant
            i <= nodes@.len(),
            v == view_list(nodes@),
            v.len() == nodes@.len(),
            forall|j: int| 0 <= j < v.len() ==> #[trigger] v[j] == view_node(nodes@[j]),
            validate_list(v, dict@, opt_view(defining_word))
                == validate_list(v.subrange(i as int, v.len() as int), dict@, opt_view(defining_word)),
        decreases nodes@.len() - i,
    {
        let ghost rest = v.subrange(i as int, v.len() as int);
        assert(rest[0] == v[i as int]);
        assert(rest.subrange(1, rest.len() as int) =~= v.subrange(i + 1, v.len() as int));
        assert(decreases_to!(nodes@ => nodes@[i as int]));
        match nodes[i].validate_with_name(dict, defining_word) {
            Err(e) => return Err(e),
            Ok(()) => {},
        }
        i = i + 1;
    }
    Ok(())
}

impl AstNode {
    /// Check that every word this AST calls exists in the dictionary.
    pub fn validate(&self, dict: &Dictionary) -> (r: Result<(), String>)
        ensures
            result_view(r) == validate_spec(view_node(*self), dict@, None),
    {
        self.validate_with_name(dict, None)
    }

    /// Check that every word this AST calls exists in the dictionary, allowing calls
    /// of `defining_word` (the word being defined, for recursion). Returns the first
    /// undefined word, in program order.
    pub fn validate_with_name(&self, dict: &Dictionary, defining_word: Option<&str>) -> (r: Result<(), String>)
        ensures
            result_view(r) == validate_spec(view_node(*self), dict@, opt_view(defining_word)),
        decreases *self, 1int,
    {
        match self {
            AstNode::TickLiteral(name) => {
                if dict.has_word(name.as_str()) {
                    Ok(())
                } else {
                    Err(message("Undefined word in [']:  ", name))
                }
            },
            AstNode::CallWord(name) => {
                match defining_word {
                    Some(def_name) => {
                        let a = to_uppercase(name.as_str());
                        let b = to_uppercase(def_name);
                        if str_eq(a.as_str(), b.as_str()) {
                            return Ok(());
                        }
                    },
                    None => {},
                }
                if dict.has_word(name.as_str()) {
                    Ok(())
                } else {
                    Err(message("Undefined word: ", name))
                }
            },
            AstNode::Sequence(nodes) => validate_all(nodes, dict, defining_word),
            AstNode::IfThenElse { then_branch, else_branch } => {
                match validate_all(then_branch, dict, defining_word) {
                    Err(e) => Err(e),
                    Ok(()) => match else_branch {
                        Some(e) => validate_all(e, dict, defining_word),
                        None => Ok(()),
                    },
                }
            },
            AstNode::BeginUntil { body } => validate_all(body, dict, defining_word),
            AstNode::BeginWhileRepeat { condition, body } => {
                match validate_all(condition, dict, defining_word) {
                    Err(e) => Err(e),
                    Ok(()) => validate_all(body, dict, defining_word),
                }
            },
            AstNode::DoLoop { body, .. } => validate_all(body, dict, defining_word),
            _ => Ok(()),
        }
    }
}

pub(crate) fn duplicate_list(v: &Vec<AstNode>) -> (r: Vec<AstNode>)
    ensures
        view_list(r@) == view_list(v@),
    decreases v@, 0int,
{
    let mut r: Vec<AstNode> = Vec::new();
    let mut i: usize = 0;
    proof { lemma_view_list(v@); }
    while i < v.len()
        invariant
            i <= v@.len(),
            r@.len() == i,
            forall|j: int| 0 <= j < i ==> view_node(#[trigger] r@[j]) == view_node(v@[j]),
        decreases v@.len() - i,
    {
        assert(decreases_to!(v@ => v@[i as int]));
        let c = v[i].duplicate();
        r.push(c);
        i = i + 1;
    }
    proof {
        lemma_view_list(r@);
        lemma_view_list(v@);
    }
    assert(view_list(r@) =~= view_list(v@));
    r
}

impl AstNode {
    /// A copy of this AST.
    pub fn duplicate(&self) -> (r: AstNode)
        ensures
            view_node(r) == view_node(*self),
        decreases *self, 1int,
    {
        match self {
            AstNode::PushNumber(v) => AstNode::PushNumber(*v),
            AstNode::CallWord(s) => AstNode::CallWord(s.clone()),
            AstNode::Sequence(v) => AstNode::Sequence(duplicate_list(v)),
            AstNode::IfThenElse { then_branch, else_branch } => AstNode::IfThenElse {
                then_branch: duplicate_list(then_branch),
                else_branch: match else_branch {
                    Some(e) => Some(duplicate_list(e)),
                    None => None,
                },
            },
            AstNode::BeginUntil { body } => AstNode::BeginUntil { body: duplicate_list(body) },
            AstNode::BeginWhileRepeat { condition, body } => AstNode::BeginWhileRepeat {
                condition: duplicate_list(condition),
                body: duplicate_list(body),
            },
            AstNode::DoLoop { body, increment, conditional } => AstNode::DoLoop {
                body: duplicate_list(body),
                increment: *increment,
                conditional: *conditional,
            },
            AstNode::PrintString(s) => AstNode::PrintString(s.clone()),
            AstNode::StackString(s) => AstNode::StackString(s.clone()),
            AstNode::Leave => AstNode::Leave,
            AstNode::Exit => AstNode::Exit,
            AstNode::Unloop => AstNode::Unloop,
            AstNode::Execute => AstNode::Execute,
            AstNode::InlineInstruction(s) => AstNode::InlineInstruction(s.clone()),
            AstNode::TickLiteral(s) => AstNode::TickLiteral(s.clone()),
        }
    }
}

} // verus!
