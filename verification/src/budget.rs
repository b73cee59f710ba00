//! The step budget only cuts runs short: a run that finished within its budget
//! ends the same way with any larger budget, and the extra steps are left over.

use vstd::prelude::*;
use crate::ast::SAst;
use crate::dictionary::{AWord, DictView};
use crate::interp::{run_node, run_list, run_do, run_word, run_evaluate, run_catch, tco_loop, tco_node,
    tco_list, exhausted, exit_marker, leave_marker, prepared, read_text, loop_increment, tail_call,
    ends_with_call, is_tail_rec, same_name, size, list_size, xt_name};
use crate::lexer::{split_ws, strip_spec};
use crate::machine::{MState, s_pop};
use crate::words::{Primitive, s_pop2};

verus! {

/// A run's result with `k` more steps left over.
pub open spec fn with_more<T>(r: (MState, T, nat), k: nat) -> (MState, T, nat) {
    (r.0, r.1, r.2 + k)
}

pub(crate) proof fn lemma_markers()
    ensures
        exhausted() != exit_marker(),
        exhausted() != leave_marker(),
{
    reveal_strlit("Execution step limit exceeded");
    reveal_strlit("EXIT");
    reveal_strlit("LEAVE");
    assert(exhausted().len() != exit_marker().len());
    assert(exhausted().len() != leave_marker().len());
}

/// Running a node with `k` more steps: a run that did not run out of steps ends
/// with the same state and outcome, and `k` more steps left.
pub proof fn law_budget_node(d: DictView, n: SAst, s: MState, f: nat, k: nat)
    requires
        run_node(d, n, s, f).1 != Err::<(), Seq<char>>(exhausted()),
    ensures
        run_node(d, n, s, f + k) == with_more(run_node(d, n, s, f), k),
    decreases f, size(n), 0nat,
{
    lemma_markers();
    let g = (f - 1) as nat;
    match n {
        SAst::CallWord(name) => {
            law_budget_word(d, name, s, g, k);
        },
        SAst::Sequence(v) => {
            lemma_budget_list(d, v, s, g, k);
        },
        SAst::IfThenElse { then_branch, else_branch } => {
            let (r, s1) = s_pop(s);
            if let Ok(Some(c)) = r {
                if c != 0 {
                    lemma_budget_list(d, then_branch, s1, g, k);
                } else if let Some(e) = else_branch {
                    lemma_budget_list(d, e, s1, g, k);
                }
            }
        },
        SAst::BeginUntil { body } => {
            let (s1, o1, g1) = run_list(d, body, s, g);
            lemma_budget_list(d, body, s, g, k);
            if o1 is Ok {
                let (r, s2) = s_pop(s1);
                if let Ok(Some(c)) = r {
                    if c == 0 && g1 <= g {
                        law_budget_node(d, n, s2, g1, k);
                    }
                }
            }
        },
        SAst::BeginWhileRepeat { condition, body } => {
            let (s1, o1, g1) = run_list(d, condition, s, g);
            lemma_budget_list(d, condition, s, g, k);
            if o1 is Ok {
                let (r, s2) = s_pop(s1);
                if let Ok(Some(c)) = r {
                    if c != 0 && g1 <= g {
                        let (s3, o3, g3) = run_list(d, body, s2, g1);
                        lemma_budget_list(d, body, s2, g1, k);
                        if o3 is Ok && g3 <= g {
                            law_budget_node(d, n, s3, g3, k);
                        }
                    }
                }
            }
        },
        SAst::DoLoop { body, increment, conditional } => {
            let (r, s1) = s_pop2(s);
            if let Ok((Some(start), Some(limit))) = r {
                if start < limit {
                    let s2 = MState { loops: s1.loops.push((start, limit)), ..s1 };
                    lemma_budget_do(d, body, increment, s2, g, k);
                }
            }
        },
        SAst::Execute => {
            let (r, s1) = s_pop(s);
            if let Ok(Some(xt)) = r {
                if let Ok(name) = xt_name(s1.mem, xt) {
                    law_budget_word(d, name, s1, g, k);
                }
            }
        },
        _ => {},
    }
}

proof fn lemma_budget_list(d: DictView, v: Seq<SAst>, s: MState, f: nat, k: nat)
    requires
        run_list(d, v, s, f).1 != Err::<(), Seq<char>>(exhausted()),
    ensures
        run_list(d, v, s, f + k) == with_more(run_list(d, v, s, f), k),
    decreases f, list_size(v), 0nat,
{
    if v.len() > 0 {
        let (s1, o1, f1) = run_node(d, v[0], s, f);
        law_budget_node(d, v[0], s, f, k);
        if o1 is Ok && f1 <= f {
            lemma_budget_list(d, v.subrange(1, v.len() as int), s1, f1, k);
        }
    }
}

proof fn lemma_budget_do(d: DictView, body: Seq<SAst>, inc: i64, s: MState, f: nat, k: nat)
    requires
        run_do(d, body, inc, s, f).1 != Err::<(), Seq<char>>(exhausted()),
    ensures
        run_do(d, body, inc, s, f + k) == with_more(run_do(d, body, inc, s, f), k),
    decreases f, 0nat, 0nat,
{
    lemma_markers();
    let g = (f - 1) as nat;
    let (s1, o1, g1) = run_list(d, body, s, g);
    lemma_budget_list(d, body, s, g, k);
    if o1 is Ok {
        let (ri, s2) = if inc == 0 { s_pop(s1) } else { (Ok(Some(inc)), s1) };
        if let Ok(Some(step)) = ri {
            let (s3, cont) = loop_increment(s2, step);
            if cont && g1 < f {
                lemma_budget_do(d, body, inc, s3, g1, k);
            }
        }
    }
}

/// Calling a word with `k` more steps: a call that did not run out of steps ends
/// with the same state and outcome, and `k` more steps left.
pub proof fn law_budget_word(d: DictView, name: Seq<char>, s: MState, f: nat, k: nat)
    requires
        run_word(d, name, s, f).1 != Err::<(), Seq<char>>(exhausted()),
    ensures
        run_word(d, name, s, f + k) == with_more(run_word(d, name, s, f), k),
    decreases f, 1nat, 0nat,
{
    lemma_markers();
    let g = (f - 1) as nat;
    match d.lookup(name) {
        Some(AWord::Primitive(p)) => {
            if p == Primitive::Evaluate {
                lemma_budget_evaluate(d, s, f, k);
            } else if p == Primitive::Catch {
                lemma_budget_catch(d, s, f, k);
            }
        },
        Some(AWord::Compiled(a)) => {
            if is_tail_rec(a, name) {
                lemma_budget_tco_loop(d, a, name, s, g, k);
            } else {
                law_budget_node(d, a, s, g, k);
            }
        },
        _ => {},
    }
}

proof fn lemma_budget_evaluate(d: DictView, s: MState, f: nat, k: nat)
    requires
        run_evaluate(d, s, f).1 != Err::<(), Seq<char>>(exhausted()),
    ensures
        run_evaluate(d, s, f + k) == with_more(run_evaluate(d, s, f), k),
    decreases f, 0nat, 0nat,
{
    let g = (f - 1) as nat;
    let (r, s1) = s_pop2(s);
    if let Ok((Some(len), Some(addr))) = r {
        if let Ok(code) = read_text(s1.mem, addr, len) {
            if let Ok(a) = prepared(split_ws(strip_spec(code)), true, d) {
                law_budget_node(d, a, s1, g, k);
            }
        }
    }
}

proof fn lemma_budget_catch(d: DictView, s: MState, f: nat, k: nat)
    requires
        run_catch(d, s, f).1 != Err::<(), Seq<char>>(exhausted()),
    ensures
        run_catch(d, s, f + k) == with_more(run_catch(d, s, f), k),
    decreases f, 0nat, 0nat,
{
    let g = (f - 1) as nat;
    let (r, s1) = s_pop2(s);
    if let Ok((Some(len), Some(addr))) = r {
        if let Ok(code) = read_text(s1.mem, addr, len) {
            if let Ok(a) = prepared(split_ws(code), false, d) {
                law_budget_node(d, a, s1, g, k);
            }
        }
    }
}

proof fn lemma_budget_tco_loop(d: DictView, a: SAst, w: Seq<char>, s: MState, f: nat, k: nat)
    requires
        tco_loop(d, a, w, s, f).1 != Err::<(), Seq<char>>(exhausted()),
    ensures
        tco_loop(d, a, w, s, f + k) == with_more(tco_loop(d, a, w, s, f), k),
    decreases f, 0nat, 0nat,
{
    lemma_markers();
    let (s1, r, f1) = tco_node(d, a, w, s, (f - 1) as nat);
    lemma_budget_tco_node(d, a, w, s, (f - 1) as nat, k);
    if r == Ok::<bool, Seq<char>>(true) && f1 < f {
        lemma_budget_tco_loop(d, a, w, s1, f1, k);
    }
}

proof fn lemma_budget_tco_node(d: DictView, n: SAst, w: Seq<char>, s: MState, f: nat, k: nat)
    requires
        tco_node(d, n, w, s, f).1 != Err::<bool, Seq<char>>(exhausted()),
    ensures
        tco_node(d, n, w, s, f + k) == with_more(tco_node(d, n, w, s, f), k),
    decreases f, size(n), 1nat,
{
    match n {
        SAst::Sequence(v) => {
            lemma_budget_tco_list(d, v, w, true, s, f, k);
        },
        SAst::IfThenElse { then_branch, else_branch } => {
            let (r, s1) = s_pop(s);
            if let Ok(Some(c)) = r {
                if c != 0 {
                    lemma_budget_tco_list(d, then_branch, w, false, s1, f, k);
                } else if let Some(e) = else_branch {
                    lemma_budget_tco_list(d, e, w, false, s1, f, k);
                }
            }
        },
        SAst::CallWord(nm) => {
            if !same_name(nm, w) {
                law_budget_word(d, nm, s, f, k);
            }
        },
        _ => {
            law_budget_node(d, n, s, f, k);
        },
    }
}

proof fn lemma_budget_tco_list(d: DictView, v: Seq<SAst>, w: Seq<char>, allow_if: bool, s: MState, f: nat,
    k: nat)
    requires
        tco_list(d, v, w, allow_if, s, f).1 != Err::<bool, Seq<char>>(exhausted()),
    ensures
        tco_list(d, v, w, allow_if, s, f + k) == with_more(tco_list(d, v, w, allow_if, s, f), k),
    decreases f, list_size(v), 1nat,
{
    if v.len() == 0 {
    } else if v.len() == 1 && tail_call(v[0], w) {
    } else if v.len() == 1 && allow_if && (v[0] matches SAst::IfThenElse { then_branch, else_branch }
        && (ends_with_call(then_branch, w) || (else_branch matches Some(e) && ends_with_call(e, w)))) {
        lemma_budget_tco_node(d, v[0], w, s, f, k);
    } else {
        let (s1, o1, f1) = run_node(d, v[0], s, f);
        law_budget_node(d, v[0], s, f, k);
        if o1 is Ok && v.len() != 1 && f1 <= f {
            lemma_budget_tco_list(d, v.subrange(1, v.len() as int), w, allow_if, s1, f1, k);
        }
    }
}

/// A run never ends with more steps than it started with.
pub proof fn lemma_steps_node(d: DictView, n: SAst, s: MState, f: nat)
    ensures
        run_node(d, n, s, f).2 <= f,
    decreases f, size(n), 0nat,
{
    if f > 0 {
        let g = (f - 1) as nat;
        match n {
            SAst::CallWord(name) => {
                lemma_steps_word(d, name, s, g);
            },
            SAst::Sequence(v) => {
                lemma_steps_list(d, v, s, g);
            },
            SAst::IfThenElse { then_branch, else_branch } => {
                let (r, s1) = s_pop(s);
                if let Ok(Some(c)) = r {
                    if c != 0 {
                        lemma_steps_list(d, then_branch, s1, g);
                    } else if let Some(e) = else_branch {
                        lemma_steps_list(d, e, s1, g);
                    }
                }
            },
            SAst::BeginUntil { body } => {
                let (s1, o1, g1) = run_list(d, body, s, g);
                lemma_steps_list(d, body, s, g);
                if o1 is Ok {
                    let (r, s2) = s_pop(s1);
                    if let Ok(Some(c)) = r {
                        if c == 0 && g1 <= g {
                            lemma_steps_node(d, n, s2, g1);
                        }
                    }
                }
            },
            SAst::BeginWhileRepeat { condition, body } => {
                let (s1, o1, g1) = run_list(d, condition, s, g);
                lemma_steps_list(d, condition, s, g);
                if o1 is Ok {
                    let (r, s2) = s_pop(s1);
                    if let Ok(Some(c)) = r {
                        if c != 0 && g1 <= g {
                            let (s3, o3, g3) = run_list(d, body, s2, g1);
                            lemma_steps_list(d, body, s2, g1);
                            if o3 is Ok && g3 <= g {
                                lemma_steps_node(d, n, s3, g3);
                            }
                        }
                    }
                }
            },
            SAst::DoLoop { body, increment, conditional } => {
                let (r, s1) = s_pop2(s);
                if let Ok((Some(start), Some(limit))) = r {
                    if start < limit {
                        let s2 = MState { loops: s1.loops.push((start, limit)), ..s1 };
                        lemma_steps_do(d, body, increment, s2, g);
                    }
                }
            },
            SAst::Execute => {
                let (r, s1) = s_pop(s);
                if let Ok(Some(xt)) = r {
                    if let Ok(name) = xt_name(s1.mem, xt) {
                        lemma_steps_word(d, name, s1, g);
                    }
                }
            },
            _ => {},
        }
    }
}

proof fn lemma_steps_list(d: DictView, v: Seq<SAst>, s: MState, f: nat)
    ensures
        run_list(d, v, s, f).2 <= f,
    decreases f, list_size(v), 0nat,
{
    if v.len() > 0 {
        let (s1, o1, f1) = run_node(d, v[0], s, f);
        lemma_steps_node(d, v[0], s, f);
        if o1 is Ok && f1 <= f {
            lemma_steps_list(d, v.subrange(1, v.len() as int), s1, f1);
        }
    }
}

proof fn lemma_steps_do(d: DictView, body: Seq<SAst>, inc: i64, s: MState, f: nat)
    ensures
        run_do(d, body, inc, s, f).2 <= f,
    decreases f, 0nat, 0nat,
{
    if f > 0 {
        let g = (f - 1) as nat;
        let (s1, o1, g1) = run_list(d, body, s, g);
        lemma_steps_list(d, body, s, g);
        if o1 is Ok {
            let (ri, s2) = if inc == 0 { s_pop(s1) } else { (Ok(Some(inc)), s1) };
            if let Ok(Some(step)) = ri {
                let (s3, cont) = loop_increment(s2, step);
                if cont && g1 < f {
                    lemma_steps_do(d, body, inc, s3, g1);
                }
            }
        }
    }
}

/// A word call never ends with more steps than it started with.
pub proof fn lemma_steps_word(d: DictView, name: Seq<char>, s: MState, f: nat)
    ensures
        run_word(d, name, s, f).2 <= f,
    decreases f, 1nat, 0nat,
{
    if f > 0 {
        let g = (f - 1) as nat;
        match d.lookup(name) {
            Some(AWord::Primitive(p)) => {
                if p == Primitive::Evaluate {
                    lemma_steps_evaluate(d, s, f);
                } else if p == Primitive::Catch {
                    lemma_steps_catch(d, s, f);
                }
            },
            Some(AWord::Compiled(a)) => {
                if is_tail_rec(a, name) {
                    lemma_steps_tco_loop(d, a, name, s, g);
                } else {
                    lemma_steps_node(d, a, s, g);
                }
            },
            _ => {},
        }
    }
}

proof fn lemma_steps_evaluate(d: DictView, s: MState, f: nat)
    ensures
        run_evaluate(d, s, f).2 <= f,
    decreases f, 0nat, 0nat,
{
    if f > 0 {
        let g = (f - 1) as nat;
        let (r, s1) = s_pop2(s);
        if let Ok((Some(len), Some(addr))) = r {
            if let Ok(code) = read_text(s1.mem, addr, len) {
                if let Ok(a) = prepared(split_ws(strip_spec(code)), true, d) {
                    lemma_steps_node(d, a, s1, g);
                }
            }
        }
    }
}

proof fn lemma_steps_catch(d: DictView, s: MState, f: nat)
    ensures
        run_catch(d, s, f).2 <= f,
    decreases f, 0nat, 0nat,
{
    if f > 0 {
        let g = (f - 1) as nat;
        let (r, s1) = s_pop2(s);
        if let Ok((Some(len), Some(addr))) = r {
            if let Ok(code) = read_text(s1.mem, addr, len) {
                if let Ok(a) = prepared(split_ws(code), false, d) {
                    lemma_steps_node(d, a, s1, g);
                }
            }
        }
    }
}

/// The loop of a tail-recursive word never ends with more steps than it started
/// with.
pub proof fn lemma_steps_tco_loop(d: DictView, a: SAst, w: Seq<char>, s: MState, f: nat)
    ensures
        tco_loop(d, a, w, s, f).2 <= f,
    decreases f, 0nat, 0nat,
{
    if f > 0 {
        let (s1, r, f1) = tco_node(d, a, w, s, (f - 1) as nat);
        lemma_steps_tco_node(d, a, w, s, (f - 1) as nat);
        if r == Ok::<bool, Seq<char>>(true) && f1 < f {
            lemma_steps_tco_loop(d, a, w, s1, f1);
        }
    }
}

/// One pass of a tail-recursive word body never ends with more steps than it
/// started with.
pub proof fn lemma_steps_tco_node(d: DictView, n: SAst, w: Seq<char>, s: MState, f: nat)
    ensures
        tco_node(d, n, w, s, f).2 <= f,
    decreases f, size(n), 1nat,
{
    match n {
        SAst::Sequence(v) => {
            lemma_steps_tco_list(d, v, w, true, s, f);
        },
        SAst::IfThenElse { then_branch, else_branch } => {
            let (r, s1) = s_pop(s);
            if let Ok(Some(c)) = r {
                if c != 0 {
                    lemma_steps_tco_list(d, then_branch, w, false, s1, f);
                } else if let Some(e) = else_branch {
                    lemma_steps_tco_list(d, e, w, false, s1, f);
                }
            }
        },
        SAst::CallWord(nm) => {
            if !same_name(nm, w) {
                lemma_steps_word(d, nm, s, f);
            }
        },
        _ => {
            lemma_steps_node(d, n, s, f);
        },
    }
}

proof fn lemma_steps_tco_list(d: DictView, v: Seq<SAst>, w: Seq<char>, allow_if: bool, s: MState, f: nat)
    ensures
        tco_list(d, v, w, allow_if, s, f).2 <= f,
    decreases f, list_size(v), 1nat,
{
    if v.len() == 0 {
    } else if v.len() == 1 && tail_call(v[0], w) {
    } else if v.len() == 1 && allow_if && (v[0] matches SAst::IfThenElse { then_branch, else_branch }
        && (ends_with_call(then_branch, w) || (else_branch matches Some(e) && ends_with_call(e, w)))) {
        lemma_steps_tco_node(d, v[0], w, s, f);
    } else {
        let (s1, o1, f1) = run_node(d, v[0], s, f);
        lemma_steps_node(d, v[0], s, f);
        if o1 is Ok && v.len() != 1 && f1 <= f {
            lemma_steps_tco_list(d, v.subrange(1, v.len() as int), w, allow_if, s1, f1);
        }
    }
}

} // verus!
