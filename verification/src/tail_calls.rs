//! Tail calls: a word whose body ends by calling itself runs as a loop, and each
//! pass of the loop ends the same way as running the body with that last call made
//! as an ordinary call of the word.

use vstd::prelude::*;
use crate::ast::SAst;
use crate::budget::{law_budget_node, lemma_markers, lemma_steps_tco_node, lemma_steps_node};
use crate::dictionary::{AWord, DictView};
use crate::interp::{run_node, run_list, run_word, tco_loop, tco_node, tco_list, exhausted, exit_marker,
    absorb_exit, tail_call, ends_with_call, is_tail_rec, same_name, size, list_size};
use crate::machine::{MState, Outcome, s_pop};

verus! {

/// Every call in tail position (as `is_tail_rec` looks for them) that names `w`
/// up to case names it exactly.
pub open spec fn tail_calls_exact(n: SAst, w: Seq<char>) -> bool
    decreases n,
{
    match n {
        SAst::CallWord(nm) => same_name(nm, w) ==> nm == w,
        SAst::Sequence(v) => v.len() > 0 ==> tail_calls_exact(v[v.len() - 1], w),
        SAst::IfThenElse { then_branch, else_branch } => {
            &&& (then_branch.len() > 0 ==> tail_calls_exact(then_branch[then_branch.len() - 1], w))
            &&& match else_branch {
                Some(e) => e.len() > 0 ==> tail_calls_exact(e[e.len() - 1], w),
                None => true,
            }
        },
        _ => true,
    }
}

/// The outcome of running `n` given the outcome of its contents: a sequence turns
/// EXIT into success.
pub open spec fn node_abs(n: SAst, o: Outcome) -> Outcome {
    if n is Sequence { absorb_exit(o) } else { o }
}

/// A plain run of `n` that ends with the call `c` as its last action.
pub open spec fn ends_with(n: SAst, c: (MState, Outcome, nat)) -> (MState, Outcome, nat) {
    (c.0, node_abs(n, c.1), c.2)
}

/// How a plain run of `n` started with `f + e` steps (or more) compares with one
/// pass of the loop over `n` started with `f` steps: the same state and outcome,
/// and where the pass stopped at a call of `w`, the plain run makes that call
/// with the steps it has left.
pub open spec fn plain_matches_pass(d: DictView, n: SAst, w: Seq<char>, s: MState, f: nat, e: nat) -> bool {
    let (s1, r, f1) = tco_node(d, n, w, s, f);
    match r {
        Ok(true) => forall|g: nat| f + e <= g ==> #[trigger] run_node(d, n, s, g)
            == ends_with(n, run_word(d, w, s1, (g - f - e + f1) as nat)),
        Ok(false) => run_node(d, n, s, f + e) == (s1, Ok::<(), Seq<char>>(()), f1),
        Err(x) => run_node(d, n, s, f + e) == (s1, node_abs(n, Err(x)), f1),
    }
}

/// The same comparison for a list of nodes.
pub open spec fn plain_list_matches_pass(d: DictView, v: Seq<SAst>, w: Seq<char>, allow_if: bool, s: MState,
    f: nat, e: nat) -> bool
{
    let (s1, r, f1) = tco_list(d, v, w, allow_if, s, f);
    match r {
        Ok(true) => forall|g: nat| f + e <= g ==> #[trigger] run_list(d, v, s, g)
            == run_word(d, w, s1, (g - f - e + f1) as nat),
        Ok(false) => run_list(d, v, s, f + e) == (s1, Ok::<(), Seq<char>>(()), f1),
        Err(x) => run_list(d, v, s, f + e) == (s1, Err::<(), Seq<char>>(x), f1),
    }
}

proof fn lemma_unit_ok(o: Outcome)
    ensures
        o is Ok ==> o == Ok::<(), Seq<char>>(()),
{
    if let Ok(u) = o {
        assert(u == ());
    }
}

proof fn lemma_run_list_one(d: DictView, v: Seq<SAst>, s: MState, g: nat)
    requires
        v.len() == 1,
    ensures
        run_list(d, v, s, g) == run_node(d, v[0], s, g),
{
    let (s1, o1, f1) = run_node(d, v[0], s, g);
    lemma_unit_ok(o1);
    assert(v.subrange(1, v.len() as int) =~= Seq::<SAst>::empty());
    assert(run_list(d, Seq::<SAst>::empty(), s1, f1) == (s1, Ok::<(), Seq<char>>(()), f1));
}

proof fn lemma_run_list_step(d: DictView, v: Seq<SAst>, s: MState, g: nat)
    requires
        v.len() > 1,
        run_node(d, v[0], s, g).1 is Ok,
        run_node(d, v[0], s, g).2 <= g,
    ensures
        run_list(d, v, s, g) == run_list(d, v.subrange(1, v.len() as int), run_node(d, v[0], s, g).0,
            run_node(d, v[0], s, g).2),
{
}

proof fn lemma_run_call(d: DictView, nm: Seq<char>, s: MState, g: nat)
    requires
        g > 0,
    ensures
        run_node(d, SAst::CallWord(nm), s, g) == run_word(d, nm, s, (g - 1) as nat),
{
}

proof fn lemma_run_seq(d: DictView, v: Seq<SAst>, s: MState, g: nat)
    requires
        g > 0,
    ensures
        run_node(d, SAst::Sequence(v), s, g) == ends_with(SAst::Sequence(v), run_list(d, v, s, (g - 1) as nat)),
{
}

proof fn lemma_run_if(d: DictView, t: Seq<SAst>, el: Option<Seq<SAst>>, s: MState, g: nat)
    requires
        g > 0,
    ensures
        ({
            let n = SAst::IfThenElse { then_branch: t, else_branch: el };
            let (r, s1) = s_pop(s);
            match r {
                Ok(Some(c)) => run_node(d, n, s, g) == if c != 0 {
                    run_list(d, t, s1, (g - 1) as nat)
                } else {
                    match el {
                        Some(e) => run_list(d, e, s1, (g - 1) as nat),
                        None => (s1, Ok::<(), Seq<char>>(()), (g - 1) as nat),
                    }
                },
                Ok(None) => run_node(d, n, s, g) == (s1, Err::<(), Seq<char>>("Stack underflow in IF"@),
                    (g - 1) as nat),
                Err(x) => run_node(d, n, s, g) == (s1, Err::<(), Seq<char>>(x), (g - 1) as nat),
            }
        }),
{
}

proof fn lemma_pass_node(d: DictView, n: SAst, w: Seq<char>, s: MState, f: nat) -> (e: nat)
    requires
        tail_calls_exact(n, w),
        tco_node(d, n, w, s, f).1 != Err::<bool, Seq<char>>(exhausted()),
    ensures
        plain_matches_pass(d, n, w, s, f, e),
    decreases f, size(n), 2nat,
{
    match n {
        SAst::Sequence(v) => lemma_pass_seq(d, n, v, w, s, f),
        SAst::IfThenElse { then_branch, else_branch } => lemma_pass_if(d, n, then_branch, else_branch, w, s, f),
        SAst::CallWord(nm) => {
            lemma_pass_call(d, nm, w, s, f);
            1
        },
        _ => {
            lemma_unit_ok(run_node(d, n, s, f).1);
            0
        },
    }
}

proof fn lemma_pass_call(d: DictView, nm: Seq<char>, w: Seq<char>, s: MState, f: nat)
    requires
        tail_calls_exact(SAst::CallWord(nm), w),
    ensures
        plain_matches_pass(d, SAst::CallWord(nm), w, s, f, 1),
{
    let n = SAst::CallWord(nm);
    lemma_run_call(d, nm, s, f + 1);
    lemma_unit_ok(run_word(d, nm, s, f).1);
    if same_name(nm, w) {
        assert forall|g: nat| f + 1 <= g implies #[trigger] run_node(d, n, s, g)
            == ends_with(n, run_word(d, w, s, (g - f - 1 + f) as nat)) by {
            lemma_run_call(d, nm, s, g);
        }
    }
}

proof fn lemma_pass_seq(d: DictView, n: SAst, v: Seq<SAst>, w: Seq<char>, s: MState, f: nat) -> (e: nat)
    requires
        n == SAst::Sequence(v),
        tail_calls_exact(n, w),
        tco_node(d, n, w, s, f).1 != Err::<bool, Seq<char>>(exhausted()),
    ensures
        plain_matches_pass(d, n, w, s, f, e),
    decreases f, size(n), 1nat,
{
    let e1 = lemma_pass_list(d, v, w, true, s, f);
    let (s1, r, f1) = tco_list(d, v, w, true, s, f);
    lemma_run_seq(d, v, s, f + e1 + 1);
    if r == Ok::<bool, Seq<char>>(true) {
        assert forall|g: nat| f + (e1 + 1) <= g implies #[trigger] run_node(d, n, s, g)
            == ends_with(n, run_word(d, w, s1, (g - f - (e1 + 1) + f1) as nat)) by {
            lemma_run_seq(d, v, s, g);
            assert(f + e1 <= (g - 1) as nat);
            assert(run_list(d, v, s, (g - 1) as nat)
                == run_word(d, w, s1, ((g - 1) as nat - f - e1 + f1) as nat));
        }
    }
    lemma_unit_ok(run_list(d, v, s, f + e1).1);
    e1 + 1
}

proof fn lemma_pass_if(d: DictView, n: SAst, t: Seq<SAst>, el: Option<Seq<SAst>>, w: Seq<char>, s: MState, f: nat)
    -> (e: nat)
    requires
        n == (SAst::IfThenElse { then_branch: t, else_branch: el }),
        tail_calls_exact(n, w),
        tco_node(d, n, w, s, f).1 != Err::<bool, Seq<char>>(exhausted()),
    ensures
        plain_matches_pass(d, n, w, s, f, e),
    decreases f, size(n), 1nat,
{
    let (r, s1) = s_pop(s);
    lemma_run_if(d, t, el, s, f + 1);
    match r {
        Ok(Some(c)) => {
            let branch = if c != 0 { Some(t) } else { el };
            match branch {
                Some(b) => {
                    let e1 = lemma_pass_list(d, b, w, false, s1, f);
                    let (s2, r2, f2) = tco_list(d, b, w, false, s1, f);
                    lemma_run_if(d, t, el, s, f + e1 + 1);
                    if r2 == Ok::<bool, Seq<char>>(true) {
                        assert forall|g: nat| f + (e1 + 1) <= g implies #[trigger] run_node(d, n, s, g)
                            == ends_with(n, run_word(d, w, s2, (g - f - (e1 + 1) + f2) as nat)) by {
                            lemma_run_if(d, t, el, s, g);
                            assert(f + e1 <= (g - 1) as nat);
                            assert(run_list(d, b, s1, (g - 1) as nat)
                                == run_word(d, w, s2, ((g - 1) as nat - f - e1 + f2) as nat));
                        }
                    }
                    lemma_unit_ok(run_list(d, b, s1, f + e1).1);
                    e1 + 1
                },
                None => 1,
            }
        },
        _ => 1,
    }
}

proof fn lemma_pass_list(d: DictView, v: Seq<SAst>, w: Seq<char>, allow_if: bool, s: MState, f: nat) -> (e: nat)
    requires
        v.len() > 0 ==> tail_calls_exact(v[v.len() - 1], w),
        tco_list(d, v, w, allow_if, s, f).1 != Err::<bool, Seq<char>>(exhausted()),
    ensures
        plain_list_matches_pass(d, v, w, allow_if, s, f, e),
    decreases f, list_size(v), 2nat,
{
    if v.len() == 0 {
        0
    } else if v.len() == 1 && tail_call(v[0], w) {
        lemma_pass_list_tail(d, v, w, allow_if, s, f);
        1
    } else if v.len() == 1 && allow_if && (v[0] matches SAst::IfThenElse { then_branch, else_branch }
        && (ends_with_call(then_branch, w) || (else_branch matches Some(e) && ends_with_call(e, w)))) {
        lemma_pass_list_if(d, v, w, s, f)
    } else {
        lemma_pass_list_run(d, v, w, allow_if, s, f)
    }
}

proof fn lemma_pass_list_tail(d: DictView, v: Seq<SAst>, w: Seq<char>, allow_if: bool, s: MState, f: nat)
    requires
        v.len() == 1,
        tail_call(v[0], w),
        tail_calls_exact(v[0], w),
    ensures
        plain_list_matches_pass(d, v, w, allow_if, s, f, 1),
{
    if let SAst::CallWord(nm) = v[0] {
        assert(nm == w);
        assert forall|g: nat| f + 1 <= g implies #[trigger] run_list(d, v, s, g)
            == run_word(d, w, s, (g - f - 1 + f) as nat) by {
            lemma_run_list_one(d, v, s, g);
            lemma_run_call(d, nm, s, g);
        }
    }
}

proof fn lemma_pass_list_if(d: DictView, v: Seq<SAst>, w: Seq<char>, s: MState, f: nat) -> (e: nat)
    requires
        v.len() == 1,
        !tail_call(v[0], w),
        v[0] matches SAst::IfThenElse { then_branch, else_branch }
            && (ends_with_call(then_branch, w) || (else_branch matches Some(e) && ends_with_call(e, w))),
        tail_calls_exact(v[0], w),
        tco_list(d, v, w, true, s, f).1 != Err::<bool, Seq<char>>(exhausted()),
    ensures
        plain_list_matches_pass(d, v, w, true, s, f, e),
    decreases f, list_size(v), 1nat,
{
    assert(tco_list(d, v, w, true, s, f) == tco_node(d, v[0], w, s, f));
    let e1 = lemma_pass_node(d, v[0], w, s, f);
    let (s1, r, f1) = tco_node(d, v[0], w, s, f);
    lemma_run_list_one(d, v, s, f + e1);
    if r == Ok::<bool, Seq<char>>(true) {
        assert forall|g: nat| f + e1 <= g implies #[trigger] run_list(d, v, s, g)
            == run_word(d, w, s1, (g - f - e1 + f1) as nat) by {
            lemma_run_list_one(d, v, s, g);
            assert(run_node(d, v[0], s, g) == ends_with(v[0], run_word(d, w, s1, (g - f - e1 + f1) as nat)));
        }
    }
    lemma_unit_ok(run_node(d, v[0], s, f + e1).1);
    e1
}

proof fn lemma_pass_list_run(d: DictView, v: Seq<SAst>, w: Seq<char>, allow_if: bool, s: MState, f: nat)
    -> (e: nat)
    requires
        v.len() > 0,
        tail_calls_exact(v[v.len() - 1], w),
        !(v.len() == 1 && tail_call(v[0], w)),
        !(v.len() == 1 && allow_if && (v[0] matches SAst::IfThenElse { then_branch, else_branch }
            && (ends_with_call(then_branch, w) || (else_branch matches Some(e) && ends_with_call(e, w))))),
        tco_list(d, v, w, allow_if, s, f).1 != Err::<bool, Seq<char>>(exhausted()),
    ensures
        plain_list_matches_pass(d, v, w, allow_if, s, f, e),
    decreases f, list_size(v), 1nat,
{
    let (s1, o1, f1) = run_node(d, v[0], s, f);
    if o1 is Ok && v.len() != 1 && f1 <= f {
        let rest = v.subrange(1, v.len() as int);
        assert(rest[rest.len() - 1] == v[v.len() - 1]);
        lemma_tco_list_cons(d, v, w, allow_if, s, f);
        let e1 = lemma_pass_list(d, rest, w, allow_if, s1, f1);
        lemma_plain_list_cons(d, v, w, allow_if, s, f, e1);
        e1
    } else {
        lemma_pass_list_stop(d, v, w, allow_if, s, f);
        0
    }
}

proof fn lemma_tco_list_cons(d: DictView, v: Seq<SAst>, w: Seq<char>, allow_if: bool, s: MState, f: nat)
    requires
        v.len() > 1,
        run_node(d, v[0], s, f).1 is Ok,
        run_node(d, v[0], s, f).2 <= f,
        !(v.len() == 1 && tail_call(v[0], w)),
    ensures
        tco_list(d, v, w, allow_if, s, f) == tco_list(d, v.subrange(1, v.len() as int), w, allow_if,
            run_node(d, v[0], s, f).0, run_node(d, v[0], s, f).2),
{
}

proof fn lemma_pass_list_stop(d: DictView, v: Seq<SAst>, w: Seq<char>, allow_if: bool, s: MState, f: nat)
    requires
        v.len() > 0,
        !(v.len() == 1 && tail_call(v[0], w)),
        !(v.len() == 1 && allow_if && (v[0] matches SAst::IfThenElse { then_branch, else_branch }
            && (ends_with_call(then_branch, w) || (else_branch matches Some(e) && ends_with_call(e, w))))),
        !(run_node(d, v[0], s, f).1 is Ok && v.len() != 1 && run_node(d, v[0], s, f).2 <= f),
    ensures
        plain_list_matches_pass(d, v, w, allow_if, s, f, 0),
{
    let (s1, o1, f1) = run_node(d, v[0], s, f);
    if v.len() == 1 {
        lemma_run_list_one(d, v, s, f);
    }
    lemma_unit_ok(o1);
    lemma_unit_ok(run_list(d, v, s, f).1);
}

proof fn lemma_plain_list_cons(d: DictView, v: Seq<SAst>, w: Seq<char>, allow_if: bool, s: MState, f: nat,
    e1: nat)
    requires
        v.len() > 1,
        run_node(d, v[0], s, f).1 is Ok,
        run_node(d, v[0], s, f).2 <= f,
        tco_list(d, v, w, allow_if, s, f) == tco_list(d, v.subrange(1, v.len() as int), w, allow_if,
            run_node(d, v[0], s, f).0, run_node(d, v[0], s, f).2),
        plain_list_matches_pass(d, v.subrange(1, v.len() as int), w, allow_if, run_node(d, v[0], s, f).0,
            run_node(d, v[0], s, f).2, e1),
    ensures
        plain_list_matches_pass(d, v, w, allow_if, s, f, e1),
{
    let (s1, o1, f1) = run_node(d, v[0], s, f);
    let rest = v.subrange(1, v.len() as int);
    let (s2, r2, f2) = tco_list(d, rest, w, allow_if, s1, f1);
    law_budget_node(d, v[0], s, f, e1);
    lemma_run_list_step(d, v, s, f + e1);
    if r2 == Ok::<bool, Seq<char>>(true) {
        assert forall|g: nat| f + e1 <= g implies #[trigger] run_list(d, v, s, g)
            == run_word(d, w, s2, (g - f - e1 + f2) as nat) by {
            law_budget_node(d, v[0], s, f, (g - f) as nat);
            lemma_run_list_step(d, v, s, g);
            assert(f1 + e1 <= f1 + (g - f) as nat);
            assert(run_list(d, rest, s1, f1 + (g - f) as nat)
                == run_word(d, w, s2, ((f1 + (g - f) as nat) - f1 - e1 + f2) as nat));
        }
    }
    lemma_unit_ok(run_list(d, rest, s1, f1 + e1).1);
}

proof fn lemma_loop_never_exit(d: DictView, a: SAst, w: Seq<char>, s: MState, f: nat)
    ensures
        tco_loop(d, a, w, s, f).1 != Err::<(), Seq<char>>(exit_marker()),
    decreases f,
{
    reveal_strlit("Execution step limit exceeded");
    reveal_strlit("EXIT");
    assert(exhausted().len() != exit_marker().len());
    if f > 0 {
        let (s1, r, f1) = tco_node(d, a, w, s, (f - 1) as nat);
        if r == Ok::<bool, Seq<char>>(true) && f1 < f {
            lemma_loop_never_exit(d, a, w, s1, f1);
        }
    }
}

/// Tail calls are loops that mean what the calls mean: for a word `w` whose body
/// `a` ends by calling `w` (and names it exactly there), the loop that runs it ends
/// in the same state and with the same outcome as running `a` once with that last
/// call made as an ordinary call of `w`, given enough steps.
pub proof fn law_tail_call_loop(d: DictView, w: Seq<char>, a: SAst, s: MState, f: nat)
    requires
        d.lookup(w) == Some(AWord::Compiled(a)),
        is_tail_rec(a, w),
        tail_calls_exact(a, w),
        tco_loop(d, a, w, s, f).1 != Err::<(), Seq<char>>(exhausted()),
    ensures
        exists|g: nat| #![trigger run_node(d, a, s, g)]
            run_node(d, a, s, g).0 == tco_loop(d, a, w, s, f).0
            && absorb_exit(run_node(d, a, s, g).1) == tco_loop(d, a, w, s, f).1,
{
    lemma_markers();
    let (s1, r, f1) = tco_node(d, a, w, s, (f - 1) as nat);
    let e = lemma_pass_node(d, a, w, s, (f - 1) as nat);
    lemma_steps_tco_node(d, a, w, s, (f - 1) as nat);
    match r {
        Ok(true) => {
            let g = (f - 1) as nat + e + 1;
            assert(run_node(d, a, s, g) == ends_with(a, run_word(d, w, s1, (g - (f - 1) as nat - e + f1) as nat)));
            assert(run_word(d, w, s1, f1 + 1) == tco_loop(d, a, w, s1, f1));
            lemma_loop_never_exit(d, a, w, s1, f1);
            assert(run_node(d, a, s, g).0 == tco_loop(d, a, w, s, f).0);
        },
        Ok(false) => {
            assert(run_node(d, a, s, (f - 1) as nat + e).0 == tco_loop(d, a, w, s, f).0);
        },
        Err(x) => {
            assert(run_node(d, a, s, (f - 1) as nat + e).0 == tco_loop(d, a, w, s, f).0);
        },
    }
}

/// The tail-call check on a body that ends with a call of the word itself runs the
/// nodes before that call, in order, and, when they succeed, stops with `true` in
/// the state they left, without making the call.
pub proof fn law_tail_check_stops(d: DictView, v: Seq<SAst>, w: Seq<char>, allow_if: bool, s: MState, f: nat)
    requires
        v.len() > 0,
        tail_call(v[v.len() - 1], w),
        run_list(d, v.take(v.len() - 1), s, f).1 is Ok,
    ensures
        tco_list(d, v, w, allow_if, s, f) == (run_list(d, v.take(v.len() - 1), s, f).0,
            Ok::<bool, Seq<char>>(true), run_list(d, v.take(v.len() - 1), s, f).2),
        tco_node(d, SAst::Sequence(v), w, s, f) == (run_list(d, v.take(v.len() - 1), s, f).0,
            Ok::<bool, Seq<char>>(true), run_list(d, v.take(v.len() - 1), s, f).2),
    decreases v.len(),
{
    let p = v.take(v.len() - 1);
    if v.len() == 1 {
        assert(p =~= Seq::<SAst>::empty());
    } else {
        let (s1, o1, f1) = run_node(d, v[0], s, f);
        lemma_steps_node(d, v[0], s, f);
        assert(p[0] == v[0]);
        let rest = v.subrange(1, v.len() as int);
        assert(p.subrange(1, p.len() as int) =~= rest.take(rest.len() - 1));
        assert(rest[rest.len() - 1] == v[v.len() - 1]);
        assert(o1 is Ok);
        assert(run_list(d, p, s, f) == run_list(d, rest.take(rest.len() - 1), s1, f1));
        law_tail_check_stops(d, rest, w, allow_if, s1, f1);
        law_tail_check_stops(d, rest, w, true, s1, f1);
    }
}

/// A call of the word itself, checked alone, stops at once with `true` and changes
/// nothing.
pub proof fn law_tail_check_call(d: DictView, n: SAst, w: Seq<char>, s: MState, f: nat)
    requires
        tail_call(n, w),
    ensures
        tco_node(d, n, w, s, f) == (s, Ok::<bool, Seq<char>>(true), f),
{
}

} // verus!
