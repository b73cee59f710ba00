//! The word dictionary.
//!
//! Entries are kept in definition order; a lookup finds the most recent entry with
//! the given name. Redefining a name replaces its entry in place.

use vstd::prelude::*;
use crate::ast::{AstNode, SAst, view_node};
use crate::text::{spec_to_uppercase, to_uppercase, str_eq};
use crate::words::{Primitive, all_primitives, primitive_list};

verus! {

broadcast use vstd::string::group_string_axioms;

/// What a dictionary name stands for.
#[derive(Debug)]
pub enum Word {
    /// A built-in word.
    Primitive(Primitive),
    /// A word defined in Forth, run by the interpreter.
    Compiled(AstNode),
    /// A word compiled to native code, identified by the address of its code.
    JITCompiled(usize),
}

/// What a dictionary name stands for, in the abstract: compiled bodies are
/// abstract syntax trees.
pub ghost enum AWord {
    Primitive(Primitive),
    Compiled(SAst),
    JITCompiled(usize),
}

/// The abstract form of a word.
pub open spec fn aword(w: Word) -> AWord {
    match w {
        Word::Primitive(p) => AWord::Primitive(p),
        Word::Compiled(a) => AWord::Compiled(view_node(a)),
        Word::JITCompiled(f) => AWord::JITCompiled(f),
    }
}

/// The index of the most recent entry named `k`.
pub open spec fn last_index(s: Seq<(Seq<char>, AWord)>, k: Seq<char>) -> Option<int>
    decreases s.len(),
{
    if s.len() == 0 {
        None
    } else if s.last().0 == k {
        Some(s.len() - 1)
    } else {
        last_index(s.drop_last(), k)
    }
}

/// Entries after defining `k` as `w`: the most recent entry named `k` is replaced,
/// or a new entry is added at the end.
pub open spec fn define_entries(s: Seq<(Seq<char>, AWord)>, k: Seq<char>, w: AWord) -> Seq<(Seq<char>, AWord)> {
    match last_index(s, k) {
        Some(i) => s.update(i, (k, w)),
        None => s.push((k, w)),
    }
}

/// The abstract dictionary: entries in definition order, the frozen and
/// immediate names (upper case) and the last defined word.
pub ghost struct DictView {
    pub entries: Seq<(Seq<char>, AWord)>,
    pub frozen: Seq<Seq<char>>,
    pub immediate: Seq<Seq<char>>,
    pub last_defined: Option<Seq<char>>,
}

impl DictView {
    /// What `k` stands for: the most recent entry with that exact name.
    pub open spec fn lookup(self, k: Seq<char>) -> Option<AWord> {
        match last_index(self.entries, k) {
            Some(i) => Some(self.entries[i].1),
            None => None,
        }
    }

    /// The dictionary with `k` (re)defined as `w`.
    pub open spec fn with_entry(self, k: Seq<char>, w: AWord) -> DictView {
        DictView { entries: define_entries(self.entries, k, w), ..self }
    }

    /// The dictionary with `k` (re)defined as `w`, which becomes the last defined word.
    pub open spec fn define(self, k: Seq<char>, w: AWord) -> DictView {
        DictView { last_defined: Some(k), ..self.with_entry(k, w) }
    }
}

/// The entries a new dictionary holds: every primitive under its name, in
/// registration order, then EXECUTE.
pub open spec fn initial_entries() -> Seq<(Seq<char>, AWord)> {
    all_primitives().map_values(|p: Primitive| (p.spec_name(), AWord::Primitive(p))).push(
        ("EXECUTE"@, AWord::Compiled(SAst::Execute)))
}

proof fn lemma_last_index_bounds(s: Seq<(Seq<char>, AWord)>, k: Seq<char>)
    ensures
        last_index(s, k) matches Some(i) ==> 0 <= i < s.len() && s[i].0 == k
            && forall|j: int| i < j < s.len() ==> s[j].0 != k,
        last_index(s, k) is None ==> forall|j: int| 0 <= j < s.len() ==> s[j].0 != k,
    decreases s.len(),
{
    if s.len() > 0 && s.last().0 != k {
        lemma_last_index_bounds(s.drop_last(), k);
        assert forall|j: int| 0 <= j < s.len() - 1 implies s.drop_last()[j] == s[j] by {}
    }
}

proof fn lemma_last_index_update(s: Seq<(Seq<char>, AWord)>, k: Seq<char>, i: int, w: AWord, q: Seq<char>)
    requires
        last_index(s, k) == Some(i),
    ensures
        last_index(s.update(i, (k, w)), q) == last_index(s, q),
    decreases s.len(),
{
    lemma_last_index_bounds(s, k);
    let u = s.update(i, (k, w));
    if i == s.len() - 1 {
        assert(u.drop_last() =~= s.drop_last());
    } else {
        assert(u.drop_last() =~= s.drop_last().update(i, (k, w)));
        assert(s.last().0 != k);
        if s.last().0 != q {
            lemma_last_index_update(s.drop_last(), k, i, w, q);
        }
    }
}

/// Defining a word: looking up its name gives the new word, and every other name
/// is looked up as before.
pub proof fn law_define_lookup(d: DictView, k: Seq<char>, w: AWord, q: Seq<char>)
    ensures
        d.with_entry(k, w).lookup(q) == if q == k { Some(w) } else { d.lookup(q) },
        d.define(k, w).lookup(q) == if q == k { Some(w) } else { d.lookup(q) },
{
    let s = d.entries;
    lemma_last_index_bounds(s, k);
    lemma_last_index_bounds(s, q);
    match last_index(s, k) {
        Some(i) => {
            let u = s.update(i, (k, w));
            lemma_last_index_update(s, k, i, w, q);
            assert(define_entries(s, k, w) == u);
            match last_index(s, q) {
                Some(j) => {
                    if q != k {
                        assert(j != i);
                        assert(u[j] == s[j]);
                    }
                },
                None => {},
            }
        },
        None => {
            let u = s.push((k, w));
            assert(u.drop_last() =~= s);
            assert(define_entries(s, k, w) == u);
            if q != k {
                assert(last_index(u, q) == last_index(s, q));
                match last_index(s, q) {
                    Some(j) => {
                        assert(u[j] == s[j]);
                    },
                    None => {},
                }
            }
        },
    }
}

/// The word dictionary, with the sets of frozen and immediate words.
pub struct Dictionary {
    words: Vec<(String, Word)>,
    frozen_words: Vec<String>,
    immediate_words: Vec<String>,
    last_defined_word: Option<String>,
}

/// The abstract entries of a list of named words.
pub open spec fn entries_view(v: Seq<(String, Word)>) -> Seq<(Seq<char>, AWord)> {
    v.map_values(|e: (String, Word)| (e.0@, aword(e.1)))
}

/// The views of a list of names.
pub open spec fn names_view(v: Seq<String>) -> Seq<Seq<char>> {
    v.map_values(|s: String| s@)
}

impl View for Dictionary {
    type V = DictView;

    closed spec fn view(&self) -> DictView {
        DictView {
            entries: entries_view(self.words@),
            frozen: names_view(self.frozen_words@),
            immediate: names_view(self.immediate_words@),
            last_defined: match self.last_defined_word {
                Some(s) => Some(s@),
                None => None,
            },
        }
    }
}

impl Dictionary {
    /// A dictionary holding every primitive and EXECUTE.
    pub fn new() -> (d: Self)
        ensures
            d@ == (DictView {
                entries: initial_entries(),
                frozen: Seq::empty(),
                immediate: Seq::empty(),
                last_defined: Some("EXECUTE"@),
            }),
    {
        let mut d = Dictionary {
            words: Vec::new(),
            frozen_words: Vec::new(),
            immediate_words: Vec::new(),
            last_defined_word: None,
        };
        let prims = primitive_list();
        let mut i: usize = 0;
        while i < prims.len()
            invariant
                i <= prims@.len(),
                prims@ == all_primitives(),
                entries_view(d.words@) =~= prims@.subrange(0, i as int).map_values(
                    |p: Primitive| (p.spec_name(), AWord::Primitive(p))),
                d.frozen_words@.len() == 0,
                d.immediate_words@.len() == 0,
                d.last_defined_word is None,
            decreases prims@.len() - i,
        {
            let p = prims[i];
            let nm = p.name().to_string();
            assert(nm@ == p.spec_name());
            let ghost before = entries_view(d.words@);
            d.words.push((nm, Word::Primitive(p)));
            assert(entries_view(d.words@) =~= before.push((p.spec_name(), AWord::Primitive(p))));
            assert(prims@.subrange(0, i + 1) =~= prims@.subrange(0, i as int).push(p));
            i = i + 1;
            assert(entries_view(d.words@) =~= prims@.subrange(0, i as int).map_values(
                |p: Primitive| (p.spec_name(), AWord::Primitive(p))));
        }
        assert(prims@.subrange(0, prims@.len() as int) =~= prims@);
        let name = "EXECUTE".to_string();
        d.last_defined_word = Some(name.clone());
        d.words.push((name, Word::Compiled(AstNode::Execute)));
        assert(entries_view(d.words@) =~= initial_entries());
        assert(names_view(d.frozen_words@) =~= Seq::<Seq<char>>::empty());
        assert(names_view(d.immediate_words@) =~= Seq::<Seq<char>>::empty());
        d
    }

    /// Index of the most recent entry named `name`.
    fn find_index(&self, name: &str) -> (r: Option<usize>)
        ensures
            match r {
                Some(i) => last_index(self@.entries, name@) == Some(i as int) && i < self.words@.len(),
                None => last_index(self@.entries, name@) is None,
            },
    {
        let ghost e = self@.entries;
        let mut i = self.words.len();
        assert(e.subrange(0, i as int) =~= e);
        while i > 0
            invariant
                i <= self.words@.len(),
                e == self@.entries,
                e.len() == self.words@.len(),
                last_index(e, name@) == last_index(e.subrange(0, i as int), name@),
            decreases i,
        {
            let ghost sub = e.subrange(0, i as int);
            if str_eq(self.words[i - 1].0.as_str(), name) {
                return Some(i - 1);
            }
            assert(sub.drop_last() =~= e.subrange(0, i - 1));
            i = i - 1;
        }
        None
    }

    fn insert(&mut self, name: String, w: Word)
        ensures
            final(self)@ == old(self)@.with_entry(name@, aword(w)),
    {
        let ghost k = name@;
        match self.find_index(name.as_str()) {
            Some(i) => {
                self.words.set(i, (name, w));
                assert(entries_view(self.words@) =~= old(self)@.entries.update(i as int, (k, aword(w))));
            },
            None => {
                self.words.push((name, w));
                assert(entries_view(self.words@) =~= old(self)@.entries.push((k, aword(w))));
            },
        }
    }

    /// Register (or replace) a primitive under `name`.
    pub fn add_primitive(&mut self, name: &str, func: Primitive)
        ensures
            final(self)@ == old(self)@.with_entry(name@, AWord::Primitive(func)),
    {
        self.insert(name.to_string(), Word::Primitive(func));
    }

    /// Define (or redefine) `name` as a Forth word; it becomes the last defined word.
    pub fn add_compiled(&mut self, name: String, ast: AstNode)
        ensures
            final(self)@ == old(self)@.define(name@, AWord::Compiled(view_node(ast))),
    {
        self.last_defined_word = Some(name.clone());
        self.insert(name, Word::Compiled(ast));
    }

    /// Define (or redefine) `name` as native code at `func`; it becomes the last
    /// defined word.
    pub fn add_jit_compiled(&mut self, name: String, func: usize)
        ensures
            final(self)@ == old(self)@.define(name@, AWord::JITCompiled(func)),
    {
        self.last_defined_word = Some(name.clone());
        self.insert(name, Word::JITCompiled(func));
    }

    /// Whether `word` is defined (exact, case-sensitive name).
    pub fn has_word(&self, word: &str) -> (b: bool)
        ensures
            b == (self@.lookup(word@) is Some),
    {
        self.find_index(word).is_some()
    }

    /// What `word` stands for.
    pub fn get_word(&self, word: &str) -> (r: Option<&Word>)
        ensures
            match r {
                Some(w) => self@.lookup(word@) == Some(aword(*w)),
                None => self@.lookup(word@) is None,
            },
    {
        match self.find_index(word) {
            Some(i) => Some(&self.words[i].1),
            None => None,
        }
    }

    /// All entries with their names, in definition order.
    pub fn get_all_words(&self) -> (r: Vec<(String, &Word)>)
        ensures
            r@.len() == self@.entries.len(),
            forall|i: int| 0 <= i < r@.len() ==> (#[trigger] r@[i]).0@ == self@.entries[i].0
                && aword(*r@[i].1) == self@.entries[i].1,
    {
        let mut r: Vec<(String, &Word)> = Vec::new();
        let mut i: usize = 0;
        while i < self.words.len()
            invariant
                i <= self.words@.len(),
                r@.len() == i,
                forall|j: int| 0 <= j < i ==> (#[trigger] r@[j]).0@ == self@.entries[j].0
                    && aword(*r@[j].1) == self@.entries[j].1,
            decreases self.words@.len() - i,
        {
            r.push((self.words[i].0.clone(), &self.words[i].1));
            i = i + 1;
        }
        r
    }

    /// Freeze `name` (upper-cased) against redefinition.
    pub fn freeze_word(&mut self, name: &str)
        ensures
            final(self)@ == (DictView { frozen: old(self)@.frozen.push(spec_to_uppercase(name@)), ..old(self)@ }),
    {
        let u = to_uppercase(name);
        self.frozen_words.push(u);
        assert(names_view(self.frozen_words@) =~= old(self)@.frozen.push(spec_to_uppercase(name@)));
    }

    /// Whether `name` (upper-cased) is frozen.
    pub fn is_frozen(&self, name: &str) -> (b: bool)
        ensures
            b == self@.frozen.contains(spec_to_uppercase(name@)),
    {
        let u = to_uppercase(name);
        contains_name(&self.frozen_words, u.as_str())
    }

    /// Mark the most recently defined word as immediate.
    pub fn mark_immediate(&mut self)
        ensures
            final(self)@ == match old(self)@.last_defined {
                Some(n) => DictView { immediate: old(self)@.immediate.push(spec_to_uppercase(n)), ..old(self)@ },
                None => old(self)@,
            },
    {
        match &self.last_defined_word {
            Some(n) => {
                let u = to_uppercase(n.as_str());
                self.immediate_words.push(u);
                assert(names_view(self.immediate_words@) =~= old(self)@.immediate.push(spec_to_uppercase(
                    old(self)@.last_defined->0)));
            },
            None => {},
        }
    }

    /// Whether `name` (upper-cased) is immediate.
    pub fn is_immediate(&self, name: &str) -> (b: bool)
        ensures
            b == self@.immediate.contains(spec_to_uppercase(name@)),
    {
        let u = to_uppercase(name);
        contains_name(&self.immediate_words, u.as_str())
    }

    /// The most recently defined word.
    pub fn get_last_defined_word(&self) -> (r: Option<&String>)
        ensures
            match r {
                Some(s) => self@.last_defined == Some(s@),
                None => self@.last_defined is None,
            },
    {
        self.last_defined_word.as_ref()
    }
}

/// Whether a list of names holds `name`.
pub fn contains_name(v: &Vec<String>, name: &str) -> (b: bool)
    ensures
        b == names_view(v@).contains(name@),
{
    let ghost views = v@.map_values(|s: String| s@);
    let mut i: usize = 0;
    while i < v.len()
        invariant
            i <= v@.len(),
            views == v@.map_values(|s: String| s@),
            forall|j: int| 0 <= j < i ==> views[j] != name@,
        decreases v@.len() - i,
    {
        if str_eq(v[i].as_str(), name) {
            assert(views[i as int] == name@);
            return true;
        }
        i = i + 1;
    }
    false
}


impl Default for Dictionary {
    /// A dictionary with the built-in words, as `Dictionary::new` makes it.
    fn default() -> (d: Self)
        ensures
            d@ == (DictView {
                entries: initial_entries(),
                frozen: Seq::empty(),
                immediate: Seq::empty(),
                last_defined: Some("EXECUTE"@),
            }),
    {
        Dictionary::new()
    }
}

} // verus!
