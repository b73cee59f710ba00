//! Processing lines and files of Forth source: definitions (`:`, VARIABLE,
//! CONSTANT, CREATE), file inclusion (INCLUDE, INCLUDED) and immediate execution.
//!
//! Reading a file is outside work: the line processor stops with a request for a
//! file, the caller reads it (through a [`SourceReader`]) and hands the contents
//! back, and processing resumes with the file's tokens ahead of the rest.

use vstd::prelude::*;
use crate::ast::{AstNode, SAst, validate_spec, result_view};
use crate::dictionary::{Dictionary, DictView, AWord, names_view, contains_name, law_define_lookup};
use crate::interp::{run_node, prepared, prepare, s_allot, read_bytes, exhausted, allot_exec,
    read_bytes_exec, prefixed, exhausted_error, consume, str_refs};
use crate::lexer::{split_ws, strip_spec, split_whitespace, strip_comments, strings_view, file_text,
    process_source};
use crate::machine::{Machine, MState, s_pop};
use crate::memory::Memory;
use crate::parser::{parse_range, parse_range_exec};
use crate::stack::{LoopStack, ReturnStack, Stack};
use crate::text::{spec_to_uppercase, to_uppercase, str_eq,
    utf8_decode, decode_utf8};

verus! {

broadcast use vstd::string::group_string_axioms;

// ---------------------------------------------------------------------------
// Abstract state
// ---------------------------------------------------------------------------

/// Tokens being processed: the tokens, the position of the next one, and whether
/// immediate execution is skipped (only definitions are made).
pub ghost struct SFrame {
    pub toks: Seq<Seq<char>>,
    pub pos: int,
    pub define_only: bool,
}

/// The state of line processing: dictionary, machine, steps left, the pending
/// token frames (innermost last) and the files included so far.
pub ghost struct Job {
    pub d: DictView,
    pub s: MState,
    pub f: nat,
    pub frames: Seq<SFrame>,
    pub included: Seq<Seq<char>>,
}

/// Why processing stopped.
pub ghost enum Stop {
    /// All tokens are processed, or an error ended processing.
    Finished(Result<(), Seq<char>>),
    /// The contents of the named file are needed.
    NeedFile(Seq<char>),
}

/// Upper case.
pub open spec fn up(t: Seq<char>) -> Seq<char> {
    spec_to_uppercase(t)
}

/// Words that end a run of tokens for immediate execution.
pub open spec fn is_definer(u: Seq<char>) -> bool {
    u == ":"@ || u == "INCLUDE"@ || u == "INCLUDED"@ || u == "VARIABLE"@ || u == "CONSTANT"@
        || u == "CREATE"@
}

/// The first `;` at or after `k`.
pub open spec fn semicolon_from(t: Seq<Seq<char>>, k: int) -> Option<int>
    decreases t.len() - k,
{
    if k < 0 || k >= t.len() {
        None
    } else if up(t[k]) == ";"@ {
        Some(k)
    } else {
        semicolon_from(t, k + 1)
    }
}

/// The end of the run of tokens for immediate execution that starts at `k`.
pub open spec fn segment_end(t: Seq<Seq<char>>, k: int) -> int
    decreases t.len() - k,
{
    if k < 0 || k >= t.len() {
        t.len() as int
    } else if is_definer(up(t[k])) {
        k
    } else {
        segment_end(t, k + 1)
    }
}

/// End processing with an error; pending tokens are dropped.
pub open spec fn fail(j: Job, e: Seq<char>) -> (Job, Option<Stop>) {
    (Job { frames: Seq::empty(), ..j }, Some(Stop::Finished(Err(e))))
}

/// Move the innermost frame to position `p`.
pub open spec fn advance(j: Job, p: int) -> Job {
    Job { frames: j.frames.update(j.frames.len() - 1, SFrame { pos: p, ..j.frames.last() }), ..j }
}

/// Include a file unless it was included before.
pub open spec fn request_file(j: Job, name: Seq<char>) -> (Job, Option<Stop>) {
    if j.included.contains(name) {
        (j, None)
    } else {
        (Job { included: j.included.push(name), ..j }, Some(Stop::NeedFile(name)))
    }
}

/// The bytes INCLUDED reads: none for a length below one.
pub open spec fn included_bytes(mem: Seq<u8>, addr: i64, len: i64) -> Result<Seq<u8>, Seq<char>> {
    if len <= 0 { Ok(Seq::empty()) } else { read_bytes(mem, addr, len) }
}

/// `: name body ;` at token `i`.
pub open spec fn step_define(j: Job, t: Seq<Seq<char>>, i: int) -> (Job, Option<Stop>) {
    match semicolon_from(t, i + 1) {
        None => fail(j, "Missing ; in word definition"@),
        Some(e) => if e - i < 2 {
            fail(j, "Invalid word definition"@)
        } else {
            let name = up(t[i + 1]);
            if j.d.frozen.contains(up(name)) {
                (advance(j, e + 1), None)
            } else {
                match parse_range(t, j.d, Some(name), i + 2, e) {
                    Err(x) => fail(j, x),
                    Ok(a) => match validate_spec(a, j.d, Some(name)) {
                        Err(x) => fail(j, x),
                        Ok(()) => (advance(Job { d: j.d.define(name, AWord::Compiled(a)), ..j }, e + 1), None),
                    },
                }
            }
        },
    }
}

/// A definition `: name body ;` that goes through defines `name` (upper-cased) as
/// the parsed body: looking the name up gives that body, and every other name is
/// looked up as before.
pub proof fn law_definition_defines(j: Job, t: Seq<Seq<char>>, i: int, e: int, q: Seq<char>)
    requires
        semicolon_from(t, i + 1) == Some(e),
        !j.d.frozen.contains(up(up(t[i + 1]))),
        step_define(j, t, i).1 is None,
    ensures
        parse_range(t, j.d, Some(up(t[i + 1])), i + 2, e) is Ok,
        step_define(j, t, i).0.d.lookup(q) == if q == up(t[i + 1]) {
            Some(AWord::Compiled(parse_range(t, j.d, Some(up(t[i + 1])), i + 2, e)->Ok_0))
        } else {
            j.d.lookup(q)
        },
{
    let name = up(t[i + 1]);
    if let Ok(a) = parse_range(t, j.d, Some(name), i + 2, e) {
        law_define_lookup(j.d, name, AWord::Compiled(a), q);
    }
}

/// A definition of a frozen word changes nothing in the dictionary and goes on
/// after its `;`.
pub proof fn law_frozen_words_stay(j: Job, t: Seq<Seq<char>>, i: int, e: int)
    requires
        semicolon_from(t, i + 1) == Some(e),
        e - i >= 2,
        j.d.frozen.contains(up(up(t[i + 1]))),
    ensures
        step_define(j, t, i) == (advance(j, e + 1), None::<Stop>),
{
}

/// A line with no tokens once its comments are removed (empty, blank or only
/// comments) succeeds and leaves the dictionary, the machine, the step budget and
/// the included files as they were, whatever files could be read.
pub proof fn law_blank_line(ctx: RuntimeContext, text: Seq<char>, define_only: bool, included: Seq<String>,
    replies: Seq<Reply>)
    requires
        split_ws(strip_spec(text)).len() == 0,
    ensures
        ({
            let (j, r) = drive(start_job(ctx, text, define_only, included), replies);
            &&& r == Ok::<(), Seq<char>>(())
            &&& j.d == ctx.dict@
            &&& j.s == ctx.machine.view()
            &&& j.f == ctx.machine.steps as nat
            &&& j.included == names_view(included)
        }),
{
    let j0 = start_job(ctx, text, define_only, included);
    let (j1, st1) = line_step(j0);
    assert(j1.frames.len() == 0);
    assert(tokens_left(j1.frames) == 0);
    assert(tokens_left(j0.frames) == tokens_left(j0.frames.drop_last()) + frame_left(j0.frames.last()));
    assert(j0.frames.drop_last().len() == 0);
    let (j2, st2) = line_step(j1);
    assert(session_run(j1) == (j1, Stop::Finished(Ok(()))));
    assert(session_run(j0) == (j1, Stop::Finished(Ok(()))));
}

/// `INCLUDED ( addr len -- )` at token `i`.
pub open spec fn step_included(j: Job, i: int) -> (Job, Option<Stop>) {
    let (r1, s1) = s_pop(j.s);
    match r1 {
        Err(x) => fail(Job { s: s1, ..j }, x),
        Ok(None) => fail(Job { s: s1, ..j }, "Stack underflow for INCLUDED (length)"@),
        Ok(Some(len)) => {
            let (r2, s2) = s_pop(s1);
            let j2 = Job { s: s2, ..j };
            match r2 {
                Err(x) => fail(j2, x),
                Ok(None) => fail(j2, "Stack underflow for INCLUDED (address)"@),
                Ok(Some(addr)) => match included_bytes(s2.mem, addr, len) {
                    Err(x) => fail(j2, x),
                    Ok(b) => match utf8_decode(b) {
                        None => fail(j2, "Invalid UTF-8 in filename"@),
                        Some(name) => request_file(advance(j2, i + 1), name),
                    },
                },
            }
        },
    }
}

/// Tokens from `i` up to the next defining word, run at once unless only
/// definitions are made (they still run when INCLUDED follows).
pub open spec fn step_run(j: Job, fr: SFrame, i: int) -> (Job, Option<Stop>) {
    let t = fr.toks;
    let k = segment_end(t, i);
    let should = !fr.define_only || (k < t.len() && up(t[k]) == "INCLUDED"@);
    if !should {
        (advance(j, k), None)
    } else {
        match prepared(t.subrange(i, k), true, j.d) {
            Err(x) => fail(j, x),
            Ok(a) => {
                let (s1, o, f1) = run_node(j.d, a, j.s, j.f);
                let j1 = Job { s: s1, f: f1, ..j };
                match o {
                    Err(x) => fail(j1, x),
                    Ok(()) => (advance(j1, k), None),
                }
            },
        }
    }
}

/// Process the construct at the next token of the innermost frame.
pub open spec fn line_step(j: Job) -> (Job, Option<Stop>) {
    if j.frames.len() == 0 {
        (j, Some(Stop::Finished(Ok(()))))
    } else {
        let fr = j.frames.last();
        let t = fr.toks;
        let i = fr.pos;
        if i < 0 || i >= t.len() {
            (Job { frames: j.frames.drop_last(), ..j }, None)
        } else {
            let u = up(t[i]);
            if u == "INCLUDE"@ {
                if i + 1 >= t.len() {
                    fail(j, "INCLUDE requires a filename"@)
                } else {
                    request_file(advance(j, i + 2), t[i + 1])
                }
            } else if u == ":"@ {
                step_define(j, t, i)
            } else if u == "VARIABLE"@ {
                if i + 1 >= t.len() {
                    fail(j, "VARIABLE requires a name"@)
                } else {
                    let (s1, o) = s_allot(j.s, 8);
                    if o is Err {
                        fail(Job { s: s1, ..j }, o->Err_0)
                    } else {
                        (advance(Job { d: j.d.define(up(t[i + 1]),
                            AWord::Compiled(SAst::PushNumber(j.s.dp as i64))), s: s1, ..j }, i + 2), None)
                    }
                }
            } else if u == "CONSTANT"@ {
                if i + 1 >= t.len() {
                    fail(j, "CONSTANT requires a name"@)
                } else {
                    let (r, s1) = s_pop(j.s);
                    match r {
                        Err(x) => fail(Job { s: s1, ..j }, x),
                        Ok(None) => fail(Job { s: s1, ..j }, "Stack underflow for CONSTANT"@),
                        Ok(Some(v)) => (advance(Job { d: j.d.define(up(t[i + 1]),
                            AWord::Compiled(SAst::PushNumber(v))), s: s1, ..j }, i + 2), None),
                    }
                }
            } else if u == "CREATE"@ {
                if i + 1 >= t.len() {
                    fail(j, "CREATE requires a name"@)
                } else {
                    (advance(Job { d: j.d.define(up(t[i + 1]),
                        AWord::Compiled(SAst::PushNumber(j.s.dp as i64))), ..j }, i + 2), None)
                }
            } else if u == "INCLUDED"@ {
                step_included(j, i)
            } else {
                step_run(j, fr, i)
            }
        }
    }
}

/// Tokens left in a frame.
pub open spec fn frame_left(fr: SFrame) -> nat {
    if 0 <= fr.pos <= fr.toks.len() { (fr.toks.len() - fr.pos) as nat } else { 0 }
}

/// Tokens left in all frames.
pub open spec fn tokens_left(frames: Seq<SFrame>) -> nat
    decreases frames.len(),
{
    if frames.len() == 0 { 0 } else { tokens_left(frames.drop_last()) + frame_left(frames.last()) }
}

/// Process until all tokens are done, an error occurs or a file is needed.
pub open spec fn session_run(j: Job) -> (Job, Stop)
    decreases tokens_left(j.frames), j.frames.len(),
{
    let (j1, st) = line_step(j);
    match st {
        Some(x) => (j1, x),
        None => if tokens_left(j1.frames) < tokens_left(j.frames)
            || (tokens_left(j1.frames) == tokens_left(j.frames) && j1.frames.len() < j.frames.len()) {
            session_run(j1)
        } else {
            (j1, Stop::Finished(Ok(())))
        },
    }
}

/// The frame for the contents of an included file.
pub open spec fn file_frame(text: Seq<char>, define_only: bool) -> SFrame {
    SFrame { toks: split_ws(strip_spec(file_text(text))), pos: 0, define_only }
}

/// What reading a file gave: its contents, or the reason it could not be read.
pub type Reply = Result<Seq<char>, Seq<char>>;

/// Process with the given replies to file requests, in order. Each file read uses
/// one step of the budget.
pub open spec fn drive(j: Job, replies: Seq<Reply>) -> (Job, Result<(), Seq<char>>)
    decreases replies.len(),
{
    let (j1, st) = session_run(j);
    match st {
        Stop::Finished(r) => (j1, r),
        Stop::NeedFile(p) => if j1.f == 0 {
            (Job { frames: Seq::empty(), ..j1 }, Err(exhausted()))
        } else if replies.len() == 0 {
            (j1, Err("No contents for file "@ + p))
        } else {
            let j2 = Job { f: (j1.f - 1) as nat, ..j1 };
            match replies[0] {
                Err(e) => (Job { frames: Seq::empty(), ..j2 }, Err("Cannot read file: "@ + e)),
                Ok(text) => drive(Job { frames: j2.frames.push(file_frame(text, false)), ..j2 },
                    replies.drop_first()),
            }
        },
    }
}

/// Load a file: nothing when it was included before; otherwise the first reply is
/// its contents, and the rest answer the files it includes.
pub open spec fn load_spec(j: Job, name: Seq<char>, define_only: bool, replies: Seq<Reply>)
    -> (Job, Result<(), Seq<char>>)
{
    if j.included.contains(name) {
        (j, Ok(()))
    } else {
        let j1 = Job { included: j.included.push(name), ..j };
        if replies.len() == 0 {
            (j1, Err("No contents for file "@ + name))
        } else {
            match replies[0] {
                Err(e) => (j1, Err("Cannot read file: "@ + e)),
                Ok(text) => drive(Job { frames: seq![file_frame(text, define_only)], ..j1 },
                    replies.drop_first()),
            }
        }
    }
}

/// The names of the files read, in order, when processing with the given replies:
/// each stop for a file that the step budget allows and a reply answers.
pub open spec fn requested(j: Job, replies: Seq<Reply>) -> Seq<Seq<char>>
    decreases replies.len(),
{
    let (j1, st) = session_run(j);
    match st {
        Stop::Finished(r) => Seq::empty(),
        Stop::NeedFile(p) => if j1.f == 0 || replies.len() == 0 {
            Seq::empty()
        } else {
            let j2 = Job { f: (j1.f - 1) as nat, ..j1 };
            match replies[0] {
                Err(e) => seq![p],
                Ok(text) => seq![p] + requested(Job { frames: j2.frames.push(file_frame(text, false)), ..j2 },
                    replies.drop_first()),
            }
        },
    }
}

/// Whether the replies answer every file request of the run: it never stops for
/// want of a reply.
pub open spec fn replies_cover(j: Job, replies: Seq<Reply>) -> bool
    decreases replies.len(),
{
    let (j1, st) = session_run(j);
    match st {
        Stop::Finished(r) => true,
        Stop::NeedFile(p) => if j1.f == 0 {
            true
        } else if replies.len() == 0 {
            false
        } else {
            let j2 = Job { f: (j1.f - 1) as nat, ..j1 };
            match replies[0] {
                Err(e) => true,
                Ok(text) => replies_cover(Job { frames: j2.frames.push(file_frame(text, false)), ..j2 },
                    replies.drop_first()),
            }
        },
    }
}

/// Whether the replies answer every file request of loading `name`.
pub open spec fn load_covered(j: Job, name: Seq<char>, define_only: bool, replies: Seq<Reply>) -> bool {
    if j.included.contains(name) {
        true
    } else if replies.len() == 0 {
        false
    } else {
        let j1 = Job { included: j.included.push(name), ..j };
        match replies[0] {
            Err(e) => true,
            Ok(text) => replies_cover(Job { frames: seq![file_frame(text, define_only)], ..j1 },
                replies.drop_first()),
        }
    }
}

/// The names of the files read, in order, when loading `name` with the given
/// replies: `name` itself first (unless it was included before), then the files
/// it includes.
pub open spec fn load_requested(j: Job, name: Seq<char>, define_only: bool, replies: Seq<Reply>)
    -> Seq<Seq<char>>
{
    if j.included.contains(name) || replies.len() == 0 {
        Seq::empty()
    } else {
        let j1 = Job { included: j.included.push(name), ..j };
        match replies[0] {
            Err(e) => seq![name],
            Ok(text) => seq![name] + requested(Job { frames: seq![file_frame(text, define_only)], ..j1 },
                replies.drop_first()),
        }
    }
}

// ---------------------------------------------------------------------------
// Progress
// ---------------------------------------------------------------------------

proof fn lemma_semicolon_from(t: Seq<Seq<char>>, k: int)
    requires
        0 <= k,
    ensures
        semicolon_from(t, k) matches Some(e) ==> k <= e < t.len(),
    decreases t.len() - k,
{
    if k < t.len() && up(t[k]) != ";"@ {
        lemma_semicolon_from(t, k + 1);
    }
}

proof fn lemma_segment_end(t: Seq<Seq<char>>, k: int)
    requires
        0 <= k <= t.len(),
    ensures
        k <= segment_end(t, k) <= t.len(),
    decreases t.len() - k,
{
    if k < t.len() && !is_definer(up(t[k])) {
        lemma_segment_end(t, k + 1);
    }
}

proof fn lemma_advance_left(j: Job, p: int)
    requires
        j.frames.len() > 0,
        0 <= j.frames.last().pos < p,
        j.frames.last().pos < j.frames.last().toks.len(),
    ensures
        tokens_left(advance(j, p).frames) < tokens_left(j.frames),
        advance(j, p).frames.len() == j.frames.len(),
{
    let fr = advance(j, p).frames;
    assert(fr.drop_last() =~= j.frames.drop_last());
}

/// A step that does not stop leaves fewer tokens, or as many tokens in fewer
/// frames.
proof fn lemma_line_step_progress(j: Job)
    ensures
        line_step(j).1 is None ==> tokens_left(line_step(j).0.frames) < tokens_left(j.frames)
            || (tokens_left(line_step(j).0.frames) == tokens_left(j.frames)
                && line_step(j).0.frames.len() < j.frames.len()),
{
    if j.frames.len() > 0 {
        let fr = j.frames.last();
        let t = fr.toks;
        let i = fr.pos;
        if i < 0 || i >= t.len() {
            assert(frame_left(fr) == 0);
        } else {
            let u = up(t[i]);
            if u == "INCLUDE"@ {
                if i + 1 < t.len() {
                    lemma_advance_left(j, i + 2);
                }
            } else if u == ":"@ {
                lemma_semicolon_from(t, i + 1);
                match semicolon_from(t, i + 1) {
                    Some(e) => {
                        lemma_advance_left(j, e + 1);
                        let name = up(t[i + 1]);
                        match parse_range(t, j.d, Some(name), i + 2, e) {
                            Ok(a) => {
                                lemma_advance_left(Job { d: j.d.define(name, AWord::Compiled(a)), ..j }, e + 1);
                            },
                            Err(_) => {},
                        }
                    },
                    None => {},
                }
            } else if u == "VARIABLE"@ || u == "CONSTANT"@ || u == "CREATE"@ {
                if i + 1 < t.len() {
                    let (s1, o) = s_allot(j.s, 8);
                    lemma_advance_left(Job { d: j.d.define(up(t[i + 1]),
                        AWord::Compiled(SAst::PushNumber(j.s.dp as i64))), s: s1, ..j }, i + 2);
                    let (r, s2) = s_pop(j.s);
                    match r {
                        Ok(Some(v)) => {
                            lemma_advance_left(Job { d: j.d.define(up(t[i + 1]),
                                AWord::Compiled(SAst::PushNumber(v))), s: s2, ..j }, i + 2);
                        },
                        _ => {},
                    }
                    lemma_advance_left(Job { d: j.d.define(up(t[i + 1]),
                        AWord::Compiled(SAst::PushNumber(j.s.dp as i64))), ..j }, i + 2);
                }
            } else if u == "INCLUDED"@ {
                let (r1, s1) = s_pop(j.s);
                let (r2, s2) = s_pop(s1);
                lemma_advance_left(Job { s: s2, ..j }, i + 1);
            } else {
                lemma_segment_end(t, i + 1);
                let k = segment_end(t, i);
                assert(k > i);
                lemma_advance_left(j, k);
                match prepared(t.subrange(i, k), true, j.d) {
                    Ok(a) => {
                        let (s1, o, f1) = run_node(j.d, a, j.s, j.f);
                        lemma_advance_left(Job { s: s1, f: f1, ..j }, k);
                    },
                    Err(_) => {},
                }
            }
        }
    }
}

// ---------------------------------------------------------------------------
// Executable line processing
// ---------------------------------------------------------------------------

/// Pending tokens of a line or a file.
pub struct Frame {
    pub tokens: Vec<String>,
    pub pos: usize,
    pub define_only: bool,
}

/// The abstract form of a frame.
pub open spec fn frame_view(f: Frame) -> SFrame {
    SFrame { toks: strings_view(f.tokens@), pos: f.pos as int, define_only: f.define_only }
}

/// The abstract form of a list of frames.
pub open spec fn frames_view(v: Seq<Frame>) -> Seq<SFrame> {
    v.map_values(|f: Frame| frame_view(f))
}

/// Compiler flags. Native compilation is not part of this build, so they only
/// travel along.
#[derive(Clone, Copy, Debug)]
pub struct CompilerConfig {
    pub no_jit: bool,
    pub dump_ir: bool,
    pub verify_ir: bool,
}

impl CompilerConfig {
    /// Flags as given.
    pub fn new(no_jit: bool, dump_ir: bool, verify_ir: bool) -> (c: Self)
        ensures
            c.no_jit == no_jit,
            c.dump_ir == dump_ir,
            c.verify_ir == verify_ir,
    {
        CompilerConfig { no_jit, dump_ir, verify_ir }
    }
}

/// How source is processed: `define_only` makes definitions without running
/// anything else (except what loads files).
#[derive(Clone, Copy, Debug)]
pub struct ExecutionOptions {
    pub use_forth_compiler: bool,
    pub define_only: bool,
}

impl ExecutionOptions {
    /// Options as given.
    pub fn new(use_forth_compiler: bool, define_only: bool) -> (o: Self)
        ensures
            o.use_forth_compiler == use_forth_compiler,
            o.define_only == define_only,
    {
        ExecutionOptions { use_forth_compiler, define_only }
    }
}

/// The dictionary and the machine.
pub struct RuntimeContext {
    pub dict: Dictionary,
    pub machine: Machine,
}

impl RuntimeContext {
    /// A context from its parts, with no pending output and a full step budget.
    pub fn new(stack: Stack, dict: Dictionary, loop_stack: LoopStack, return_stack: ReturnStack,
        memory: Memory) -> (c: Self)
        ensures
            c.dict == dict,
            c.machine.stack == stack,
            c.machine.loop_stack == loop_stack,
            c.machine.return_stack == return_stack,
            c.machine.memory == memory,
            c.machine.output@.len() == 0,
            c.machine.errors@.len() == 0,
            c.machine.input@.len() == 0,
            c.machine.input_pos == 0,
            c.machine.steps == u64::MAX,
            c.machine.asts@.len() == 0,
    {
        RuntimeContext { dict, machine: Machine::from_parts(stack, loop_stack, return_stack, memory) }
    }
}

/// Reads source files for INCLUDE and INCLUDED.
pub trait SourceReader {
    /// The paths asked for so far, in order.
    spec fn requests(&self) -> Seq<Seq<char>>;

    /// The replies given so far, in order.
    spec fn answers(&self) -> Seq<Reply>;

    /// The contents of the file at `path`, or the reason it cannot be read. The
    /// request and the reply are recorded.
    fn read_source(&mut self, path: &str) -> (r: Result<String, String>)
        ensures
            final(self).requests() == old(self).requests().push(path@),
            final(self).answers() == old(self).answers().push(reply_view(r));
}

/// A reply as a value: the text read, or the reason it could not be read.
pub open spec fn reply_view(r: Result<String, String>) -> Reply {
    match r {
        Ok(t) => Ok(t@),
        Err(e) => Err(e@),
    }
}

/// The replies a reader gave between two of its states.
pub open spec fn answered<R: SourceReader>(before: R, after: R) -> Seq<Reply> {
    after.answers().skip(before.answers().len() as int)
}

/// Whether a reader's later state extends the replies of its earlier state.
pub open spec fn extends<R: SourceReader>(before: R, after: R) -> bool {
    &&& before.answers().len() <= after.answers().len()
    &&& after.answers().subrange(0, before.answers().len() as int) == before.answers()
}

/// Source files held in memory, by name, with the names asked for so far.
pub struct SourceFiles {
    files: Vec<(String, String)>,
    asked: Vec<String>,
    given: Ghost<Seq<Reply>>,
}

impl SourceFiles {
    /// The names and texts held, in the order they were added.
    pub closed spec fn entries(&self) -> Seq<(Seq<char>, Seq<char>)> {
        self.files@.map_values(|e: (String, String)| (e.0@, e.1@))
    }

    /// No files, and no request made yet.
    pub fn new() -> (r: Self)
        ensures
            r.entries().len() == 0,
            r.requests().len() == 0,
            r.answers().len() == 0,
    {
        SourceFiles { files: Vec::new(), asked: Vec::new(), given: Ghost(Seq::empty()) }
    }

    /// The names asked for so far, in order.
    pub fn asked(&self) -> (r: &Vec<String>)
        ensures
            names_view(r@) == self.requests(),
    {
        &self.asked
    }

    /// Hold `text` as the contents of the file `name`; an earlier file of the
    /// same name is still found first.
    pub fn add(&mut self, name: &str, text: &str)
        ensures
            final(self).entries() == old(self).entries().push((name@, text@)),
            final(self).requests() == old(self).requests(),
            final(self).answers() == old(self).answers(),
    {
        self.files.push((name.to_string(), text.to_string()));
        assert(self.entries() =~= old(self).entries().push((name@, text@)));
    }
}

/// The text of the first held file named `path`.
pub open spec fn lookup_from(es: Seq<(Seq<char>, Seq<char>)>, path: Seq<char>, k: int) -> Option<Seq<char>>
    decreases es.len() - k,
{
    if k < 0 || k >= es.len() {
        None
    } else if es[k].0 == path {
        Some(es[k].1)
    } else {
        lookup_from(es, path, k + 1)
    }
}

impl SourceFiles {
    /// The text held for `path`, or `None`.
    pub fn find(&self, path: &str) -> (r: Option<String>)
        ensures
            match r {
                Some(t) => lookup_from(self.entries(), path@, 0) == Some(t@),
                None => lookup_from(self.entries(), path@, 0) is None,
            },
    {
        let ghost es = self.entries();
        let mut k: usize = 0;
        while k < self.files.len()
            invariant
                k <= self.files@.len(),
                es == self.entries(),
                es.len() == self.files@.len(),
                lookup_from(es, path@, 0) == lookup_from(es, path@, k as int),
            decreases self.files@.len() - k,
        {
            assert(es[k as int] == (self.files@[k as int].0@, self.files@[k as int].1@));
            if str_eq(self.files[k].0.as_str(), path) {
                return Some(self.files[k].1.clone());
            }
            k = k + 1;
        }
        None
    }
}

impl SourceReader for SourceFiles {
    closed spec fn requests(&self) -> Seq<Seq<char>> {
        names_view(self.asked@)
    }

    closed spec fn answers(&self) -> Seq<Reply> {
        self.given@
    }

    fn read_source(&mut self, path: &str) -> (r: Result<String, String>)
    {
        self.asked.push(path.to_string());
        assert(names_view(self.asked@) =~= names_view(old(self).asked@).push(path@));
        let r = match self.find(path) {
            Some(t) => Ok(t),
            None => Err(prefixed("No such file: ", path)),
        };
        proof {
            self.given@ = self.given@.push(reply_view(r));
        }
        r
    }
}

/// The processing state of a context with pending frames and included files.
pub open spec fn job_of(ctx: RuntimeContext, frames: Seq<Frame>, included: Seq<String>) -> Job {
    Job {
        d: ctx.dict@,
        s: ctx.machine.view(),
        f: ctx.machine.steps as nat,
        frames: frames_view(frames),
        included: names_view(included),
    }
}

/// Whether a processing result matches a context, the included files and a result.
pub open spec fn matches_run(res: (Job, Result<(), Seq<char>>), ctx: RuntimeContext,
    included: Seq<String>, r: Result<(), String>) -> bool
{
    &&& res.0.d == ctx.dict@
    &&& res.0.s == ctx.machine.view()
    &&& res.0.f == ctx.machine.steps as nat
    &&& res.0.included == names_view(included)
    &&& res.1 == result_view(r)
}

/// The job that processes `text` as a line.
pub open spec fn start_job(ctx: RuntimeContext, text: Seq<char>, define_only: bool, included: Seq<String>) -> Job {
    Job {
        d: ctx.dict@,
        s: ctx.machine.view(),
        f: ctx.machine.steps as nat,
        frames: seq![SFrame { toks: split_ws(strip_spec(text)), pos: 0, define_only }],
        included: names_view(included),
    }
}

enum Request {
    Finished(Result<(), String>),
    NeedFile(String),
}

spec fn stop_of(r: Request) -> Stop {
    match r {
        Request::Finished(x) => Stop::Finished(result_view(x)),
        Request::NeedFile(p) => Stop::NeedFile(p@),
    }
}

spec fn opt_stop(r: Option<Request>) -> Option<Stop> {
    match r {
        Some(x) => Some(stop_of(x)),
        None => None,
    }
}

fn fail_exec(frames: &mut Vec<Frame>, e: String) -> (r: Option<Request>)
    ensures
        frames_view(final(frames)@) == Seq::<SFrame>::empty(),
        opt_stop(r) == Some(Stop::Finished(Err(e@))),
{
    frames.clear();
    assert(frames_view(frames@) =~= Seq::<SFrame>::empty());
    Some(Request::Finished(Err(e)))
}

fn set_pos(frames: &mut Vec<Frame>, p: usize)
    requires
        old(frames)@.len() > 0,
    ensures
        frames_view(final(frames)@) == frames_view(old(frames)@).update(old(frames)@.len() - 1,
            SFrame { pos: p as int, ..frames_view(old(frames)@).last() }),
        final(frames)@.len() == old(frames)@.len(),
{
    let mut fr = frames.pop().unwrap();
    fr.pos = p;
    frames.push(fr);
    assert(frames_view(frames@) =~= frames_view(old(frames)@).update(old(frames)@.len() - 1,
        SFrame { pos: p as int, ..frames_view(old(frames)@).last() }));
}

fn request_file_exec(included: &mut Vec<String>, name: String) -> (r: Option<Request>)
    ensures
        (names_view(final(included)@), opt_stop(r)) == ({
            if names_view(old(included)@).contains(name@) {
                (names_view(old(included)@), None::<Stop>)
            } else {
                (names_view(old(included)@).push(name@), Some(Stop::NeedFile(name@)))
            }
        }),
{
    if contains_name(included, name.as_str()) {
        None
    } else {
        included.push(name.clone());
        assert(names_view(included@) =~= names_view(old(included)@).push(name@));
        Some(Request::NeedFile(name))
    }
}

fn find_semicolon(t: &Vec<String>, start: usize) -> (r: Option<usize>)
    ensures
        match r {
            Some(e) => semicolon_from(strings_view(t@), start as int) == Some(e as int),
            None => semicolon_from(strings_view(t@), start as int) is None,
        },
{
    let mut k = start;
    while k < t.len()
        invariant
            semicolon_from(strings_view(t@), start as int) == semicolon_from(strings_view(t@), k as int),
            start <= k,
        decreases t@.len() - k,
    {
        let u = to_uppercase(t[k].as_str());
        if str_eq(u.as_str(), ";") {
            return Some(k);
        }
        k = k + 1;
    }
    None
}

fn is_definer_exec(u: &str) -> (b: bool)
    ensures
        b == is_definer(u@),
{
    str_eq(u, ":") || str_eq(u, "INCLUDE") || str_eq(u, "INCLUDED") || str_eq(u, "VARIABLE")
        || str_eq(u, "CONSTANT") || str_eq(u, "CREATE")
}

fn find_segment_end(t: &Vec<String>, start: usize) -> (k: usize)
    requires
        start <= t@.len(),
    ensures
        k == segment_end(strings_view(t@), start as int),
{
    let mut k = start;
    while k < t.len()
        invariant
            start <= k <= t@.len(),
            segment_end(strings_view(t@), start as int) == segment_end(strings_view(t@), k as int),
        decreases t@.len() - k,
    {
        let u = to_uppercase(t[k].as_str());
        if is_definer_exec(u.as_str()) {
            return k;
        }
        k = k + 1;
    }
    k
}

fn copy_range(t: &Vec<String>, lo: usize, hi: usize) -> (r: Vec<String>)
    requires
        lo <= hi <= t@.len(),
    ensures
        strings_view(r@) == strings_view(t@).subrange(lo as int, hi as int),
{
    let mut r: Vec<String> = Vec::new();
    let mut k = lo;
    while k < hi
        invariant
            lo <= k <= hi,
            hi <= t@.len(),
            r@.len() == k - lo,
            forall|j: int| 0 <= j < r@.len() ==> (#[trigger] r@[j])@ == t@[lo + j]@,
        decreases hi - k,
    {
        let c = t[k].clone();
        r.push(c);
        k = k + 1;
    }
    assert(strings_view(r@) =~= strings_view(t@).subrange(lo as int, hi as int));
    r
}

fn step_define_exec(ctx: &mut RuntimeContext, frames: &mut Vec<Frame>, i: usize) -> (r: Option<Request>)
    requires
        old(ctx).machine.wf(),
        old(frames)@.len() > 0,
        i < old(frames)@.last().tokens@.len(),
        old(frames)@.last().pos == i,
    ensures
        final(ctx).machine.wf(),
        final(ctx).machine == old(ctx).machine,
        ({
            let j = job_of(*old(ctx), old(frames)@, Seq::empty());
            let (j2, st) = step_define(j, frames_view(old(frames)@).last().toks, i as int);
            j2 == job_of(*final(ctx), final(frames)@, Seq::empty()) && st == opt_stop(r)
        }),
{
    let n = frames.len();
    let ghost t = strings_view(frames@[n - 1].tokens@);
    let ghost j = job_of(*ctx, frames@, Seq::empty());
    assert(frames_view(frames@).last() == frame_view(frames@[n - 1]));
    let tl = frames[n - 1].tokens.len();
    match find_semicolon(&frames[n - 1].tokens, i + 1) {
        None => fail_exec(frames, "Missing ; in word definition".to_string()),
        Some(e) => {
            proof { lemma_semicolon_from(t, i + 1); }
            if e - i < 2 {
                return fail_exec(frames, "Invalid word definition".to_string());
            }
            let name = to_uppercase(frames[n - 1].tokens[i + 1].as_str());
            if ctx.dict.is_frozen(name.as_str()) {
                set_pos(frames, e + 1);
                return None;
            }
            let parsed_body = {
                let refs = str_refs(&frames[n - 1].tokens);
                parse_range_exec(refs.as_slice(), &ctx.dict, Some(name.as_str()), i + 2, e)
            };
            let ast = match parsed_body {
                Err(x) => return fail_exec(frames, x),
                Ok(a) => a,
            };
            match ast.validate_with_name(&ctx.dict, Some(name.as_str())) {
                Err(x) => return fail_exec(frames, x),
                Ok(()) => {},
            }
            ctx.dict.add_compiled(name, ast);
            set_pos(frames, e + 1);
            None
        },
    }
}

fn step_included_exec(ctx: &mut RuntimeContext, frames: &mut Vec<Frame>, included: &mut Vec<String>, i: usize)
    -> (r: Option<Request>)
    requires
        old(ctx).machine.wf(),
        old(frames)@.len() > 0,
        i < old(frames)@.last().tokens@.len(),
        old(frames)@.last().pos == i,
    ensures
        final(ctx).machine.wf(),
        final(ctx).machine.steps == old(ctx).machine.steps,
        (job_of(*final(ctx), final(frames)@, final(included)@), opt_stop(r))
            == step_included(job_of(*old(ctx), old(frames)@, old(included)@), i as int),
{
    let tl = frames[frames.len() - 1].tokens.len();
    let len = match ctx.machine.pop_value() {
        Err(x) => return fail_exec(frames, x),
        Ok(None) => return fail_exec(frames, "Stack underflow for INCLUDED (length)".to_string()),
        Ok(Some(v)) => v,
    };
    let addr = match ctx.machine.pop_value() {
        Err(x) => return fail_exec(frames, x),
        Ok(None) => return fail_exec(frames, "Stack underflow for INCLUDED (address)".to_string()),
        Ok(Some(v)) => v,
    };
    let bytes: Vec<u8> = if len <= 0 {
        Vec::new()
    } else {
        match read_bytes_exec(&ctx.machine, addr, len) {
            Err(x) => return fail_exec(frames, x),
            Ok(b) => b,
        }
    };
    assert(len <= 0 ==> bytes@ =~= Seq::<u8>::empty());
    match decode_utf8(bytes) {
        Err(_) => fail_exec(frames, "Invalid UTF-8 in filename".to_string()),
        Ok(name) => {
            set_pos(frames, i + 1);
            request_file_exec(included, name)
        },
    }
}

fn step_run_exec(ctx: &mut RuntimeContext, frames: &mut Vec<Frame>, i: usize) -> (r: Option<Request>)
    requires
        old(ctx).machine.wf(),
        old(frames)@.len() > 0,
        i < old(frames)@.last().tokens@.len(),
        old(frames)@.last().pos == i,
    ensures
        final(ctx).machine.wf(),
        final(ctx).machine.steps <= old(ctx).machine.steps,
        final(ctx).dict == old(ctx).dict,
        ({
            let j = job_of(*old(ctx), old(frames)@, Seq::empty());
            let (j2, st) = step_run(j, frames_view(old(frames)@).last(), i as int);
            j2 == job_of(*final(ctx), final(frames)@, Seq::empty()) && st == opt_stop(r)
        }),
{
    let n = frames.len();
    assert(frames_view(frames@).last() == frame_view(frames@[n - 1]));
    let ghost t = strings_view(frames@[n - 1].tokens@);
    proof { lemma_segment_end(t, i as int); }
    let k = find_segment_end(&frames[n - 1].tokens, i);
    let tl = frames[n - 1].tokens.len();
    let define_only = frames[n - 1].define_only;
    let next_included = if k < tl {
        let u = to_uppercase(frames[n - 1].tokens[k].as_str());
        str_eq(u.as_str(), "INCLUDED")
    } else {
        false
    };
    if define_only && !next_included {
        set_pos(frames, k);
        return None;
    }
    let seg = copy_range(&frames[n - 1].tokens, i, k);
    match prepare(&seg, true, &ctx.dict) {
        Err(x) => fail_exec(frames, x),
        Ok(a) => match a.execute(&ctx.dict, &mut ctx.machine) {
            Err(x) => fail_exec(frames, x),
            Ok(()) => {
                set_pos(frames, k);
                None
            },
        },
    }
}

fn line_step_exec(ctx: &mut RuntimeContext, frames: &mut Vec<Frame>, included: &mut Vec<String>)
    -> (r: Option<Request>)
    requires
        old(ctx).machine.wf(),
    ensures
        final(ctx).machine.wf(),
        final(ctx).machine.steps <= old(ctx).machine.steps,
        (job_of(*final(ctx), final(frames)@, final(included)@), opt_stop(r))
            == line_step(job_of(*old(ctx), old(frames)@, old(included)@)),
{
    let n = frames.len();
    if n == 0 {
        return Some(Request::Finished(Ok(())));
    }
    assert(frames_view(frames@).last() == frame_view(frames@[n - 1]));
    let i = frames[n - 1].pos;
    let tl = frames[n - 1].tokens.len();
    if i >= tl {
        frames.pop();
        assert(frames_view(frames@) =~= frames_view(old(frames)@).drop_last());
        return None;
    }
    let ghost t = strings_view(frames@[n - 1].tokens@);
    let u = to_uppercase(frames[n - 1].tokens[i].as_str());
    if str_eq(u.as_str(), "INCLUDE") {
        if i + 1 >= tl {
            return fail_exec(frames, "INCLUDE requires a filename".to_string());
        }
        let name = frames[n - 1].tokens[i + 1].clone();
        set_pos(frames, i + 2);
        request_file_exec(included, name)
    } else if str_eq(u.as_str(), ":") {
        step_define_exec(ctx, frames, i)
    } else if str_eq(u.as_str(), "VARIABLE") {
        if i + 1 >= tl {
            return fail_exec(frames, "VARIABLE requires a name".to_string());
        }
        let name = to_uppercase(frames[n - 1].tokens[i + 1].as_str());
        let addr = ctx.machine.memory.here();
        match allot_exec(&mut ctx.machine, 8) {
            Err(x) => return fail_exec(frames, x),
            Ok(()) => {},
        }
        ctx.dict.add_compiled(name, AstNode::PushNumber(addr));
        set_pos(frames, i + 2);
        None
    } else if str_eq(u.as_str(), "CONSTANT") {
        if i + 1 >= tl {
            return fail_exec(frames, "CONSTANT requires a name".to_string());
        }
        let v = match ctx.machine.pop_value() {
            Err(x) => return fail_exec(frames, x),
            Ok(None) => return fail_exec(frames, "Stack underflow for CONSTANT".to_string()),
            Ok(Some(v)) => v,
        };
        let name = to_uppercase(frames[n - 1].tokens[i + 1].as_str());
        ctx.dict.add_compiled(name, AstNode::PushNumber(v));
        set_pos(frames, i + 2);
        None
    } else if str_eq(u.as_str(), "CREATE") {
        if i + 1 >= tl {
            return fail_exec(frames, "CREATE requires a name".to_string());
        }
        let name = to_uppercase(frames[n - 1].tokens[i + 1].as_str());
        let addr = ctx.machine.memory.here();
        ctx.dict.add_compiled(name, AstNode::PushNumber(addr));
        set_pos(frames, i + 2);
        None
    } else if str_eq(u.as_str(), "INCLUDED") {
        step_included_exec(ctx, frames, included, i)
    } else {
        step_run_exec(ctx, frames, i)
    }
}

fn run_until_stop(ctx: &mut RuntimeContext, frames: &mut Vec<Frame>, included: &mut Vec<String>) -> (r: Request)
    requires
        old(ctx).machine.wf(),
    ensures
        final(ctx).machine.wf(),
        final(ctx).machine.steps <= old(ctx).machine.steps,
        (job_of(*final(ctx), final(frames)@, final(included)@), stop_of(r))
            == session_run(job_of(*old(ctx), old(frames)@, old(included)@)),
{
    let ghost j0 = job_of(*ctx, frames@, included@);
    loop
        invariant
            ctx.machine.wf(),
            ctx.machine.steps <= old(ctx).machine.steps,
            j0 == job_of(*old(ctx), old(frames)@, old(included)@),
            session_run(j0) == session_run(job_of(*ctx, frames@, included@)),
        decreases tokens_left(frames_view(frames@)), frames@.len(),
    {
        let ghost before = job_of(*ctx, frames@, included@);
        proof { lemma_line_step_progress(before); }
        match line_step_exec(ctx, frames, included) {
            Some(r) => return r,
            None => {},
        }
    }
}

/// Process pending frames to the end, reading files as they are needed.
fn drive_exec<R: SourceReader>(ctx: &mut RuntimeContext, frames: &mut Vec<Frame>, included: &mut Vec<String>,
    reader: &mut R) -> (r: Result<(), String>)
    requires
        old(ctx).machine.wf(),
    ensures
        final(ctx).machine.wf(),
        extends(*old(reader), *final(reader)),
        matches_run(drive(job_of(*old(ctx), old(frames)@, old(included)@), answered(*old(reader), *final(reader))),
            *final(ctx), final(included)@, r),
        replies_cover(job_of(*old(ctx), old(frames)@, old(included)@), answered(*old(reader), *final(reader))),
        final(reader).requests() == old(reader).requests()
            + requested(job_of(*old(ctx), old(frames)@, old(included)@), answered(*old(reader), *final(reader))),
{
    let ghost j0 = job_of(*ctx, frames@, included@);
    let ghost mut replies: Seq<Reply> = Seq::empty();
    assert(old(reader).requests() + Seq::<Seq<char>>::empty() =~= old(reader).requests());
    assert(answered(*old(reader), *reader) =~= replies);
    assert(reader.answers().subrange(0, reader.answers().len() as int) =~= reader.answers());
    loop
        invariant
            ctx.machine.wf(),
            j0 == job_of(*old(ctx), old(frames)@, old(included)@),
            extends(*old(reader), *reader),
            replies == answered(*old(reader), *reader),
            forall|fut: Seq<Reply>| #[trigger] drive(j0, replies + fut) == drive(job_of(*ctx, frames@, included@), fut),
            forall|fut: Seq<Reply>| #[trigger] replies_cover(j0, replies + fut)
                == replies_cover(job_of(*ctx, frames@, included@), fut),
            forall|fut: Seq<Reply>| old(reader).requests() + #[trigger] requested(j0, replies + fut)
                == reader.requests() + requested(job_of(*ctx, frames@, included@), fut),
        decreases ctx.machine.steps,
    {
        let ghost j = job_of(*ctx, frames@, included@);
        let req = run_until_stop(ctx, frames, included);
        match req {
            Request::Finished(r) => {
                assert(replies + Seq::<Reply>::empty() =~= replies);
                assert(matches_run(drive(j0, replies), *ctx, included@, r));
                assert(replies_cover(j, Seq::<Reply>::empty()));
                assert(requested(j, Seq::<Reply>::empty()) =~= Seq::<Seq<char>>::empty());
                assert(reader.requests() + Seq::<Seq<char>>::empty() =~= reader.requests());
                return r;
            },
            Request::NeedFile(p) => {
                if !consume(&mut ctx.machine) {
                    frames.clear();
                    let e = exhausted_error();
                    assert(replies + Seq::<Reply>::empty() =~= replies);
                    assert(matches_run(drive(j0, replies), *ctx, included@, Err::<(), String>(e)));
                    assert(replies_cover(j, Seq::<Reply>::empty()));
                    assert(requested(j, Seq::<Reply>::empty()) =~= Seq::<Seq<char>>::empty());
                    assert(reader.requests() + Seq::<Seq<char>>::empty() =~= reader.requests());
                    return Err(e);
                }
                let ghost prev = reader.requests();
                let ghost before_reader = *reader;
                let got = reader.read_source(p.as_str());
                proof {
                    assert(answered(*old(reader), *reader) =~= replies.push(reply_view(got)));
                    assert(reader.answers().subrange(0, old(reader).answers().len() as int)
                        =~= before_reader.answers().subrange(0, old(reader).answers().len() as int));
                }
                match got {
                    Err(e) => {
                        frames.clear();
                        let msg = prefixed("Cannot read file: ", e.as_str());
                        let ghost rs = replies.push(Err(e@));
                        assert(rs + Seq::<Reply>::empty() =~= rs);
                        assert(replies + seq![Err::<Seq<char>, Seq<char>>(e@)] =~= rs);
                        assert(drive(j, seq![Err::<Seq<char>, Seq<char>>(e@)]).1 == Err::<(), Seq<char>>(msg@));
                        assert(matches_run(drive(j0, rs), *ctx, included@, Err::<(), String>(msg)));
                        assert(requested(j, seq![Err::<Seq<char>, Seq<char>>(e@)]) == seq![p@]);
                        assert(replies_cover(j, seq![Err::<Seq<char>, Seq<char>>(e@)]));
                        assert(prev + seq![p@] =~= reader.requests());
                        return Err(msg);
                    },
                    Ok(text) => {
                        let processed = process_source(text.as_str());
                        let stripped = strip_comments(processed.as_str());
                        let toks = split_whitespace(stripped.as_str());
                        let ghost before = frames_view(frames@);
                        frames.push(Frame { tokens: toks, pos: 0, define_only: false });
                        assert(frames_view(frames@) =~= before.push(file_frame(text@, false)));
                        proof {
                            let x: Reply = Ok(text@);
                            assert forall|fut: Seq<Reply>| #[trigger] drive(j0, replies.push(x) + fut)
                                == drive(job_of(*ctx, frames@, included@), fut) by {
                                assert(replies.push(x) + fut =~= replies + (seq![x] + fut));
                                assert((seq![x] + fut)[0] == x);
                                assert((seq![x] + fut).drop_first() =~= fut);
                            }
                            assert forall|fut: Seq<Reply>| #[trigger] replies_cover(j0, replies.push(x) + fut)
                                == replies_cover(job_of(*ctx, frames@, included@), fut) by {
                                assert(replies.push(x) + fut =~= replies + (seq![x] + fut));
                                assert((seq![x] + fut)[0] == x);
                                assert((seq![x] + fut).drop_first() =~= fut);
                            }
                            assert forall|fut: Seq<Reply>| old(reader).requests()
                                + #[trigger] requested(j0, replies.push(x) + fut)
                                == reader.requests() + requested(job_of(*ctx, frames@, included@), fut) by {
                                assert(replies.push(x) + fut =~= replies + (seq![x] + fut));
                                assert((seq![x] + fut)[0] == x);
                                assert((seq![x] + fut).drop_first() =~= fut);
                                let nxt = requested(job_of(*ctx, frames@, included@), fut);
                                assert(requested(j, seq![x] + fut) == seq![p@] + nxt);
                                assert(prev + (seq![p@] + nxt) =~= reader.requests() + nxt);
                            }
                            replies = replies.push(x);
                        }
                    },
                }
            },
        }
    }
}

/// Process one line of Forth source: comments are removed, definitions are made,
/// files named by INCLUDE and INCLUDED are read through `reader` and processed
/// in place (each file at most once, as recorded in `included_files`), and
/// everything else runs at once unless `options.define_only` is set. The first
/// error ends processing. The result is what the line-processing semantics give
/// for the replies the reader made.
pub fn execute_line<R: SourceReader>(input: &str, ctx: &mut RuntimeContext, config: CompilerConfig,
    options: ExecutionOptions, included_files: &mut Vec<String>, reader: &mut R) -> (r: Result<(), String>)
    requires
        old(ctx).machine.wf(),
    ensures
        final(ctx).machine.wf(),
        extends(*old(reader), *final(reader)),
        matches_run(drive(start_job(*old(ctx), input@, options.define_only, old(included_files)@),
            answered(*old(reader), *final(reader))), *final(ctx), final(included_files)@, r),
        replies_cover(start_job(*old(ctx), input@, options.define_only, old(included_files)@),
            answered(*old(reader), *final(reader))),
        final(reader).requests() == old(reader).requests()
            + requested(start_job(*old(ctx), input@, options.define_only, old(included_files)@),
                answered(*old(reader), *final(reader))),
{
    let stripped = strip_comments(input);
    let toks = split_whitespace(stripped.as_str());
    let mut frames: Vec<Frame> = Vec::new();
    frames.push(Frame { tokens: toks, pos: 0, define_only: options.define_only });
    assert(job_of(*ctx, frames@, included_files@) == start_job(*ctx, input@, options.define_only, included_files@)) by {
        assert(frames_view(frames@) =~= seq![SFrame { toks: split_ws(strip_spec(input@)), pos: 0,
            define_only: options.define_only }]);
    }
    drive_exec(ctx, &mut frames, included_files, reader)
}

/// Load a source file: nothing happens when it was included before; otherwise its
/// name is recorded, its contents are read through `reader` and processed as one
/// line (see [`execute_line`]).
pub fn load_file<R: SourceReader>(filename: &str, ctx: &mut RuntimeContext, config: CompilerConfig,
    options: ExecutionOptions, included_files: &mut Vec<String>, reader: &mut R) -> (r: Result<(), String>)
    requires
        old(ctx).machine.wf(),
    ensures
        final(ctx).machine.wf(),
        extends(*old(reader), *final(reader)),
        matches_run(load_spec(job_of(*old(ctx), Seq::empty(), old(included_files)@), filename@,
            options.define_only, answered(*old(reader), *final(reader))), *final(ctx), final(included_files)@, r),
        load_covered(job_of(*old(ctx), Seq::empty(), old(included_files)@), filename@, options.define_only,
            answered(*old(reader), *final(reader))),
        final(reader).requests() == old(reader).requests()
            + load_requested(job_of(*old(ctx), Seq::empty(), old(included_files)@), filename@,
                options.define_only, answered(*old(reader), *final(reader))),
{
    let ghost j0 = job_of(*ctx, Seq::empty(), included_files@);
    proof {
        assert(answered(*old(reader), *reader) =~= Seq::<Reply>::empty());
        assert(reader.answers().subrange(0, reader.answers().len() as int) =~= reader.answers());
    }
    if contains_name(included_files, filename) {
        assert(matches_run(load_spec(j0, filename@, options.define_only, Seq::empty()), *ctx, included_files@,
            Ok::<(), String>(())));
        assert(reader.requests() + Seq::<Seq<char>>::empty() =~= reader.requests());
        return Ok(());
    }
    included_files.push(filename.to_string());
    assert(names_view(included_files@) =~= names_view(old(included_files)@).push(filename@));
    let got = reader.read_source(filename);
    proof {
        assert(answered(*old(reader), *reader) =~= seq![reply_view(got)]);
        assert(reader.answers().subrange(0, old(reader).answers().len() as int) =~= old(reader).answers());
    }
    match got {
        Err(e) => {
            let msg = prefixed("Cannot read file: ", e.as_str());
            let ghost rs = seq![Err::<Seq<char>, Seq<char>>(e@)];
            assert(matches_run(load_spec(j0, filename@, options.define_only, rs), *ctx, included_files@,
                Err::<(), String>(msg)));
            assert(old(reader).requests() + seq![filename@] =~= reader.requests());
            Err(msg)
        },
        Ok(text) => {
            let processed = process_source(text.as_str());
            let stripped = strip_comments(processed.as_str());
            let toks = split_whitespace(stripped.as_str());
            let mut frames: Vec<Frame> = Vec::new();
            frames.push(Frame { tokens: toks, pos: 0, define_only: options.define_only });
            let ghost j1 = job_of(*ctx, frames@, included_files@);
            let ghost mid = reader.requests();
            let ghost r1 = *reader;
            assert(frames_view(frames@) =~= seq![file_frame(text@, options.define_only)]);
            let r = drive_exec(ctx, &mut frames, included_files, reader);
            proof {
                let rest = answered(r1, *reader);
                let x: Reply = Ok(text@);
                let all = seq![x] + rest;
                let n0 = old(reader).answers().len() as int;
                assert(r1.answers() == old(reader).answers().push(x));
                assert(reader.answers().subrange(0, n0 + 1) == r1.answers());
                assert(answered(*old(reader), *reader) =~= all) by {
                    assert(all.len() == reader.answers().len() - n0);
                    assert forall|k: int| 0 <= k < all.len() implies
                        answered(*old(reader), *reader)[k] == all[k] by {
                        if k == 0 {
                            assert(reader.answers().subrange(0, n0 + 1)[n0] == reader.answers()[n0]);
                        }
                    }
                }
                assert(reader.answers().subrange(0, n0) =~= old(reader).answers()) by {
                    assert forall|k: int| 0 <= k < n0 implies reader.answers()[k] == old(reader).answers()[k] by {
                        assert(reader.answers().subrange(0, n0 + 1)[k] == reader.answers()[k]);
                    }
                }
                assert(all[0] == x);
                assert(all.drop_first() =~= rest);
                assert(matches_run(load_spec(j0, filename@, options.define_only, all), *ctx, included_files@, r));
                assert(load_covered(j0, filename@, options.define_only, all));
                assert(load_requested(j0, filename@, options.define_only, all)
                    == seq![filename@] + requested(j1, rest));
                assert(old(reader).requests() + (seq![filename@] + requested(j1, rest)) =~= reader.requests());
            }
            r
        },
    }
}

/// Load the core word definitions from the text of a core library: the text is
/// processed like a file (line by line, comments removed) and run, not only
/// defined.
pub fn load_stdlib<R: SourceReader>(ctx: &mut RuntimeContext, config: CompilerConfig, options: ExecutionOptions,
    included_files: &mut Vec<String>, core_source: &str, reader: &mut R) -> (r: Result<(), String>)
    requires
        old(ctx).machine.wf(),
    ensures
        final(ctx).machine.wf(),
        extends(*old(reader), *final(reader)),
        matches_run(drive(start_job(*old(ctx), file_text(core_source@), false, old(included_files)@),
            answered(*old(reader), *final(reader))), *final(ctx), final(included_files)@, r),
        replies_cover(start_job(*old(ctx), file_text(core_source@), false, old(included_files)@),
            answered(*old(reader), *final(reader))),
        final(reader).requests() == old(reader).requests()
            + requested(start_job(*old(ctx), file_text(core_source@), false, old(included_files)@),
                answered(*old(reader), *final(reader))),
{
    let processed = process_source(core_source);
    let stdlib_options = ExecutionOptions::new(options.use_forth_compiler, false);
    execute_line(processed.as_str(), ctx, config, stdlib_options, included_files, reader)
}

// ---------------------------------------------------------------------------
// Step by step: the caller reads the files the library asks for
// ---------------------------------------------------------------------------

/// What answering a file request does: one step of the budget is used (none left
/// ends with the step-limit error); a file that could not be read ends processing
/// with "Cannot read file: ..."; otherwise its tokens are processed next. `None`
/// means processing goes on.
pub open spec fn supply_reply(j: Job, r: Reply) -> (Job, Option<Result<(), Seq<char>>>) {
    if j.f == 0 {
        (Job { frames: Seq::empty(), ..j }, Some(Err(exhausted())))
    } else {
        let j2 = Job { f: (j.f - 1) as nat, ..j };
        match r {
            Err(e) => (Job { frames: Seq::empty(), ..j2 }, Some(Err("Cannot read file: "@ + e))),
            Ok(text) => (Job { frames: j2.frames.push(file_frame(text, false)), ..j2 }, None),
        }
    }
}

/// Processing a line with replies is processing until a file is needed, answering
/// the request with the first reply, and going on with the rest: the steps of
/// `continue_run` and `supply_file` are those of `drive`.
pub proof fn law_drive_in_steps(j: Job, x: Reply, rest: Seq<Reply>)
    requires
        session_run(j).1 is NeedFile,
    ensures
        ({
            let (j2, o) = supply_reply(session_run(j).0, x);
            drive(j, seq![x] + rest) == match o {
                Some(r) => (j2, r),
                None => drive(j2, rest),
            }
        }),
{
    let all = seq![x] + rest;
    assert(all[0] == x);
    assert(all.drop_first() =~= rest);
}

/// Where processing stands: finished with a result, or waiting for the contents
/// of the named file.
pub enum Progress {
    Done(Result<(), String>),
    NeedFile(String),
}

/// The abstract form of a progress report.
pub open spec fn progress_stop(p: Progress) -> Stop {
    match p {
        Progress::Done(x) => Stop::Finished(result_view(x)),
        Progress::NeedFile(n) => Stop::NeedFile(n@),
    }
}

/// The pending token frames of a line (and the files it includes) being processed.
pub struct LineRun {
    frames: Vec<Frame>,
}

impl View for LineRun {
    type V = Seq<SFrame>;

    closed spec fn view(&self) -> Seq<SFrame> {
        frames_view(self.frames@)
    }
}

/// The processing state of a context with pending frames and included files.
pub open spec fn job_with(ctx: RuntimeContext, frames: Seq<SFrame>, included: Seq<String>) -> Job {
    Job {
        d: ctx.dict@,
        s: ctx.machine.view(),
        f: ctx.machine.steps as nat,
        frames,
        included: names_view(included),
    }
}

/// Start processing a line: its tokens, comments removed, are the only frame.
pub fn begin_line(input: &str, options: ExecutionOptions) -> (run: LineRun)
    ensures
        run@ == seq![SFrame { toks: split_ws(strip_spec(input@)), pos: 0, define_only: options.define_only }],
{
    let stripped = strip_comments(input);
    let toks = split_whitespace(stripped.as_str());
    let mut frames: Vec<Frame> = Vec::new();
    frames.push(Frame { tokens: toks, pos: 0, define_only: options.define_only });
    let run = LineRun { frames };
    assert(run@ =~= seq![SFrame { toks: split_ws(strip_spec(input@)), pos: 0, define_only: options.define_only }]);
    run
}

/// Record `filename` as included: `true` when it was not included before (and is
/// now), `false` when it was (nothing changes).
pub fn claim_file(filename: &str, included: &mut Vec<String>) -> (fresh: bool)
    ensures
        fresh == !names_view(old(included)@).contains(filename@),
        names_view(final(included)@) == if fresh {
            names_view(old(included)@).push(filename@)
        } else {
            names_view(old(included)@)
        },
{
    if contains_name(included, filename) {
        false
    } else {
        included.push(filename.to_string());
        assert(names_view(included@) =~= names_view(old(included)@).push(filename@));
        true
    }
}

/// Start processing a file from what reading it gave: its text, processed line by
/// line with comments removed, is the only frame; a file that could not be read
/// gives "Cannot read file: ...".
pub fn begin_file(contents: Result<String, String>, options: ExecutionOptions) -> (r: Result<LineRun, String>)
    ensures
        match contents {
            Ok(text) => r is Ok && r->Ok_0@ == seq![file_frame(text@, options.define_only)],
            Err(e) => r is Err && r->Err_0@ == "Cannot read file: "@ + e@,
        },
{
    match contents {
        Err(e) => Err(prefixed("Cannot read file: ", e.as_str())),
        Ok(text) => {
            let processed = process_source(text.as_str());
            let stripped = strip_comments(processed.as_str());
            let toks = split_whitespace(stripped.as_str());
            let mut frames: Vec<Frame> = Vec::new();
            frames.push(Frame { tokens: toks, pos: 0, define_only: options.define_only });
            let run = LineRun { frames };
            assert(run@ =~= seq![file_frame(text@, options.define_only)]);
            Ok(run)
        },
    }
}

/// Process until all tokens are done, an error occurs or a file is needed (then
/// its name is recorded as included and returned).
pub fn continue_run(run: &mut LineRun, ctx: &mut RuntimeContext, included: &mut Vec<String>) -> (p: Progress)
    requires
        old(ctx).machine.wf(),
    ensures
        final(ctx).machine.wf(),
        (job_with(*final(ctx), final(run)@, final(included)@), progress_stop(p))
            == session_run(job_with(*old(ctx), old(run)@, old(included)@)),
{
    let r = run_until_stop(ctx, &mut run.frames, included);
    match r {
        Request::Finished(x) => Progress::Done(x),
        Request::NeedFile(n) => Progress::NeedFile(n),
    }
}

/// Answer the file request that `continue_run` made with what reading the file
/// gave (see `supply_reply`): `Some` result when processing ended, `None` when it
/// goes on with `continue_run`.
pub fn supply_file(run: &mut LineRun, ctx: &mut RuntimeContext, included: &Vec<String>,
    contents: Result<String, String>) -> (r: Option<Result<(), String>>)
    requires
        old(ctx).machine.wf(),
    ensures
        final(ctx).machine.wf(),
        ({
            let (j2, o) = supply_reply(job_with(*old(ctx), old(run)@, included@),
                match contents { Ok(t) => Ok(t@), Err(e) => Err(e@) });
            &&& job_with(*final(ctx), final(run)@, included@) == j2
            &&& o == match r { Some(x) => Some(result_view(x)), None => None::<Result<(), Seq<char>>> }
        }),
{
    if !consume(&mut ctx.machine) {
        run.frames.clear();
        assert(run@ =~= Seq::<SFrame>::empty());
        return Some(Err(exhausted_error()));
    }
    match contents {
        Err(e) => {
            run.frames.clear();
            assert(run@ =~= Seq::<SFrame>::empty());
            Some(Err(prefixed("Cannot read file: ", e.as_str())))
        },
        Ok(text) => {
            let processed = process_source(text.as_str());
            let stripped = strip_comments(processed.as_str());
            let toks = split_whitespace(stripped.as_str());
            let ghost before = run@;
            run.frames.push(Frame { tokens: toks, pos: 0, define_only: false });
            assert(run@ =~= before.push(file_frame(text@, false)));
            None
        },
    }
}

/// The depths of the stacks when a CATCH began.
#[derive(Clone, Copy, Debug)]
pub struct CatchFrame {
    pub stack_depth: usize,
    pub return_stack_depth: usize,
}

/// Everything a session of the interpreter holds: the dictionary and machine,
/// the files included so far, the compiler flags and the pending CATCH frames.
pub struct ExecutionContext {
    pub runtime: RuntimeContext,
    pub included_files: Vec<String>,
    pub config: CompilerConfig,
    pub catch_stack: Vec<CatchFrame>,
}

/// A session context from its parts, with no pending CATCH frames.
pub fn init_execution_context(stack: Stack, dict: Dictionary, loop_stack: LoopStack, return_stack: ReturnStack,
    memory: Memory, included_files: Vec<String>, config: CompilerConfig) -> (c: ExecutionContext)
    ensures
        c.runtime.dict == dict,
        c.runtime.machine.stack == stack,
        c.runtime.machine.loop_stack == loop_stack,
        c.runtime.machine.return_stack == return_stack,
        c.runtime.machine.memory == memory,
        c.runtime.machine.output@.len() == 0,
        c.runtime.machine.errors@.len() == 0,
        c.runtime.machine.steps == u64::MAX,
        c.runtime.machine.asts@.len() == 0,
        c.included_files == included_files,
        c.config == config,
        c.catch_stack@.len() == 0,
{
    ExecutionContext {
        runtime: RuntimeContext::new(stack, dict, loop_stack, return_stack, memory),
        included_files,
        config,
        catch_stack: Vec::new(),
    }
}

} // verus!
