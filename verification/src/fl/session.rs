//! Running a whole program from its text, and the line-continuation rule of the
//! interactive prompt.
use vstd::prelude::*;
use crate::fl::ast::{stmts_view, Stmt};
use crate::fl::grammar::parse_program;
use crate::fl::interpreter::{events_view, initial_state, Event, Interpreter};
use crate::fl::parser::{built_stmts, parse};
use crate::fl::semantics::{error_text, run_program};
use crate::lexical::{chars_are, trim, trimmed};
use crate::text::chars_of;

verus! {

/// Parses `source` and runs it in a fresh interpreter. Answers the outcome (the parse error
/// or the runtime error, as a message) and what the program showed before it ended.
pub fn run(source: &str) -> (r: (Result<(), String>, Vec<Event>))
    ensures
        match parse_program(source@) {
            Err(m) => r.0 matches Err(e) && e@ == m && r.1@.len() == 0,
            Ok(p) => {
                let (st, res) = run_program(initial_state(), p, 0, u64::MAX as nat);
                &&& events_view(r.1@) == st.events
                &&& match res {
                    Ok(()) => r.0 is Ok,
                    Err(e) => r.0 matches Err(m) && m@ == error_text(e),
                }
            },
        },
{
    let program = match parse(source) {
        Ok(p) => p,
        Err(m) => return (Err(m), Vec::new()),
    };
    let mut interpreter = Interpreter::new();
    let res = interpreter.run(&program);
    let events = interpreter.take_events();
    (res, events)
}

/// What the first line of an entry at the interactive prompt asks for.
#[derive(Debug, PartialEq, Eq, Structural)]
pub enum Entry {
    /// A blank line, or the end of the input: the session ends.
    End,
    /// `exit` or `quit`: the session ends with a farewell.
    Quit,
    /// Anything else starts a program.
    Program,
}

pub open spec fn entry_of(line: Seq<char>) -> Entry {
    let t = trimmed(line);
    if t.len() == 0 {
        Entry::End
    } else if t == "exit"@ || t == "quit"@ {
        Entry::Quit
    } else {
        Entry::Program
    }
}


/// What the first line of an entry asks for, read after trimming its white space.
pub fn entry(line: &str) -> (r: Entry)
    ensures
        r == entry_of(line@),
{
    let t = trim(line);
    let cs = chars_of(t.as_str());
    if cs.len() == 0 {
        Entry::End
    } else if chars_are(&cs, "exit") || chars_are(&cs, "quit") {
        Entry::Quit
    } else {
        Entry::Program
    }
}

/// What became of an entry handed to the interpreter.
#[derive(Debug)]
pub enum Submitted {
    /// The entry does not parse; the message.
    ParseError(String),
    /// The syntax tree, asked for instead of running the entry.
    Ast(Vec<Stmt>),
    /// The entry parses, and only parsing was asked for.
    Parsed,
    /// The entry ran; its outcome.
    Ran(Result<(), String>),
}

/// Parses the trimmed `input`; then hands back the tree where `emit_ast` asks for it, stops
/// where `parse_only` does, and otherwise runs the program in `interpreter`.
pub fn submit(interpreter: &mut Interpreter, input: &str, emit_ast: bool, parse_only: bool) -> (r: Submitted)
    ensures
        match parse_program(trimmed(input@)) {
            Err(m) => r matches Submitted::ParseError(e) && e@ == m && final(interpreter)@ == old(interpreter)@,
            Ok(p) => if emit_ast {
                r matches Submitted::Ast(v) && stmts_view(v@) == p && final(interpreter)@ == old(interpreter)@
            } else if parse_only {
                r is Parsed && final(interpreter)@ == old(interpreter)@
            } else {
                let (st, res) = run_program(old(interpreter)@, p, 0, old(interpreter)@.fuel as nat);
                &&& final(interpreter)@ == st
                &&& r matches Submitted::Ran(out)
                &&& match res {
                    Ok(()) => out is Ok,
                    Err(e) => out matches Err(m) && m@ == error_text(e),
                }
            },
        },
{
    let source = trim(input);
    let program = match parse(source.as_str()) {
        Ok(p) => p,
        Err(m) => return Submitted::ParseError(m),
    };
    if emit_ast {
        Submitted::Ast(program)
    } else if parse_only {
        Submitted::Parsed
    } else {
        Submitted::Ran(interpreter.run(&program))
    }
}

/// The state of the bracket count after some characters: the depth, whether a string literal
/// is open, and the character before.
pub open spec fn scan_step(st: (int, bool, char), c: char) -> (int, bool, char) {
    let in_string = if c == '"' && st.2 != '\\' { !st.1 } else { st.1 };
    let depth = if in_string {
        st.0
    } else if c == '(' || c == '[' || c == '{' {
        st.0 + 1
    } else if c == ')' || c == ']' || c == '}' {
        st.0 - 1
    } else {
        st.0
    };
    (depth, in_string, c)
}

/// Brackets opened minus brackets closed outside string literals, with the state after `s`.
pub open spec fn scan(s: Seq<char>) -> (int, bool, char)
    decreases s.len(),
{
    if s.len() == 0 {
        (0, false, ' ')
    } else {
        scan_step(scan(s.drop_last()), s.last())
    }
}

/// No prefix of `s` closes more brackets than it opened.
pub open spec fn never_below_zero(s: Seq<char>) -> bool {
    forall|i: int| 0 <= i <= s.len() ==> #[trigger] scan(s.take(i)).0 >= 0
}

proof fn lemma_scan_bound(s: Seq<char>)
    ensures
        scan(s).0 <= s.len(),
    decreases s.len(),
{
    if s.len() > 0 {
        lemma_scan_bound(s.drop_last());
    }
}

/// How many brackets `s` leaves open (the prompt reads more lines while it is positive), or
/// `None` where a prefix closes more than it opened.
pub fn try_bracket_depth(s: &str) -> (r: Option<usize>)
    ensures
        match r {
            Some(d) => never_below_zero(s@) && d as int == scan(s@).0,
            None => !never_below_zero(s@),
        },
{
    let cs = chars_of(s);
    let n = cs.len();
    let mut depth: usize = 0;
    let mut in_string = false;
    let mut prev_char = ' ';
    let mut i: usize = 0;
    assert(cs@.take(0) =~= Seq::<char>::empty());
    while i < n
        invariant
            n == cs@.len(),
            cs@ == s@,
            i <= n,
            scan(cs@.take(i as int)) == (depth as int, in_string, prev_char),
            forall|j: int| 0 <= j <= i ==> #[trigger] scan(cs@.take(j)).0 >= 0,
        decreases n - i,
    {
        let c = cs[i];
        assert(cs@.take(i + 1).drop_last() =~= cs@.take(i as int));
        proof {
            lemma_scan_bound(cs@.take(i as int));
        }
        if c == '"' && prev_char != '\\' {
            in_string = !in_string;
        }
        if !in_string {
            if c == '(' || c == '[' || c == '{' {
                depth = depth + 1;
            } else if c == ')' || c == ']' || c == '}' {
                if depth == 0 {
                    assert(scan(cs@.take(i + 1)).0 < 0);
                    return None;
                }
                depth = depth - 1;
            }
        }
        prev_char = c;
        i = i + 1;
    }
    assert(cs@.take(n as int) =~= cs@);
    Some(depth)
}

/// How many brackets `s` leaves open outside string literals.
pub fn bracket_depth(s: &str) -> (r: usize)
    requires
        never_below_zero(s@),
    ensures
        r as int == scan(s@).0,
{
    match try_bracket_depth(s) {
        Some(d) => d,
        None => 0,
    }
}

} // verus!
