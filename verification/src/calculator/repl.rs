//! The commands of the calculator's interactive prompt: choosing a back end, quitting, and
//! evaluating a line.
use vstd::prelude::*;
use crate::lexical::{chars_are, trim, trimmed};
use crate::text::{chars_of, push_char};

verus! {

/// The back ends that evaluate a line.
#[derive(Clone, Copy, Debug, PartialEq, Eq, Structural)]
pub enum Backend {
    Interpreter,
    Vm,
    Jit,
}

pub open spec fn backend_name(b: Backend) -> Seq<char> {
    match b {
        Backend::Interpreter => "interpreter"@,
        Backend::Vm => "vm"@,
        Backend::Jit => "jit"@,
    }
}

/// The back end that a name or its first letter chooses.
pub open spec fn backend_named(s: Seq<char>) -> Option<Backend> {
    if s == "interpreter"@ || s == "i"@ {
        Some(Backend::Interpreter)
    } else if s == "vm"@ || s == "v"@ {
        Some(Backend::Vm)
    } else if s == "jit"@ || s == "j"@ {
        Some(Backend::Jit)
    } else {
        None
    }
}


impl Backend {
    /// The back end's name.
    pub fn name(self) -> (r: &'static str)
        ensures
            r@ == backend_name(self),
    {
        match self {
            Backend::Interpreter => "interpreter",
            Backend::Vm => "vm",
            Backend::Jit => "jit",
        }
    }

    /// The back end named `s` (`interpreter`, `vm`, `jit`, or the first letter of one).
    pub fn parse(s: &str) -> (r: Option<Backend>)
        ensures
            r == backend_named(s@),
    {
        let cs = chars_of(s);
        if chars_are(&cs, "interpreter") || chars_are(&cs, "i") {
            Some(Backend::Interpreter)
        } else if chars_are(&cs, "vm") || chars_are(&cs, "v") {
            Some(Backend::Vm)
        } else if chars_are(&cs, "jit") || chars_are(&cs, "j") {
            Some(Backend::Jit)
        } else {
            None
        }
    }
}

/// What a line typed at the prompt asks for.
#[derive(Debug, PartialEq, Eq)]
pub enum Command {
    /// A blank line: nothing to do.
    Skip,
    /// `:q` or `:quit`.
    Quit,
    /// `use NAME`: the name, and the back end it chooses, if any.
    Use { name: String, backend: Option<Backend> },
    /// Any other line: the program to evaluate, the line with a `;` after it.
    Evaluate(String),
}

pub open spec fn use_prefix() -> Seq<char> {
    "use "@
}

/// The mathematical value of a command.
pub enum SCommand {
    Skip,
    Quit,
    Use(Seq<char>, Option<Backend>),
    Evaluate(Seq<char>),
}

pub open spec fn command_view(c: Command) -> SCommand {
    match c {
        Command::Skip => SCommand::Skip,
        Command::Quit => SCommand::Quit,
        Command::Use { name, backend } => SCommand::Use(name@, backend),
        Command::Evaluate(source) => SCommand::Evaluate(source@),
    }
}

/// The command of a line, read after trimming its white space.
pub open spec fn command_of(line: Seq<char>) -> SCommand {
    let t = trimmed(line);
    if t.len() == 0 {
        SCommand::Skip
    } else if t == ":q"@ || t == ":quit"@ {
        SCommand::Quit
    } else if t.len() >= 4 && t.take(4) == use_prefix() {
        let name = trimmed(t.skip(4));
        SCommand::Use(name, backend_named(name))
    } else {
        SCommand::Evaluate(t + seq![';'])
    }
}

/// What `line` asks for: blank lines are skipped, `:q` and `:quit` quit, `use NAME` chooses a
/// back end, and anything else is evaluated with a `;` appended.
pub fn command(line: &str) -> (r: Command)
    ensures
        command_view(r) == command_of(line@),
{
    let t = trim(line);
    let cs = chars_of(t.as_str());
    proof {
        reveal_strlit("use ");
    }
    if cs.len() == 0 {
        Command::Skip
    } else if chars_are(&cs, ":q") || chars_are(&cs, ":quit") {
        Command::Quit
    } else if cs.len() >= 4 && cs[0] == 'u' && cs[1] == 's' && cs[2] == 'e' && cs[3] == ' ' {
        assert(cs@.take(4) =~= use_prefix());
        let mut rest = String::new();
        let mut k: usize = 4;
        while k < cs.len()
            invariant
                4 <= k <= cs@.len(),
                rest@ == cs@.subrange(4, k as int),
            decreases cs@.len() - k,
        {
            push_char(&mut rest, cs[k]);
            assert(rest@ =~= cs@.subrange(4, k + 1));
            k = k + 1;
        }
        assert(rest@ =~= cs@.skip(4));
        let name = trim(rest.as_str());
        let backend = Backend::parse(name.as_str());
        Command::Use { name, backend }
    } else {
        proof {
            if cs@.len() >= 4 && cs@.take(4) == use_prefix() {
                assert(cs@[0] == cs@.take(4)[0]);
                assert(cs@[1] == cs@.take(4)[1]);
                assert(cs@[2] == cs@.take(4)[2]);
                assert(cs@[3] == cs@.take(4)[3]);
            }
        }
        let ghost tv = t@;
        let mut source = t;
        push_char(&mut source, ';');
        assert(source@ =~= tv + seq![';']);
        Command::Evaluate(source)
    }
}

} // verus!
