//! The commands of the debugger and the way a breakpoint is named.

use crate::text::{chars_of, number_in, parse_number, same_text};
use vstd::prelude::*;

verus! {

#[derive(Clone, Debug, PartialEq, Eq)]
pub enum DebuggerCommand {
    Quit,
    Run(Vec<String>),
    Contin,
    Backtrace,
    Breakpoint(String),
}

/// A command with its texts as sequences of characters.
pub enum Command {
    Quit,
    Run(Seq<Seq<char>>),
    Contin,
    Backtrace,
    Breakpoint(Seq<char>),
}

impl View for DebuggerCommand {
    type V = Command;

    open spec fn view(&self) -> Command {
        match self {
            DebuggerCommand::Quit => Command::Quit,
            DebuggerCommand::Run(args) => Command::Run(args@.map_values(|a: String| a@)),
            DebuggerCommand::Contin => Command::Contin,
            DebuggerCommand::Backtrace => Command::Backtrace,
            DebuggerCommand::Breakpoint(spec) => Command::Breakpoint(spec@),
        }
    }
}

/// The characters of each token.
pub open spec fn texts(tokens: Seq<&str>) -> Seq<Seq<char>> {
    tokens.map_values(|t: &str| t@)
}

/// The command that a line of tokens stands for. The first token names
/// the command, in full or by a short form; `run` takes every further
/// token as an argument of the program, `break` takes the one that
/// follows it and needs it.
pub open spec fn command_of(tokens: Seq<Seq<char>>) -> Option<Command> {
    let name = tokens[0];
    if name == "q"@ || name == "quit"@ {
        Some(Command::Quit)
    } else if name == "r"@ || name == "run"@ {
        Some(Command::Run(tokens.skip(1)))
    } else if name == "c"@ || name == "continue"@ {
        Some(Command::Contin)
    } else if name == "bt"@ || name == "backtrace"@ || name == "back"@ {
        Some(Command::Backtrace)
    } else if name == "b"@ || name == "break"@ {
        if tokens.len() < 2 {
            None
        } else {
            Some(Command::Breakpoint(tokens[1]))
        }
    } else {
        None
    }
}

impl DebuggerCommand {
    /// Reads a command from the tokens of one line.
    pub fn from_tokens(tokens: &Vec<&str>) -> (command: Option<DebuggerCommand>)
        requires
            tokens.len() > 0,
        ensures
            command is Some <==> command_of(texts(tokens@)) is Some,
            command matches Some(c) ==> command_of(texts(tokens@)) == Some(c@),
    {
        let name = tokens[0];
        assert(texts(tokens@)[0] == name@);
        if same_text(name, "q") || same_text(name, "quit") {
            Some(DebuggerCommand::Quit)
        } else if same_text(name, "r") || same_text(name, "run") {
            let mut args: Vec<String> = Vec::new();
            let mut i: usize = 1;
            while i < tokens.len()
                invariant
                    1 <= i <= tokens.len(),
                    args@.map_values(|a: String| a@) == texts(tokens@).subrange(1, i as int),
                decreases tokens.len() - i,
            {
                let arg = tokens[i].to_owned();
                let ghost before = args@;
                args.push(arg);
                assert(args@.map_values(|a: String| a@) =~= before.map_values(|a: String| a@).push(
                    arg@,
                ));
                assert(texts(tokens@).subrange(1, i + 1) =~= texts(tokens@).subrange(
                    1,
                    i as int,
                ).push(tokens@[i as int]@));
                i += 1;
            }
            assert(texts(tokens@).subrange(1, tokens.len() as int) =~= texts(tokens@).skip(1));
            Some(DebuggerCommand::Run(args))
        } else if same_text(name, "c") || same_text(name, "continue") {
            Some(DebuggerCommand::Contin)
        } else if same_text(name, "bt") || same_text(name, "backtrace") || same_text(name, "back") {
            Some(DebuggerCommand::Backtrace)
        } else if same_text(name, "b") || same_text(name, "break") {
            if tokens.len() < 2 {
                None
            } else {
                assert(texts(tokens@)[1] == tokens@[1]@);
                Some(DebuggerCommand::Breakpoint(tokens[1].to_owned()))
            }
        } else {
            None
        }
    }
}

/// What a breakpoint specification names.
#[derive(Clone, Debug, PartialEq, Eq)]
pub enum BreakpointSpec {
    /// A raw address.
    Address(usize),
    /// The number of a source line.
    Line(usize),
    /// The name of a function.
    Function(String),
}

/// A breakpoint specification with its text as a sequence of characters.
pub enum Target {
    Address(usize),
    Line(usize),
    Function(Seq<char>),
}

impl View for BreakpointSpec {
    type V = Target;

    open spec fn view(&self) -> Target {
        match self {
            BreakpointSpec::Address(addr) => Target::Address(*addr),
            BreakpointSpec::Line(number) => Target::Line(*number),
            BreakpointSpec::Function(name) => Target::Function(name@),
        }
    }
}

/// `s` without the `0x` that may stand in front of a hexadecimal
/// number, in either case of the `x`.
pub open spec fn without_hex_mark(s: Seq<char>) -> Seq<char> {
    if s.len() >= 2 && s[0] == '0' && (s[1] == 'x' || s[1] == 'X') {
        s.skip(2)
    } else {
        s
    }
}

/// The address that `s` writes: a hexadecimal number, with or without
/// `0x` in front.
pub open spec fn address_in(s: Seq<char>) -> Option<usize> {
    number_in(without_hex_mark(s), 16)
}

/// What the specification `s` names. After a `*` stands a raw address,
/// and nothing else will do there; a decimal number is a source line;
/// any other text is the name of a function.
pub open spec fn target_of(s: Seq<char>) -> Option<Target> {
    if s.len() > 0 && s[0] == '*' {
        match address_in(s.skip(1)) {
            Some(addr) => Some(Target::Address(addr)),
            None => None,
        }
    } else {
        match number_in(s, 10) {
            Some(number) => Some(Target::Line(number)),
            None => Some(Target::Function(s)),
        }
    }
}

fn parse_address_from(chars: &Vec<char>, from: usize) -> (addr: Option<usize>)
    requires
        from <= chars.len(),
    ensures
        addr == address_in(chars@.skip(from as int)),
{
    let ghost s = chars@.skip(from as int);
    if chars.len() - from >= 2 && chars[from] == '0' && (chars[from + 1] == 'x' || chars[from + 1]
        == 'X') {
        assert(s.skip(2) =~= chars@.skip(from + 2));
        parse_number(chars, from + 2, 16)
    } else {
        parse_number(chars, from, 16)
    }
}

/// Reads a hexadecimal address, with or without `0x` in front.
pub fn parse_address(addr: &str) -> (parsed: Option<usize>)
    ensures
        parsed == address_in(addr@),
{
    let chars = chars_of(addr);
    assert(chars@.skip(0) =~= chars@);
    parse_address_from(&chars, 0)
}

/// Reads a breakpoint specification.
pub fn parse_breakpoint(spec: &str) -> (parsed: Option<BreakpointSpec>)
    ensures
        parsed is Some <==> target_of(spec@) is Some,
        parsed matches Some(p) ==> target_of(spec@) == Some(p@),
{
    let chars = chars_of(spec);
    if chars.len() > 0 && chars[0] == '*' {
        match parse_address_from(&chars, 1) {
            Some(addr) => Some(BreakpointSpec::Address(addr)),
            None => None,
        }
    } else {
        assert(chars@.skip(0) =~= chars@);
        match parse_number(&chars, 0, 10) {
            Some(number) => Some(BreakpointSpec::Line(number)),
            None => Some(BreakpointSpec::Function(spec.to_owned())),
        }
    }
}

} // verus!
