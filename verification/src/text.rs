//! The words for each error, as a caller would print them.

use crate::bytecode::CompileError;
use crate::jit::CogenError;
use crate::vm::RuntimeError;
use vstd::prelude::*;
use vstd::string::StringExecFns;

verus! {

/// The character for a digit.
pub open spec fn digit(d: nat) -> char {
    if d == 0 {
        '0'
    } else if d == 1 {
        '1'
    } else if d == 2 {
        '2'
    } else if d == 3 {
        '3'
    } else if d == 4 {
        '4'
    } else if d == 5 {
        '5'
    } else if d == 6 {
        '6'
    } else if d == 7 {
        '7'
    } else if d == 8 {
        '8'
    } else {
        '9'
    }
}

/// A number in decimal digits, without leading zeros.
pub open spec fn decimal(n: nat) -> Seq<char>
    decreases n,
{
    if n < 10 {
        seq![digit(n)]
    } else {
        decimal(n / 10).push(digit(n % 10))
    }
}

/// What is said of a command sequence that does not compile.
pub open spec fn compile_error_text(e: CompileError) -> Seq<char> {
    match e {
        CompileError::LSQBMismatch(pos) => "unclosed '[' at pos "@ + decimal(pos as nat),
        CompileError::RSQBMismatch(pos) => "unexpected ']' at pos "@ + decimal(pos as nat),
    }
}

/// What is said of a machine that no code is generated for.
pub open spec fn cogen_error_text(e: CogenError) -> Seq<char> {
    match e {
        CogenError::UnsupportedArch => "target arch is not supported"@,
        CogenError::UnsupportedOS => "target os is not supported"@,
    }
}

/// What is said of a run that has failed.
pub open spec fn runtime_error_text(e: RuntimeError) -> Seq<char> {
    match e {
        RuntimeError::MemoryOutofRange => "memory out of range"@,
    }
}

/// The text of a digit.
fn digit_str(d: usize) -> (s: &'static str)
    requires
        d < 10,
    ensures
        s@ == seq![digit(d as nat)],
{
    proof {
        reveal_strlit("0");
        reveal_strlit("1");
        reveal_strlit("2");
        reveal_strlit("3");
        reveal_strlit("4");
        reveal_strlit("5");
        reveal_strlit("6");
        reveal_strlit("7");
        reveal_strlit("8");
        reveal_strlit("9");
    }
    let s = match d {
        0 => "0",
        1 => "1",
        2 => "2",
        3 => "3",
        4 => "4",
        5 => "5",
        6 => "6",
        7 => "7",
        8 => "8",
        _ => "9",
    };
    assert(s@ =~= seq![digit(d as nat)]);
    s
}

/// Writes a number in decimal digits.
pub fn decimal_string(n: usize) -> (s: String)
    ensures
        s@ == decimal(n as nat),
    decreases n,
{
    if n < 10 {
        String::from_str(digit_str(n))
    } else {
        let mut s = decimal_string(n / 10);
        s.append(digit_str(n % 10));
        assert(s@ =~= decimal(n as nat));
        s
    }
}

impl CompileError {
    /// The error in words, with the position of the bracket.
    pub fn message(&self) -> (s: String)
        ensures
            s@ == compile_error_text(*self),
    {
        match self {
            CompileError::LSQBMismatch(pos) => {
                let mut s = String::from_str("unclosed '[' at pos ");
                s.append(decimal_string(*pos).as_str());
                s
            },
            CompileError::RSQBMismatch(pos) => {
                let mut s = String::from_str("unexpected ']' at pos ");
                s.append(decimal_string(*pos).as_str());
                s
            },
        }
    }
}

impl CogenError {
    /// The error in words.
    pub fn message(&self) -> (s: String)
        ensures
            s@ == cogen_error_text(*self),
    {
        match self {
            CogenError::UnsupportedArch => String::from_str("target arch is not supported"),
            CogenError::UnsupportedOS => String::from_str("target os is not supported"),
        }
    }
}

impl RuntimeError {
    /// The error in words.
    pub fn message(&self) -> (s: String)
        ensures
            s@ == runtime_error_text(*self),
    {
        match self {
            RuntimeError::MemoryOutofRange => String::from_str("memory out of range"),
        }
    }
}

} // verus!
