//! A Brainfuck engine: lexer, optimizing bytecode compiler, bytecode
//! interpreter and x86-64 code emitter, with machine-checked contracts.
//!
//! - `token`: source text to commands.
//! - `bytecode`: commands to bytecode; `nesting`: how the jumps of bytecode
//!   form loops.
//! - `vm`: the interpreter.
//! - `x86`, `jit`: bytecode to machine code.
//! - `cpu`: a model of the processor; `listing`, `run`, `agree`: the proof
//!   that, on this model, machine code does what the interpreter does.
//! - `page`, `abi`: what the host of machine code has to keep to.
//! - `text`: the errors in words.

use vstd::prelude::*;

pub mod abi;
pub mod agree;
pub mod bytecode;
pub mod cpu;
pub mod jit;
pub mod listing;
pub mod nesting;
pub mod page;
pub mod run;
pub mod text;
pub mod token;
pub mod vm;
pub mod x86;

verus! {

/// Why a source text did not run to its end.
#[derive(PartialEq, Eq, Structural, Debug, Clone, Copy)]
pub enum Error {
    /// The text has a bracket without its partner.
    Compile(bytecode::CompileError),
    /// The run has failed.
    Runtime(vm::RuntimeError),
}

/// What is said of a source text that did not run to its end.
pub open spec fn error_text(e: Error) -> Seq<char> {
    match e {
        Error::Compile(e) => text::compile_error_text(e),
        Error::Runtime(e) => text::runtime_error_text(e),
    }
}

impl Error {
    /// The error in words.
    pub fn message(&self) -> (s: String)
        ensures
            s@ == error_text(*self),
    {
        match self {
            Error::Compile(e) => e.message(),
            Error::Runtime(e) => e.message(),
        }
    }
}

/// What a run of a source text on a new machine leaves to read, what it
/// has written, and how it ended. A text that does not compile runs not at
/// all.
pub open spec fn run_text(
    codes: Seq<char>,
    input: Seq<u8>,
    output: Seq<u8>,
    jit: bool,
    limit: nat,
) -> (Seq<u8>, Seq<u8>, Result<vm::Stop, Error>) {
    match bytecode::compile_spec(token::lex(codes)) {
        Ok(ir) => {
            let (s, r) = vm::run_spec(
                ir,
                vm::Session { vm: vm::initial(), input, output },
                jit,
                limit,
            );
            (
                s.input,
                s.output,
                match r {
                    Ok(stop) => Ok(stop),
                    Err(e) => Err(Error::Runtime(e)),
                },
            )
        },
        Err(e) => (input, output, Err(Error::Compile(e))),
    }
}

/// Compiles a source text and interprets it on a new machine, for at most
/// `limit` steps. The text may not be longer than a vector can be.
pub fn run(codes: &str, reader: &mut vm::Input, writer: &mut Vec<u8>, limit: u64) -> (r: Result<
    vm::Stop,
    Error,
>)
    requires
        codes@.len() <= isize::MAX,
    ensures
        (final(reader)@, final(writer)@, r) == run_text(
            codes@,
            old(reader)@,
            old(writer)@,
            false,
            limit as nat,
        ),
{
    _run(codes, reader, writer, false, limit)
}

/// Compiles a source text for a run as native code: the result names the
/// instructions that are due, which are all there are, and nothing is read
/// or written. The text may not be longer than a vector can be.
pub fn run_with_jit(codes: &str, reader: &mut vm::Input, writer: &mut Vec<u8>, limit: u64) -> (r:
    Result<vm::Stop, Error>)
    requires
        codes@.len() <= isize::MAX,
    ensures
        (final(reader)@, final(writer)@, r) == run_text(
            codes@,
            old(reader)@,
            old(writer)@,
            true,
            limit as nat,
        ),
{
    _run(codes, reader, writer, true, limit)
}

/// Compiles a source text and runs it on a new machine.
pub fn _run(codes: &str, reader: &mut vm::Input, writer: &mut Vec<u8>, jit: bool, limit: u64) -> (r:
    Result<vm::Stop, Error>)
    requires
        codes@.len() <= isize::MAX,
    ensures
        (final(reader)@, final(writer)@, r) == run_text(
            codes@,
            old(reader)@,
            old(writer)@,
            jit,
            limit as nat,
        ),
{
    let tokens = token::tokenize(codes);
    proof {
        token::lemma_lex_len(codes@);
    }
    let bytecodes = match bytecode::compile(&tokens) {
        Ok(bytecodes) => bytecodes,
        Err(e) => {
            return Err(Error::Compile(e));
        },
    };
    let program = vm::Program { bytecodes };
    let mut machine = vm::VM::new();
    match machine.run(&program, reader, writer, jit, limit) {
        Ok(stop) => Ok(stop),
        Err(e) => Err(Error::Runtime(e)),
    }
}

} // verus!
