use bf_jit::bytecode::CompileError;
use bf_jit::jit::CogenError;
use bf_jit::text::decimal_string;
use bf_jit::vm::RuntimeError;
use bf_jit::Error;

#[test]
fn decimal_string_of_numbers() {
    assert_eq!(decimal_string(0), "0");
    assert_eq!(decimal_string(7), "7");
    assert_eq!(decimal_string(10), "10");
    assert_eq!(decimal_string(409), "409");
    assert_eq!(decimal_string(1234567890), "1234567890");
    assert_eq!(decimal_string(usize::MAX), format!("{}", usize::MAX));
}

#[test]
fn compile_error_in_words() {
    assert_eq!(
        CompileError::LSQBMismatch(0).message(),
        "unclosed '[' at pos 0"
    );
    assert_eq!(
        CompileError::LSQBMismatch(12).message(),
        "unclosed '[' at pos 12"
    );
    assert_eq!(
        CompileError::RSQBMismatch(4).message(),
        "unexpected ']' at pos 4"
    );
    assert_eq!(
        CompileError::RSQBMismatch(100000).message(),
        "unexpected ']' at pos 100000"
    );
}

#[test]
fn cogen_error_in_words() {
    assert_eq!(
        CogenError::UnsupportedArch.message(),
        "target arch is not supported"
    );
    assert_eq!(
        CogenError::UnsupportedOS.message(),
        "target os is not supported"
    );
}

#[test]
fn runtime_error_in_words() {
    assert_eq!(
        RuntimeError::MemoryOutofRange.message(),
        "memory out of range"
    );
}

#[test]
fn error_in_words() {
    assert_eq!(
        Error::Compile(CompileError::RSQBMismatch(3)).message(),
        "unexpected ']' at pos 3"
    );
    assert_eq!(
        Error::Runtime(RuntimeError::MemoryOutofRange).message(),
        "memory out of range"
    );
}
