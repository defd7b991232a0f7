use bf_jit::bytecode::compile;
use bf_jit::bytecode::Inst::{ADD, FINDZERO, GETC, JNZ, JZ, MOVPTR, MULINTO, PUTC, SETZERO};
use bf_jit::jit::{code_size, codegen, op_size, Arch, CogenError, Os, Target};
use bf_jit::nesting::is_balanced;
use bf_jit::token::tokenize;
use bf_jit::x86::{emit_advance, emit_bounds_check, emit_jnz, emit_op, patch_rel, push_le};

const HERE: Target = Target {
    arch: Arch::X86_64,
    os: Os::Linux,
};

const PROLOGUE: [u8; 4] = [0x48, 0x83, 0xEC, 0x08];
const EPILOGUE: [u8; 5] = [0x48, 0x83, 0xC4, 0x08, 0xC3];
const ABORT: [u8; 6] = [0x48, 0x31, 0xFF, 0x41, 0xFF, 0xD7];

fn framed(body: &[u8]) -> Vec<u8> {
    let mut code = PROLOGUE.to_vec();
    code.extend_from_slice(body);
    code.extend_from_slice(&EPILOGUE);
    code.extend_from_slice(&ABORT);
    code
}

#[test]
fn codegen_of_nothing() {
    assert_eq!(codegen(&[], HERE), Ok(framed(&[])));
}

#[test]
fn codegen_add() {
    assert_eq!(
        codegen(&[ADD(1)], HERE),
        Ok(framed(&[0x41, 0x80, 0x04, 0x24, 0x01]))
    );
    assert_eq!(
        codegen(&[ADD(-1)], HERE),
        Ok(framed(&[0x41, 0x80, 0x04, 0x24, 0xFF]))
    );
    assert_eq!(
        codegen(&[ADD(300)], HERE),
        Ok(framed(&[0x41, 0x80, 0x04, 0x24, 0x2C]))
    );
}

#[test]
fn codegen_set_zero() {
    assert_eq!(
        codegen(&[SETZERO], HERE),
        Ok(framed(&[0x41, 0xC6, 0x04, 0x24, 0x00]))
    );
}

#[test]
fn codegen_putc_and_getc() {
    assert_eq!(
        codegen(&[PUTC], HERE),
        Ok(framed(&[
            0x57, 0x51, 0x48, 0xC7, 0xC6, 0x01, 0x00, 0x00, 0x00, 0x4C, 0x89, 0xE2, 0xFF, 0xD1,
            0x59, 0x5F,
        ]))
    );
    assert_eq!(
        codegen(&[GETC], HERE),
        Ok(framed(&[
            0x57, 0x51, 0x48, 0xC7, 0xC6, 0x00, 0x00, 0x00, 0x00, 0x4C, 0x89, 0xE2, 0xFF, 0xD1,
            0x41, 0x88, 0x04, 0x24, 0x59, 0x5F,
        ]))
    );
}

#[test]
fn codegen_short_move_jumps_to_the_abort_routine() {
    // the jump ends at 23, the abort routine starts at 28
    assert_eq!(
        codegen(&[MOVPTR(1)], HERE),
        Ok(framed(&[
            0x49, 0x83, 0xC4, 0x01, 0x4C, 0x89, 0xE0, 0x4C, 0x29, 0xF0, 0x4C, 0x39, 0xE8, 0x0F,
            0x87, 0x05, 0x00, 0x00, 0x00,
        ]))
    );
    assert_eq!(
        codegen(&[MOVPTR(-128)], HERE),
        Ok(framed(&[
            0x49, 0x83, 0xC4, 0x80, 0x4C, 0x89, 0xE0, 0x4C, 0x29, 0xF0, 0x4C, 0x39, 0xE8, 0x0F,
            0x87, 0x05, 0x00, 0x00, 0x00,
        ]))
    );
}

#[test]
fn codegen_long_move() {
    assert_eq!(
        codegen(&[MOVPTR(1000)], HERE),
        Ok(framed(&[
            0x48, 0xB8, 0xE8, 0x03, 0x00, 0x00, 0x00, 0x00, 0x00, 0x00, 0x49, 0x01, 0xC4, 0x4C,
            0x89, 0xE0, 0x4C, 0x29, 0xF0, 0x4C, 0x39, 0xE8, 0x0F, 0x87, 0x05, 0x00, 0x00, 0x00,
        ]))
    );
    assert_eq!(
        codegen(&[MOVPTR(-200)], HERE),
        Ok(framed(&[
            0x48, 0xB8, 0x38, 0xFF, 0xFF, 0xFF, 0xFF, 0xFF, 0xFF, 0xFF, 0x49, 0x01, 0xC4, 0x4C,
            0x89, 0xE0, 0x4C, 0x29, 0xF0, 0x4C, 0x39, 0xE8, 0x0F, 0x87, 0x05, 0x00, 0x00, 0x00,
        ]))
    );
    assert_eq!(
        codegen(&[MOVPTR(128)], HERE),
        Ok(framed(&[
            0x48, 0xB8, 0x80, 0x00, 0x00, 0x00, 0x00, 0x00, 0x00, 0x00, 0x49, 0x01, 0xC4, 0x4C,
            0x89, 0xE0, 0x4C, 0x29, 0xF0, 0x4C, 0x39, 0xE8, 0x0F, 0x87, 0x05, 0x00, 0x00, 0x00,
        ]))
    );
}

#[test]
fn codegen_the_move_is_not_reduced() {
    // a move by the length of the tape is a move, and leaves the tape
    assert_eq!(
        codegen(&[MOVPTR(100000)], HERE),
        Ok(framed(&[
            0x48, 0xB8, 0xA0, 0x86, 0x01, 0x00, 0x00, 0x00, 0x00, 0x00, 0x49, 0x01, 0xC4, 0x4C,
            0x89, 0xE0, 0x4C, 0x29, 0xF0, 0x4C, 0x39, 0xE8, 0x0F, 0x87, 0x05, 0x00, 0x00, 0x00,
        ]))
    );
}

#[test]
fn codegen_mulinto() {
    // the jump ends at 4 + 22, the abort routine starts at 4 + 41 + 5
    assert_eq!(
        codegen(&[MULINTO(3, 2)], HERE),
        Ok(framed(&[
            0x4D, 0x89, 0xE3, 0x49, 0x83, 0xC3, 0x02, 0x4C, 0x89, 0xD8, 0x4C, 0x29, 0xF0, 0x4C,
            0x39, 0xE8, 0x0F, 0x87, 0x18, 0x00, 0x00, 0x00, 0x41, 0x0F, 0xB6, 0x04, 0x24, 0x69,
            0xC0, 0x03, 0x00, 0x00, 0x00, 0x41, 0x00, 0x03, 0x41, 0xC6, 0x04, 0x24, 0x00,
        ]))
    );
    assert_eq!(
        codegen(&[MULINTO(-1, -300)], HERE),
        Ok(framed(&[
            0x4D, 0x89, 0xE3, 0x48, 0xB8, 0xD4, 0xFE, 0xFF, 0xFF, 0xFF, 0xFF, 0xFF, 0xFF, 0x49,
            0x01, 0xC3, 0x4C, 0x89, 0xD8, 0x4C, 0x29, 0xF0, 0x4C, 0x39, 0xE8, 0x0F, 0x87, 0x18,
            0x00, 0x00, 0x00, 0x41, 0x0F, 0xB6, 0x04, 0x24, 0x69, 0xC0, 0xFF, 0xFF, 0xFF, 0xFF,
            0x41, 0x00, 0x03, 0x41, 0xC6, 0x04, 0x24, 0x00,
        ]))
    );
}

#[test]
fn codegen_findzero() {
    // the jump ends at 4 + 26, the abort routine starts at 4 + 28 + 5
    assert_eq!(
        codegen(&[FINDZERO(-1)], HERE),
        Ok(framed(&[
            0x41, 0x80, 0x3C, 0x24, 0x00, 0x74, 0x15, 0x49, 0x83, 0xC4, 0xFF, 0x4C, 0x89, 0xE0,
            0x4C, 0x29, 0xF0, 0x4C, 0x39, 0xE8, 0x0F, 0x87, 0x07, 0x00, 0x00, 0x00, 0xEB, 0xE4,
        ]))
    );
    assert_eq!(
        codegen(&[FINDZERO(256)], HERE),
        Ok(framed(&[
            0x41, 0x80, 0x3C, 0x24, 0x00, 0x74, 0x1E, 0x48, 0xB8, 0x00, 0x01, 0x00, 0x00, 0x00,
            0x00, 0x00, 0x00, 0x49, 0x01, 0xC4, 0x4C, 0x89, 0xE0, 0x4C, 0x29, 0xF0, 0x4C, 0x39,
            0xE8, 0x0F, 0x87, 0x07, 0x00, 0x00, 0x00, 0xEB, 0xDB,
        ]))
    );
}

#[test]
fn codegen_links_a_loop() {
    // JZ at 4, PUTC at 15, JNZ at 31, end at 42
    assert_eq!(
        codegen(&[JZ(3), PUTC, JNZ(1)], HERE),
        Ok(framed(&[
            0x41, 0x80, 0x3C, 0x24, 0x00, 0x0F, 0x84, 0x1B, 0x00, 0x00, 0x00, 0x57, 0x51, 0x48,
            0xC7, 0xC6, 0x01, 0x00, 0x00, 0x00, 0x4C, 0x89, 0xE2, 0xFF, 0xD1, 0x59, 0x5F, 0x41,
            0x80, 0x3C, 0x24, 0x00, 0x0F, 0x85, 0xE5, 0xFF, 0xFF, 0xFF,
        ]))
    );
}

#[test]
fn codegen_does_not_read_the_index_of_a_jump() {
    assert_eq!(
        codegen(&[JZ(77), PUTC, JNZ(99)], HERE),
        codegen(&[JZ(3), PUTC, JNZ(1)], HERE)
    );
}

#[test]
fn codegen_links_nested_loops() {
    // JZ 4..15, JZ 15..26, ADD 26..31, JNZ 31..42, JNZ 42..53
    assert_eq!(
        codegen(&[JZ(5), JZ(4), ADD(1), JNZ(2), JNZ(1)], HERE),
        Ok(framed(&[
            0x41, 0x80, 0x3C, 0x24, 0x00, 0x0F, 0x84, 0x26, 0x00, 0x00, 0x00, 0x41, 0x80, 0x3C,
            0x24, 0x00, 0x0F, 0x84, 0x10, 0x00, 0x00, 0x00, 0x41, 0x80, 0x04, 0x24, 0x01, 0x41,
            0x80, 0x3C, 0x24, 0x00, 0x0F, 0x85, 0xF0, 0xFF, 0xFF, 0xFF, 0x41, 0x80, 0x3C, 0x24,
            0x00, 0x0F, 0x85, 0xDA, 0xFF, 0xFF, 0xFF,
        ]))
    );
}

#[test]
fn codegen_every_check_jumps_to_the_one_abort_routine() {
    // MOVPTR 4..23, ADD 23..28, MOVPTR 28..47; the abort routine starts at 52
    assert_eq!(
        codegen(&[MOVPTR(1), ADD(1), MOVPTR(-1)], HERE),
        Ok(framed(&[
            0x49, 0x83, 0xC4, 0x01, 0x4C, 0x89, 0xE0, 0x4C, 0x29, 0xF0, 0x4C, 0x39, 0xE8, 0x0F,
            0x87, 0x1D, 0x00, 0x00, 0x00, 0x41, 0x80, 0x04, 0x24, 0x01, 0x49, 0x83, 0xC4, 0xFF,
            0x4C, 0x89, 0xE0, 0x4C, 0x29, 0xF0, 0x4C, 0x39, 0xE8, 0x0F, 0x87, 0x05, 0x00, 0x00,
            0x00,
        ]))
    );
}

#[test]
fn codegen_of_compiled_text() {
    let ir = compile(&tokenize("+[-]>[>]<[->+<]")).unwrap();
    let code = codegen(&ir, HERE).unwrap();
    assert_eq!(Some(code.len()), code_size(&ir));
    assert_eq!(code[..4], PROLOGUE);
    assert_eq!(code[code.len() - 11..code.len() - 6], EPILOGUE);
    assert_eq!(code[code.len() - 6..], ABORT);
}

#[test]
fn codegen_twice_gives_the_same() {
    let ir = compile(&tokenize("++[>+[.]<-]>[>>]<[->+<].,")).unwrap();
    assert_eq!(codegen(&ir, HERE), codegen(&ir, HERE));
}

#[test]
fn codegen_for_other_machines() {
    let mac = Target {
        arch: Arch::X86_64,
        os: Os::MacOs,
    };
    assert_eq!(codegen(&[ADD(1)], mac), codegen(&[ADD(1)], HERE));
    let other_os = Target {
        arch: Arch::X86_64,
        os: Os::Other,
    };
    assert_eq!(codegen(&[ADD(1)], other_os), Err(CogenError::UnsupportedOS));
    let other_arch = Target {
        arch: Arch::Other,
        os: Os::Linux,
    };
    assert_eq!(
        codegen(&[ADD(1)], other_arch),
        Err(CogenError::UnsupportedArch)
    );
    let neither = Target {
        arch: Arch::Other,
        os: Os::Other,
    };
    assert_eq!(codegen(&[ADD(1)], neither), Err(CogenError::UnsupportedOS));
}

#[test]
fn code_size_adds_up() {
    assert_eq!(code_size(&[]), Some(15));
    assert_eq!(code_size(&[ADD(1), SETZERO]), Some(25));
    assert_eq!(code_size(&[JZ(3), PUTC, JNZ(1)]), Some(53));
    assert_eq!(code_size(&[MOVPTR(1), MOVPTR(200)]), Some(62));
}

#[test]
fn op_size_of_each() {
    assert_eq!(op_size(MOVPTR(127)), 19);
    assert_eq!(op_size(MOVPTR(128)), 28);
    assert_eq!(op_size(MOVPTR(-128)), 19);
    assert_eq!(op_size(MOVPTR(-129)), 28);
    assert_eq!(op_size(ADD(1000)), 5);
    assert_eq!(op_size(SETZERO), 5);
    assert_eq!(op_size(MULINTO(1, 1)), 41);
    assert_eq!(op_size(MULINTO(1, 1000)), 50);
    assert_eq!(op_size(FINDZERO(1)), 28);
    assert_eq!(op_size(FINDZERO(-1000)), 37);
    assert_eq!(op_size(PUTC), 16);
    assert_eq!(op_size(GETC), 20);
    assert_eq!(op_size(JZ(0)), 11);
    assert_eq!(op_size(JNZ(0)), 11);
}

#[test]
fn is_balanced_cases() {
    assert!(is_balanced(&[]));
    assert!(is_balanced(&[ADD(1)]));
    assert!(is_balanced(&[JZ(0), JNZ(0)]));
    assert!(is_balanced(&[JZ(0), JZ(0), JNZ(0), PUTC, JNZ(0), JZ(0), JNZ(0)]));
    assert!(!is_balanced(&[JZ(0)]));
    assert!(!is_balanced(&[JNZ(0)]));
    assert!(!is_balanced(&[JNZ(0), JZ(0)]));
    assert!(!is_balanced(&[JZ(0), JNZ(0), JNZ(0), JZ(0)]));
    assert!(!is_balanced(&[JZ(0), JZ(0), JNZ(0)]));
}

#[test]
fn compiled_text_is_balanced() {
    let ir = compile(&tokenize("+[>[.]<[,[.]]-][-][>]")).unwrap();
    assert!(is_balanced(&ir));
}

#[test]
fn push_le_is_twos_complement() {
    let mut code = vec![9];
    push_le(&mut code, 0x1234, 2);
    assert_eq!(code, vec![9, 0x34, 0x12]);
    let mut code = vec![];
    push_le(&mut code, -2, 4);
    assert_eq!(code, vec![0xFE, 0xFF, 0xFF, 0xFF]);
    let mut code = vec![];
    push_le(&mut code, -27, 4);
    assert_eq!(code, (-27i32).to_le_bytes().to_vec());
    let mut code = vec![];
    push_le(&mut code, 100000, 8);
    assert_eq!(code, 100000i64.to_le_bytes().to_vec());
    let mut code = vec![];
    push_le(&mut code, -100000, 8);
    assert_eq!(code, (-100000i64).to_le_bytes().to_vec());
    let mut code = vec![];
    push_le(&mut code, 0x1_2345, 1);
    assert_eq!(code, vec![0x45]);
    let mut code = vec![7];
    push_le(&mut code, 5, 0);
    assert_eq!(code, vec![7]);
}

#[test]
fn emit_pieces() {
    let mut code = vec![];
    emit_advance(&mut code, 0xC4, 5);
    assert_eq!(code, vec![0x49, 0x83, 0xC4, 0x05]);
    let mut code = vec![];
    emit_advance(&mut code, 0xC3, -129);
    assert_eq!(
        code,
        vec![0x48, 0xB8, 0x7F, 0xFF, 0xFF, 0xFF, 0xFF, 0xFF, 0xFF, 0xFF, 0x49, 0x01, 0xC3]
    );
    let mut code = vec![];
    emit_bounds_check(&mut code, 0xE0);
    assert_eq!(
        code,
        vec![0x4C, 0x89, 0xE0, 0x4C, 0x29, 0xF0, 0x4C, 0x39, 0xE8, 0x0F, 0x87, 0xAF, 0xBE, 0xAD, 0xDE]
    );
    let mut code = vec![];
    emit_op(&mut code, JZ(0));
    assert_eq!(
        code,
        vec![0x41, 0x80, 0x3C, 0x24, 0x00, 0x0F, 0x84, 0xAF, 0xBE, 0xAD, 0xDE]
    );
    let mut code = vec![];
    emit_jnz(&mut code, JNZ(0), -11);
    assert_eq!(
        code,
        vec![0x41, 0x80, 0x3C, 0x24, 0x00, 0x0F, 0x85, 0xF5, 0xFF, 0xFF, 0xFF]
    );
}

#[test]
fn patch_rel_writes_four_bytes() {
    let mut code = vec![1, 2, 3, 4, 5, 6, 7];
    patch_rel(&mut code, 2, 0x0A0B0C0D);
    assert_eq!(code, vec![1, 2, 0x0D, 0x0C, 0x0B, 0x0A, 7]);
    let mut code = vec![1, 2, 3, 4];
    patch_rel(&mut code, 0, -1);
    assert_eq!(code, vec![0xFF, 0xFF, 0xFF, 0xFF]);
}

#[test]
fn gen_code_of_a_region() {
    let ir = [ADD(1), JZ(4), PUTC, JNZ(2), ADD(2)];
    assert_eq!(
        bf_jit::jit::gen_code(&ir, 1, 3, HERE),
        Some(codegen(&[JZ(3), PUTC, JNZ(1)], HERE))
    );
    assert_eq!(
        bf_jit::jit::gen_code(&ir, 0, 4, HERE),
        Some(codegen(&ir, HERE))
    );
    assert_eq!(
        bf_jit::jit::gen_code(&ir, 4, 4, HERE),
        Some(Ok(framed(&[0x41, 0x80, 0x04, 0x24, 0x02])))
    );
}

#[test]
fn gen_code_takes_no_open_loop_and_no_wrong_region() {
    let ir = [ADD(1), JZ(4), PUTC, JNZ(2), ADD(2)];
    assert_eq!(bf_jit::jit::gen_code(&ir, 2, 4, HERE), None);
    assert_eq!(bf_jit::jit::gen_code(&ir, 0, 2, HERE), None);
    assert_eq!(bf_jit::jit::gen_code(&ir, 3, 2, HERE), None);
    assert_eq!(bf_jit::jit::gen_code(&ir, 0, 5, HERE), None);
    assert_eq!(bf_jit::jit::gen_code(&[], 0, 0, HERE), None);
}

#[test]
fn gen_code_for_another_machine() {
    let nowhere = Target {
        arch: Arch::Other,
        os: Os::Linux,
    };
    assert_eq!(
        bf_jit::jit::gen_code(&[ADD(1)], 0, 0, nowhere),
        Some(Err(CogenError::UnsupportedArch))
    );
}
