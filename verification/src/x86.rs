//! The x86-64 encoding of each bytecode instruction.
//!
//! Generated code keeps the address of the current cell in `r12`, the
//! highest valid cursor in `r13`, the address of the tape in `r14`, the
//! address of the abort routine in `r15`, the I/O context in `rdi` and the
//! address of the I/O routine in `rcx`.

use crate::bytecode::Inst;
use vstd::prelude::*;

verus! {

/// The low `n` bytes of `x` in two's complement, least significant first.
pub open spec fn le_bytes(x: int, n: nat) -> Seq<u8>
    decreases n,
{
    if n == 0 {
        Seq::empty()
    } else {
        seq![(x % 256) as u8] + le_bytes(x / 256, (n - 1) as nat)
    }
}

/// What stands in a 32-bit displacement until its target is known.
pub open spec fn hole() -> Seq<u8> {
    seq![0xAFu8, 0xBE, 0xAD, 0xDE]
}

/// `sub rsp, 8`: keeps the stack aligned for the calls that the code makes.
pub open spec fn prologue() -> Seq<u8> {
    seq![0x48u8, 0x83, 0xEC, 0x08]
}

/// `add rsp, 8; ret`.
pub open spec fn epilogue() -> Seq<u8> {
    seq![0x48u8, 0x83, 0xC4, 0x08, 0xC3]
}

/// `xor rdi, rdi; call r15`: reports a cursor out of range, with code 0.
pub open spec fn abort_routine() -> Seq<u8> {
    seq![0x48u8, 0x31, 0xFF, 0x41, 0xFF, 0xD7]
}

/// Whether a distance fits the 8-bit immediate of the short `add`.
pub open spec fn fits_imm8(d: int) -> bool {
    -128 <= d <= 127
}

/// Adds `d` to `r12` (`modrm` 0xC4) or to `r11` (`modrm` 0xC3):
/// `add reg, imm8` where `d` fits, else `movabs rax, imm64; add reg, rax`.
pub open spec fn advance(modrm: u8, d: int) -> Seq<u8> {
    if fits_imm8(d) {
        seq![0x49u8, 0x83, modrm] + le_bytes(d, 1)
    } else {
        seq![0x48u8, 0xB8] + le_bytes(d, 8) + seq![0x49u8, 0x01, modrm]
    }
}

/// The length of `advance`.
pub open spec fn advance_len(d: int) -> int {
    if fits_imm8(d) {
        4
    } else {
        13
    }
}

/// Checks the address in `r12` (`src` 0xE0) or in `r11` (`src` 0xD8):
/// `mov rax, reg; sub rax, r14; cmp rax, r13; ja rel32`. The jump is taken
/// where the address lies before the tape or behind it.
pub open spec fn bounds_check(src: u8, rel: Seq<u8>) -> Seq<u8> {
    seq![0x4Cu8, 0x89, src, 0x4C, 0x29, 0xF0, 0x4C, 0x39, 0xE8, 0x0F, 0x87] + rel
}

/// `cmp byte [r12], 0`.
pub open spec fn test_cell() -> Seq<u8> {
    seq![0x41u8, 0x80, 0x3C, 0x24, 0x00]
}

/// The code of one instruction, with `rel` in its 32-bit displacement.
/// `ADD`, `SETZERO`, `PUTC` and `GETC` have no displacement.
pub open spec fn encode_op(inst: Inst, rel: Seq<u8>) -> Seq<u8> {
    match inst {
        // add r12, d; check r12
        Inst::MOVPTR(d) => advance(0xC4, d as int) + bounds_check(0xE0, rel),
        // add byte [r12], d
        Inst::ADD(d) => seq![0x41u8, 0x80, 0x04, 0x24] + le_bytes(d as int, 1),
        // mov byte [r12], 0
        Inst::SETZERO => seq![0x41u8, 0xC6, 0x04, 0x24, 0x00],
        // mov r11, r12; add r11, offset; check r11; movzx eax, byte [r12];
        // imul eax, eax, coef; add [r11], al; mov byte [r12], 0
        Inst::MULINTO(coef, offset) => seq![0x4Du8, 0x89, 0xE3] + advance(0xC3, offset as int)
            + bounds_check(0xD8, rel) + seq![0x41u8, 0x0F, 0xB6, 0x04, 0x24, 0x69, 0xC0] + le_bytes(
            coef as int,
            4,
        ) + seq![0x41u8, 0x00, 0x03, 0x41, 0xC6, 0x04, 0x24, 0x00],
        // top: cmp byte [r12], 0; je done; add r12, step; check r12;
        // jmp top; done:
        Inst::FINDZERO(step) => test_cell() + seq![0x74u8, (advance_len(step as int) + 17) as u8]
            + advance(0xC4, step as int) + bounds_check(0xE0, rel) + seq![
            0xEBu8,
            (232 - advance_len(step as int)) as u8,
        ],
        // push rdi; push rcx; mov rsi, 1; mov rdx, r12; call rcx; pop rcx;
        // pop rdi
        Inst::PUTC => seq![
            0x57u8,
            0x51,
            0x48,
            0xC7,
            0xC6,
            0x01,
            0x00,
            0x00,
            0x00,
            0x4C,
            0x89,
            0xE2,
            0xFF,
            0xD1,
            0x59,
            0x5F,
        ],
        // push rdi; push rcx; mov rsi, 0; mov rdx, r12; call rcx;
        // mov [r12], al; pop rcx; pop rdi
        Inst::GETC => seq![
            0x57u8,
            0x51,
            0x48,
            0xC7,
            0xC6,
            0x00,
            0x00,
            0x00,
            0x00,
            0x4C,
            0x89,
            0xE2,
            0xFF,
            0xD1,
            0x41,
            0x88,
            0x04,
            0x24,
            0x59,
            0x5F,
        ],
        // cmp byte [r12], 0; je rel32
        Inst::JZ(_) => test_cell() + seq![0x0Fu8, 0x84] + rel,
        // cmp byte [r12], 0; jne rel32
        Inst::JNZ(_) => test_cell() + seq![0x0Fu8, 0x85] + rel,
    }
}

/// The length of the code of one instruction.
pub open spec fn op_len(inst: Inst) -> int {
    match inst {
        Inst::MOVPTR(d) => advance_len(d as int) + 15,
        Inst::ADD(_) => 5,
        Inst::SETZERO => 5,
        Inst::MULINTO(_, offset) => advance_len(offset as int) + 37,
        Inst::FINDZERO(step) => advance_len(step as int) + 24,
        Inst::PUTC => 16,
        Inst::GETC => 20,
        Inst::JZ(_) => 11,
        Inst::JNZ(_) => 11,
    }
}

/// Whether the code of the instruction checks the cursor, and so holds a
/// jump to the abort routine.
pub open spec fn checks_bounds(inst: Inst) -> bool {
    inst is MOVPTR || inst is MULINTO || inst is FINDZERO
}

/// Whether the code of the instruction holds a 32-bit displacement.
pub open spec fn has_rel(inst: Inst) -> bool {
    checks_bounds(inst) || inst is JZ || inst is JNZ
}

/// The number of bytes in the code of the instruction that follow its
/// 32-bit displacement.
pub open spec fn rel_trail(inst: Inst) -> int {
    match inst {
        Inst::MULINTO(_, _) => 19,
        Inst::FINDZERO(_) => 2,
        _ => 0,
    }
}

/// `le_bytes` gives as many bytes as asked for.
pub proof fn lemma_le_bytes_len(x: int, n: nat)
    ensures
        le_bytes(x, n).len() == n,
    decreases n,
{
    if n > 0 {
        lemma_le_bytes_len(x / 256, (n - 1) as nat);
    }
}

/// The code of an instruction has the length that `op_len` gives, and what
/// stands in its displacement changes nothing else.
pub proof fn lemma_encode_op(inst: Inst, rel: Seq<u8>, other: Seq<u8>)
    requires
        rel.len() == 4,
        other.len() == 4,
    ensures
        encode_op(inst, rel).len() == op_len(inst),
        5 <= op_len(inst) <= 50,
        has_rel(inst) ==> encode_op(inst, other) == encode_op(inst, rel).take(
            op_len(inst) - rel_trail(inst) - 4,
        ) + other + encode_op(inst, rel).skip(op_len(inst) - rel_trail(inst)),
        !has_rel(inst) ==> encode_op(inst, other) == encode_op(inst, rel),
{
    match inst {
        Inst::MOVPTR(d) => {
            lemma_le_bytes_len(d as int, 1);
            lemma_le_bytes_len(d as int, 8);
            assert(encode_op(inst, other) =~= encode_op(inst, rel).take(
                op_len(inst) - rel_trail(inst) - 4,
            ) + other + encode_op(inst, rel).skip(op_len(inst) - rel_trail(inst)));
        },
        Inst::MULINTO(coef, offset) => {
            lemma_le_bytes_len(offset as int, 1);
            lemma_le_bytes_len(offset as int, 8);
            lemma_le_bytes_len(coef as int, 4);
            assert(encode_op(inst, other) =~= encode_op(inst, rel).take(
                op_len(inst) - rel_trail(inst) - 4,
            ) + other + encode_op(inst, rel).skip(op_len(inst) - rel_trail(inst)));
        },
        Inst::FINDZERO(step) => {
            lemma_le_bytes_len(step as int, 1);
            lemma_le_bytes_len(step as int, 8);
            assert(encode_op(inst, other) =~= encode_op(inst, rel).take(
                op_len(inst) - rel_trail(inst) - 4,
            ) + other + encode_op(inst, rel).skip(op_len(inst) - rel_trail(inst)));
        },
        Inst::ADD(d) => {
            lemma_le_bytes_len(d as int, 1);
        },
        Inst::JZ(_) => {
            assert(encode_op(inst, other) =~= encode_op(inst, rel).take(
                op_len(inst) - rel_trail(inst) - 4,
            ) + other + encode_op(inst, rel).skip(op_len(inst) - rel_trail(inst)));
        },
        Inst::JNZ(_) => {
            assert(encode_op(inst, other) =~= encode_op(inst, rel).take(
                op_len(inst) - rel_trail(inst) - 4,
            ) + other + encode_op(inst, rel).skip(op_len(inst) - rel_trail(inst)));
        },
        _ => {},
    }
}

/// The register that the code of an instruction checks: 0xD8 for `r11`,
/// which a `MULINTO` checks, 0xE0 for `r12`.
pub open spec fn checked_register(inst: Inst) -> u8 {
    if inst is MULINTO {
        0xD8
    } else {
        0xE0
    }
}

/// In the code of an instruction that checks the cursor, the check ends
/// with the displacement of the instruction.
pub proof fn lemma_check_in_op(inst: Inst, rel: Seq<u8>)
    requires
        checks_bounds(inst),
        rel.len() == 4,
    ensures
        encode_op(inst, rel).subrange(
            op_len(inst) - rel_trail(inst) - 15,
            op_len(inst) - rel_trail(inst),
        ) == bounds_check(checked_register(inst), rel),
{
    let lo = op_len(inst) - rel_trail(inst) - 15;
    let hi = op_len(inst) - rel_trail(inst);
    match inst {
        Inst::MOVPTR(d) => {
            lemma_le_bytes_len(d as int, 1);
            lemma_le_bytes_len(d as int, 8);
            assert(encode_op(inst, rel).subrange(lo, hi) =~= bounds_check(0xE0, rel));
        },
        Inst::MULINTO(coef, offset) => {
            lemma_le_bytes_len(offset as int, 1);
            lemma_le_bytes_len(offset as int, 8);
            lemma_le_bytes_len(coef as int, 4);
            assert(encode_op(inst, rel).subrange(lo, hi) =~= bounds_check(0xD8, rel));
        },
        Inst::FINDZERO(step) => {
            lemma_le_bytes_len(step as int, 1);
            lemma_le_bytes_len(step as int, 8);
            assert(encode_op(inst, rel).subrange(lo, hi) =~= bounds_check(0xE0, rel));
        },
        _ => {},
    }
}

/// Appends the low `n` bytes of `x`, least significant first.
pub fn push_le(code: &mut Vec<u8>, x: isize, n: usize)
    ensures
        final(code)@ == old(code)@ + le_bytes(x as int, n as nat),
{
    let mut cur: isize = x;
    let mut k: usize = 0;
    while k < n
        invariant
            k <= n,
            code@ + le_bytes(cur as int, (n - k) as nat) == old(code)@ + le_bytes(
                x as int,
                n as nat,
            ),
        decreases n - k,
    {
        let ghost prev = code@;
        let b: u8;
        if cur >= 0 {
            let u: usize = cur as usize;
            b = (u % 256) as u8;
            cur = (u / 256) as isize;
        } else {
            let y: usize = (-(cur + 1)) as usize;
            b = 255 - (y % 256) as u8;
            cur = -((y / 256) as isize) - 1;
        }
        code.push(b);
        k += 1;
        assert(prev.push(b) + le_bytes(cur as int, (n - k) as nat) =~= prev + (seq![b] + le_bytes(
            cur as int,
            (n - k) as nat,
        )));
    }
    assert(code@ + le_bytes(cur as int, 0) =~= code@);
}

/// Appends the code that adds `d` to the register that `modrm` selects.
pub fn emit_advance(code: &mut Vec<u8>, modrm: u8, d: isize)
    ensures
        final(code)@ == old(code)@ + advance(modrm, d as int),
{
    if -128 <= d && d <= 127 {
        code.extend_from_slice(&[0x49, 0x83, modrm]);
        push_le(code, d, 1);
        assert(code@ =~= old(code)@ + advance(modrm, d as int));
    } else {
        code.extend_from_slice(&[0x48, 0xB8]);
        push_le(code, d, 8);
        code.extend_from_slice(&[0x49, 0x01, modrm]);
        assert(code@ =~= old(code)@ + advance(modrm, d as int));
    }
}

/// Appends the check of the register that `src` selects, with a hole for
/// the way to the abort routine.
pub fn emit_bounds_check(code: &mut Vec<u8>, src: u8)
    ensures
        final(code)@ == old(code)@ + bounds_check(src, hole()),
{
    code.extend_from_slice(
        &[0x4C, 0x89, src, 0x4C, 0x29, 0xF0, 0x4C, 0x39, 0xE8, 0x0F, 0x87, 0xAF, 0xBE, 0xAD, 0xDE],
    );
    assert(code@ =~= old(code)@ + bounds_check(src, hole()));
}

/// Appends the code of an instruction that is no `JNZ`, with a hole where
/// it has a displacement.
pub fn emit_op(code: &mut Vec<u8>, inst: Inst)
    requires
        !(inst is JNZ),
    ensures
        final(code)@ == old(code)@ + encode_op(inst, hole()),
{
    match inst {
        Inst::MOVPTR(d) => {
            emit_advance(code, 0xC4, d);
            emit_bounds_check(code, 0xE0);
            assert(code@ =~= old(code)@ + encode_op(inst, hole()));
        },
        Inst::ADD(d) => {
            code.extend_from_slice(&[0x41, 0x80, 0x04, 0x24]);
            push_le(code, d, 1);
            assert(code@ =~= old(code)@ + encode_op(inst, hole()));
        },
        Inst::SETZERO => {
            code.extend_from_slice(&[0x41, 0xC6, 0x04, 0x24, 0x00]);
        },
        Inst::MULINTO(coef, offset) => {
            code.extend_from_slice(&[0x4D, 0x89, 0xE3]);
            emit_advance(code, 0xC3, offset);
            emit_bounds_check(code, 0xD8);
            code.extend_from_slice(&[0x41, 0x0F, 0xB6, 0x04, 0x24, 0x69, 0xC0]);
            push_le(code, coef, 4);
            code.extend_from_slice(&[0x41, 0x00, 0x03, 0x41, 0xC6, 0x04, 0x24, 0x00]);
            assert(code@ =~= old(code)@ + encode_op(inst, hole()));
        },
        Inst::FINDZERO(step) => {
            let short = -128 <= step && step <= 127;
            code.extend_from_slice(&[0x41, 0x80, 0x3C, 0x24, 0x00, 0x74]);
            code.push(if short { 0x15 } else { 0x1E });
            emit_advance(code, 0xC4, step);
            emit_bounds_check(code, 0xE0);
            code.push(0xEB);
            code.push(if short { 0xE4 } else { 0xDB });
            assert(code@ =~= old(code)@ + encode_op(inst, hole()));
        },
        Inst::PUTC => {
            code.extend_from_slice(
                &[
                    0x57,
                    0x51,
                    0x48,
                    0xC7,
                    0xC6,
                    0x01,
                    0x00,
                    0x00,
                    0x00,
                    0x4C,
                    0x89,
                    0xE2,
                    0xFF,
                    0xD1,
                    0x59,
                    0x5F,
                ],
            );
        },
        Inst::GETC => {
            code.extend_from_slice(
                &[
                    0x57,
                    0x51,
                    0x48,
                    0xC7,
                    0xC6,
                    0x00,
                    0x00,
                    0x00,
                    0x00,
                    0x4C,
                    0x89,
                    0xE2,
                    0xFF,
                    0xD1,
                    0x41,
                    0x88,
                    0x04,
                    0x24,
                    0x59,
                    0x5F,
                ],
            );
        },
        Inst::JZ(_) => {
            code.extend_from_slice(&[0x41, 0x80, 0x3C, 0x24, 0x00, 0x0F, 0x84, 0xAF, 0xBE, 0xAD, 0xDE]);
            assert(code@ =~= old(code)@ + encode_op(inst, hole()));
        },
        Inst::JNZ(_) => {},
    }
}

/// Appends the code of a `JNZ` that jumps by `rel`.
pub fn emit_jnz(code: &mut Vec<u8>, inst: Inst, rel: isize)
    requires
        inst is JNZ,
    ensures
        final(code)@ == old(code)@ + encode_op(inst, le_bytes(rel as int, 4)),
{
    code.extend_from_slice(&[0x41, 0x80, 0x3C, 0x24, 0x00, 0x0F, 0x85]);
    push_le(code, rel, 4);
    assert(code@ =~= old(code)@ + encode_op(inst, le_bytes(rel as int, 4)));
}

/// Writes `rel` into the 32-bit displacement at `at`.
pub fn patch_rel(code: &mut Vec<u8>, at: usize, rel: isize)
    requires
        at + 4 <= old(code).len(),
    ensures
        final(code)@ == old(code)@.take(at as int) + le_bytes(rel as int, 4) + old(code)@.skip(
            at + 4,
        ),
{
    let mut field: Vec<u8> = Vec::new();
    push_le(&mut field, rel, 4);
    proof {
        lemma_le_bytes_len(rel as int, 4);
        assert(field@ =~= le_bytes(rel as int, 4));
    }
    let mut i: usize = 0;
    while i < 4
        invariant
            i <= 4,
            field@ == le_bytes(rel as int, 4),
            field@.len() == 4,
            code@.len() == old(code)@.len(),
            at + 4 <= code.len(),
            code@ == old(code)@.take(at as int) + field@.take(i as int) + old(code)@.skip(at + i),
        decreases 4 - i,
    {
        let b = field[i];
        code[at + i] = b;
        i += 1;
        assert(code@ =~= old(code)@.take(at as int) + field@.take(i as int) + old(code)@.skip(
            at + i,
        ));
    }
    assert(field@.take(4) =~= field@);
}

} // verus!
