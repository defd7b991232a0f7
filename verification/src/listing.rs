//! The instructions that the bytes of generated code are.
//!
//! The emitter writes bytes; the model of the processor reads them as
//! instructions. Here each piece of generated code is read: which
//! instructions stand in it, and where.

use crate::bytecode::Inst;
use crate::cpu::{decode, signed32, unsigned64, word, Instr};
use crate::x86::{
    abort_routine, advance, advance_len, bounds_check, encode_op, epilogue, fits_imm8, le_bytes,
    lemma_le_bytes_len, prologue,
};
use vstd::prelude::*;

verus! {

/// The bytes of `le_bytes`, one by one.
pub proof fn lemma_le_bytes_index(x: int, n: nat, j: int)
    requires
        0 <= j < n,
    ensures
        le_bytes(x, n).len() == n,
        le_bytes(x, n)[j] == (if j == 0 {
            x % 256
        } else {
            le_bytes(x / 256, (n - 1) as nat)[j - 1] as int
        }),
{
    lemma_le_bytes_len(x, n);
    lemma_le_bytes_len(x / 256, (n - 1) as nat);
}

/// Four bytes of two's complement are read back as the number they were
/// written for.
pub proof fn lemma_signed32_of_le(code: Seq<u8>, at: int, r: int)
    requires
        0 <= at,
        at + 4 <= code.len(),
        code.subrange(at, at + 4) == le_bytes(r, 4),
        -0x8000_0000 <= r < 0x8000_0000,
    ensures
        signed32(code, at) == r,
{
    let b = le_bytes(r, 4);
    assert(forall|j: int| 0 <= j < 4 ==> code[at + j] == #[trigger] code.subrange(at, at + 4)[j]);
    let r1 = r / 256;
    let r2 = r1 / 256;
    let r3 = r2 / 256;
    lemma_le_bytes_index(r, 4, 0);
    lemma_le_bytes_index(r, 4, 1);
    lemma_le_bytes_index(r, 4, 2);
    lemma_le_bytes_index(r, 4, 3);
    lemma_le_bytes_index(r1, 3, 0);
    lemma_le_bytes_index(r1, 3, 1);
    lemma_le_bytes_index(r1, 3, 2);
    lemma_le_bytes_index(r2, 2, 0);
    lemma_le_bytes_index(r2, 2, 1);
    lemma_le_bytes_index(r3, 1, 0);
    assert(b[0] == r % 256);
    assert(b[1] == r1 % 256);
    assert(b[2] == r2 % 256);
    assert(b[3] == r3 % 256);
    assert(code[at] == b[0] && code[at + 1] == b[1] && code[at + 2] == b[2] && code[at + 3]
        == b[3]);
}

/// Eight bytes of two's complement are read back as the number they were
/// written for, modulo the number of values of a register.
pub proof fn lemma_unsigned64_of_le(code: Seq<u8>, at: int, d: int)
    requires
        0 <= at,
        at + 8 <= code.len(),
        code.subrange(at, at + 8) == le_bytes(d, 8),
    ensures
        unsigned64(code, at) == d % word(),
{
    let b = le_bytes(d, 8);
    assert(forall|j: int| 0 <= j < 8 ==> code[at + j] == #[trigger] code.subrange(at, at + 8)[j]);
    let d1 = d / 256;
    let d2 = d1 / 256;
    let d3 = d2 / 256;
    let d4 = d3 / 256;
    let d5 = d4 / 256;
    let d6 = d5 / 256;
    let d7 = d6 / 256;
    lemma_le_bytes_index(d, 8, 0);
    lemma_le_bytes_index(d, 8, 1);
    lemma_le_bytes_index(d, 8, 2);
    lemma_le_bytes_index(d, 8, 3);
    lemma_le_bytes_index(d, 8, 4);
    lemma_le_bytes_index(d, 8, 5);
    lemma_le_bytes_index(d, 8, 6);
    lemma_le_bytes_index(d, 8, 7);
    lemma_le_bytes_index(d1, 7, 0);
    lemma_le_bytes_index(d1, 7, 1);
    lemma_le_bytes_index(d1, 7, 2);
    lemma_le_bytes_index(d1, 7, 3);
    lemma_le_bytes_index(d1, 7, 4);
    lemma_le_bytes_index(d1, 7, 5);
    lemma_le_bytes_index(d1, 7, 6);
    lemma_le_bytes_index(d2, 6, 0);
    lemma_le_bytes_index(d2, 6, 1);
    lemma_le_bytes_index(d2, 6, 2);
    lemma_le_bytes_index(d2, 6, 3);
    lemma_le_bytes_index(d2, 6, 4);
    lemma_le_bytes_index(d2, 6, 5);
    lemma_le_bytes_index(d3, 5, 0);
    lemma_le_bytes_index(d3, 5, 1);
    lemma_le_bytes_index(d3, 5, 2);
    lemma_le_bytes_index(d3, 5, 3);
    lemma_le_bytes_index(d3, 5, 4);
    lemma_le_bytes_index(d4, 4, 0);
    lemma_le_bytes_index(d4, 4, 1);
    lemma_le_bytes_index(d4, 4, 2);
    lemma_le_bytes_index(d4, 4, 3);
    lemma_le_bytes_index(d5, 3, 0);
    lemma_le_bytes_index(d5, 3, 1);
    lemma_le_bytes_index(d5, 3, 2);
    lemma_le_bytes_index(d6, 2, 0);
    lemma_le_bytes_index(d6, 2, 1);
    lemma_le_bytes_index(d7, 1, 0);
    assert(b[0] == d % 256);
    assert(b[1] == d1 % 256);
    assert(b[2] == d2 % 256);
    assert(b[3] == d3 % 256);
    assert(b[4] == d4 % 256);
    assert(b[5] == d5 % 256);
    assert(b[6] == d6 % 256);
    assert(b[7] == d7 % 256);
    assert(code[at] == b[0] && code[at + 1] == b[1] && code[at + 2] == b[2] && code[at + 3]
        == b[3] && code[at + 4] == b[4] && code[at + 5] == b[5] && code[at + 6] == b[6] && code[at
        + 7] == b[7]);
}

/// The bytes of `code` from `at` on are those of `piece`.
pub open spec fn holds(code: Seq<u8>, at: int, piece: Seq<u8>) -> bool {
    0 <= at && at + piece.len() <= code.len() && code.subrange(at, at + piece.len()) == piece
}

/// What holds of a piece holds of each of its bytes.
pub proof fn lemma_holds_bytes(code: Seq<u8>, at: int, piece: Seq<u8>)
    requires
        holds(code, at, piece),
    ensures
        forall|j: int| 0 <= j < piece.len() ==> #[trigger] code[at + j] == piece[j],
{
    assert forall|j: int| 0 <= j < piece.len() implies #[trigger] code[at + j] == piece[j] by {
        assert(code.subrange(at, at + piece.len())[j] == code[at + j]);
    }
}

/// A part of a piece that the code holds is held by the code.
pub proof fn lemma_holds_part(code: Seq<u8>, at: int, piece: Seq<u8>, from: int, part: Seq<u8>)
    requires
        holds(code, at, piece),
        0 <= from,
        from + part.len() <= piece.len(),
        piece.subrange(from, from + part.len()) == part,
    ensures
        holds(code, at + from, part),
{
    assert(code.subrange(at + from, at + from + part.len()) =~= piece.subrange(
        from,
        from + part.len(),
    ));
}

/// The instruction that adds to `r12` or `r11`, by the byte that selects
/// the register.
pub open spec fn add_imm8(modrm: u8, d: int) -> Instr {
    if modrm == 0xC4 {
        Instr::AddR12Imm8(d)
    } else {
        Instr::AddR11Imm8(d)
    }
}

/// The instruction that adds `rax` to `r12` or `r11`, by the byte that
/// selects the register.
pub open spec fn add_rax(modrm: u8) -> Instr {
    if modrm == 0xC4 {
        Instr::AddR12Rax
    } else {
        Instr::AddR11Rax
    }
}

/// The code that adds a distance to a register is one instruction where
/// the distance is short, and two where it is long.
pub proof fn lemma_decode_advance(code: Seq<u8>, at: int, modrm: u8, d: int)
    requires
        holds(code, at, advance(modrm, d)),
        modrm == 0xC4 || modrm == 0xC3,
    ensures
        fits_imm8(d) ==> decode(code, at) == Some((add_imm8(modrm, d), 4int)),
        !fits_imm8(d) ==> decode(code, at) == Some((Instr::MovabsRax(d % word()), 10int))
            && decode(code, at + 10) == Some((add_rax(modrm), 3int)),
{
    reveal(decode);
    lemma_le_bytes_len(d, 1);
    lemma_le_bytes_len(d, 8);
    lemma_holds_bytes(code, at, advance(modrm, d));
    let piece = advance(modrm, d);
    if fits_imm8(d) {
        assert(piece[0] == 0x49 && piece[1] == 0x83 && piece[2] == modrm);
        assert(piece[3] == d % 256);
        assert(code[at + 0] == piece[0]);
        assert(code[at + 1] == piece[1]);
        assert(code[at + 2] == piece[2]);
        assert(code[at + 3] == piece[3]);
    } else {
        assert(piece[0] == 0x48 && piece[1] == 0xB8);
        assert(piece[10] == 0x49 && piece[11] == 0x01 && piece[12] == modrm);
        assert(code[at + 0] == piece[0]);
        assert(code[at + 1] == piece[1]);
        assert(code[at + 10] == piece[10]);
        assert(code[at + 11] == piece[11]);
        assert(code[at + 12] == piece[12]);
        assert(piece.subrange(2, 10) =~= le_bytes(d, 8));
        lemma_holds_part(code, at, piece, 2, le_bytes(d, 8));
        lemma_unsigned64_of_le(code, at + 2, d);
    }
}

/// The register that a check looks at, by the byte that selects it.
pub open spec fn mov_rax(src: u8) -> Instr {
    if src == 0xE0 {
        Instr::MovRaxR12
    } else {
        Instr::MovRaxR11
    }
}

/// The check of an address is four instructions.
pub proof fn lemma_decode_check(code: Seq<u8>, at: int, src: u8, r: int)
    requires
        holds(code, at, bounds_check(src, le_bytes(r, 4))),
        src == 0xE0 || src == 0xD8,
        -0x8000_0000 <= r < 0x8000_0000,
    ensures
        decode(code, at) == Some((mov_rax(src), 3int)),
        decode(code, at + 3) == Some((Instr::SubRaxR14, 3int)),
        decode(code, at + 6) == Some((Instr::CompareRaxR13, 3int)),
        decode(code, at + 9) == Some((Instr::Ja(r), 6int)),
{
    reveal(decode);
    lemma_le_bytes_len(r, 4);
    let piece = bounds_check(src, le_bytes(r, 4));
    lemma_holds_bytes(code, at, piece);
    assert(code[at + 0] == piece[0]);
    assert(code[at + 1] == piece[1]);
    assert(code[at + 2] == piece[2]);
    assert(code[at + 3] == piece[3]);
    assert(code[at + 4] == piece[4]);
    assert(code[at + 5] == piece[5]);
    assert(code[at + 6] == piece[6]);
    assert(code[at + 7] == piece[7]);
    assert(code[at + 8] == piece[8]);
    assert(code[at + 9] == piece[9]);
    assert(code[at + 10] == piece[10]);
    assert(piece.subrange(11, 15) =~= le_bytes(r, 4));
    lemma_holds_part(code, at, piece, 11, le_bytes(r, 4));
    lemma_signed32_of_le(code, at + 11, r);
}

/// The code of `ADD` is one instruction, which adds the low byte of the
/// number to add.
pub proof fn lemma_list_add(code: Seq<u8>, at: int, inst: Inst, rel: Seq<u8>)
    requires
        inst is ADD,
        holds(code, at, encode_op(inst, rel)),
    ensures
        decode(code, at) == Some((Instr::AddCellImm8(inst->ADD_0 as int % 256), 5int)),
{
    reveal(decode);
    let d = inst->ADD_0 as int;
    lemma_le_bytes_len(d, 1);
    let piece = encode_op(inst, rel);
    lemma_holds_bytes(code, at, piece);
    assert(code[at + 0] == piece[0]);
    assert(code[at + 1] == piece[1]);
    assert(code[at + 2] == piece[2]);
    assert(code[at + 3] == piece[3]);
    assert(code[at + 4] == piece[4]);
    assert(piece[4] == d % 256);
}

/// The code of `SETZERO` is one instruction.
pub proof fn lemma_list_setzero(code: Seq<u8>, at: int, inst: Inst, rel: Seq<u8>)
    requires
        inst is SETZERO,
        holds(code, at, encode_op(inst, rel)),
    ensures
        decode(code, at) == Some((Instr::MovCellImm8(0), 5int)),
{
    reveal(decode);
    let piece = encode_op(inst, rel);
    lemma_holds_bytes(code, at, piece);
    assert(code[at + 0] == piece[0]);
    assert(code[at + 1] == piece[1]);
    assert(code[at + 2] == piece[2]);
    assert(code[at + 3] == piece[3]);
    assert(code[at + 4] == piece[4]);
}

/// The code of `MOVPTR` is the code that adds the distance to `r12` and
/// the check of `r12`.
pub proof fn lemma_list_movptr(code: Seq<u8>, at: int, inst: Inst, r: int)
    requires
        inst is MOVPTR,
        holds(code, at, encode_op(inst, le_bytes(r, 4))),
    ensures
        holds(code, at, advance(0xC4, inst->MOVPTR_0 as int)),
        holds(
            code,
            at + advance_len(inst->MOVPTR_0 as int),
            bounds_check(0xE0, le_bytes(r, 4)),
        ),
{
    let d = inst->MOVPTR_0 as int;
    lemma_le_bytes_len(d, 1);
    lemma_le_bytes_len(d, 8);
    lemma_le_bytes_len(r, 4);
    let piece = encode_op(inst, le_bytes(r, 4));
    let a = advance(0xC4, d);
    let b = bounds_check(0xE0, le_bytes(r, 4));
    assert(piece.subrange(0, a.len() as int) =~= a);
    assert(piece.subrange(a.len() as int, (a.len() + b.len()) as int) =~= b);
    lemma_holds_part(code, at, piece, 0, a);
    lemma_holds_part(code, at, piece, a.len() as int, b);
}

/// The code of a `JZ` or `JNZ` is a comparison of the current cell with
/// zero and a jump.
pub proof fn lemma_list_jump(code: Seq<u8>, at: int, inst: Inst, r: int)
    requires
        inst is JZ || inst is JNZ,
        holds(code, at, encode_op(inst, le_bytes(r, 4))),
        -0x8000_0000 <= r < 0x8000_0000,
    ensures
        decode(code, at) == Some((Instr::CompareCellImm8(0), 5int)),
        decode(code, at + 5) == Some(
            (if inst is JZ {
                Instr::Je(r)
            } else {
                Instr::Jne(r)
            }, 6int),
        ),
{
    reveal(decode);
    lemma_le_bytes_len(r, 4);
    let piece = encode_op(inst, le_bytes(r, 4));
    lemma_holds_bytes(code, at, piece);
    assert(code[at + 0] == piece[0]);
    assert(code[at + 1] == piece[1]);
    assert(code[at + 2] == piece[2]);
    assert(code[at + 3] == piece[3]);
    assert(code[at + 4] == piece[4]);
    assert(code[at + 5] == piece[5]);
    assert(code[at + 6] == piece[6]);
    assert(piece.subrange(7, 11) =~= le_bytes(r, 4));
    lemma_holds_part(code, at, piece, 7, le_bytes(r, 4));
    lemma_signed32_of_le(code, at + 7, r);
}

/// The code of `PUTC` is seven instructions.
pub proof fn lemma_list_putc(code: Seq<u8>, at: int, inst: Inst, rel: Seq<u8>)
    requires
        inst is PUTC,
        holds(code, at, encode_op(inst, rel)),
    ensures
        decode(code, at) == Some((Instr::PushRdi, 1int)),
        decode(code, at + 1) == Some((Instr::PushRcx, 1int)),
        decode(code, at + 2) == Some((Instr::MovRsiImm32(1), 7int)),
        decode(code, at + 9) == Some((Instr::MovRdxR12, 3int)),
        decode(code, at + 12) == Some((Instr::CallRcx, 2int)),
        decode(code, at + 14) == Some((Instr::PopRcx, 1int)),
        decode(code, at + 15) == Some((Instr::PopRdi, 1int)),
{
    reveal(decode);
    let piece = encode_op(inst, rel);
    lemma_holds_bytes(code, at, piece);
    assert(code[at + 0] == piece[0]);
    assert(code[at + 1] == piece[1]);
    assert(code[at + 2] == piece[2]);
    assert(code[at + 3] == piece[3]);
    assert(code[at + 4] == piece[4]);
    assert(code[at + 5] == piece[5]);
    assert(code[at + 6] == piece[6]);
    assert(code[at + 7] == piece[7]);
    assert(code[at + 8] == piece[8]);
    assert(code[at + 9] == piece[9]);
    assert(code[at + 10] == piece[10]);
    assert(code[at + 11] == piece[11]);
    assert(code[at + 12] == piece[12]);
    assert(code[at + 13] == piece[13]);
    assert(code[at + 14] == piece[14]);
    assert(code[at + 15] == piece[15]);
}

/// The code of `GETC` is eight instructions.
pub proof fn lemma_list_getc(code: Seq<u8>, at: int, inst: Inst, rel: Seq<u8>)
    requires
        inst is GETC,
        holds(code, at, encode_op(inst, rel)),
    ensures
        decode(code, at) == Some((Instr::PushRdi, 1int)),
        decode(code, at + 1) == Some((Instr::PushRcx, 1int)),
        decode(code, at + 2) == Some((Instr::MovRsiImm32(0), 7int)),
        decode(code, at + 9) == Some((Instr::MovRdxR12, 3int)),
        decode(code, at + 12) == Some((Instr::CallRcx, 2int)),
        decode(code, at + 14) == Some((Instr::MovCellAl, 4int)),
        decode(code, at + 18) == Some((Instr::PopRcx, 1int)),
        decode(code, at + 19) == Some((Instr::PopRdi, 1int)),
{
    reveal(decode);
    let piece = encode_op(inst, rel);
    lemma_holds_bytes(code, at, piece);
    assert(code[at + 0] == piece[0]);
    assert(code[at + 1] == piece[1]);
    assert(code[at + 2] == piece[2]);
    assert(code[at + 3] == piece[3]);
    assert(code[at + 4] == piece[4]);
    assert(code[at + 5] == piece[5]);
    assert(code[at + 6] == piece[6]);
    assert(code[at + 7] == piece[7]);
    assert(code[at + 8] == piece[8]);
    assert(code[at + 9] == piece[9]);
    assert(code[at + 10] == piece[10]);
    assert(code[at + 11] == piece[11]);
    assert(code[at + 12] == piece[12]);
    assert(code[at + 13] == piece[13]);
    assert(code[at + 14] == piece[14]);
    assert(code[at + 15] == piece[15]);
    assert(code[at + 16] == piece[16]);
    assert(code[at + 17] == piece[17]);
    assert(code[at + 18] == piece[18]);
    assert(code[at + 19] == piece[19]);
}

/// The code of `FINDZERO` is a comparison of the current cell with zero, a
/// jump behind the code taken where they are equal, the code that adds the
/// step to `r12`, the check of `r12`, and a jump back to the comparison.
pub proof fn lemma_list_findzero(code: Seq<u8>, at: int, inst: Inst, r: int)
    requires
        inst is FINDZERO,
        holds(code, at, encode_op(inst, le_bytes(r, 4))),
    ensures
        decode(code, at) == Some((Instr::CompareCellImm8(0), 5int)),
        decode(code, at + 5) == Some(
            (Instr::Je(advance_len(inst->FINDZERO_0 as int) + 17), 2int),
        ),
        holds(code, at + 7, advance(0xC4, inst->FINDZERO_0 as int)),
        holds(
            code,
            at + 7 + advance_len(inst->FINDZERO_0 as int),
            bounds_check(0xE0, le_bytes(r, 4)),
        ),
        decode(code, at + 22 + advance_len(inst->FINDZERO_0 as int)) == Some(
            (Instr::Jmp(-(24 + advance_len(inst->FINDZERO_0 as int))), 2int),
        ),
{
    reveal(decode);
    let d = inst->FINDZERO_0 as int;
    let n = advance_len(d);
    lemma_le_bytes_len(d, 1);
    lemma_le_bytes_len(d, 8);
    lemma_le_bytes_len(r, 4);
    let piece = encode_op(inst, le_bytes(r, 4));
    let a = advance(0xC4, d);
    let b = bounds_check(0xE0, le_bytes(r, 4));
    lemma_holds_bytes(code, at, piece);
    assert(piece.len() == n + 24);
    assert(code[at + 0] == piece[0]);
    assert(code[at + 1] == piece[1]);
    assert(code[at + 2] == piece[2]);
    assert(code[at + 3] == piece[3]);
    assert(code[at + 4] == piece[4]);
    assert(code[at + 5] == piece[5]);
    assert(code[at + 6] == piece[6]);
    assert(code[at + (22 + n)] == piece[22 + n]);
    assert(code[at + (23 + n)] == piece[23 + n]);
    assert(piece[5] == 0x74);
    assert(piece[6] == n + 17);
    assert(piece[22 + n] == 0xEB);
    assert(piece[23 + n] == 232 - n);
    assert(piece.subrange(7, 7 + n) =~= a);
    assert(piece.subrange(7 + n, 22 + n) =~= b);
    lemma_holds_part(code, at, piece, 7, a);
    lemma_holds_part(code, at, piece, 7 + n, b);
}

/// The code of `MULINTO` is seven or eight instructions, with the check of
/// `r11` among them. Of the factor, the low byte is kept.
pub proof fn lemma_list_mulinto(code: Seq<u8>, at: int, inst: Inst, r: int) -> (v: int)
    requires
        inst is MULINTO,
        holds(code, at, encode_op(inst, le_bytes(r, 4))),
    ensures
        decode(code, at) == Some((Instr::MovR11R12, 3int)),
        holds(code, at + 3, advance(0xC3, inst->MULINTO_1 as int)),
        holds(
            code,
            at + 3 + advance_len(inst->MULINTO_1 as int),
            bounds_check(0xD8, le_bytes(r, 4)),
        ),
        decode(code, at + 18 + advance_len(inst->MULINTO_1 as int)) == Some(
            (Instr::MovzxEaxCell, 5int),
        ),
        decode(code, at + 23 + advance_len(inst->MULINTO_1 as int)) == Some(
            (Instr::ImulEaxImm32(v), 6int),
        ),
        v % 256 == inst->MULINTO_0 as int % 256,
        decode(code, at + 29 + advance_len(inst->MULINTO_1 as int)) == Some(
            (Instr::AddAtR11Al, 3int),
        ),
        decode(code, at + 32 + advance_len(inst->MULINTO_1 as int)) == Some(
            (Instr::MovCellImm8(0), 5int),
        ),
{
    reveal(decode);
    let coef = inst->MULINTO_0 as int;
    let d = inst->MULINTO_1 as int;
    let n = advance_len(d);
    lemma_le_bytes_len(d, 1);
    lemma_le_bytes_len(d, 8);
    lemma_le_bytes_len(r, 4);
    lemma_le_bytes_len(coef, 4);
    let piece = encode_op(inst, le_bytes(r, 4));
    let a = advance(0xC3, d);
    let b = bounds_check(0xD8, le_bytes(r, 4));
    lemma_holds_bytes(code, at, piece);
    assert(piece.len() == n + 37);
    assert(code[at + 0] == piece[0]);
    assert(code[at + 1] == piece[1]);
    assert(code[at + 2] == piece[2]);
    assert(code[at + (18 + n)] == piece[18 + n]);
    assert(code[at + (19 + n)] == piece[19 + n]);
    assert(code[at + (20 + n)] == piece[20 + n]);
    assert(code[at + (21 + n)] == piece[21 + n]);
    assert(code[at + (22 + n)] == piece[22 + n]);
    assert(code[at + (23 + n)] == piece[23 + n]);
    assert(code[at + (24 + n)] == piece[24 + n]);
    assert(code[at + (25 + n)] == piece[25 + n]);
    assert(code[at + (29 + n)] == piece[29 + n]);
    assert(code[at + (30 + n)] == piece[30 + n]);
    assert(code[at + (31 + n)] == piece[31 + n]);
    assert(code[at + (32 + n)] == piece[32 + n]);
    assert(code[at + (33 + n)] == piece[33 + n]);
    assert(code[at + (34 + n)] == piece[34 + n]);
    assert(code[at + (35 + n)] == piece[35 + n]);
    assert(code[at + (36 + n)] == piece[36 + n]);
    assert(piece[18 + n] == 0x41 && piece[19 + n] == 0x0F && piece[20 + n] == 0xB6 && piece[21
        + n] == 0x04 && piece[22 + n] == 0x24);
    assert(piece[23 + n] == 0x69 && piece[24 + n] == 0xC0);
    assert(piece[25 + n] == le_bytes(coef, 4)[0]);
    assert(piece[29 + n] == 0x41 && piece[30 + n] == 0x00 && piece[31 + n] == 0x03);
    assert(piece[32 + n] == 0x41 && piece[33 + n] == 0xC6 && piece[34 + n] == 0x04 && piece[35
        + n] == 0x24 && piece[36 + n] == 0x00);
    assert(piece.subrange(3, 3 + n) =~= a);
    assert(piece.subrange(3 + n, 18 + n) =~= b);
    lemma_holds_part(code, at, piece, 3, a);
    lemma_holds_part(code, at, piece, 3 + n, b);
    let v = signed32(code, at + 25 + n);
    assert(code[at + 25 + n] == coef % 256);
    v
}

/// The prologue is one instruction.
pub proof fn lemma_list_prologue(code: Seq<u8>, at: int)
    requires
        holds(code, at, prologue()),
    ensures
        decode(code, at) == Some((Instr::SubRsp8, 4int)),
{
    reveal(decode);
    let piece = prologue();
    lemma_holds_bytes(code, at, piece);
    assert(code[at + 0] == piece[0]);
    assert(code[at + 1] == piece[1]);
    assert(code[at + 2] == piece[2]);
    assert(code[at + 3] == piece[3]);
}

/// The epilogue is two instructions.
pub proof fn lemma_list_epilogue(code: Seq<u8>, at: int)
    requires
        holds(code, at, epilogue()),
    ensures
        decode(code, at) == Some((Instr::AddRsp8, 4int)),
        decode(code, at + 4) == Some((Instr::Ret, 1int)),
{
    reveal(decode);
    let piece = epilogue();
    lemma_holds_bytes(code, at, piece);
    assert(code[at + 0] == piece[0]);
    assert(code[at + 1] == piece[1]);
    assert(code[at + 2] == piece[2]);
    assert(code[at + 3] == piece[3]);
    assert(code[at + 4] == piece[4]);
}

/// The abort routine is two instructions.
pub proof fn lemma_list_abort(code: Seq<u8>, at: int)
    requires
        holds(code, at, abort_routine()),
    ensures
        decode(code, at) == Some((Instr::XorRdiRdi, 3int)),
        decode(code, at + 3) == Some((Instr::CallR15, 3int)),
{
    reveal(decode);
    let piece = abort_routine();
    lemma_holds_bytes(code, at, piece);
    assert(code[at + 0] == piece[0]);
    assert(code[at + 1] == piece[1]);
    assert(code[at + 2] == piece[2]);
    assert(code[at + 3] == piece[3]);
    assert(code[at + 4] == piece[4]);
    assert(code[at + 5] == piece[5]);
}

} // verus!
