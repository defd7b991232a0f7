//! What the model of the processor makes of each piece of generated code.

use crate::cpu::{
    aligned, decode, exec, exits, host_ok, lemma_reaches_then, lemma_reaches_then_exits,
    native_step, reaches, unknown, word, Cpu, Exit, Host, Instr, Native, Step,
};
use crate::listing::{
    add_imm8, add_rax, holds, lemma_decode_advance, lemma_decode_check, lemma_list_abort,
};
use crate::vm::{in_tape, next_byte, rest, wrap, MEMSIZE};
use crate::x86::{abort_routine, advance, advance_len, bounds_check, fits_imm8, le_bytes};
use vstd::arithmetic::div_mod::{lemma_add_mod_noop_right, lemma_mod_mod, lemma_mul_mod_noop_general};
use vstd::prelude::*;

verus! {

/// The state after the code that adds `d` to `r12` or `r11`.
pub open spec fn advanced(s: Native, modrm: u8, d: int, rax: int) -> Native {
    let cpu = Cpu { rip: s.cpu.rip + advance_len(d), compared: None, rax, ..s.cpu };
    Native {
        cpu: if modrm == 0xC4 {
            Cpu { r12: (s.cpu.r12 + d) % word(), ..cpu }
        } else {
            Cpu { r11: (s.cpu.r11 + d) % word(), ..cpu }
        },
        ..s
    }
}

/// One step is a way of one step.
pub proof fn lemma_one_step(code: Seq<u8>, host: Host, s: Native, t: Native)
    requires
        native_step(code, host, s) == Step::Next(t),
    ensures
        reaches(code, host, s, t, 1),
{
    reveal_with_fuel(reaches, 2);
}

/// Two steps are a way of two steps.
pub proof fn lemma_two_steps(code: Seq<u8>, host: Host, s: Native, t: Native, u: Native)
    requires
        native_step(code, host, s) == Step::Next(t),
        native_step(code, host, t) == Step::Next(u),
    ensures
        reaches(code, host, s, u, 2),
{
    reveal_with_fuel(reaches, 3);
}

/// A sum modulo the number of values of a register does not depend on
/// whether a term has been reduced before.
pub proof fn lemma_add_reduced(a: int, d: int)
    ensures
        (a + d % word()) % word() == (a + d) % word(),
{
    vstd::arithmetic::div_mod::lemma_add_mod_noop_right(a, d, word());
}

/// The code that adds a distance to a register adds it, modulo the number
/// of values of a register, and changes nothing else but `rax`.
pub proof fn lemma_run_advance(code: Seq<u8>, host: Host, s: Native, modrm: u8, d: int) -> (t:
    Native)
    requires
        holds(code, s.cpu.rip, advance(modrm, d)),
        modrm == 0xC4 || modrm == 0xC3,
    ensures
        reaches(code, host, s, t, if fits_imm8(d) {
            1nat
        } else {
            2nat
        }),
        t == advanced(s, modrm, d, t.cpu.rax),
{
    lemma_decode_advance(code, s.cpu.rip, modrm, d);
    let at = s.cpu.rip;
    if fits_imm8(d) {
        let t = advanced(s, modrm, d, s.cpu.rax);
        assert(native_step(code, host, s) == exec(host, add_imm8(modrm, d), at + 4, s));
        assert(exec(host, add_imm8(modrm, d), at + 4, s) == Step::Next(t));
        lemma_one_step(code, host, s, t);
        t
    } else {
        let t = advanced(s, modrm, d, d % word());
        let mid = Native { cpu: Cpu { rax: d % word(), rip: at + 10, ..s.cpu }, ..s };
        assert(native_step(code, host, s) == exec(host, Instr::MovabsRax(d % word()), at + 10, s));
        assert(exec(host, Instr::MovabsRax(d % word()), at + 10, s) == Step::Next(mid));
        assert(native_step(code, host, mid) == exec(host, add_rax(modrm), at + 13, mid));
        lemma_add_reduced(s.cpu.r12, d);
        lemma_add_reduced(s.cpu.r11, d);
        assert(exec(host, add_rax(modrm), at + 13, mid) == Step::Next(t));
        lemma_two_steps(code, host, s, mid, t);
        t
    }
}

/// The address that a check looks at.
pub open spec fn checked(s: Native, src: u8) -> int {
    if src == 0xE0 {
        s.cpu.r12
    } else {
        s.cpu.r11
    }
}

/// The state after the check of an address, whose jump has displacement
/// `r`.
pub open spec fn after_check(s: Native, src: u8, r: int) -> Native {
    let index = (checked(s, src) - s.cpu.r14) % word();
    Native {
        cpu: Cpu {
            rax: index,
            compared: Some((index, s.cpu.r13)),
            rip: if index > s.cpu.r13 {
                s.cpu.rip + 15 + r
            } else {
                s.cpu.rip + 15
            },
            ..s.cpu
        },
        ..s
    }
}

/// The check of an address takes the jump where the address, less the
/// address of the tape, is above the highest index of a cell.
pub proof fn lemma_run_check(code: Seq<u8>, host: Host, s: Native, src: u8, r: int)
    requires
        holds(code, s.cpu.rip, bounds_check(src, le_bytes(r, 4))),
        src == 0xE0 || src == 0xD8,
        -0x8000_0000 <= r < 0x8000_0000,
    ensures
        reaches(code, host, s, after_check(s, src, r), 4),
{
    lemma_decode_check(code, s.cpu.rip, src, r);
    reveal_with_fuel(reaches, 5);
}

/// The state in which the abort routine is called.
pub open spec fn aborting(s: Native) -> Native {
    Native { cpu: Cpu { rdi: 0, compared: None, rip: s.cpu.rip + 3, ..s.cpu }, ..s }
}

/// The abort routine calls the host with code 0.
pub proof fn lemma_run_abort(code: Seq<u8>, host: Host, s: Native)
    requires
        holds(code, s.cpu.rip, abort_routine()),
        s.cpu.r15 == host.abort,
        aligned(s.cpu),
    ensures
        exits(code, host, s, Exit::Aborted(0), aborting(s), 2),
{
    lemma_list_abort(code, s.cpu.rip);
    reveal_with_fuel(exits, 3);
}

/// Where a move ends on the tape, the address of the cell it ends on is
/// the sum that the processor computes, and the check lets it pass; where
/// it does not, the check does not let it pass.
pub proof fn lemma_check_is_exact(tape: int, c: int, d: int)
    requires
        0 <= tape,
        tape + MEMSIZE <= word(),
        in_tape(c),
        -0x8000_0000_0000_0000 <= d < 0x8000_0000_0000_0000,
    ensures
        in_tape(c + d) ==> (tape + c + d) % word() == tape + c + d && (((tape + c + d) % word())
            - tape) % word() == c + d,
        !in_tape(c + d) ==> (((tape + c + d) % word()) - tape) % word() > MEMSIZE - 1,
{
    let w = word();
    let a = (tape + c + d) % w;
    assert((a - tape) % w == (c + d) % w);
}

/// Whether the processor is ready for the code of an instruction: the
/// registers hold what generated code relies on, `r12` holds the address
/// of cell `c`, and one value lies on the stack.
pub open spec fn ready(host: Host, n: Native, c: int) -> bool {
    &&& host_ok(host)
    &&& in_tape(c)
    &&& n.tape.len() == MEMSIZE
    &&& n.cpu.r12 == host.tape + c
    &&& n.cpu.r13 == MEMSIZE - 1
    &&& n.cpu.r14 == host.tape
    &&& n.cpu.r15 == host.abort
    &&& n.cpu.rcx == host.io
    &&& n.cpu.rdi == host.ctx
    &&& n.cpu.stack.len() == 1
}

/// Whether two states have the same streams of bytes.
pub open spec fn same_streams(n: Native, t: Native) -> bool {
    t.input == n.input && t.output == n.output
}

/// A way goes on by one instruction, known by its bytes.
pub proof fn lemma_then(
    code: Seq<u8>,
    host: Host,
    s: Native,
    t: Native,
    n: nat,
    i: Instr,
    len: int,
    u: Native,
)
    requires
        reaches(code, host, s, t, n),
        decode(code, t.cpu.rip) == Some((i, len)),
        exec(host, i, t.cpu.rip + len, t) == Step::Next(u),
    ensures
        reaches(code, host, s, u, n + 1),
{
    lemma_one_step(code, host, t, u);
    lemma_reaches_then(code, host, s, t, u, n, 1);
}

/// A way begins with one instruction, known by its bytes.
pub proof fn lemma_first(code: Seq<u8>, host: Host, s: Native, i: Instr, len: int, u: Native)
    requires
        decode(code, s.cpu.rip) == Some((i, len)),
        exec(host, i, s.cpu.rip + len, s) == Step::Next(u),
    ensures
        reaches(code, host, s, u, 1),
{
    lemma_one_step(code, host, s, u);
}

/// `add byte [r12], imm8` with the low byte of `d` adds `d` to the current
/// cell, modulo 256.
pub proof fn lemma_run_add(code: Seq<u8>, host: Host, n: Native, c: int, d: int) -> (t: Native)
    requires
        ready(host, n, c),
        decode(code, n.cpu.rip) == Some((Instr::AddCellImm8(d % 256), 5int)),
    ensures
        reaches(code, host, n, t, 1),
        ready(host, t, c),
        t.cpu.rip == n.cpu.rip + 5,
        t.tape == n.tape.update(c, wrap(n.tape[c] + d)),
        same_streams(n, t),
{
    let cell = n.tape[c] as int;
    assert((cell + d % 256) % 256 == (cell + d) % 256) by {
        lemma_add_mod_noop_right(cell, d, 256);
    }
    let t = Native {
        cpu: Cpu { rip: n.cpu.rip + 5, compared: None, ..n.cpu },
        tape: n.tape.update(c, wrap(cell + d)),
        ..n
    };
    lemma_first(code, host, n, Instr::AddCellImm8(d % 256), 5, t);
    t
}

/// `mov byte [r12], 0` clears the current cell.
pub proof fn lemma_run_setzero(code: Seq<u8>, host: Host, n: Native, c: int) -> (t: Native)
    requires
        ready(host, n, c),
        decode(code, n.cpu.rip) == Some((Instr::MovCellImm8(0), 5int)),
    ensures
        reaches(code, host, n, t, 1),
        ready(host, t, c),
        t.cpu.rip == n.cpu.rip + 5,
        t.tape == n.tape.update(c, 0u8),
        same_streams(n, t),
{
    let t = Native { cpu: Cpu { rip: n.cpu.rip + 5, ..n.cpu }, tape: n.tape.update(c, 0u8), ..n };
    lemma_first(code, host, n, Instr::MovCellImm8(0), 5, t);
    t
}

/// The comparison of the current cell with zero and the jump behind it:
/// the jump is taken by what the cell holds.
pub proof fn lemma_run_jump(
    code: Seq<u8>,
    host: Host,
    n: Native,
    c: int,
    on_zero: bool,
    r: int,
) -> (t: Native)
    requires
        ready(host, n, c),
        decode(code, n.cpu.rip) == Some((Instr::CompareCellImm8(0), 5int)),
        decode(code, n.cpu.rip + 5) == Some(
            (if on_zero {
                Instr::Je(r)
            } else {
                Instr::Jne(r)
            }, 6int),
        ),
    ensures
        reaches(code, host, n, t, 2),
        ready(host, t, c),
        t.cpu.rip == (if (n.tape[c] == 0) == on_zero {
            n.cpu.rip + 11 + r
        } else {
            n.cpu.rip + 11
        }),
        t.tape == n.tape,
        same_streams(n, t),
{
    let cell = n.tape[c] as int;
    let a = Native { cpu: Cpu { rip: n.cpu.rip + 5, compared: Some((cell, 0int)), ..n.cpu }, ..n };
    lemma_first(code, host, n, Instr::CompareCellImm8(0), 5, a);
    let t = Native {
        cpu: Cpu {
            rip: if (n.tape[c] == 0) == on_zero {
                n.cpu.rip + 11 + r
            } else {
                n.cpu.rip + 11
            },
            ..a.cpu
        },
        ..a
    };
    if on_zero {
        lemma_then(code, host, n, a, 1, Instr::Je(r), 6, t);
    } else {
        lemma_then(code, host, n, a, 1, Instr::Jne(r), 6, t);
    }
    t
}

/// The code that moves `r12` by `d` and checks it: where the move ends on
/// the tape, `r12` holds the address of the cell it ends on; where it does
/// not, the abort routine is called.
pub proof fn lemma_run_move(code: Seq<u8>, host: Host, n: Native, c: int, d: int, r: int) -> (res: (
    Native,
    nat,
))
    requires
        ready(host, n, c),
        -0x8000_0000_0000_0000 <= d < 0x8000_0000_0000_0000,
        -0x8000_0000 <= r < 0x8000_0000,
        holds(code, n.cpu.rip, advance(0xC4, d)),
        holds(code, n.cpu.rip + advance_len(d), bounds_check(0xE0, le_bytes(r, 4))),
        holds(code, n.cpu.rip + advance_len(d) + 15 + r, abort_routine()),
    ensures
        in_tape(c + d) ==> reaches(code, host, n, res.0, res.1) && ready(host, res.0, c + d)
            && res.0.cpu.rip == n.cpu.rip + advance_len(d) + 15,
        !in_tape(c + d) ==> exits(code, host, n, Exit::Aborted(0), res.0, res.1),
        res.1 > 0,
        res.0.tape == n.tape,
        same_streams(n, res.0),
{
    let a = lemma_run_advance(code, host, n, 0xC4, d);
    let steps: nat = if fits_imm8(d) {
        1
    } else {
        2
    };
    lemma_run_check(code, host, a, 0xE0, r);
    let b = after_check(a, 0xE0, r);
    lemma_reaches_then(code, host, n, a, b, steps, 4);
    lemma_check_is_exact(host.tape, c, d);
    if in_tape(c + d) {
        (b, steps + 4)
    } else {
        lemma_run_abort(code, host, b);
        lemma_reaches_then_exits(code, host, n, b, Exit::Aborted(0), aborting(b), steps + 4, 2);
        (aborting(b), steps + 6)
    }
}

/// The state before the I/O routine is called: the two registers that
/// the routine may change lie on the stack, `rsi` holds the direction and
/// `rdx` the address of the current cell.
pub open spec fn calling(n: Native, direction: int) -> Native {
    Native {
        cpu: Cpu {
            rip: n.cpu.rip + 12,
            rsi: direction,
            rdx: n.cpu.r12,
            stack: n.cpu.stack.push(n.cpu.rdi).push(n.cpu.rcx),
            ..n.cpu
        },
        ..n
    }
}

/// The four instructions before a call of the I/O routine.
pub proof fn lemma_run_before_call(code: Seq<u8>, host: Host, n: Native, direction: int)
    requires
        0 <= direction < 256,
        decode(code, n.cpu.rip) == Some((Instr::PushRdi, 1int)),
        decode(code, n.cpu.rip + 1) == Some((Instr::PushRcx, 1int)),
        decode(code, n.cpu.rip + 2) == Some((Instr::MovRsiImm32(direction), 7int)),
        decode(code, n.cpu.rip + 9) == Some((Instr::MovRdxR12, 3int)),
    ensures
        reaches(code, host, n, calling(n, direction), 4),
{
    let at = n.cpu.rip;
    let a = Native { cpu: Cpu { rip: at + 1, stack: n.cpu.stack.push(n.cpu.rdi), ..n.cpu }, ..n };
    lemma_first(code, host, n, Instr::PushRdi, 1, a);
    let b = Native { cpu: Cpu { rip: at + 2, stack: a.cpu.stack.push(n.cpu.rcx), ..a.cpu }, ..n };
    lemma_then(code, host, n, a, 1, Instr::PushRcx, 1, b);
    let c = Native { cpu: Cpu { rip: at + 9, rsi: direction, ..b.cpu }, ..n };
    lemma_then(code, host, n, b, 2, Instr::MovRsiImm32(direction), 7, c);
    let d = Native { cpu: Cpu { rip: at + 12, rdx: n.cpu.r12, ..c.cpu }, ..n };
    lemma_then(code, host, n, c, 3, Instr::MovRdxR12, 3, d);
    assert(d == calling(n, direction));
}

/// The two instructions after a call of the I/O routine put back what the
/// routine may have changed.
pub proof fn lemma_run_after_call(code: Seq<u8>, host: Host, n: Native, rdi: int, rcx: int) -> (t:
    Native)
    requires
        n.cpu.stack.len() == 3,
        n.cpu.stack[1] == rdi,
        n.cpu.stack[2] == rcx,
        decode(code, n.cpu.rip) == Some((Instr::PopRcx, 1int)),
        decode(code, n.cpu.rip + 1) == Some((Instr::PopRdi, 1int)),
    ensures
        reaches(code, host, n, t, 2),
        t == (Native {
            cpu: Cpu {
                rip: n.cpu.rip + 2,
                rcx,
                rdi,
                stack: n.cpu.stack.take(1),
                ..n.cpu
            },
            ..n
        }),
{
    let a = Native {
        cpu: Cpu { rip: n.cpu.rip + 1, rcx, stack: n.cpu.stack.drop_last(), ..n.cpu },
        ..n
    };
    lemma_first(code, host, n, Instr::PopRcx, 1, a);
    let t = Native {
        cpu: Cpu { rip: n.cpu.rip + 2, rdi, stack: a.cpu.stack.drop_last(), ..a.cpu },
        ..n
    };
    lemma_then(code, host, n, a, 1, Instr::PopRdi, 1, t);
    assert(t.cpu.stack =~= n.cpu.stack.take(1));
    t
}

/// The code of `PUTC` writes the current cell.
pub proof fn lemma_run_putc(code: Seq<u8>, host: Host, n: Native, c: int) -> (t: Native)
    requires
        ready(host, n, c),
        decode(code, n.cpu.rip) == Some((Instr::PushRdi, 1int)),
        decode(code, n.cpu.rip + 1) == Some((Instr::PushRcx, 1int)),
        decode(code, n.cpu.rip + 2) == Some((Instr::MovRsiImm32(1), 7int)),
        decode(code, n.cpu.rip + 9) == Some((Instr::MovRdxR12, 3int)),
        decode(code, n.cpu.rip + 12) == Some((Instr::CallRcx, 2int)),
        decode(code, n.cpu.rip + 14) == Some((Instr::PopRcx, 1int)),
        decode(code, n.cpu.rip + 15) == Some((Instr::PopRdi, 1int)),
    ensures
        reaches(code, host, n, t, 7),
        ready(host, t, c),
        t.cpu.rip == n.cpu.rip + 16,
        t.tape == n.tape,
        t.input == n.input,
        t.output == n.output.push(n.tape[c]),
{
    lemma_run_before_call(code, host, n, 1);
    let a = calling(n, 1);
    let b = Native {
        cpu: Cpu {
            rip: n.cpu.rip + 14,
            rax: unknown(a, 0),
            rcx: unknown(a, 1),
            rdx: unknown(a, 2),
            rsi: unknown(a, 3),
            rdi: unknown(a, 4),
            r11: unknown(a, 5),
            compared: None,
            ..a.cpu
        },
        output: n.output.push(n.tape[c]),
        ..n
    };
    lemma_then(code, host, n, a, 4, Instr::CallRcx, 2, b);
    let t = lemma_run_after_call(code, host, b, host.ctx, host.io);
    lemma_reaches_then(code, host, n, b, t, 5, 2);
    t
}

/// The code of `GETC` reads a byte into the current cell.
pub proof fn lemma_run_getc(code: Seq<u8>, host: Host, n: Native, c: int) -> (t: Native)
    requires
        ready(host, n, c),
        decode(code, n.cpu.rip) == Some((Instr::PushRdi, 1int)),
        decode(code, n.cpu.rip + 1) == Some((Instr::PushRcx, 1int)),
        decode(code, n.cpu.rip + 2) == Some((Instr::MovRsiImm32(0), 7int)),
        decode(code, n.cpu.rip + 9) == Some((Instr::MovRdxR12, 3int)),
        decode(code, n.cpu.rip + 12) == Some((Instr::CallRcx, 2int)),
        decode(code, n.cpu.rip + 14) == Some((Instr::MovCellAl, 4int)),
        decode(code, n.cpu.rip + 18) == Some((Instr::PopRcx, 1int)),
        decode(code, n.cpu.rip + 19) == Some((Instr::PopRdi, 1int)),
    ensures
        reaches(code, host, n, t, 8),
        ready(host, t, c),
        t.cpu.rip == n.cpu.rip + 20,
        t.tape == n.tape.update(c, next_byte(n.input)),
        t.input == rest(n.input),
        t.output == n.output,
{
    lemma_run_before_call(code, host, n, 0);
    let a = calling(n, 0);
    let got = 256 * (unknown(a, 0) / 256) + next_byte(n.input);
    let b = Native {
        cpu: Cpu {
            rip: n.cpu.rip + 14,
            rax: got,
            rcx: unknown(a, 1),
            rdx: unknown(a, 2),
            rsi: unknown(a, 3),
            rdi: unknown(a, 4),
            r11: unknown(a, 5),
            compared: None,
            ..a.cpu
        },
        input: rest(n.input),
        ..n
    };
    lemma_then(code, host, n, a, 4, Instr::CallRcx, 2, b);
    assert(got % 256 == next_byte(n.input));
    let d = Native {
        cpu: Cpu { rip: n.cpu.rip + 18, ..b.cpu },
        tape: n.tape.update(c, next_byte(n.input)),
        ..b
    };
    lemma_then(code, host, n, b, 5, Instr::MovCellAl, 4, d);
    let t = lemma_run_after_call(code, host, d, host.ctx, host.io);
    lemma_reaches_then(code, host, n, d, t, 6, 2);
    t
}

/// The code of `FINDZERO` makes one move of the search: it is left where
/// the current cell is zero; else the cursor moves by `d` and the code
/// runs again, or the abort routine is called where the move would leave
/// the tape.
pub proof fn lemma_run_findzero(
    code: Seq<u8>,
    host: Host,
    n: Native,
    c: int,
    d: int,
    r: int,
) -> (res: (Native, nat))
    requires
        ready(host, n, c),
        -0x8000_0000_0000_0000 <= d < 0x8000_0000_0000_0000,
        -0x8000_0000 <= r < 0x8000_0000,
        decode(code, n.cpu.rip) == Some((Instr::CompareCellImm8(0), 5int)),
        decode(code, n.cpu.rip + 5) == Some((Instr::Je(advance_len(d) + 17), 2int)),
        holds(code, n.cpu.rip + 7, advance(0xC4, d)),
        holds(code, n.cpu.rip + 7 + advance_len(d), bounds_check(0xE0, le_bytes(r, 4))),
        decode(code, n.cpu.rip + 22 + advance_len(d)) == Some(
            (Instr::Jmp(-(24 + advance_len(d))), 2int),
        ),
        holds(code, n.cpu.rip + 22 + advance_len(d) + r, abort_routine()),
    ensures
        n.tape[c] == 0 ==> reaches(code, host, n, res.0, res.1) && ready(host, res.0, c)
            && res.0.cpu.rip == n.cpu.rip + advance_len(d) + 24,
        n.tape[c] != 0 && in_tape(c + d) ==> reaches(code, host, n, res.0, res.1) && ready(
            host,
            res.0,
            c + d,
        ) && res.0.cpu.rip == n.cpu.rip,
        n.tape[c] != 0 && !in_tape(c + d) ==> exits(
            code,
            host,
            n,
            Exit::Aborted(0),
            res.0,
            res.1,
        ),
        res.1 > 0,
        res.0.tape == n.tape,
        same_streams(n, res.0),
{
    let at = n.cpu.rip;
    let len = advance_len(d);
    let cell = n.tape[c] as int;
    let a = Native { cpu: Cpu { rip: at + 5, compared: Some((cell, 0int)), ..n.cpu }, ..n };
    lemma_first(code, host, n, Instr::CompareCellImm8(0), 5, a);
    let b = Native {
        cpu: Cpu {
            rip: if cell == 0 {
                at + 24 + len
            } else {
                at + 7
            },
            ..a.cpu
        },
        ..a
    };
    lemma_then(code, host, n, a, 1, Instr::Je(len + 17), 2, b);
    if cell == 0 {
        (b, 2)
    } else {
        let (m, k) = lemma_run_move(code, host, b, c, d, r);
        if in_tape(c + d) {
            lemma_reaches_then(code, host, n, b, m, 2, k);
            let t = Native { cpu: Cpu { rip: at, ..m.cpu }, ..m };
            lemma_then(code, host, n, m, 2 + k, Instr::Jmp(-(24 + len)), 2, t);
            (t, 2 + k + 1)
        } else {
            lemma_reaches_then_exits(code, host, n, b, Exit::Aborted(0), m, 2, k);
            (m, 2 + k)
        }
    }
}

/// What reaches a cell of a product that the processor has computed in 32
/// bits, with a factor of which only the low byte is known, is what the
/// whole product would add to the cell.
pub proof fn lemma_low_byte_of_product(target: int, cell: int, v: int, coef: int)
    requires
        0 <= cell < 256,
        v % 256 == coef % 256,
    ensures
        (target + (((cell % 0x1_0000_0000) * v) % 0x1_0000_0000) % 256) % 256 == (target + coef
            * cell) % 256,
{
    let p = cell * v;
    assert(cell % 0x1_0000_0000 == cell);
    assert((p % 0x1_0000_0000) % 256 == p % 256) by {
        lemma_mod_mod(p, 256, 0x100_0000);
    }
    assert(p % 256 == (coef * cell) % 256) by {
        lemma_mul_mod_noop_general(cell, v, 256);
        lemma_mul_mod_noop_general(cell, coef, 256);
        assert(cell * coef == coef * cell) by (nonlinear_arith);
    }
    lemma_add_mod_noop_right(target, p % 0x1_0000_0000, 256);
    lemma_add_mod_noop_right(target, coef * cell, 256);
}

/// The code of `MULINTO` adds the product to the cell at the offset and
/// clears the current cell, or calls the abort routine where no cell lies
/// at the offset.
pub proof fn lemma_run_mulinto(
    code: Seq<u8>,
    host: Host,
    n: Native,
    c: int,
    coef: int,
    d: int,
    v: int,
    r: int,
) -> (res: (Native, nat))
    requires
        ready(host, n, c),
        -0x8000_0000_0000_0000 <= d < 0x8000_0000_0000_0000,
        -0x8000_0000 <= r < 0x8000_0000,
        v % 256 == coef % 256,
        decode(code, n.cpu.rip) == Some((Instr::MovR11R12, 3int)),
        holds(code, n.cpu.rip + 3, advance(0xC3, d)),
        holds(code, n.cpu.rip + 3 + advance_len(d), bounds_check(0xD8, le_bytes(r, 4))),
        decode(code, n.cpu.rip + 18 + advance_len(d)) == Some((Instr::MovzxEaxCell, 5int)),
        decode(code, n.cpu.rip + 23 + advance_len(d)) == Some((Instr::ImulEaxImm32(v), 6int)),
        decode(code, n.cpu.rip + 29 + advance_len(d)) == Some((Instr::AddAtR11Al, 3int)),
        decode(code, n.cpu.rip + 32 + advance_len(d)) == Some((Instr::MovCellImm8(0), 5int)),
        holds(code, n.cpu.rip + 18 + advance_len(d) + r, abort_routine()),
    ensures
        in_tape(c + d) ==> reaches(code, host, n, res.0, res.1) && ready(host, res.0, c)
            && res.0.cpu.rip == n.cpu.rip + advance_len(d) + 37 && res.0.tape == n.tape.update(
            c + d,
            wrap(n.tape[c + d] + coef * n.tape[c]),
        ).update(c, 0u8),
        !in_tape(c + d) ==> exits(code, host, n, Exit::Aborted(0), res.0, res.1) && res.0.tape
            == n.tape,
        res.1 > 0,
        same_streams(n, res.0),
{
    let at = n.cpu.rip;
    let len = advance_len(d);
    let a = Native { cpu: Cpu { rip: at + 3, r11: n.cpu.r12, ..n.cpu }, ..n };
    lemma_first(code, host, n, Instr::MovR11R12, 3, a);
    let b = lemma_run_advance(code, host, a, 0xC3, d);
    let steps: nat = if fits_imm8(d) {
        1
    } else {
        2
    };
    lemma_reaches_then(code, host, n, a, b, 1, steps);
    lemma_run_check(code, host, b, 0xD8, r);
    let e = after_check(b, 0xD8, r);
    lemma_reaches_then(code, host, n, b, e, 1 + steps, 4);
    lemma_check_is_exact(host.tape, c, d);
    if in_tape(c + d) {
        let to = c + d;
        let cell = n.tape[c] as int;
        let f = Native { cpu: Cpu { rip: at + 23 + len, rax: cell, ..e.cpu }, ..e };
        lemma_then(code, host, n, e, 5 + steps, Instr::MovzxEaxCell, 5, f);
        let product = ((cell % 0x1_0000_0000) * v) % 0x1_0000_0000;
        let g = Native {
            cpu: Cpu { rip: at + 29 + len, rax: product, compared: None, ..f.cpu },
            ..f
        };
        lemma_then(code, host, n, f, 6 + steps, Instr::ImulEaxImm32(v), 6, g);
        lemma_low_byte_of_product(n.tape[to] as int, cell, v, coef);
        let h = Native {
            cpu: Cpu { rip: at + 32 + len, ..g.cpu },
            tape: n.tape.update(to, wrap(n.tape[to] + coef * cell)),
            ..g
        };
        lemma_then(code, host, n, g, 7 + steps, Instr::AddAtR11Al, 3, h);
        let t = Native { cpu: Cpu { rip: at + 37 + len, ..h.cpu }, tape: h.tape.update(c, 0u8), ..h };
        lemma_then(code, host, n, h, 8 + steps, Instr::MovCellImm8(0), 5, t);
        (t, 9 + steps)
    } else {
        lemma_run_abort(code, host, e);
        lemma_reaches_then_exits(code, host, n, e, Exit::Aborted(0), aborting(e), 5 + steps, 2);
        (aborting(e), 7 + steps)
    }
}

/// The state in which the host calls generated code: the registers hold
/// what generated code relies on, with the address of cell `c` in `r12`,
/// and nothing lies on the stack.
pub open spec fn entered(host: Host, n: Native, c: int) -> bool {
    &&& host_ok(host)
    &&& in_tape(c)
    &&& n.tape.len() == MEMSIZE
    &&& n.cpu.r12 == host.tape + c
    &&& n.cpu.r13 == MEMSIZE - 1
    &&& n.cpu.r14 == host.tape
    &&& n.cpu.r15 == host.abort
    &&& n.cpu.rcx == host.io
    &&& n.cpu.rdi == host.ctx
    &&& n.cpu.stack.len() == 0
    &&& n.cpu.rip == 0
}

/// The prologue puts one value on the stack.
pub proof fn lemma_run_prologue(code: Seq<u8>, host: Host, n: Native, c: int) -> (t: Native)
    requires
        entered(host, n, c),
        decode(code, 0) == Some((Instr::SubRsp8, 4int)),
    ensures
        reaches(code, host, n, t, 1),
        ready(host, t, c),
        t.cpu.rip == 4,
        t.tape == n.tape,
        same_streams(n, t),
{
    let t = Native {
        cpu: Cpu { rip: 4, compared: None, stack: n.cpu.stack.push(unknown(n, 0)), ..n.cpu },
        ..n
    };
    lemma_first(code, host, n, Instr::SubRsp8, 4, t);
    t
}

/// The epilogue takes the value off the stack and returns to the host,
/// with the address of the current cell in `r12`.
pub proof fn lemma_run_epilogue(code: Seq<u8>, host: Host, n: Native, c: int) -> (t: Native)
    requires
        ready(host, n, c),
        decode(code, n.cpu.rip) == Some((Instr::AddRsp8, 4int)),
        decode(code, n.cpu.rip + 4) == Some((Instr::Ret, 1int)),
    ensures
        exits(code, host, n, Exit::Returned, t, 2),
        t.cpu.r12 == host.tape + c,
        t.cpu.r14 == host.tape,
        t.tape == n.tape,
        same_streams(n, t),
{
    let t = Native {
        cpu: Cpu { rip: n.cpu.rip + 4, compared: None, stack: n.cpu.stack.drop_last(), ..n.cpu },
        ..n
    };
    lemma_first(code, host, n, Instr::AddRsp8, 4, t);
    assert(exec(host, Instr::Ret, t.cpu.rip + 1, t) == Step::Exit(Exit::Returned, t));
    assert(exits(code, host, t, Exit::Returned, t, 1)) by {
        reveal_with_fuel(exits, 2);
    }
    lemma_reaches_then_exits(code, host, n, t, Exit::Returned, t, 1, 1);
    t
}

} // verus!
