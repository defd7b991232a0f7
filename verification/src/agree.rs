//! Native code and the interpreter agree.
//!
//! Each instruction of the bytecode has its code, and what the model of the
//! processor makes of that code is what the interpreter makes of the
//! instruction: the same tape, the same cursor, the same bytes read and
//! written, and the code of the next instruction next. Where the
//! interpreter fails, the code calls the abort routine. So a program that
//! the interpreter runs to an end, native code runs to the same end.

use crate::bytecode::{well_formed, Inst};
use crate::cpu::{exits, host_ok, lemma_reaches_then_exits, reaches, Exit, Host, Native};
use crate::jit::{
    abort_entry, displacement, encode, lemma_jump_leads_to_its_index, lemma_machine_code_layout,
    lemma_offsets, machine_code, machine_code_len, offset, rel_end, rel_target, slot,
};
use crate::listing::{
    holds, lemma_list_add, lemma_list_epilogue, lemma_list_findzero, lemma_list_getc,
    lemma_list_jump, lemma_list_movptr, lemma_list_mulinto, lemma_list_prologue, lemma_list_putc,
    lemma_list_setzero,
};
use crate::run::{
    entered, lemma_run_add, lemma_run_epilogue, lemma_run_findzero, lemma_run_getc,
    lemma_run_jump, lemma_run_move, lemma_run_mulinto, lemma_run_prologue, lemma_run_putc,
    lemma_run_setzero, ready,
};
use crate::vm::{advance, run_spec, valid, RuntimeError, Session, Stop};
use crate::x86::{
    abort_routine, epilogue, has_rel, lemma_encode_op, lemma_le_bytes_len, op_len, prologue,
};
use vstd::prelude::*;

verus! {

/// Whether the processor stands where the machine stands: ready for the
/// code of the instruction that the machine runs next, with the address of
/// the current cell in `r12`, on the same tape, with the same bytes left
/// to read and the same bytes written.
pub open spec fn same(host: Host, ir: Seq<Inst>, s: Session, n: Native) -> bool {
    &&& ready(host, n, s.vm.cursor)
    &&& n.cpu.rip == offset(ir, s.vm.pc)
    &&& n.tape == s.vm.mem
    &&& n.input == s.input
    &&& n.output == s.output
}

/// Whether `code` is the machine code of `ir`, and `ir` is bytecode whose
/// code can be generated.
pub open spec fn code_of(ir: Seq<Inst>, code: Seq<u8>) -> bool {
    &&& well_formed(ir)
    &&& machine_code_len(ir) <= i32::MAX
    &&& code == machine_code(ir)
}

/// Whether the machine is about to run an instruction of `ir`, and the
/// processor stands where the machine stands.
pub open spec fn before(
    ir: Seq<Inst>,
    code: Seq<u8>,
    host: Host,
    s: Session,
    n: Native,
) -> bool {
    &&& code_of(ir, code)
    &&& host_ok(host)
    &&& valid(s.vm)
    &&& 0 <= s.vm.pc < ir.len()
    &&& same(host, ir, s, n)
}

/// Whether the way of `steps` steps from `n` to `t` is the step of the
/// machine from `s`: it ends where the machine stands after the step, or,
/// where the step fails, with a call of the abort routine, on the tape and
/// with the streams of bytes as they were.
pub open spec fn agrees(
    ir: Seq<Inst>,
    code: Seq<u8>,
    host: Host,
    s: Session,
    n: Native,
    t: Native,
    steps: nat,
) -> bool {
    match advance(ir, s) {
        Ok(then) => {
            &&& steps > 0
            &&& reaches(code, host, n, t, steps)
            &&& same(host, ir, then, t)
            &&& valid(then.vm)
            &&& 0 <= then.vm.pc <= ir.len()
        },
        Err(_) => {
            &&& exits(code, host, n, Exit::Aborted(0), t, steps)
            &&& t.tape == s.vm.mem
            &&& t.input == s.input
            &&& t.output == s.output
        },
    }
}

/// The code of instruction `k` stands at its place, the abort routine at
/// its own, and no displacement spans more than 32 bits can say.
pub proof fn lemma_code_at(ir: Seq<Inst>, code: Seq<u8>, k: int)
    requires
        code_of(ir, code),
        0 <= k < ir.len(),
    ensures
        holds(code, offset(ir, k), encode(ir, k)),
        offset(ir, k + 1) == offset(ir, k) + op_len(ir[k]),
        holds(code, abort_entry(ir), abort_routine()),
        has_rel(ir[k]) ==> -0x8000_0000 <= rel_target(ir, k) - rel_end(ir, k) < 0x8000_0000,
        ir[k] matches Inst::JZ(t) ==> k < t <= ir.len() && rel_target(ir, k) == offset(
            ir,
            t as int,
        ),
        ir[k] matches Inst::JNZ(t) ==> 0 < t <= k && rel_target(ir, k) == offset(ir, t as int),
{
    lemma_machine_code_layout(ir);
    lemma_offsets(ir, 0, k);
    lemma_offsets(ir, k, k + 1);
    lemma_offsets(ir, k + 1, ir.len() as int);
    lemma_le_bytes_len(rel_target(ir, k) - rel_end(ir, k), 4);
    lemma_encode_op(ir[k], displacement(ir, k), displacement(ir, k));
    assert(slot(code, ir, k) == encode(ir, k));
    assert(code.subrange(abort_entry(ir), abort_entry(ir) + 6) == abort_routine());
    if ir[k] is JZ || ir[k] is JNZ {
        lemma_jump_leads_to_its_index(ir, k);
        if ir[k] is JZ {
            let t = ir[k]->JZ_0 as int;
            lemma_offsets(ir, 0, t);
            lemma_offsets(ir, t, ir.len() as int);
        } else {
            let t = ir[k]->JNZ_0 as int;
            lemma_offsets(ir, 0, t);
            lemma_offsets(ir, t, ir.len() as int);
        }
    }
}

/// The code of `ADD` does what the interpreter does.
pub proof fn lemma_add_agrees(ir: Seq<Inst>, code: Seq<u8>, host: Host, s: Session, n: Native) -> (res:
    (Native, nat))
    requires
        before(ir, code, host, s, n),
        ir[s.vm.pc] is ADD,
    ensures
        agrees(ir, code, host, s, n, res.0, res.1),
{
    let k = s.vm.pc;
    let d = ir[k]->ADD_0 as int;
    lemma_code_at(ir, code, k);
    lemma_list_add(code, offset(ir, k), ir[k], displacement(ir, k));
    let t = lemma_run_add(code, host, n, s.vm.cursor, d);
    (t, 1)
}

/// The code of `SETZERO` does what the interpreter does.
pub proof fn lemma_setzero_agrees(
    ir: Seq<Inst>,
    code: Seq<u8>,
    host: Host,
    s: Session,
    n: Native,
) -> (res: (Native, nat))
    requires
        before(ir, code, host, s, n),
        ir[s.vm.pc] is SETZERO,
    ensures
        agrees(ir, code, host, s, n, res.0, res.1),
{
    let k = s.vm.pc;
    lemma_code_at(ir, code, k);
    lemma_list_setzero(code, offset(ir, k), ir[k], displacement(ir, k));
    let t = lemma_run_setzero(code, host, n, s.vm.cursor);
    (t, 1)
}

/// The code of `JZ` and of `JNZ` does what the interpreter does.
pub proof fn lemma_jump_agrees(ir: Seq<Inst>, code: Seq<u8>, host: Host, s: Session, n: Native) -> (res:
    (Native, nat))
    requires
        before(ir, code, host, s, n),
        ir[s.vm.pc] is JZ || ir[s.vm.pc] is JNZ,
    ensures
        agrees(ir, code, host, s, n, res.0, res.1),
{
    let k = s.vm.pc;
    let r = rel_target(ir, k) - rel_end(ir, k);
    lemma_code_at(ir, code, k);
    lemma_list_jump(code, offset(ir, k), ir[k], r);
    let t = lemma_run_jump(code, host, n, s.vm.cursor, ir[k] is JZ, r);
    (t, 2)
}

/// The code of `MOVPTR` does what the interpreter does.
pub proof fn lemma_movptr_agrees(
    ir: Seq<Inst>,
    code: Seq<u8>,
    host: Host,
    s: Session,
    n: Native,
) -> (res: (Native, nat))
    requires
        before(ir, code, host, s, n),
        ir[s.vm.pc] is MOVPTR,
    ensures
        agrees(ir, code, host, s, n, res.0, res.1),
{
    let k = s.vm.pc;
    let d = ir[k]->MOVPTR_0 as int;
    let r = rel_target(ir, k) - rel_end(ir, k);
    lemma_code_at(ir, code, k);
    lemma_list_movptr(code, offset(ir, k), ir[k], r);
    lemma_run_move(code, host, n, s.vm.cursor, d, r)
}

/// The code of `FINDZERO` does what the interpreter does.
pub proof fn lemma_findzero_agrees(
    ir: Seq<Inst>,
    code: Seq<u8>,
    host: Host,
    s: Session,
    n: Native,
) -> (res: (Native, nat))
    requires
        before(ir, code, host, s, n),
        ir[s.vm.pc] is FINDZERO,
    ensures
        agrees(ir, code, host, s, n, res.0, res.1),
{
    let k = s.vm.pc;
    let d = ir[k]->FINDZERO_0 as int;
    let r = rel_target(ir, k) - rel_end(ir, k);
    lemma_code_at(ir, code, k);
    lemma_list_findzero(code, offset(ir, k), ir[k], r);
    lemma_run_findzero(code, host, n, s.vm.cursor, d, r)
}

/// The code of `MULINTO` does what the interpreter does.
pub proof fn lemma_mulinto_agrees(
    ir: Seq<Inst>,
    code: Seq<u8>,
    host: Host,
    s: Session,
    n: Native,
) -> (res: (Native, nat))
    requires
        before(ir, code, host, s, n),
        ir[s.vm.pc] is MULINTO,
    ensures
        agrees(ir, code, host, s, n, res.0, res.1),
{
    let k = s.vm.pc;
    let coef = ir[k]->MULINTO_0 as int;
    let d = ir[k]->MULINTO_1 as int;
    let r = rel_target(ir, k) - rel_end(ir, k);
    lemma_code_at(ir, code, k);
    let v = lemma_list_mulinto(code, offset(ir, k), ir[k], r);
    lemma_run_mulinto(code, host, n, s.vm.cursor, coef, d, v, r)
}

/// The code of `PUTC` does what the interpreter does.
pub proof fn lemma_putc_agrees(ir: Seq<Inst>, code: Seq<u8>, host: Host, s: Session, n: Native) -> (res:
    (Native, nat))
    requires
        before(ir, code, host, s, n),
        ir[s.vm.pc] is PUTC,
    ensures
        agrees(ir, code, host, s, n, res.0, res.1),
{
    let k = s.vm.pc;
    lemma_code_at(ir, code, k);
    lemma_list_putc(code, offset(ir, k), ir[k], displacement(ir, k));
    let t = lemma_run_putc(code, host, n, s.vm.cursor);
    (t, 7)
}

/// The code of `GETC` does what the interpreter does.
pub proof fn lemma_getc_agrees(ir: Seq<Inst>, code: Seq<u8>, host: Host, s: Session, n: Native) -> (res:
    (Native, nat))
    requires
        before(ir, code, host, s, n),
        ir[s.vm.pc] is GETC,
    ensures
        agrees(ir, code, host, s, n, res.0, res.1),
{
    let k = s.vm.pc;
    lemma_code_at(ir, code, k);
    lemma_list_getc(code, offset(ir, k), ir[k], displacement(ir, k));
    let t = lemma_run_getc(code, host, n, s.vm.cursor);
    (t, 8)
}

/// The code of every instruction does what the interpreter does.
pub proof fn lemma_instruction_agrees(
    ir: Seq<Inst>,
    code: Seq<u8>,
    host: Host,
    s: Session,
    n: Native,
) -> (res: (Native, nat))
    requires
        before(ir, code, host, s, n),
    ensures
        agrees(ir, code, host, s, n, res.0, res.1),
{
    match ir[s.vm.pc] {
        Inst::MOVPTR(_) => lemma_movptr_agrees(ir, code, host, s, n),
        Inst::ADD(_) => lemma_add_agrees(ir, code, host, s, n),
        Inst::SETZERO => lemma_setzero_agrees(ir, code, host, s, n),
        Inst::MULINTO(_, _) => lemma_mulinto_agrees(ir, code, host, s, n),
        Inst::FINDZERO(_) => lemma_findzero_agrees(ir, code, host, s, n),
        Inst::PUTC => lemma_putc_agrees(ir, code, host, s, n),
        Inst::GETC => lemma_getc_agrees(ir, code, host, s, n),
        Inst::JZ(_) => lemma_jump_agrees(ir, code, host, s, n),
        Inst::JNZ(_) => lemma_jump_agrees(ir, code, host, s, n),
    }
}

/// Whether native code has ended as the interpreter has: where the
/// interpreter has finished, the code has returned to the host, and the
/// cursor that the host takes from `r12` and `r14` is the cursor of the
/// machine; where the interpreter has failed, the code has called the abort
/// routine with code 0. Either way the tape, what is left to read and what
/// has been written are the same.
pub open spec fn same_end(outcome: (Session, Result<Stop, RuntimeError>), e: Exit, t: Native) -> bool {
    let (end, r) = outcome;
    &&& t.tape == end.vm.mem
    &&& t.input == end.input
    &&& t.output == end.output
    &&& match r {
        Ok(_) => r == Ok::<Stop, RuntimeError>(Stop::Finished) && e == Exit::Returned && t.cpu.r12
            - t.cpu.r14 == end.vm.cursor,
        Err(_) => e == Exit::Aborted(0),
    }
}

/// The exit that goes with an end of the interpreter.
pub open spec fn exit_of(r: Result<Stop, RuntimeError>) -> Exit {
    if r is Ok {
        Exit::Returned
    } else {
        Exit::Aborted(0)
    }
}

/// From any instruction on, native code ends as the interpreter ends.
pub proof fn lemma_rest_agrees(
    ir: Seq<Inst>,
    code: Seq<u8>,
    host: Host,
    s: Session,
    n: Native,
    limit: nat,
) -> (res: (Native, nat))
    requires
        code_of(ir, code),
        host_ok(host),
        valid(s.vm),
        0 <= s.vm.pc <= ir.len(),
        same(host, ir, s, n),
        run_spec(ir, s, false, limit).1 != Ok::<Stop, RuntimeError>(Stop::Limit),
    ensures
        exits(code, host, n, exit_of(run_spec(ir, s, false, limit).1), res.0, res.1),
        same_end(run_spec(ir, s, false, limit), exit_of(run_spec(ir, s, false, limit).1), res.0),
    decreases limit,
{
    if s.vm.pc == ir.len() {
        lemma_machine_code_layout(ir);
        lemma_offsets(ir, 0, ir.len() as int);
        assert(holds(code, offset(ir, ir.len() as int), epilogue()));
        lemma_list_epilogue(code, offset(ir, ir.len() as int));
        let t = lemma_run_epilogue(code, host, n, s.vm.cursor);
        (t, 2)
    } else {
        let (t, k) = lemma_instruction_agrees(ir, code, host, s, n);
        match advance(ir, s) {
            Ok(then) => {
                let (end, m) = lemma_rest_agrees(ir, code, host, then, t, (limit - 1) as nat);
                lemma_reaches_then_exits(
                    code,
                    host,
                    n,
                    t,
                    exit_of(run_spec(ir, s, false, limit).1),
                    end,
                    k,
                    m,
                );
                (end, k + m)
            },
            Err(_) => (t, k),
        }
    }
}

/// Native code and the interpreter agree: where the interpreter runs a
/// program from its first instruction to an end, the model of the
/// processor runs the machine code of the program, from the state in which
/// the host calls it, to the same end. It returns where the interpreter
/// finishes and calls the abort routine where the interpreter fails; the
/// tape, the cursor of a run that finishes, what is left to read and what
/// has been written are the same.
pub proof fn lemma_native_code_agrees(
    ir: Seq<Inst>,
    host: Host,
    s: Session,
    n: Native,
    limit: nat,
) -> (res: (Native, nat))
    requires
        well_formed(ir),
        machine_code_len(ir) <= i32::MAX,
        valid(s.vm),
        s.vm.pc == 0,
        entered(host, n, s.vm.cursor),
        n.tape == s.vm.mem,
        n.input == s.input,
        n.output == s.output,
        run_spec(ir, s, false, limit).1 != Ok::<Stop, RuntimeError>(Stop::Limit),
    ensures
        exits(
            machine_code(ir),
            host,
            n,
            exit_of(run_spec(ir, s, false, limit).1),
            res.0,
            res.1,
        ),
        same_end(run_spec(ir, s, false, limit), exit_of(run_spec(ir, s, false, limit).1), res.0),
{
    let code = machine_code(ir);
    lemma_machine_code_layout(ir);
    assert(holds(code, 0, prologue()));
    lemma_list_prologue(code, 0);
    let t = lemma_run_prologue(code, host, n, s.vm.cursor);
    let (end, m) = lemma_rest_agrees(ir, code, host, s, t, limit);
    lemma_reaches_then_exits(
        code,
        host,
        n,
        t,
        exit_of(run_spec(ir, s, false, limit).1),
        end,
        1,
        m,
    );
    (end, 1 + m)
}

} // verus!
