//! The code emitter: bytecode to x86-64 machine code.
//!
//! The code of a bytecode sequence is a prologue, the code of each
//! instruction in turn, an epilogue and an abort routine. A `JZ` jumps
//! behind the `JNZ` of its loop and a `JNZ` behind the `JZ` of its loop;
//! every check of the cursor jumps to the abort routine.

use crate::bytecode::{lemma_jumps_paired, well_formed, Inst};
use crate::nesting::{
    balanced, closer, closes, is_balanced, lemma_closer_of_opener, lemma_open_jumps_sorted,
    open_jumps, opener,
};
use crate::x86::{
    abort_routine, bounds_check, checked_register, checks_bounds, emit_jnz, emit_op, encode_op,
    epilogue, has_rel, hole, le_bytes, lemma_check_in_op, lemma_encode_op, lemma_le_bytes_len,
    op_len, patch_rel, prologue, rel_trail,
};
use vstd::prelude::*;

verus! {

/// Why no machine code was generated.
#[derive(PartialEq, Eq, Structural, Debug, Clone, Copy)]
pub enum CogenError {
    /// The processor is not an x86-64.
    UnsupportedArch,
    /// The system has no way known here to map executable memory.
    UnsupportedOS,
}

/// The processor of a machine.
#[derive(PartialEq, Eq, Structural, Debug, Clone, Copy)]
pub enum Arch {
    X86_64,
    Other,
}

/// The operating system of a machine.
#[derive(PartialEq, Eq, Structural, Debug, Clone, Copy)]
pub enum Os {
    Linux,
    MacOs,
    Other,
}

/// The machine that code is generated for.
#[derive(PartialEq, Eq, Structural, Debug, Clone, Copy)]
pub struct Target {
    pub arch: Arch,
    pub os: Os,
}

/// Where the code of instruction `k` starts; for `k` the length of `ir`,
/// where the epilogue starts.
pub open spec fn offset(ir: Seq<Inst>, k: int) -> int
    decreases k,
{
    if k <= 0 {
        4
    } else {
        offset(ir, k - 1) + op_len(ir[k - 1])
    }
}

/// Where the abort routine starts.
pub open spec fn abort_entry(ir: Seq<Inst>) -> int {
    offset(ir, ir.len() as int) + 5
}

/// The length of the machine code of `ir`.
pub open spec fn machine_code_len(ir: Seq<Inst>) -> int {
    offset(ir, ir.len() as int) + 11
}

/// Where the displacement in the code of instruction `k` ends. The
/// processor adds the displacement to this address.
pub open spec fn rel_end(ir: Seq<Inst>, k: int) -> int {
    offset(ir, k + 1) - rel_trail(ir[k])
}

/// Where the jump in the code of instruction `k` leads: for a `JZ` behind
/// the `JNZ` of its loop, for a `JNZ` behind the `JZ` of its loop, for a
/// check of the cursor to the abort routine.
pub open spec fn rel_target(ir: Seq<Inst>, k: int) -> int {
    match ir[k] {
        Inst::JZ(_) => offset(ir, closer(ir, k) + 1),
        Inst::JNZ(_) => offset(ir, opener(ir, k) + 1),
        _ => abort_entry(ir),
    }
}

/// The displacement in the code of instruction `k`.
pub open spec fn displacement(ir: Seq<Inst>, k: int) -> Seq<u8> {
    le_bytes(rel_target(ir, k) - rel_end(ir, k), 4)
}

/// The code of instruction `k`.
pub open spec fn encode(ir: Seq<Inst>, k: int) -> Seq<u8> {
    encode_op(ir[k], displacement(ir, k))
}

/// The code of the first `n` instructions.
pub open spec fn body(ir: Seq<Inst>, n: int) -> Seq<u8>
    decreases n,
{
    if n <= 0 {
        Seq::empty()
    } else {
        body(ir, n - 1) + encode(ir, n - 1)
    }
}

/// The machine code of a bytecode sequence.
pub open spec fn machine_code(ir: Seq<Inst>) -> Seq<u8> {
    prologue() + body(ir, ir.len() as int) + epilogue() + abort_routine()
}

/// The bytes of `code` where the code of instruction `k` stands.
pub open spec fn slot(code: Seq<u8>, ir: Seq<Inst>, k: int) -> Seq<u8> {
    code.subrange(offset(ir, k), offset(ir, k + 1))
}

/// Whether `code` begins with the prologue and the code of the first `n`
/// instructions, where the instructions in `done` have their displacement
/// and the others a hole in its place.
pub open spec fn drafted(code: Seq<u8>, ir: Seq<Inst>, n: int, done: Set<int>) -> bool {
    &&& 0 <= n <= ir.len()
    &&& code.len() >= offset(ir, n)
    &&& code.subrange(0, 4) == prologue()
    &&& forall|k: int|
        0 <= k < n ==> #[trigger] slot(code, ir, k) == encode_op(
            ir[k],
            if done.contains(k) {
                displacement(ir, k)
            } else {
                hole()
            },
        )
}

/// The code of later instructions starts later, and each instruction has
/// at least five bytes of code.
pub proof fn lemma_offsets(ir: Seq<Inst>, j: int, k: int)
    requires
        0 <= j <= k <= ir.len(),
    ensures
        4 <= offset(ir, j),
        offset(ir, j) + 5 * (k - j) <= offset(ir, k),
    decreases k,
{
    if j < k {
        lemma_offsets(ir, j, k - 1);
        lemma_encode_op(ir[k - 1], hole(), hole());
    } else if j > 0 {
        lemma_offsets(ir, j - 1, j - 1);
        lemma_encode_op(ir[j - 1], hole(), hole());
    }
}

/// Appending the code of instruction `n` extends a draft by that
/// instruction.
proof fn lemma_draft_step(
    code: Seq<u8>,
    code2: Seq<u8>,
    ir: Seq<Inst>,
    n: int,
    done: Set<int>,
    done2: Set<int>,
    r: Seq<u8>,
)
    requires
        drafted(code, ir, n, done),
        n < ir.len(),
        code.len() == offset(ir, n),
        code2 == code + encode_op(ir[n], r),
        r == (if done2.contains(n) {
            displacement(ir, n)
        } else {
            hole()
        }),
        forall|k: int| 0 <= k < n ==> done2.contains(k) == done.contains(k),
    ensures
        drafted(code2, ir, n + 1, done2),
        code2.len() == offset(ir, n + 1),
{
    lemma_le_bytes_len(rel_target(ir, n) - rel_end(ir, n), 4);
    lemma_encode_op(ir[n], r, r);
    assert(code2.subrange(0, 4) =~= code.subrange(0, 4)) by {
        lemma_offsets(ir, 0, n);
    }
    assert forall|k: int| 0 <= k < n + 1 implies #[trigger] slot(code2, ir, k) == encode_op(
        ir[k],
        if done2.contains(k) {
            displacement(ir, k)
        } else {
            hole()
        },
    ) by {
        if k < n {
            lemma_offsets(ir, k + 1, n);
            lemma_offsets(ir, k, k + 1);
            assert(slot(code2, ir, k) =~= slot(code, ir, k));
        } else {
            assert(slot(code2, ir, n) =~= encode_op(ir[n], r));
        }
    }
}

/// Bytes behind the code of the first `n` instructions are no part of the
/// draft.
proof fn lemma_draft_prefix(
    code: Seq<u8>,
    code2: Seq<u8>,
    ir: Seq<Inst>,
    n: int,
    done: Set<int>,
)
    requires
        drafted(code, ir, n, done),
        code2.len() >= offset(ir, n),
        code2.take(offset(ir, n)) == code.take(offset(ir, n)),
    ensures
        drafted(code2, ir, n, done),
{
    lemma_offsets(ir, 0, n);
    let e = offset(ir, n);
    assert(code2.subrange(0, 4) =~= code2.take(e).subrange(0, 4));
    assert(code.subrange(0, 4) =~= code.take(e).subrange(0, 4));
    assert forall|k: int| 0 <= k < n implies #[trigger] slot(code2, ir, k) == encode_op(
        ir[k],
        if done.contains(k) {
            displacement(ir, k)
        } else {
            hole()
        },
    ) by {
        lemma_offsets(ir, k + 1, n);
        lemma_offsets(ir, k, k + 1);
        assert(slot(code2, ir, k) =~= code2.take(e).subrange(offset(ir, k), offset(ir, k + 1)));
        assert(slot(code, ir, k) =~= code.take(e).subrange(offset(ir, k), offset(ir, k + 1)));
    }
}

/// Writing the displacement of instruction `p` into a draft makes that
/// instruction done.
proof fn lemma_draft_patch(
    code: Seq<u8>,
    code2: Seq<u8>,
    ir: Seq<Inst>,
    n: int,
    done: Set<int>,
    p: int,
)
    requires
        drafted(code, ir, n, done),
        0 <= p < n,
        has_rel(ir[p]),
        code2 == code.take(rel_end(ir, p) - 4) + displacement(ir, p) + code.skip(rel_end(ir, p)),
    ensures
        drafted(code2, ir, n, done.insert(p)),
        code2.len() == code.len(),
{
    let a = rel_end(ir, p) - 4;
    let d = displacement(ir, p);
    let old_rel = if done.contains(p) {
        displacement(ir, p)
    } else {
        hole()
    };
    lemma_le_bytes_len(rel_target(ir, p) - rel_end(ir, p), 4);
    lemma_encode_op(ir[p], old_rel, d);
    lemma_offsets(ir, 0, p);
    lemma_offsets(ir, p, p + 1);
    lemma_offsets(ir, p + 1, n);
    assert(slot(code, ir, p) == encode_op(ir[p], old_rel));
    assert(code2.subrange(0, 4) =~= code.subrange(0, 4));
    assert forall|k: int| 0 <= k < n implies #[trigger] slot(code2, ir, k) == encode_op(
        ir[k],
        if done.insert(p).contains(k) {
            displacement(ir, k)
        } else {
            hole()
        },
    ) by {
        lemma_offsets(ir, k, k + 1);
        lemma_offsets(ir, k + 1, n);
        if k < p {
            lemma_offsets(ir, k + 1, p);
            assert(slot(code2, ir, k) =~= slot(code, ir, k));
        } else if k > p {
            lemma_offsets(ir, p + 1, k);
            assert(slot(code2, ir, k) =~= slot(code, ir, k));
        } else {
            let w = op_len(ir[p]) - rel_trail(ir[p]);
            assert(slot(code2, ir, p) =~= slot(code, ir, p).take(w - 4) + d + slot(code, ir, p).skip(
                w,
            ));
        }
    }
}

/// A draft in which every displacement is written holds the prologue and
/// the code of its instructions.
proof fn lemma_draft_complete(code: Seq<u8>, ir: Seq<Inst>, n: int, done: Set<int>)
    requires
        drafted(code, ir, n, done),
        forall|k: int| 0 <= k < n && has_rel(ir[k]) ==> done.contains(k),
    ensures
        code.take(offset(ir, n)) == prologue() + body(ir, n),
    decreases n,
{
    lemma_offsets(ir, 0, n);
    if n == 0 {
        assert(code.take(4) =~= code.subrange(0, 4));
        assert(prologue() + body(ir, 0) =~= prologue());
    } else {
        lemma_offsets(ir, n - 1, n);
        lemma_draft_complete(code, ir, n - 1, done);
        let k = n - 1;
        assert(slot(code, ir, k) == encode(ir, k)) by {
            lemma_le_bytes_len(rel_target(ir, k) - rel_end(ir, k), 4);
            lemma_encode_op(ir[k], displacement(ir, k), hole());
        }
        assert(code.take(offset(ir, n)) =~= code.take(offset(ir, k)) + slot(code, ir, k));
        assert(prologue() + body(ir, k) + encode(ir, k) =~= prologue() + (body(ir, k) + encode(
            ir,
            k,
        )));
    }
}

/// The code of the first `n` instructions ends where the next one starts.
pub proof fn lemma_body_len(ir: Seq<Inst>, n: int)
    requires
        0 <= n <= ir.len(),
    ensures
        body(ir, n).len() == offset(ir, n) - 4,
    decreases n,
{
    if n > 0 {
        lemma_body_len(ir, n - 1);
        lemma_le_bytes_len(rel_target(ir, n - 1) - rel_end(ir, n - 1), 4);
        lemma_encode_op(ir[n - 1], displacement(ir, n - 1), hole());
    }
}

/// The code of the first `n` instructions holds the code of each of them
/// at its place.
pub proof fn lemma_body_layout(ir: Seq<Inst>, n: int, k: int)
    requires
        0 <= k < n <= ir.len(),
    ensures
        body(ir, n).subrange(offset(ir, k) - 4, offset(ir, k + 1) - 4) == encode(ir, k),
    decreases n,
{
    lemma_body_len(ir, n);
    lemma_body_len(ir, n - 1);
    lemma_offsets(ir, 0, k);
    lemma_offsets(ir, k, k + 1);
    lemma_offsets(ir, k + 1, n);
    let lo = offset(ir, k) - 4;
    let hi = offset(ir, k + 1) - 4;
    if k < n - 1 {
        lemma_body_layout(ir, n - 1, k);
        lemma_offsets(ir, k + 1, n - 1);
        assert(body(ir, n).subrange(lo, hi) =~= body(ir, n - 1).subrange(lo, hi));
    } else {
        assert(body(ir, n).subrange(lo, hi) =~= encode(ir, k));
    }
}

/// The machine code has the length that `machine_code_len` gives. It
/// begins with the prologue, holds the code of each instruction where
/// `offset` says, then the epilogue, and ends with the abort routine, which
/// starts where `abort_entry` says.
pub proof fn lemma_machine_code_layout(ir: Seq<Inst>)
    ensures
        machine_code(ir).len() == machine_code_len(ir),
        machine_code(ir).subrange(0, 4) == prologue(),
        forall|k: int| 0 <= k < ir.len() ==> #[trigger] slot(machine_code(ir), ir, k) == encode(ir, k),
        machine_code(ir).subrange(offset(ir, ir.len() as int), abort_entry(ir)) == epilogue(),
        machine_code(ir).subrange(abort_entry(ir), machine_code_len(ir)) == abort_routine(),
{
    let n = ir.len() as int;
    let b = body(ir, n);
    lemma_offsets(ir, 0, n);
    lemma_body_len(ir, n);
    assert(machine_code(ir).subrange(0, 4) =~= prologue());
    assert(machine_code(ir).subrange(offset(ir, n), abort_entry(ir)) =~= epilogue());
    assert(machine_code(ir).subrange(abort_entry(ir), machine_code_len(ir)) =~= abort_routine());
    assert forall|k: int| 0 <= k < ir.len() implies #[trigger] slot(machine_code(ir), ir, k)
        == encode(ir, k) by {
        lemma_body_layout(ir, n, k);
        lemma_offsets(ir, 0, k);
        lemma_offsets(ir, k, k + 1);
        lemma_offsets(ir, k + 1, n);
        assert(slot(machine_code(ir), ir, k) =~= b.subrange(
            offset(ir, k) - 4,
            offset(ir, k + 1) - 4,
        ));
    }
}

/// The code of every `MOVPTR`, `MULINTO` and `FINDZERO` holds, behind the
/// move, the check of the address moved to, and the jump of that check
/// leads to the abort routine.
pub proof fn lemma_check_reaches_abort(ir: Seq<Inst>, k: int)
    requires
        0 <= k < ir.len(),
        checks_bounds(ir[k]),
    ensures
        slot(machine_code(ir), ir, k).subrange(
            op_len(ir[k]) - rel_trail(ir[k]) - 15,
            op_len(ir[k]) - rel_trail(ir[k]),
        ) == bounds_check(
            checked_register(ir[k]),
            le_bytes(abort_entry(ir) - rel_end(ir, k), 4),
        ),
        machine_code(ir).subrange(abort_entry(ir), abort_entry(ir) + 6) == abort_routine(),
{
    lemma_machine_code_layout(ir);
    lemma_le_bytes_len(rel_target(ir, k) - rel_end(ir, k), 4);
    lemma_check_in_op(ir[k], displacement(ir, k));
    assert(slot(machine_code(ir), ir, k) == encode(ir, k));
}

/// In the code of well-formed bytecode, the jump of a `JZ` or `JNZ` leads
/// to the code of the instruction whose index the jump carries: native code
/// goes on where the interpreter goes on.
pub proof fn lemma_jump_leads_to_its_index(ir: Seq<Inst>, k: int)
    requires
        well_formed(ir),
        0 <= k < ir.len(),
        ir[k] is JZ || ir[k] is JNZ,
    ensures
        ir[k] matches Inst::JZ(t) ==> k < t <= ir.len() && rel_target(ir, k) == offset(ir, t as int),
        ir[k] matches Inst::JNZ(t) ==> 0 < t <= k && rel_target(ir, k) == offset(ir, t as int),
{
    lemma_jumps_paired(ir);
}

/// The length of the code of one instruction.
pub fn op_size(inst: Inst) -> (n: usize)
    ensures
        n == op_len(inst),
{
    match inst {
        Inst::MOVPTR(d) => if -128 <= d && d <= 127 {
            19
        } else {
            28
        },
        Inst::ADD(_) => 5,
        Inst::SETZERO => 5,
        Inst::MULINTO(_, offset) => if -128 <= offset && offset <= 127 {
            41
        } else {
            50
        },
        Inst::FINDZERO(step) => if -128 <= step && step <= 127 {
            28
        } else {
            37
        },
        Inst::PUTC => 16,
        Inst::GETC => 20,
        Inst::JZ(_) => 11,
        Inst::JNZ(_) => 11,
    }
}

/// The length of the machine code of `ir`, where every place in it is
/// within the reach of a 32-bit displacement; `None` where it is not.
pub fn code_size(ir: &[Inst]) -> (r: Option<usize>)
    ensures
        match r {
            Some(n) => n == machine_code_len(ir@) && n <= i32::MAX,
            None => machine_code_len(ir@) > i32::MAX,
        },
{
    let mut size: usize = 4;
    let mut n: usize = 0;
    while n < ir.len()
        invariant
            n <= ir.len(),
            size == offset(ir@, n as int),
            size + 11 <= i32::MAX,
        decreases ir.len() - n,
    {
        size = size + op_size(ir[n]);
        n = n + 1;
        if size > 0x7fff_ffff - 11 {
            proof {
                lemma_offsets(ir@, n as int, ir@.len() as int);
            }
            return None;
        }
    }
    Some(size + 11)
}

/// Why no code is generated for a machine, if none is: the operating
/// system is looked at first.
pub open spec fn refusal(target: Target) -> Option<CogenError> {
    if target.os is Other {
        Some(CogenError::UnsupportedOS)
    } else if target.arch is Other {
        Some(CogenError::UnsupportedArch)
    } else {
        None
    }
}

/// Whether `stack` holds, for each open loop among the first `n`
/// instructions, where the `je` of its `JZ` stands.
pub open spec fn loops_recorded(stack: Seq<usize>, ir: Seq<Inst>, n: int) -> bool {
    &&& stack.len() == open_jumps(ir, n).len()
    &&& forall|j: int|
        0 <= j < stack.len() ==> #[trigger] stack[j] == offset(ir, open_jumps(ir, n)[j]) + 5
}

/// Whether `ends` holds, for each of the first `n` instructions that checks
/// the cursor, where the displacement of its jump ends; `ops` lists these
/// instructions.
pub open spec fn checks_recorded(ends: Seq<usize>, ops: Seq<int>, ir: Seq<Inst>, n: int) -> bool {
    &&& ends.len() == ops.len()
    &&& forall|j: int|
        0 <= j < ops.len() ==> 0 <= #[trigger] ops[j] < n && checks_bounds(ir[ops[j]]) && ends[j]
            == rel_end(ir, ops[j])
    &&& forall|k: int| 0 <= k < n && checks_bounds(#[trigger] ir[k]) ==> ops.contains(k)
}

/// Whether each jump among the first `n` instructions has its displacement
/// or, being a `JZ`, waits for its loop to be closed.
pub open spec fn jumps_settled(done: Set<int>, ir: Seq<Inst>, n: int) -> bool {
    &&& forall|k: int| 0 <= k < n && #[trigger] ir[k] is JNZ ==> done.contains(k)
    &&& forall|k: int|
        0 <= k < n && #[trigger] ir[k] is JZ ==> done.contains(k) || open_jumps(ir, n).contains(k)
}

/// A loop that is open stays open over an instruction that does not close
/// it.
proof fn lemma_still_open(ir: Seq<Inst>, n: int, k: int)
    requires
        0 <= n < ir.len(),
        open_jumps(ir, n).contains(k),
        ir[n] is JNZ ==> k != opener(ir, n),
    ensures
        open_jumps(ir, n + 1).contains(k),
{
    let s = open_jumps(ir, n);
    let j = choose|j: int| 0 <= j < s.len() && s[j] == k;
    assert(open_jumps(ir, n + 1)[j] == k);
}

/// Generates the machine code of a bytecode sequence.
///
/// The loops are linked while the code is written: the `JZ` of a loop gets
/// its displacement when the `JNZ` of the loop is reached. The jumps to the
/// abort routine get theirs once the place of that routine is known.
pub fn codegen(bytecodes: &[Inst], target: Target) -> (r: Result<Vec<u8>, CogenError>)
    requires
        balanced(bytecodes@),
        machine_code_len(bytecodes@) <= i32::MAX,
    ensures
        match r {
            Ok(code) => refusal(target) is None && code@ == machine_code(bytecodes@),
            Err(e) => refusal(target) == Some(e),
        },
{
    match target.os {
        Os::Other => {
            return Err(CogenError::UnsupportedOS);
        },
        _ => {},
    }
    match target.arch {
        Arch::Other => {
            return Err(CogenError::UnsupportedArch);
        },
        _ => {},
    }
    let ghost ir = bytecodes@;
    let ghost mut done: Set<int> = Set::empty();
    let ghost mut ops: Seq<int> = Seq::empty();
    let mut code: Vec<u8> = Vec::new();
    let mut stack_loop: Vec<usize> = Vec::new();
    let mut jmp_abort: Vec<usize> = Vec::new();
    let len = bytecodes.len();

    code.extend_from_slice(&[0x48, 0x83, 0xEC, 0x08]);
    assert(code@.subrange(0, 4) =~= prologue());

    let mut n: usize = 0;
    while n < len
        invariant
            ir == bytecodes@,
            len == ir.len(),
            n <= len,
            balanced(ir),
            machine_code_len(ir) <= i32::MAX,
            code.len() == offset(ir, n as int),
            drafted(code@, ir, n as int, done),
            loops_recorded(stack_loop@, ir, n as int),
            checks_recorded(jmp_abort@, ops, ir, n as int),
            jumps_settled(done, ir, n as int),
            forall|k: int| done.contains(k) ==> 0 <= k < n,
        decreases len - n,
    {
        let inst = bytecodes[n];
        let ghost code0 = code@;
        let ghost done0 = done;
        proof {
            lemma_offsets(ir, n as int, n + 1);
            lemma_offsets(ir, n + 1, len as int);
            lemma_encode_op(inst, hole(), hole());
            lemma_open_jumps_sorted(ir, n as int);
        }
        match inst {
            Inst::JNZ(_) => {
                let ghost p = opener(ir, n as int);
                proof {
                    assert(closes(ir, n as int));
                    lemma_closer_of_opener(ir, n as int);
                    lemma_offsets(ir, p, p + 1);
                    lemma_offsets(ir, p + 1, n as int);
                    assert(stack_loop@[stack_loop@.len() - 1] == offset(ir, p) + 5);
                }
                let pos = stack_loop.pop().unwrap();
                let start = pos + 6;
                let end = code.len() + 11;
                emit_jnz(&mut code, inst, start as isize - end as isize);
                let ghost code1 = code@;
                proof {
                    done = done.insert(n as int);
                    lemma_draft_step(
                        code0,
                        code1,
                        ir,
                        n as int,
                        done0,
                        done,
                        displacement(ir, n as int),
                    );
                }
                patch_rel(&mut code, start - 4, end as isize - start as isize);
                proof {
                    lemma_draft_patch(code1, code@, ir, n + 1, done, p);
                    done = done.insert(p);
                    assert(open_jumps(ir, n + 1) == open_jumps(ir, n as int).drop_last());
                    assert forall|k: int| 0 <= k < n + 1 && #[trigger] ir[k] is JZ implies
                        done.contains(k) || open_jumps(ir, n + 1).contains(k) by {
                        if !done0.contains(k) && k != p {
                            lemma_still_open(ir, n as int, k);
                        }
                    }
                }
            },
            _ => {
                emit_op(&mut code, inst);
                proof {
                    lemma_draft_step(code0, code@, ir, n as int, done0, done, hole());
                    assert forall|k: int| 0 <= k < n + 1 && #[trigger] ir[k] is JZ implies
                        done.contains(k) || open_jumps(ir, n + 1).contains(k) by {
                        if k < n {
                            if !done0.contains(k) {
                                lemma_still_open(ir, n as int, k);
                            }
                        } else {
                            let s = open_jumps(ir, n + 1);
                            assert(s[s.len() - 1] == k);
                        }
                    }
                }
                let ghost ops0 = ops;
                match inst {
                    Inst::JZ(_) => {
                        stack_loop.push(code.len() - 6);
                    },
                    Inst::MOVPTR(_) => {
                        jmp_abort.push(code.len());
                        proof {
                            ops = ops.push(n as int);
                        }
                    },
                    Inst::MULINTO(_, _) => {
                        jmp_abort.push(code.len() - 19);
                        proof {
                            ops = ops.push(n as int);
                        }
                    },
                    Inst::FINDZERO(_) => {
                        jmp_abort.push(code.len() - 2);
                        proof {
                            ops = ops.push(n as int);
                        }
                    },
                    _ => {},
                }
                proof {
                    assert forall|k: int| 0 <= k < n + 1 && checks_bounds(
                        #[trigger] ir[k],
                    ) implies ops.contains(k) by {
                        if k < n {
                            let j = choose|j: int| 0 <= j < ops0.len() && ops0[j] == k;
                            assert(ops[j] == k);
                        } else {
                            assert(ops[ops.len() - 1] == k);
                        }
                    }
                }
            },
        }
        n += 1;
    }

    let ghost body_end = offset(ir, len as int);
    let ghost code0 = code@;
    code.extend_from_slice(&[0x48, 0x83, 0xC4, 0x08, 0xC3]);
    let j_to = code.len();
    proof {
        lemma_offsets(ir, 0, len as int);
        assert(code@.take(body_end) =~= code0.take(body_end));
        lemma_draft_prefix(code0, code@, ir, len as int, done);
        assert(code@.skip(body_end) =~= epilogue());
        assert(open_jumps(ir, len as int).len() == 0);
    }

    let mut m: usize = 0;
    while m < jmp_abort.len()
        invariant
            len == ir.len(),
            machine_code_len(ir) <= i32::MAX,
            body_end == offset(ir, len as int),
            j_to == body_end + 5,
            m <= jmp_abort.len(),
            code.len() == j_to,
            drafted(code@, ir, len as int, done),
            code@.skip(body_end) == epilogue(),
            checks_recorded(jmp_abort@, ops, ir, len as int),
            forall|k: int| 0 <= k < len && (ir[k] is JZ || ir[k] is JNZ) ==> done.contains(k),
            forall|j: int| 0 <= j < m ==> done.contains(#[trigger] ops[j]),
        decreases jmp_abort.len() - m,
    {
        let j_from = jmp_abort[m];
        let ghost k = ops[m as int];
        let ghost code1 = code@;
        proof {
            lemma_offsets(ir, 0, k);
            lemma_offsets(ir, k, k + 1);
            lemma_offsets(ir, k + 1, len as int);
            lemma_encode_op(ir[k], hole(), hole());
        }
        patch_rel(&mut code, j_from - 4, j_to as isize - j_from as isize);
        proof {
            lemma_draft_patch(code1, code@, ir, len as int, done, k);
            done = done.insert(k);
            assert(code@.skip(body_end) =~= code1.skip(body_end));
        }
        m += 1;
    }

    proof {
        assert forall|k: int| 0 <= k < len && has_rel(ir[k]) implies done.contains(k) by {
            if checks_bounds(ir[k]) {
                let j = choose|j: int| 0 <= j < ops.len() && ops[j] == k;
                assert(done.contains(ops[j]));
            }
        }
        lemma_draft_complete(code@, ir, len as int, done);
        assert(code@ =~= code@.take(body_end) + code@.skip(body_end));
    }
    let ghost code2 = code@;
    code.extend_from_slice(&[0x48, 0x31, 0xFF, 0x41, 0xFF, 0xD7]);
    assert(code@ =~= code2 + abort_routine());
    Ok(code)
}

/// Whether machine code can be generated for the instructions from `start`
/// to `end`: they are instructions of `ir`, their loops are closed among
/// them, and their code is within the reach of a 32-bit displacement.
pub open spec fn region_ok(ir: Seq<Inst>, start: int, end: int) -> bool {
    &&& 0 <= start <= end < ir.len()
    &&& balanced(ir.subrange(start, end + 1))
    &&& machine_code_len(ir.subrange(start, end + 1)) <= i32::MAX
}

/// Generates the machine code of the instructions from `start` to `end`,
/// or `None` where there is no code for them.
pub fn gen_code(bytecodes: &[Inst], start: usize, end: usize, target: Target) -> (r: Option<
    Result<Vec<u8>, CogenError>,
>)
    ensures
        r is Some <==> region_ok(bytecodes@, start as int, end as int),
        r matches Some(Ok(code)) ==> refusal(target) is None && code@ == machine_code(
            bytecodes@.subrange(start as int, end + 1),
        ),
        r matches Some(Err(e)) ==> refusal(target) == Some(e),
{
    if start > end || end >= bytecodes.len() {
        return None;
    }
    let region = &bytecodes[start..end + 1];
    if !is_balanced(region) {
        return None;
    }
    if code_size(region).is_none() {
        return None;
    }
    Some(codegen(region, target))
}

} // verus!
