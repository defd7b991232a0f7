//! A model of the processor, as far as generated code uses it.
//!
//! The model knows the instructions that the code emitter writes, in the
//! encodings in which it writes them, and says what each does to the
//! registers, the stack, the tape and the two streams of bytes. It is the
//! measure for the emitter: what the model makes of the code of a program
//! is what the interpreter makes of the program.
//!
//! The model knows no other memory than the tape, and of the stack only
//! how much lies on it. A call of the I/O routine or of the abort routine
//! is one step of the model.

use crate::abi::{IoRequest, io_request_spec};
use crate::vm::{next_byte, rest, MEMSIZE};
use vstd::prelude::*;

verus! {

/// The number of values of a 64-bit register.
pub open spec fn word() -> int {
    0x1_0000_0000_0000_0000
}

/// An instruction. An immediate or displacement is held as the number that
/// the processor makes of its bytes.
pub enum Instr {
    /// `sub rsp, 8`
    SubRsp8,
    /// `add rsp, 8`
    AddRsp8,
    /// `ret`
    Ret,
    /// `add r12, imm8`
    AddR12Imm8(int),
    /// `add r11, imm8`
    AddR11Imm8(int),
    /// `movabs rax, imm64`
    MovabsRax(int),
    /// `add r12, rax`
    AddR12Rax,
    /// `add r11, rax`
    AddR11Rax,
    /// `mov rax, r12`
    MovRaxR12,
    /// `mov rax, r11`
    MovRaxR11,
    /// `mov r11, r12`
    MovR11R12,
    /// `mov rdx, r12`
    MovRdxR12,
    /// `sub rax, r14`
    SubRaxR14,
    /// `cmp rax, r13`
    CompareRaxR13,
    /// `ja rel32`
    Ja(int),
    /// `je rel32` or `je rel8`
    Je(int),
    /// `jne rel32`
    Jne(int),
    /// `jmp rel8`
    Jmp(int),
    /// `add byte [r12], imm8`
    AddCellImm8(int),
    /// `mov byte [r12], imm8`
    MovCellImm8(int),
    /// `cmp byte [r12], imm8`
    CompareCellImm8(int),
    /// `movzx eax, byte [r12]`
    MovzxEaxCell,
    /// `imul eax, eax, imm32`
    ImulEaxImm32(int),
    /// `add [r11], al`
    AddAtR11Al,
    /// `mov [r12], al`
    MovCellAl,
    /// `push rdi`
    PushRdi,
    /// `push rcx`
    PushRcx,
    /// `pop rcx`
    PopRcx,
    /// `pop rdi`
    PopRdi,
    /// `mov rsi, imm32`
    MovRsiImm32(int),
    /// `xor rdi, rdi`
    XorRdiRdi,
    /// `call rcx`
    CallRcx,
    /// `call r15`
    CallR15,
}

/// The number that the processor makes of one byte as a signed immediate.
pub open spec fn signed8(b: int) -> int {
    if b < 0x80 {
        b
    } else {
        b - 0x100
    }
}

/// The number that the processor makes of four bytes, least significant
/// first, as a signed immediate.
pub open spec fn signed32(code: Seq<u8>, at: int) -> int {
    let v = code[at] + 0x100 * code[at + 1] + 0x1_0000 * code[at + 2] + 0x100_0000 * code[at + 3];
    if v < 0x8000_0000 {
        v
    } else {
        v - 0x1_0000_0000
    }
}

/// The number that the processor makes of eight bytes, least significant
/// first.
pub open spec fn unsigned64(code: Seq<u8>, at: int) -> int {
    code[at] + 0x100 * code[at + 1] + 0x1_0000 * code[at + 2] + 0x100_0000 * code[at + 3]
        + 0x1_0000_0000 * code[at + 4] + 0x100_0000_0000 * code[at + 5] + 0x1_0000_0000_0000
        * code[at + 6] + 0x100_0000_0000_0000 * code[at + 7]
}

/// Whether `code` holds the bytes `a`, `b` at `at`.
pub open spec fn has2(code: Seq<u8>, at: int, a: u8, b: u8) -> bool {
    0 <= at && at + 2 <= code.len() && code[at] == a && code[at + 1] == b
}

/// Whether `code` holds the bytes `a`, `b`, `c` at `at`.
pub open spec fn has3(code: Seq<u8>, at: int, a: u8, b: u8, c: u8) -> bool {
    has2(code, at, a, b) && at + 3 <= code.len() && code[at + 2] == c
}

/// Whether `code` holds the bytes `a`, `b`, `c`, `d` at `at`.
pub open spec fn has4(code: Seq<u8>, at: int, a: u8, b: u8, c: u8, d: u8) -> bool {
    has3(code, at, a, b, c) && at + 4 <= code.len() && code[at + 3] == d
}

/// The instruction that stands at `at`, and its length; `None` where the
/// bytes there are none of the encodings that the model knows.
#[verifier::opaque]
pub open spec fn decode(code: Seq<u8>, at: int) -> Option<(Instr, int)> {
    if has4(code, at, 0x48, 0x83, 0xEC, 0x08) {
        Some((Instr::SubRsp8, 4))
    } else if has4(code, at, 0x48, 0x83, 0xC4, 0x08) {
        Some((Instr::AddRsp8, 4))
    } else if has3(code, at, 0x49, 0x83, 0xC4) && at + 4 <= code.len() {
        Some((Instr::AddR12Imm8(signed8(code[at + 3] as int)), 4))
    } else if has3(code, at, 0x49, 0x83, 0xC3) && at + 4 <= code.len() {
        Some((Instr::AddR11Imm8(signed8(code[at + 3] as int)), 4))
    } else if has2(code, at, 0x48, 0xB8) && at + 10 <= code.len() {
        Some((Instr::MovabsRax(unsigned64(code, at + 2)), 10))
    } else if has3(code, at, 0x49, 0x01, 0xC4) {
        Some((Instr::AddR12Rax, 3))
    } else if has3(code, at, 0x49, 0x01, 0xC3) {
        Some((Instr::AddR11Rax, 3))
    } else if has3(code, at, 0x4C, 0x89, 0xE0) {
        Some((Instr::MovRaxR12, 3))
    } else if has3(code, at, 0x4C, 0x89, 0xD8) {
        Some((Instr::MovRaxR11, 3))
    } else if has3(code, at, 0x4D, 0x89, 0xE3) {
        Some((Instr::MovR11R12, 3))
    } else if has3(code, at, 0x4C, 0x89, 0xE2) {
        Some((Instr::MovRdxR12, 3))
    } else if has3(code, at, 0x4C, 0x29, 0xF0) {
        Some((Instr::SubRaxR14, 3))
    } else if has3(code, at, 0x4C, 0x39, 0xE8) {
        Some((Instr::CompareRaxR13, 3))
    } else if has2(code, at, 0x0F, 0x87) && at + 6 <= code.len() {
        Some((Instr::Ja(signed32(code, at + 2)), 6))
    } else if has2(code, at, 0x0F, 0x84) && at + 6 <= code.len() {
        Some((Instr::Je(signed32(code, at + 2)), 6))
    } else if has2(code, at, 0x0F, 0x85) && at + 6 <= code.len() {
        Some((Instr::Jne(signed32(code, at + 2)), 6))
    } else if 0 <= at && at + 2 <= code.len() && code[at] == 0x74 {
        Some((Instr::Je(signed8(code[at + 1] as int)), 2))
    } else if 0 <= at && at + 2 <= code.len() && code[at] == 0xEB {
        Some((Instr::Jmp(signed8(code[at + 1] as int)), 2))
    } else if has4(code, at, 0x41, 0x80, 0x04, 0x24) && at + 5 <= code.len() {
        Some((Instr::AddCellImm8(code[at + 4] as int), 5))
    } else if has4(code, at, 0x41, 0xC6, 0x04, 0x24) && at + 5 <= code.len() {
        Some((Instr::MovCellImm8(code[at + 4] as int), 5))
    } else if has4(code, at, 0x41, 0x80, 0x3C, 0x24) && at + 5 <= code.len() {
        Some((Instr::CompareCellImm8(code[at + 4] as int), 5))
    } else if has4(code, at, 0x41, 0x0F, 0xB6, 0x04) && at + 5 <= code.len() && code[at + 4]
        == 0x24 {
        Some((Instr::MovzxEaxCell, 5))
    } else if has2(code, at, 0x69, 0xC0) && at + 6 <= code.len() {
        Some((Instr::ImulEaxImm32(signed32(code, at + 2)), 6))
    } else if has3(code, at, 0x41, 0x00, 0x03) {
        Some((Instr::AddAtR11Al, 3))
    } else if has4(code, at, 0x41, 0x88, 0x04, 0x24) {
        Some((Instr::MovCellAl, 4))
    } else if has3(code, at, 0x48, 0xC7, 0xC6) && at + 7 <= code.len() {
        Some((Instr::MovRsiImm32(signed32(code, at + 3)), 7))
    } else if has3(code, at, 0x48, 0x31, 0xFF) {
        Some((Instr::XorRdiRdi, 3))
    } else if has3(code, at, 0x41, 0xFF, 0xD7) {
        Some((Instr::CallR15, 3))
    } else if has2(code, at, 0xFF, 0xD1) {
        Some((Instr::CallRcx, 2))
    } else if 0 <= at < code.len() && code[at] == 0x57 {
        Some((Instr::PushRdi, 1))
    } else if 0 <= at < code.len() && code[at] == 0x51 {
        Some((Instr::PushRcx, 1))
    } else if 0 <= at < code.len() && code[at] == 0x59 {
        Some((Instr::PopRcx, 1))
    } else if 0 <= at < code.len() && code[at] == 0x5F {
        Some((Instr::PopRdi, 1))
    } else if 0 <= at < code.len() && code[at] == 0xC3 {
        Some((Instr::Ret, 1))
    } else {
        None
    }
}

/// What the host has set up for generated code: where the tape lies, where
/// the I/O routine and the abort routine stand, and what the I/O routine
/// is to be handed.
pub struct Host {
    pub tape: int,
    pub io: int,
    pub abort: int,
    pub ctx: int,
}

/// Whether the tape lies in the address space.
pub open spec fn host_ok(host: Host) -> bool {
    &&& 0 <= host.tape
    &&& host.tape + MEMSIZE <= word()
    &&& 0 <= host.io < word()
    &&& 0 <= host.abort < word()
    &&& 0 <= host.ctx < word()
}

/// The registers that generated code uses, the operands of the last
/// comparison, the place of the next instruction in the code, and the
/// values that the code has put on the stack.
pub struct Cpu {
    pub rax: int,
    pub rcx: int,
    pub rdx: int,
    pub rsi: int,
    pub rdi: int,
    pub r11: int,
    pub r12: int,
    pub r13: int,
    pub r14: int,
    pub r15: int,
    /// `None` after an instruction that leaves the flags to no use.
    pub compared: Option<(int, int)>,
    pub rip: int,
    pub stack: Seq<int>,
}

/// A processor together with the tape, what is left to read and what has
/// been written.
pub struct Native {
    pub cpu: Cpu,
    pub tape: Seq<u8>,
    pub input: Seq<u8>,
    pub output: Seq<u8>,
}

/// How generated code has ended.
pub enum Exit {
    /// It has returned to the host.
    Returned,
    /// It has called the abort routine with this code.
    Aborted(int),
}

/// What a step makes of the processor.
pub enum Step {
    /// The next state.
    Next(Native),
    /// The end, and the state at the end.
    Exit(Exit, Native),
    /// Nothing: the model does not say what happens.
    Stuck,
}

/// The index of the cell at an address, where a cell lies there.
pub open spec fn cell_at(host: Host, addr: int) -> Option<int> {
    if host.tape <= addr < host.tape + MEMSIZE {
        Some(addr - host.tape)
    } else {
        None
    }
}

/// Whether the stack is aligned as a call asks for. At the entry of the
/// code the stack is 8 bytes off such an alignment, and so it is whenever
/// an even number of values lies on it.
pub open spec fn aligned(cpu: Cpu) -> bool {
    cpu.stack.len() % 2 == 1
}

/// A value that the model does not know: what a routine of the host
/// leaves in a register that it may change, or what lies in memory that
/// the model does not follow. It may differ from state to state and from
/// place to place.
pub open spec fn unknown(s: Native, place: int) -> int {
    let any: spec_fn(Native, int) -> int = arbitrary();
    any(s, place) % word()
}

/// What the instruction `i` does; `next` is the place behind it.
pub open spec fn exec(host: Host, i: Instr, next: int, s: Native) -> Step {
    let c = Cpu { rip: next, ..s.cpu };
    let fresh = Cpu { compared: None, ..c };
    match i {
        Instr::SubRsp8 => Step::Next(
            Native { cpu: Cpu { stack: c.stack.push(unknown(s, 0)), ..fresh }, ..s },
        ),
        Instr::AddRsp8 => if c.stack.len() > 0 {
            Step::Next(Native { cpu: Cpu { stack: c.stack.drop_last(), ..fresh }, ..s })
        } else {
            Step::Stuck
        },
        Instr::Ret => if c.stack.len() == 0 {
            Step::Exit(Exit::Returned, s)
        } else {
            Step::Stuck
        },
        Instr::AddR12Imm8(v) => Step::Next(
            Native { cpu: Cpu { r12: (c.r12 + v) % word(), ..fresh }, ..s },
        ),
        Instr::AddR11Imm8(v) => Step::Next(
            Native { cpu: Cpu { r11: (c.r11 + v) % word(), ..fresh }, ..s },
        ),
        Instr::MovabsRax(v) => Step::Next(Native { cpu: Cpu { rax: v, ..c }, ..s }),
        Instr::AddR12Rax => Step::Next(
            Native { cpu: Cpu { r12: (c.r12 + c.rax) % word(), ..fresh }, ..s },
        ),
        Instr::AddR11Rax => Step::Next(
            Native { cpu: Cpu { r11: (c.r11 + c.rax) % word(), ..fresh }, ..s },
        ),
        Instr::MovRaxR12 => Step::Next(Native { cpu: Cpu { rax: c.r12, ..c }, ..s }),
        Instr::MovRaxR11 => Step::Next(Native { cpu: Cpu { rax: c.r11, ..c }, ..s }),
        Instr::MovR11R12 => Step::Next(Native { cpu: Cpu { r11: c.r12, ..c }, ..s }),
        Instr::MovRdxR12 => Step::Next(Native { cpu: Cpu { rdx: c.r12, ..c }, ..s }),
        Instr::SubRaxR14 => Step::Next(
            Native { cpu: Cpu { rax: (c.rax - c.r14) % word(), ..fresh }, ..s },
        ),
        Instr::CompareRaxR13 => Step::Next(
            Native { cpu: Cpu { compared: Some((c.rax, c.r13)), ..c }, ..s },
        ),
        Instr::Ja(rel) => match c.compared {
            Some((a, b)) => Step::Next(
                Native {
                    cpu: Cpu {
                        rip: if a > b {
                            next + rel
                        } else {
                            next
                        },
                        ..c
                    },
                    ..s
                },
            ),
            None => Step::Stuck,
        },
        Instr::Je(rel) => match c.compared {
            Some((a, b)) => Step::Next(
                Native {
                    cpu: Cpu {
                        rip: if a == b {
                            next + rel
                        } else {
                            next
                        },
                        ..c
                    },
                    ..s
                },
            ),
            None => Step::Stuck,
        },
        Instr::Jne(rel) => match c.compared {
            Some((a, b)) => Step::Next(
                Native {
                    cpu: Cpu {
                        rip: if a != b {
                            next + rel
                        } else {
                            next
                        },
                        ..c
                    },
                    ..s
                },
            ),
            None => Step::Stuck,
        },
        Instr::Jmp(rel) => Step::Next(Native { cpu: Cpu { rip: next + rel, ..c }, ..s }),
        Instr::AddCellImm8(v) => match cell_at(host, c.r12) {
            Some(k) => Step::Next(
                Native { cpu: fresh, tape: s.tape.update(k, ((s.tape[k] + v) % 256) as u8), ..s },
            ),
            None => Step::Stuck,
        },
        Instr::MovCellImm8(v) => match cell_at(host, c.r12) {
            Some(k) => Step::Next(Native { cpu: c, tape: s.tape.update(k, v as u8), ..s }),
            None => Step::Stuck,
        },
        Instr::CompareCellImm8(v) => match cell_at(host, c.r12) {
            Some(k) => Step::Next(
                Native { cpu: Cpu { compared: Some((s.tape[k] as int, v)), ..c }, ..s },
            ),
            None => Step::Stuck,
        },
        Instr::MovzxEaxCell => match cell_at(host, c.r12) {
            Some(k) => Step::Next(Native { cpu: Cpu { rax: s.tape[k] as int, ..c }, ..s }),
            None => Step::Stuck,
        },
        Instr::ImulEaxImm32(v) => Step::Next(
            Native {
                cpu: Cpu { rax: ((c.rax % 0x1_0000_0000) * v) % 0x1_0000_0000, ..fresh },
                ..s
            },
        ),
        Instr::AddAtR11Al => match cell_at(host, c.r11) {
            Some(k) => Step::Next(
                Native {
                    cpu: fresh,
                    tape: s.tape.update(k, ((s.tape[k] + c.rax % 256) % 256) as u8),
                    ..s
                },
            ),
            None => Step::Stuck,
        },
        Instr::MovCellAl => match cell_at(host, c.r12) {
            Some(k) => Step::Next(
                Native { cpu: c, tape: s.tape.update(k, (c.rax % 256) as u8), ..s },
            ),
            None => Step::Stuck,
        },
        Instr::PushRdi => Step::Next(Native { cpu: Cpu { stack: c.stack.push(c.rdi), ..c }, ..s }),
        Instr::PushRcx => Step::Next(Native { cpu: Cpu { stack: c.stack.push(c.rcx), ..c }, ..s }),
        Instr::PopRcx => if c.stack.len() > 0 {
            Step::Next(
                Native { cpu: Cpu { rcx: c.stack.last(), stack: c.stack.drop_last(), ..c }, ..s },
            )
        } else {
            Step::Stuck
        },
        Instr::PopRdi => if c.stack.len() > 0 {
            Step::Next(
                Native { cpu: Cpu { rdi: c.stack.last(), stack: c.stack.drop_last(), ..c }, ..s },
            )
        } else {
            Step::Stuck
        },
        Instr::MovRsiImm32(v) => Step::Next(Native { cpu: Cpu { rsi: v % word(), ..c }, ..s }),
        Instr::XorRdiRdi => Step::Next(Native { cpu: Cpu { rdi: 0, ..fresh }, ..s }),
        Instr::CallRcx => if c.rcx == host.io && c.rdi == host.ctx && aligned(c) && 0 <= c.rsi
            < 256 {
            // The routine keeps r12 to r15 and the stack. It returns a
            // byte in `al`; nothing is known of the rest of `rax` or of the
            // other registers.
            let after = Cpu {
                rcx: unknown(s, 1),
                rdx: unknown(s, 2),
                rsi: unknown(s, 3),
                rdi: unknown(s, 4),
                r11: unknown(s, 5),
                compared: None,
                ..c
            };
            match io_request_spec(c.rsi as u8) {
                IoRequest::Read => Step::Next(
                    Native {
                        cpu: Cpu { rax: 256 * (unknown(s, 0) / 256) + next_byte(s.input), ..after },
                        input: rest(s.input),
                        ..s
                    },
                ),
                IoRequest::Write => match cell_at(host, c.rdx) {
                    Some(k) => Step::Next(
                        Native {
                            cpu: Cpu { rax: unknown(s, 0), ..after },
                            output: s.output.push(s.tape[k]),
                            ..s
                        },
                    ),
                    None => Step::Stuck,
                },
                IoRequest::Nothing => Step::Next(Native { cpu: Cpu { rax: unknown(s, 0), ..after }, ..s }),
            }
        } else {
            Step::Stuck
        },
        Instr::CallR15 => if c.r15 == host.abort && aligned(c) {
            Step::Exit(Exit::Aborted(c.rdi % 256), s)
        } else {
            Step::Stuck
        },
    }
}

/// One step: the instruction at `rip`.
pub open spec fn native_step(code: Seq<u8>, host: Host, s: Native) -> Step {
    match decode(code, s.cpu.rip) {
        Some((i, len)) => exec(host, i, s.cpu.rip + len, s),
        None => Step::Stuck,
    }
}

/// Whether `n` steps lead from `s` to `t`.
pub open spec fn reaches(code: Seq<u8>, host: Host, s: Native, t: Native, n: nat) -> bool
    decreases n,
{
    if n == 0 {
        s == t
    } else {
        match native_step(code, host, s) {
            Step::Next(u) => reaches(code, host, u, t, (n - 1) as nat),
            _ => false,
        }
    }
}

/// Whether the code ends in the `n`th step from `s` with exit `e`, in
/// state `t`.
pub open spec fn exits(code: Seq<u8>, host: Host, s: Native, e: Exit, t: Native, n: nat) -> bool
    decreases n,
{
    if n == 0 {
        false
    } else {
        match native_step(code, host, s) {
            Step::Next(u) => exits(code, host, u, e, t, (n - 1) as nat),
            Step::Exit(f, u) => n == 1 && f == e && u == t,
            Step::Stuck => false,
        }
    }
}

/// Steps add up.
pub proof fn lemma_reaches_then(
    code: Seq<u8>,
    host: Host,
    s: Native,
    t: Native,
    u: Native,
    n: nat,
    m: nat,
)
    requires
        reaches(code, host, s, t, n),
        reaches(code, host, t, u, m),
    ensures
        reaches(code, host, s, u, n + m),
    decreases n,
{
    if n > 0 {
        let v = native_step(code, host, s)->Next_0;
        lemma_reaches_then(code, host, v, t, u, (n - 1) as nat, m);
    }
}

/// Steps before an exit add to its count.
pub proof fn lemma_reaches_then_exits(
    code: Seq<u8>,
    host: Host,
    s: Native,
    t: Native,
    e: Exit,
    u: Native,
    n: nat,
    m: nat,
)
    requires
        reaches(code, host, s, t, n),
        exits(code, host, t, e, u, m),
    ensures
        exits(code, host, s, e, u, n + m),
    decreases n,
{
    if n > 0 {
        let v = native_step(code, host, s)->Next_0;
        lemma_reaches_then_exits(code, host, v, t, e, u, (n - 1) as nat, m);
    }
}

} // verus!
