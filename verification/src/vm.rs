//! The interpreter: a tape of cells, a cursor and a program counter.
//!
//! The machine runs one instruction at a time. What it reads comes from an
//! `Input` and what it writes goes to a vector of bytes, so that a run is a
//! function of the program, the input and the number of steps allowed.

use crate::bytecode::Inst;
use vstd::arithmetic::div_mod::{lemma_fundamental_div_mod, lemma_mod_multiples_vanish};
use vstd::prelude::*;

verus! {

/// The number of cells of the tape.
pub const MEMSIZE: usize = 100000;

/// How often a region must have run before it is handed to native code.
pub const JIT_EXEC_TH: u8 = 5;

/// What a cell receives where there is nothing left to read.
pub const EOF: u8 = 0;

/// A program for the machine.
pub struct Program {
    pub bytecodes: Vec<Inst>,
}

/// Why a run has failed.
#[derive(PartialEq, Eq, Structural, Debug, Clone, Copy)]
pub enum RuntimeError {
    /// The cursor would have left the tape.
    MemoryOutofRange,
}

/// Why a run has stopped without failing.
#[derive(PartialEq, Eq, Structural, Debug, Clone, Copy)]
pub enum Stop {
    /// The program counter has left the program.
    Finished,
    /// The instructions from `start` to `end` are due to run as native
    /// code.
    HandOff { start: usize, end: usize },
    /// The number of steps allowed is used up.
    Limit,
}

/// What is due next.
#[derive(PartialEq, Eq, Structural, Debug, Clone, Copy)]
pub enum Due {
    /// Nothing: the program counter has left the program.
    Halt,
    /// The instructions from `start` to `end`, as native code.
    HandOff { start: usize, end: usize },
    /// An instruction that reads a byte.
    Read,
    /// Any other instruction.
    Step,
}

/// The state of a machine.
pub struct Machine {
    pub mem: Seq<u8>,
    pub cursor: int,
    pub pc: int,
}

/// A machine together with what is left to read and what has been written.
pub struct Session {
    pub vm: Machine,
    pub input: Seq<u8>,
    pub output: Seq<u8>,
}

/// Whether `c` is the index of a cell.
pub open spec fn in_tape(c: int) -> bool {
    0 <= c < MEMSIZE
}

/// Whether the machine has a whole tape and its cursor on it.
pub open spec fn valid(m: Machine) -> bool {
    m.mem.len() == MEMSIZE && in_tape(m.cursor)
}

/// The value of a cell that is given `x`: `x` modulo 256.
pub open spec fn wrap(x: int) -> u8 {
    (x % 256) as u8
}

/// The machine before its first step: every cell zero, the cursor in the
/// middle of the tape.
pub open spec fn initial() -> Machine {
    Machine { mem: Seq::new(MEMSIZE as nat, |i: int| 0u8), cursor: MEMSIZE as int / 2, pc: 0 }
}

/// What one instruction makes of a machine, and the byte it writes, if any.
/// `incoming` is what a `GETC` stores. The cursor never leaves the tape: a
/// move that would take it out is an error instead.
pub open spec fn step_spec(inst: Inst, m: Machine, incoming: u8) -> Result<
    (Machine, Option<u8>),
    RuntimeError,
> {
    let cell = m.mem[m.cursor];
    let next = m.pc + 1;
    match inst {
        Inst::MOVPTR(d) => if in_tape(m.cursor + d) {
            Ok((Machine { mem: m.mem, cursor: m.cursor + d, pc: next }, None))
        } else {
            Err(RuntimeError::MemoryOutofRange)
        },
        Inst::ADD(d) => Ok(
            (Machine { mem: m.mem.update(m.cursor, wrap(cell + d)), cursor: m.cursor, pc: next }, None),
        ),
        Inst::SETZERO => Ok(
            (Machine { mem: m.mem.update(m.cursor, 0), cursor: m.cursor, pc: next }, None),
        ),
        Inst::MULINTO(coef, offset) => {
            let to = m.cursor + offset;
            if in_tape(to) {
                Ok(
                    (
                        Machine {
                            mem: m.mem.update(to, wrap(m.mem[to] + coef * cell)).update(m.cursor, 0),
                            cursor: m.cursor,
                            pc: next,
                        },
                        None,
                    ),
                )
            } else {
                Err(RuntimeError::MemoryOutofRange)
            }
        },
        // One move of the search; the instruction is left once the cell
        // under the cursor is zero.
        Inst::FINDZERO(step) => if cell == 0 {
            Ok((Machine { mem: m.mem, cursor: m.cursor, pc: next }, None))
        } else if in_tape(m.cursor + step) {
            Ok((Machine { mem: m.mem, cursor: m.cursor + step, pc: m.pc }, None))
        } else {
            Err(RuntimeError::MemoryOutofRange)
        },
        Inst::PUTC => Ok((Machine { mem: m.mem, cursor: m.cursor, pc: next }, Some(cell))),
        Inst::GETC => Ok(
            (Machine { mem: m.mem.update(m.cursor, incoming), cursor: m.cursor, pc: next }, None),
        ),
        Inst::JZ(t) => Ok(
            (
                Machine {
                    mem: m.mem,
                    cursor: m.cursor,
                    pc: if cell == 0 {
                        t as int
                    } else {
                        next
                    },
                },
                None,
            ),
        ),
        Inst::JNZ(t) => Ok(
            (
                Machine {
                    mem: m.mem,
                    cursor: m.cursor,
                    pc: if cell != 0 {
                        t as int
                    } else {
                        next
                    },
                },
                None,
            ),
        ),
    }
}

/// What the machine does next in a program: the instruction under the
/// program counter, or nothing where the program counter has left the
/// program.
pub open spec fn step_in(prog: Seq<Inst>, m: Machine, incoming: u8) -> Result<
    (Machine, Option<u8>),
    RuntimeError,
> {
    if 0 <= m.pc < prog.len() {
        step_spec(prog[m.pc], m, incoming)
    } else {
        Ok((m, None))
    }
}

/// The byte that is read next: the first of the input, or `EOF` where the
/// input is used up.
pub open spec fn next_byte(input: Seq<u8>) -> u8 {
    if input.len() > 0 {
        input[0]
    } else {
        EOF
    }
}

/// The input that is left once a byte has been read.
pub open spec fn rest(input: Seq<u8>) -> Seq<u8> {
    if input.len() > 0 {
        input.drop_first()
    } else {
        input
    }
}

/// What is due in a program on a machine.
pub open spec fn due_spec(prog: Seq<Inst>, m: Machine, enable_jit: bool) -> Due {
    if m.pc >= prog.len() {
        Due::Halt
    } else if enable_jit {
        Due::HandOff { start: m.pc as usize, end: (prog.len() - 1) as usize }
    } else if prog[m.pc] is GETC {
        Due::Read
    } else {
        Due::Step
    }
}

/// One step of a session: the instruction under the program counter, fed
/// from the input where it reads and added to the output where it writes.
pub open spec fn advance(prog: Seq<Inst>, s: Session) -> Result<Session, RuntimeError> {
    match step_in(prog, s.vm, next_byte(s.input)) {
        Ok((m, out)) => Ok(
            Session {
                vm: m,
                input: if prog[s.vm.pc] is GETC {
                    rest(s.input)
                } else {
                    s.input
                },
                output: match out {
                    Some(b) => s.output.push(b),
                    None => s.output,
                },
            },
        ),
        Err(e) => Err(e),
    }
}

/// A run of at most `limit` steps: where the session stands at its end, and
/// why it ended. A step that fails leaves the session as it was.
pub open spec fn run_spec(prog: Seq<Inst>, s: Session, enable_jit: bool, limit: nat) -> (
    Session,
    Result<Stop, RuntimeError>,
)
    decreases limit,
{
    match due_spec(prog, s.vm, enable_jit) {
        Due::Halt => (s, Ok(Stop::Finished)),
        Due::HandOff { start, end } => (s, Ok(Stop::HandOff { start, end })),
        _ => if limit == 0 {
            (s, Ok(Stop::Limit))
        } else {
            match advance(prog, s) {
                Ok(t) => run_spec(prog, t, enable_jit, (limit - 1) as nat),
                Err(e) => (s, Err(e)),
            }
        },
    }
}

/// A run that ends before its limit ends the same way under any higher
/// limit.
pub proof fn lemma_limit_is_no_part(
    prog: Seq<Inst>,
    s: Session,
    enable_jit: bool,
    limit: nat,
    more: nat,
)
    requires
        limit <= more,
        run_spec(prog, s, enable_jit, limit).1 != Ok::<Stop, RuntimeError>(Stop::Limit),
    ensures
        run_spec(prog, s, enable_jit, more) == run_spec(prog, s, enable_jit, limit),
    decreases limit,
{
    match due_spec(prog, s.vm, enable_jit) {
        Due::Halt => {},
        Due::HandOff { start, end } => {},
        _ => {
            if limit > 0 {
                match advance(prog, s) {
                    Ok(t) => lemma_limit_is_no_part(
                        prog,
                        t,
                        enable_jit,
                        (limit - 1) as nat,
                        (more - 1) as nat,
                    ),
                    Err(e) => {},
                }
            }
        },
    }
}

/// How a search for a zero cell goes.
pub struct Search {
    /// Where the cursor stands at the end.
    pub cursor: int,
    /// How often the cursor has moved.
    pub moves: nat,
    /// Whether the cell under the cursor is zero; where it is not, the next
    /// move would have left the tape, or `n` moves were not enough.
    pub found: bool,
    /// Whether the next move would have left the tape.
    pub left_tape: bool,
}

/// The search for a zero cell from cell `c` on, by `step` cells at a time,
/// as far as `n` moves take it: it ends on the first zero cell, or before
/// the move that would leave the tape.
pub open spec fn search(mem: Seq<u8>, c: int, step: int, n: nat) -> Search
    decreases n,
{
    if mem[c] == 0 {
        Search { cursor: c, moves: 0, found: true, left_tape: false }
    } else if !in_tape(c + step) {
        Search { cursor: c, moves: 0, found: false, left_tape: true }
    } else if n == 0 {
        Search { cursor: c, moves: 0, found: false, left_tape: false }
    } else {
        let then = search(mem, c + step, step, (n - 1) as nat);
        Search { moves: then.moves + 1, ..then }
    }
}

/// A `FINDZERO` is a search: the machine makes the moves of the search,
/// one in a step. Where the search finds a zero cell, one step more leaves
/// the instruction with the cursor on that cell; where the search would
/// leave the tape, the step after its last move fails with the cursor
/// where that move has put it.
pub proof fn lemma_findzero_is_a_search(prog: Seq<Inst>, s: Session, step: int, n: nat, limit: nat)
    requires
        valid(s.vm),
        0 <= s.vm.pc < prog.len(),
        prog[s.vm.pc] is FINDZERO,
        prog[s.vm.pc]->FINDZERO_0 == step,
        search(s.vm.mem, s.vm.cursor, step, n).found || search(
            s.vm.mem,
            s.vm.cursor,
            step,
            n,
        ).left_tape,
        limit > search(s.vm.mem, s.vm.cursor, step, n).moves,
    ensures
        ({
            let end = search(s.vm.mem, s.vm.cursor, step, n);
            let there = Machine { cursor: end.cursor, ..s.vm };
            if end.found {
                run_spec(prog, s, false, limit) == run_spec(
                    prog,
                    Session { vm: Machine { pc: s.vm.pc + 1, ..there }, ..s },
                    false,
                    (limit - end.moves - 1) as nat,
                )
            } else {
                run_spec(prog, s, false, limit) == (
                    Session { vm: there, ..s },
                    Err::<Stop, RuntimeError>(RuntimeError::MemoryOutofRange),
                )
            }
        }),
    decreases n,
{
    let m = s.vm;
    if m.mem[m.cursor] != 0 && in_tape(m.cursor + step) && n > 0 {
        let t = Session { vm: Machine { cursor: m.cursor + step, ..m }, ..s };
        assert(advance(prog, s) == Ok::<Session, RuntimeError>(t));
        lemma_findzero_is_a_search(prog, t, step, (n - 1) as nat, (limit - 1) as nat);
    } else if m.mem[m.cursor] == 0 {
        let t = Session { vm: Machine { pc: m.pc + 1, ..m }, ..s };
        assert(advance(prog, s) == Ok::<Session, RuntimeError>(t));
    } else {
        assert(advance(prog, s) is Err);
    }
}

/// Wherever a `MOVPTR`, a `MULINTO` or a move of a `FINDZERO` would take
/// the cursor off the tape, the step fails with `MemoryOutofRange`, and
/// nowhere else does a step fail.
pub proof fn lemma_escape_is_error(inst: Inst, m: Machine, incoming: u8)
    requires
        valid(m),
    ensures
        step_spec(inst, m, incoming) is Err <==> match inst {
            Inst::MOVPTR(d) => !in_tape(m.cursor + d),
            Inst::MULINTO(_, offset) => !in_tape(m.cursor + offset),
            Inst::FINDZERO(step) => m.mem[m.cursor] != 0 && !in_tape(m.cursor + step),
            _ => false,
        },
        step_spec(inst, m, incoming) matches Err(e) ==> e == RuntimeError::MemoryOutofRange,
        step_spec(inst, m, incoming) matches Ok((t, _)) ==> valid(t),
{
}

/// `v` as a cell index below `ceil`.
pub fn check_memory_bound(v: isize, ceil: usize) -> (r: Result<usize, RuntimeError>)
    ensures
        r == (if 0 <= v < ceil {
            Ok::<usize, RuntimeError>(v as usize)
        } else {
            Err::<usize, RuntimeError>(RuntimeError::MemoryOutofRange)
        }),
{
    if v < 0 {
        return Err(RuntimeError::MemoryOutofRange);
    }
    let u: usize = v as usize;
    if ceil <= u {
        return Err(RuntimeError::MemoryOutofRange);
    }
    Ok(u)
}

/// The cell index `d` away from `cursor`.
pub fn moved(cursor: usize, d: isize) -> (r: Result<usize, RuntimeError>)
    requires
        cursor < MEMSIZE,
    ensures
        r == (if in_tape(cursor + d) {
            Ok::<usize, RuntimeError>((cursor + d) as usize)
        } else {
            Err::<usize, RuntimeError>(RuntimeError::MemoryOutofRange)
        }),
{
    if d >= MEMSIZE as isize || d <= -(MEMSIZE as isize) {
        return Err(RuntimeError::MemoryOutofRange);
    }
    check_memory_bound(cursor as isize + d, MEMSIZE)
}

/// `x` modulo 256.
pub fn low_byte(x: isize) -> (b: u8)
    ensures
        b == wrap(x as int),
{
    if x >= 0 {
        ((x as usize) % 256) as u8
    } else {
        let y: usize = (-(x + 1)) as usize;
        255 - (y % 256) as u8
    }
}

/// The cell that holds `cell` after `d` is added to it.
pub fn add_wrapping(cell: u8, d: isize) -> (r: u8)
    ensures
        r == wrap(cell + d),
{
    let sum: u16 = cell as u16 + low_byte(d) as u16;
    (sum % 256) as u8
}

/// Multiples of 256 in a factor do not show in a cell.
proof fn lemma_wrap_product(target: int, coef: int, cell: int)
    ensures
        (target + (coef % 256) * cell) % 256 == (target + coef * cell) % 256,
{
    let q = coef / 256;
    let r = coef % 256;
    lemma_fundamental_div_mod(coef, 256);
    assert(coef * cell == 256 * (q * cell) + r * cell) by (nonlinear_arith)
        requires
            coef == 256 * q + r,
    ;
    lemma_mod_multiples_vanish(q * cell, target + r * cell, 256);
}

/// The cell that holds `target` after `coef` times `cell` is added to it.
pub fn mul_add_wrapping(target: u8, coef: isize, cell: u8) -> (r: u8)
    ensures
        r == wrap(target + coef * cell),
{
    let c: u32 = low_byte(coef) as u32;
    assert(c * cell <= 255 * 255) by (nonlinear_arith)
        requires
            0 <= c <= 255,
            0 <= cell <= 255,
    ;
    let sum: u32 = target as u32 + c * (cell as u32);
    proof {
        lemma_wrap_product(target as int, coef as int, cell as int);
    }
    (sum % 256) as u8
}

/// A source of bytes: what is left of it is read one byte at a time.
pub struct Input {
    bytes: Vec<u8>,
    pos: usize,
}

impl View for Input {
    type V = Seq<u8>;

    /// The bytes that are left to read.
    closed spec fn view(&self) -> Seq<u8> {
        self.bytes@.skip(self.pos as int)
    }
}

impl Input {
    #[verifier::type_invariant]
    spec fn inv(self) -> bool {
        self.pos <= self.bytes.len()
    }

    /// A source that gives the bytes of `bytes` in order.
    pub fn new(bytes: Vec<u8>) -> (r: Self)
        ensures
            r@ == bytes@,
    {
        let r = Input { bytes, pos: 0 };
        assert(r.bytes@.skip(0) =~= r.bytes@);
        r
    }

    /// Reads one byte; where nothing is left, the byte is `EOF`.
    pub fn read(&mut self) -> (b: u8)
        ensures
            b == next_byte(old(self)@),
            final(self)@ == rest(old(self)@),
    {
        proof {
            use_type_invariant(&*self);
        }
        if self.pos < self.bytes.len() {
            let b = self.bytes[self.pos];
            self.pos = self.pos + 1;
            assert(self.bytes@.skip(self.pos as int) =~= old(self).bytes@.skip(
                old(self).pos as int,
            ).drop_first());
            b
        } else {
            EOF
        }
    }
}

/// The machine.
pub struct VM {
    mem: Vec<u8>,
    mem_ptr: usize,
    pc: usize,
}

impl View for VM {
    type V = Machine;

    closed spec fn view(&self) -> Machine {
        Machine { mem: self.mem@, cursor: self.mem_ptr as int, pc: self.pc as int }
    }
}

impl Default for VM {
    fn default() -> (vm: Self)
        ensures
            vm@ == initial(),
    {
        let mem: Vec<u8> = vec![0u8; MEMSIZE];
        let vm = VM { mem, mem_ptr: MEMSIZE / 2, pc: 0 };
        assert(vm.mem@ =~= initial().mem);
        vm
    }
}

impl VM {
    #[verifier::type_invariant]
    spec fn inv(self) -> bool {
        self.mem.len() == MEMSIZE && self.mem_ptr < MEMSIZE
    }

    /// A machine before its first step.
    pub fn new() -> (vm: Self)
        ensures
            vm@ == initial(),
    {
        Self::default()
    }

    /// A machine before its first step, but with the cursor at `cursor`;
    /// `None` where that is no cell.
    pub fn starting_at(cursor: usize) -> (r: Option<Self>)
        ensures
            match r {
                Some(vm) => in_tape(cursor as int) && vm@ == (Machine {
                    cursor: cursor as int,
                    ..initial()
                }),
                None => !in_tape(cursor as int),
            },
    {
        if cursor < MEMSIZE {
            let mem: Vec<u8> = vec![0u8; MEMSIZE];
            let vm = VM { mem, mem_ptr: cursor, pc: 0 };
            assert(vm.mem@ =~= initial().mem);
            Some(vm)
        } else {
            None
        }
    }

    /// The index of the current cell.
    pub fn mem_ptr(&self) -> (c: usize)
        ensures
            c == self@.cursor,
            in_tape(c as int),
    {
        proof {
            use_type_invariant(self);
        }
        self.mem_ptr
    }

    /// The index of the instruction that runs next.
    pub fn pc(&self) -> (pc: usize)
        ensures
            pc == self@.pc,
    {
        self.pc
    }

    /// The tape.
    pub fn mem(&self) -> (mem: &Vec<u8>)
        ensures
            mem@ == self@.mem,
            mem.len() == MEMSIZE,
    {
        proof {
            use_type_invariant(self);
        }
        &self.mem
    }

    /// How often the region under the program counter has run. No count is
    /// kept: every region passes for one that has run often.
    fn check_exec_count(&self) -> (n: u8)
        ensures
            n == 255,
    {
        255
    }

    /// Says what is due next: nothing at the end of the program; with
    /// `enable_jit`, the rest of the program as native code; else the
    /// instruction under the program counter.
    pub fn due(&self, program: &Program, enable_jit: bool) -> (d: Due)
        ensures
            d == due_spec(program.bytecodes@, self@, enable_jit),
    {
        let len = program.bytecodes.len();
        if self.pc >= len {
            Due::Halt
        } else if enable_jit && self.check_exec_count() > JIT_EXEC_TH {
            Due::HandOff { start: self.pc, end: len - 1 }
        } else {
            match program.bytecodes[self.pc] {
                Inst::GETC => Due::Read,
                _ => Due::Step,
            }
        }
    }

    /// Runs the instruction under the program counter, if there is one, and
    /// returns the byte it writes, if any. `incoming` is the byte that a
    /// `GETC` stores. A step that fails changes nothing.
    pub fn step(&mut self, program: &Program, incoming: u8) -> (r: Result<Option<u8>, RuntimeError>)
        ensures
            match r {
                Ok(out) => step_in(program.bytecodes@, old(self)@, incoming) == Ok::<
                    (Machine, Option<u8>),
                    RuntimeError,
                >((final(self)@, out)),
                Err(e) => step_in(program.bytecodes@, old(self)@, incoming) == Err::<
                    (Machine, Option<u8>),
                    RuntimeError,
                >(e) && final(self)@ == old(self)@,
            },
    {
        proof {
            use_type_invariant(&*self);
        }
        if self.pc >= program.bytecodes.len() {
            return Ok(None);
        }
        let cursor = self.mem_ptr;
        let cell = self.mem[cursor];
        let mut out: Option<u8> = None;
        match program.bytecodes[self.pc] {
            Inst::MOVPTR(d) => {
                self.mem_ptr = moved(cursor, d)?;
            },
            Inst::ADD(d) => {
                self.mem[cursor] = add_wrapping(cell, d);
            },
            Inst::SETZERO => {
                self.mem[cursor] = 0;
            },
            Inst::MULINTO(coef, offset) => {
                let to = moved(cursor, offset)?;
                self.mem[to] = mul_add_wrapping(self.mem[to], coef, cell);
                self.mem[cursor] = 0;
            },
            Inst::FINDZERO(step) => {
                if cell != 0 {
                    self.mem_ptr = moved(cursor, step)?;
                    return Ok(None);
                }
            },
            Inst::PUTC => {
                out = Some(cell);
            },
            Inst::GETC => {
                self.mem[cursor] = incoming;
            },
            Inst::JZ(addr) => {
                if cell == 0 {
                    self.pc = addr;
                    return Ok(None);
                }
            },
            Inst::JNZ(addr) => {
                if cell != 0 {
                    self.pc = addr;
                    return Ok(None);
                }
            },
        }
        self.pc = self.pc + 1;
        Ok(out)
    }

    /// Takes the machine up again after native code has run the
    /// instructions up to `end`: the tape and the cursor are what the native
    /// code left, and the instruction behind `end` runs next. Where `tape` is
    /// no tape or `cursor` no cell of it, nothing changes.
    pub fn resume(&mut self, end: usize, cursor: usize, tape: Vec<u8>) -> (r: Result<
        (),
        RuntimeError,
    >)
        requires
            end < usize::MAX,
        ensures
            r is Ok <==> tape.len() == MEMSIZE && in_tape(cursor as int),
            r is Ok ==> final(self)@ == (Machine {
                mem: tape@,
                cursor: cursor as int,
                pc: end + 1,
            }),
            r is Err ==> r == Err::<(), RuntimeError>(RuntimeError::MemoryOutofRange) && final(self)@ == old(self)@,
    {
        proof {
            use_type_invariant(&*self);
        }
        if tape.len() != MEMSIZE || cursor >= MEMSIZE {
            return Err(RuntimeError::MemoryOutofRange);
        }
        self.mem = tape;
        self.mem_ptr = cursor;
        self.pc = end + 1;
        Ok(())
    }

    /// Runs the program for at most `limit` steps, reading from `reader`
    /// and writing to `writer`. With `enable_jit`, the run stops at once
    /// where anything is left to run, and names it.
    pub fn run(
        &mut self,
        program: &Program,
        reader: &mut Input,
        writer: &mut Vec<u8>,
        enable_jit: bool,
        limit: u64,
    ) -> (r: Result<Stop, RuntimeError>)
        ensures
            (Session { vm: final(self)@, input: final(reader)@, output: final(writer)@ }, r)
                == run_spec(
                program.bytecodes@,
                Session { vm: old(self)@, input: old(reader)@, output: old(writer)@ },
                enable_jit,
                limit as nat,
            ),
    {
        let ghost prog = program.bytecodes@;
        let ghost goal = run_spec(
            prog,
            Session { vm: old(self)@, input: old(reader)@, output: old(writer)@ },
            enable_jit,
            limit as nat,
        );
        let mut left: u64 = limit;
        let mut res: Result<Stop, RuntimeError> = Ok(Stop::Limit);
        loop
            invariant
                prog == program.bytecodes@,
                goal == run_spec(
                    prog,
                    Session { vm: self@, input: reader@, output: writer@ },
                    enable_jit,
                    left as nat,
                ),
            ensures
                (Session { vm: self@, input: reader@, output: writer@ }, res) == goal,
            decreases left,
        {
            let ghost now = Session { vm: self@, input: reader@, output: writer@ };
            match self.due(program, enable_jit) {
                Due::Halt => {
                    res = Ok(Stop::Finished);
                    break ;
                },
                Due::HandOff { start, end } => {
                    res = Ok(Stop::HandOff { start, end });
                    break ;
                },
                Due::Read => {
                    if left == 0 {
                        res = Ok(Stop::Limit);
                        break ;
                    }
                    let b = reader.read();
                    match self.step(program, b) {
                        Ok(_) => {},
                        Err(e) => {
                            res = Err(e);
                            break ;
                        },
                    }
                },
                Due::Step => {
                    if left == 0 {
                        res = Ok(Stop::Limit);
                        break ;
                    }
                    match self.step(program, EOF) {
                        Ok(Some(b)) => {
                            writer.push(b);
                        },
                        Ok(None) => {},
                        Err(e) => {
                            res = Err(e);
                            break ;
                        },
                    }
                },
            }
            left = left - 1;
        }
        res
    }
}

} // verus!
