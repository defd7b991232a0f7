//! The bytecode and the compiler from commands to bytecode.
//!
//! The compiler joins runs of equal commands into one instruction and
//! replaces three common loop shapes by a single instruction each. Every
//! other loop becomes a pair of conditional jumps that name each other.

use crate::nesting::{
    balanced, closer, closes, lemma_open_jumps_congruent, lemma_open_jumps_sorted,
    lemma_opener_of_closer, open_jumps, opener,
};
use crate::token::Token;
use vstd::prelude::*;

verus! {

/// One instruction of the bytecode.
#[derive(PartialEq, Eq, Structural, Debug, Clone, Copy)]
pub enum Inst {
    /// Move the cursor by the given distance.
    MOVPTR(isize),
    /// Add to the current cell, modulo 256.
    ADD(isize),
    /// Store zero in the current cell.
    SETZERO,
    /// `(coef, offset)`: add `coef` times the current cell to the cell at
    /// `offset` from the cursor, then store zero in the current cell.
    MULINTO(isize, isize),
    /// Move the cursor by the given step until the current cell is zero.
    FINDZERO(isize),
    /// Write the current cell.
    PUTC,
    /// Read one byte into the current cell.
    GETC,
    /// Jump to the given index if the current cell is zero.
    JZ(usize),
    /// Jump to the given index if the current cell is not zero.
    JNZ(usize),
}

/// Why a command sequence has no bytecode.
#[derive(PartialEq, Eq, Structural, Debug, Clone, Copy)]
pub enum CompileError {
    /// A `[` at the given position is never closed.
    LSQBMismatch(usize),
    /// A `]` at the given position closes nothing.
    RSQBMismatch(usize),
}

/// What the compiler holds between two commands: the instructions so far
/// and, for each `[` that is still open, the index of its jump and the
/// position of the `[` among the commands.
pub struct Scratch {
    pub insts: Seq<Inst>,
    pub opens: Seq<(usize, usize)>,
}

/// The number of equal commands that end at position `i`.
pub open spec fn run_length(tokens: Seq<Token>, i: int) -> int
    decreases i,
{
    if 0 < i < tokens.len() && tokens[i - 1] == tokens[i] {
        run_length(tokens, i - 1) + 1
    } else {
        1
    }
}

/// Whether the run of equal commands that holds position `i` ends there.
pub open spec fn ends_run(tokens: Seq<Token>, i: int) -> bool {
    i + 1 >= tokens.len() || tokens[i + 1] != tokens[i]
}

/// The instruction that the command at position `i` adds by itself, if any:
/// one instruction at the end of each run of `<`, `>`, `+` or `-`, one for
/// each `.` and `,`, none for a bracket.
pub open spec fn plain_inst(tokens: Seq<Token>, i: int) -> Option<Inst> {
    let n = run_length(tokens, i);
    match tokens[i] {
        Token::LT => if ends_run(tokens, i) {
            Some(Inst::MOVPTR((-n) as isize))
        } else {
            None
        },
        Token::GT => if ends_run(tokens, i) {
            Some(Inst::MOVPTR(n as isize))
        } else {
            None
        },
        Token::PLUS => if ends_run(tokens, i) {
            Some(Inst::ADD(n as isize))
        } else {
            None
        },
        Token::MINUS => if ends_run(tokens, i) {
            Some(Inst::ADD((-n) as isize))
        } else {
            None
        },
        Token::DOT => Some(Inst::PUTC),
        Token::COMMA => Some(Inst::GETC),
        Token::LSQB => None,
        Token::RSQB => None,
    }
}

/// Whether the instruction adds `v` to the current cell.
pub open spec fn adds(inst: Inst, v: int) -> bool {
    inst is ADD && inst->ADD_0 == v
}

/// Whether the two instructions move the cursor away and back again.
pub open spec fn there_and_back(out: Inst, back: Inst) -> bool {
    &&& out is MOVPTR
    &&& back is MOVPTR
    &&& out->MOVPTR_0 + back->MOVPTR_0 == 0
    &&& out->MOVPTR_0 != 0
}

/// The loop at the end of `insts`, opened by a jump and not yet closed, as
/// one instruction, together with the number of instructions it replaces.
/// `None` where the loop has none of the three known shapes.
pub open spec fn folded(insts: Seq<Inst>) -> Option<(Inst, int)> {
    let n = insts.len() as int;
    if n >= 2 && insts[n - 2] is JZ && (adds(insts[n - 1], 1) || adds(insts[n - 1], -1)) {
        Some((Inst::SETZERO, 2))
    } else if n >= 5 && insts[n - 5] is JZ && adds(insts[n - 4], -1) && there_and_back(
        insts[n - 3],
        insts[n - 1],
    ) && insts[n - 2] is ADD {
        Some((Inst::MULINTO(insts[n - 2]->ADD_0, insts[n - 3]->MOVPTR_0), 5))
    } else if n >= 5 && insts[n - 5] is JZ && adds(insts[n - 1], -1) && there_and_back(
        insts[n - 4],
        insts[n - 2],
    ) && insts[n - 3] is ADD {
        Some((Inst::MULINTO(insts[n - 3]->ADD_0, insts[n - 4]->MOVPTR_0), 5))
    } else if n >= 2 && insts[n - 2] is JZ && insts[n - 1] is MOVPTR {
        Some((Inst::FINDZERO(insts[n - 1]->MOVPTR_0), 2))
    } else {
        None
    }
}

/// The instructions after a `]` that closes the loop whose jump stands at
/// index `saved`: the loop as one instruction where it has a known shape,
/// else the jump at `saved` pointed behind the loop and a jump back added.
pub open spec fn close_loop_spec(insts: Seq<Inst>, saved: int) -> Seq<Inst> {
    match folded(insts) {
        Some((op, k)) => insts.take(insts.len() - k).push(op),
        None => insts.update(saved, Inst::JZ((insts.len() + 1) as usize)).push(
            Inst::JNZ((saved + 1) as usize),
        ),
    }
}

/// What the command at position `i` makes of the compiler's state.
pub open spec fn step(tokens: Seq<Token>, i: int, s: Scratch) -> Result<Scratch, CompileError> {
    match tokens[i] {
        Token::LSQB => Ok(
            Scratch {
                insts: s.insts.push(Inst::JZ(0)),
                opens: s.opens.push((s.insts.len() as usize, i as usize)),
            },
        ),
        Token::RSQB => if s.opens.len() == 0 {
            Err(CompileError::RSQBMismatch(i as usize))
        } else {
            Ok(
                Scratch {
                    insts: close_loop_spec(s.insts, s.opens.last().0 as int),
                    opens: s.opens.drop_last(),
                },
            )
        },
        _ => match plain_inst(tokens, i) {
            Some(op) => Ok(Scratch { insts: s.insts.push(op), opens: s.opens }),
            None => Ok(s),
        },
    }
}

/// The compiler's state after the first `n` commands, or the first error
/// among them.
pub open spec fn scan(tokens: Seq<Token>, n: int) -> Result<Scratch, CompileError>
    decreases n,
{
    if n <= 0 {
        Ok(Scratch { insts: Seq::empty(), opens: Seq::empty() })
    } else {
        match scan(tokens, n - 1) {
            Ok(s) => step(tokens, n - 1, s),
            Err(e) => Err(e),
        }
    }
}

/// The bytecode of a command sequence. The first `]` that closes nothing is
/// an error; else, so is the first `[` that is still open at the end.
pub open spec fn compile_spec(tokens: Seq<Token>) -> Result<Seq<Inst>, CompileError> {
    match scan(tokens, tokens.len() as int) {
        Ok(s) => if s.opens.len() == 0 {
            Ok(s.insts)
        } else {
            Err(CompileError::LSQBMismatch(s.opens[0].1))
        },
        Err(e) => Err(e),
    }
}

/// A run that ends at position `i` has between one and `i + 1` commands.
pub proof fn lemma_run_length_bounds(tokens: Seq<Token>, i: int)
    requires
        0 <= i < tokens.len(),
    ensures
        1 <= run_length(tokens, i) <= i + 1,
    decreases i,
{
    if 0 < i && tokens[i - 1] == tokens[i] {
        lemma_run_length_bounds(tokens, i - 1);
    }
}

/// Whether two distances cancel.
fn cancels(out: isize, back: isize) -> (b: bool)
    ensures
        b == (out + back == 0),
{
    out != isize::MIN && back == -out
}

/// Recognises the loop at the end of `insts` as one of the known shapes.
pub fn fold_tail(insts: &Vec<Inst>) -> (r: Option<(Inst, usize)>)
    ensures
        match r {
            Some((op, k)) => folded(insts@) == Some((op, k as int)),
            None => folded(insts@) is None,
        },
{
    let n = insts.len();
    if n >= 2 {
        if let Inst::JZ(_) = insts[n - 2] {
            match insts[n - 1] {
                Inst::ADD(v) => {
                    if v == 1 || v == -1 {
                        return Some((Inst::SETZERO, 2));
                    }
                },
                _ => {},
            }
        }
    }
    if n >= 5 {
        if let Inst::JZ(_) = insts[n - 5] {
            match (insts[n - 4], insts[n - 3], insts[n - 2], insts[n - 1]) {
                (Inst::ADD(dec), Inst::MOVPTR(out), Inst::ADD(coef), Inst::MOVPTR(back)) => {
                    if dec == -1 && cancels(out, back) && out != 0 {
                        return Some((Inst::MULINTO(coef, out), 5));
                    }
                },
                (Inst::MOVPTR(out), Inst::ADD(coef), Inst::MOVPTR(back), Inst::ADD(dec)) => {
                    if dec == -1 && cancels(out, back) && out != 0 {
                        return Some((Inst::MULINTO(coef, out), 5));
                    }
                },
                _ => {},
            }
        }
    }
    if n >= 2 {
        if let Inst::JZ(_) = insts[n - 2] {
            match insts[n - 1] {
                Inst::MOVPTR(v) => {
                    return Some((Inst::FINDZERO(v), 2));
                },
                _ => {},
            }
        }
    }
    None
}

/// Closes the loop whose jump stands at index `saved`.
pub fn close_loop(insts: &mut Vec<Inst>, saved: usize)
    requires
        saved < old(insts).len() < usize::MAX,
    ensures
        final(insts)@ == close_loop_spec(old(insts)@, saved as int),
{
    let n = insts.len();
    match fold_tail(insts) {
        Some((op, k)) => {
            insts.truncate(n - k);
            insts.push(op);
        },
        None => {
            insts[saved] = Inst::JZ(n + 1);
            insts.push(Inst::JNZ(saved + 1));
        },
    }
}

/// Whether the `JNZ` at index `q` closes a loop and the two jumps of that
/// loop name each other: the `JNZ` carries the index behind the `JZ`, and
/// the `JZ` the index behind the `JNZ`.
pub open spec fn linked_at(ir: Seq<Inst>, q: int) -> bool {
    &&& closes(ir, q)
    &&& ir[q] == Inst::JNZ((opener(ir, q) + 1) as usize)
    &&& ir[opener(ir, q)] == Inst::JZ((q + 1) as usize)
}

/// Whether the jumps of `ir` form loops, each `JZ` and the `JNZ` of its
/// loop naming the instruction behind the other.
pub open spec fn well_formed(ir: Seq<Inst>) -> bool {
    &&& ir.len() < usize::MAX
    &&& balanced(ir)
    &&& forall|q: int| 0 <= q < ir.len() && ir[q] is JNZ ==> #[trigger] linked_at(ir, q)
}

/// What holds of the compiler's state between two commands: the record of
/// open brackets lists the open loops, each of their jumps still carries
/// index 0, and every closed loop is linked.
pub open spec fn coherent(s: Scratch) -> bool {
    let st = open_jumps(s.insts, s.insts.len() as int);
    &&& s.insts.len() < usize::MAX
    &&& st.len() == s.opens.len()
    &&& forall|k: int|
        0 <= k < s.opens.len() ==> (#[trigger] s.opens[k]).0 == st[k] && s.insts[st[k]]
            == Inst::JZ(0)
    &&& forall|q: int|
        0 <= q < s.insts.len() && s.insts[q] is JNZ ==> #[trigger] linked_at(s.insts, q)
}

/// Instructions that are no jumps leave the open loops as they are.
proof fn lemma_open_jumps_skip(ir: Seq<Inst>, m: int, n: int)
    requires
        0 <= m <= n <= ir.len(),
        forall|j: int| m <= j < n ==> !(#[trigger] ir[j] is JZ) && !(ir[j] is JNZ),
    ensures
        open_jumps(ir, n) == open_jumps(ir, m),
    decreases n - m,
{
    if m < n {
        assert(!(ir[n - 1] is JZ) && !(ir[n - 1] is JNZ));
        lemma_open_jumps_skip(ir, m, n - 1);
    }
}

/// A linked loop stays linked in a sequence that agrees on its two jumps
/// and on where the jumps before them stand.
proof fn lemma_link_carries(a: Seq<Inst>, b: Seq<Inst>, q: int)
    requires
        linked_at(a, q),
        q < b.len(),
        forall|k: int| 0 <= k < q ==> crate::nesting::same_kind(#[trigger] a[k], b[k]),
        b[q] == a[q],
        b[opener(a, q)] == a[opener(a, q)],
    ensures
        linked_at(b, q),
{
    lemma_open_jumps_congruent(a, b, q);
}

/// Closing a loop keeps the compiler's state coherent.
proof fn lemma_close_coherent(s: Scratch)
    requires
        coherent(s),
        s.opens.len() > 0,
        s.insts.len() + 1 < usize::MAX,
    ensures
        coherent(
            Scratch {
                insts: close_loop_spec(s.insts, s.opens.last().0 as int),
                opens: s.opens.drop_last(),
            },
        ),
{
    let a = s.insts;
    let n = a.len() as int;
    let st = open_jumps(a, n);
    let saved = s.opens.last().0 as int;
    let b = close_loop_spec(a, saved);
    let t = Scratch { insts: b, opens: s.opens.drop_last() };
    lemma_open_jumps_sorted(a, n);
    assert(s.opens[s.opens.len() - 1].0 == st[st.len() - 1]);
    assert(saved == st.last());
    match folded(a) {
        Some((op, k)) => {
            let m = n - k;
            assert(b == a.take(m).push(op));
            assert(b.len() == m + 1);
            lemma_open_jumps_skip(a, m + 1, n);
            assert(open_jumps(a, m + 1) == open_jumps(a, m).push(m));
            assert(st.drop_last() == open_jumps(a, m));
            lemma_open_jumps_sorted(a, m);
            lemma_open_jumps_congruent(a, b, m);
            assert(open_jumps(b, m + 1) == open_jumps(b, m));
            assert(open_jumps(b, b.len() as int) == st.drop_last());
            assert forall|q: int| 0 <= q < b.len() && b[q] is JNZ implies #[trigger] linked_at(
                b,
                q,
            ) by {
                assert(linked_at(a, q));
                lemma_open_jumps_sorted(a, q);
                lemma_link_carries(a, b, q);
            }
            assert forall|j: int| 0 <= j < t.opens.len() implies (#[trigger] t.opens[j]).0
                == open_jumps(b, m + 1)[j] && b[open_jumps(b, m + 1)[j]] == Inst::JZ(0) by {
                assert(s.opens[j].0 == st[j]);
            }
        },
        None => {
            assert(b == a.update(saved, Inst::JZ((n + 1) as usize)).push(
                Inst::JNZ((saved + 1) as usize),
            ));
            assert(b.len() == n + 1);
            lemma_open_jumps_congruent(a, b, n);
            assert(open_jumps(b, n + 1) == st.drop_last());
            assert forall|q: int| 0 <= q < b.len() && b[q] is JNZ implies #[trigger] linked_at(
                b,
                q,
            ) by {
                if q < n {
                    assert(linked_at(a, q));
                    lemma_open_jumps_sorted(a, q);
                    assert(s.opens[s.opens.len() - 1].0 == st[st.len() - 1]);
                    assert(a[saved] == Inst::JZ(0));
                    lemma_link_carries(a, b, q);
                }
            }
            assert forall|j: int| 0 <= j < t.opens.len() implies (#[trigger] t.opens[j]).0
                == open_jumps(b, n + 1)[j] && b[open_jumps(b, n + 1)[j]] == Inst::JZ(0) by {
                assert(s.opens[j].0 == st[j]);
            }
        },
    }
}

/// Each command keeps the compiler's state coherent, and adds at most one
/// instruction.
pub proof fn lemma_step_coherent(tokens: Seq<Token>, i: int, s: Scratch)
    requires
        0 <= i < tokens.len(),
        tokens.len() <= isize::MAX,
        coherent(s),
        s.insts.len() <= i,
    ensures
        step(tokens, i, s) matches Ok(t) ==> coherent(t) && t.insts.len() <= i + 1,
{
    let a = s.insts;
    let n = a.len() as int;
    assert(isize::MAX < usize::MAX);
    lemma_open_jumps_sorted(a, n);
    match step(tokens, i, s) {
        Ok(t) => {
            let b = t.insts;
            if tokens[i] == Token::RSQB {
                assert(s.opens[s.opens.len() - 1].0 == open_jumps(a, n)[s.opens.len() - 1]);
                lemma_close_coherent(s);
            } else if tokens[i] == Token::LSQB || plain_inst(tokens, i) is Some {
                assert(b == a.push(b[n]));
                lemma_open_jumps_congruent(a, b, n);
                assert(open_jumps(b, n + 1) == if tokens[i] == Token::LSQB {
                    open_jumps(a, n).push(n)
                } else {
                    open_jumps(a, n)
                });
                assert forall|q: int| 0 <= q < b.len() && b[q] is JNZ implies #[trigger] linked_at(
                    b,
                    q,
                ) by {
                    assert(linked_at(a, q));
                    lemma_open_jumps_sorted(a, q);
                    lemma_link_carries(a, b, q);
                }
                assert forall|j: int| 0 <= j < t.opens.len() implies (#[trigger] t.opens[j]).0
                    == open_jumps(b, n + 1)[j] && b[open_jumps(b, n + 1)[j]] == Inst::JZ(0) by {
                    if j < s.opens.len() {
                        assert(s.opens[j].0 == open_jumps(a, n)[j]);
                    }
                }
            }
        },
        Err(_) => {},
    }
}

/// Once a command has failed, the commands behind it change nothing.
pub proof fn lemma_scan_error_stays(tokens: Seq<Token>, n: int, m: int)
    requires
        0 <= n <= m,
        scan(tokens, n) is Err,
    ensures
        scan(tokens, m) == scan(tokens, n),
    decreases m,
{
    if n < m {
        lemma_scan_error_stays(tokens, n, m - 1);
    }
}

/// The compiler's state is coherent after any number of commands, and holds
/// no more instructions than commands were read.
pub proof fn lemma_scan_coherent(tokens: Seq<Token>, n: int)
    requires
        0 <= n <= tokens.len() <= isize::MAX,
    ensures
        scan(tokens, n) matches Ok(s) ==> coherent(s) && s.insts.len() <= n,
    decreases n,
{
    if n > 0 {
        lemma_scan_coherent(tokens, n - 1);
        match scan(tokens, n - 1) {
            Ok(s) => lemma_step_coherent(tokens, n - 1, s),
            Err(_) => {},
        }
    }
}

/// The bytecode of a command sequence has well-formed loops: every jump has
/// its partner, and no jump is left with the index it was opened with.
pub proof fn lemma_compile_well_formed(tokens: Seq<Token>)
    requires
        tokens.len() <= isize::MAX,
        compile_spec(tokens) is Ok,
    ensures
        well_formed(compile_spec(tokens)->Ok_0),
{
    lemma_scan_coherent(tokens, tokens.len() as int);
    let ir = compile_spec(tokens)->Ok_0;
    assert forall|q: int| 0 <= q < ir.len() && ir[q] is JNZ implies #[trigger] closes(ir, q) by {
        assert(linked_at(ir, q));
    }
}

/// In well-formed bytecode every `JZ` has a `JNZ` behind it, and every
/// `JNZ` a `JZ` before it, such that each of the two carries the index of
/// the instruction behind the other. No `JZ` carries index 0, with which it
/// was opened.
pub proof fn lemma_jumps_paired(ir: Seq<Inst>)
    requires
        well_formed(ir),
    ensures
        forall|p: int|
            0 <= p < ir.len() && #[trigger] ir[p] is JZ ==> p < closer(ir, p) < ir.len() && ir[p]
                == Inst::JZ((closer(ir, p) + 1) as usize) && ir[closer(ir, p)] == Inst::JNZ(
                (p + 1) as usize,
            ),
        forall|q: int|
            0 <= q < ir.len() && #[trigger] ir[q] is JNZ ==> 0 <= opener(ir, q) < q && ir[q]
                == Inst::JNZ((opener(ir, q) + 1) as usize) && ir[opener(ir, q)] == Inst::JZ(
                (q + 1) as usize,
            ),
        forall|p: int| 0 <= p < ir.len() ==> #[trigger] ir[p] != Inst::JZ(0),
{
    assert forall|p: int| 0 <= p < ir.len() && #[trigger] ir[p] is JZ implies p < closer(ir, p)
        < ir.len() && ir[p] == Inst::JZ((closer(ir, p) + 1) as usize) && ir[closer(ir, p)]
        == Inst::JNZ((p + 1) as usize) by {
        lemma_opener_of_closer(ir, p);
        assert(linked_at(ir, closer(ir, p)));
    }
    assert forall|q: int| 0 <= q < ir.len() && #[trigger] ir[q] is JNZ implies 0 <= opener(ir, q)
        < q && ir[q] == Inst::JNZ((opener(ir, q) + 1) as usize) && ir[opener(ir, q)] == Inst::JZ(
        (q + 1) as usize,
    ) by {
        assert(linked_at(ir, q));
        lemma_open_jumps_sorted(ir, q);
    }
}

/// Where the loop that a `]` closes has one of the known shapes, the
/// instructions from the loop's `JZ` on give way to one instruction that is
/// no jump: no jump of the loop is left, and none is added.
pub proof fn lemma_fold_leaves_no_jump(s: Scratch)
    requires
        coherent(s),
        s.opens.len() > 0,
        folded(s.insts) is Some,
    ensures
        ({
            let (op, k) = folded(s.insts)->Some_0;
            let at = s.opens.last().0 as int;
            &&& at == s.insts.len() - k
            &&& s.insts[at] is JZ
            &&& forall|j: int| at < j < s.insts.len() ==> !(s.insts[j] is JZ) && !(s.insts[j] is JNZ)
            &&& !(op is JZ) && !(op is JNZ)
            &&& close_loop_spec(s.insts, at) == s.insts.take(at).push(op)
        }),
{
    let a = s.insts;
    let n = a.len() as int;
    let (op, k) = folded(a)->Some_0;
    let st = open_jumps(a, n);
    lemma_open_jumps_sorted(a, n);
    lemma_open_jumps_skip(a, n - k + 1, n);
    assert(open_jumps(a, n - k + 1) == open_jumps(a, n - k).push(n - k));
    assert(s.opens[s.opens.len() - 1].0 == st[st.len() - 1]);
}

/// The number of `[` less the number of `]` among the first `n` commands.
pub open spec fn depth(tokens: Seq<Token>, n: int) -> int
    decreases n,
{
    if n <= 0 {
        0
    } else {
        depth(tokens, n - 1) + (if tokens[n - 1] == Token::LSQB {
            1int
        } else if tokens[n - 1] == Token::RSQB {
            -1int
        } else {
            0int
        })
    }
}

/// Whether no `]` among the first `n` commands closes nothing.
pub open spec fn never_negative(tokens: Seq<Token>, n: int) -> bool {
    forall|m: int| 0 <= m <= n ==> #[trigger] depth(tokens, m) >= 0
}

/// Whether the `[` at position `p` opens a bracket at level `k` that none
/// of the first `n` commands closes.
pub open spec fn stays_open(tokens: Seq<Token>, n: int, p: int, k: int) -> bool {
    &&& 0 <= p < n
    &&& tokens[p] == Token::LSQB
    &&& depth(tokens, p) == k
    &&& forall|m: int| p < m <= n ==> #[trigger] depth(tokens, m) > k
}

/// What the compiler's state after the first `n` commands says of the
/// brackets among them: as many brackets are recorded open as are, each
/// with its position; a failure is the first `]` that closes nothing.
pub open spec fn brackets_tracked(tokens: Seq<Token>, n: int) -> bool {
    match scan(tokens, n) {
        Ok(s) => {
            &&& never_negative(tokens, n)
            &&& s.opens.len() == depth(tokens, n)
            &&& forall|k: int|
                0 <= k < s.opens.len() ==> stays_open(tokens, n, (#[trigger] s.opens[k]).1 as int, k)
        },
        Err(e) => {
            &&& e is RSQBMismatch
            &&& 0 <= e->RSQBMismatch_0 < n
            &&& tokens[e->RSQBMismatch_0 as int] == Token::RSQB
            &&& depth(tokens, e->RSQBMismatch_0 as int) == 0
            &&& never_negative(tokens, e->RSQBMismatch_0 as int)
        },
    }
}

/// The compiler keeps track of the brackets.
pub proof fn lemma_brackets_tracked(tokens: Seq<Token>, n: int)
    requires
        0 <= n <= tokens.len() <= isize::MAX,
    ensures
        brackets_tracked(tokens, n),
    decreases n,
{
    if n > 0 {
        let i = n - 1;
        lemma_brackets_tracked(tokens, i);
        match scan(tokens, i) {
            Ok(s) => {
                match step(tokens, i, s) {
                    Ok(t) => {
                        assert(depth(tokens, n) >= 0);
                        assert forall|m: int| 0 <= m <= n implies #[trigger] depth(tokens, m)
                            >= 0 by {
                            if m < n {
                                assert(depth(tokens, m) >= 0);
                            }
                        }
                        assert forall|k: int| 0 <= k < t.opens.len() implies stays_open(
                            tokens,
                            n,
                            (#[trigger] t.opens[k]).1 as int,
                            k,
                        ) by {
                            if k < s.opens.len() {
                                assert(stays_open(tokens, i, s.opens[k].1 as int, k));
                            }
                        }
                    },
                    Err(e) => {},
                }
            },
            Err(e) => {},
        }
    }
}

/// When a command sequence compiles, and what the error says when it does
/// not. It compiles where every `]` closes a `[` and every `[` is closed.
/// Else `RSQBMismatch` gives the position of the first `]` that closes
/// nothing; where there is none, `LSQBMismatch` gives the position of the
/// first `[` that is never closed.
pub proof fn lemma_compile_outcome(tokens: Seq<Token>)
    requires
        tokens.len() <= isize::MAX,
    ensures
        match compile_spec(tokens) {
            Ok(_) => never_negative(tokens, tokens.len() as int) && depth(
                tokens,
                tokens.len() as int,
            ) == 0,
            Err(CompileError::RSQBMismatch(i)) => 0 <= i < tokens.len() && tokens[i as int]
                == Token::RSQB && depth(tokens, i as int) == 0 && never_negative(tokens, i as int),
            Err(CompileError::LSQBMismatch(p)) => never_negative(tokens, tokens.len() as int)
                && stays_open(tokens, tokens.len() as int, p as int, 0),
        },
{
    lemma_brackets_tracked(tokens, tokens.len() as int);
    match scan(tokens, tokens.len() as int) {
        Ok(s) => {
            if s.opens.len() > 0 {
                assert(stays_open(tokens, tokens.len() as int, s.opens[0].1 as int, 0));
            }
        },
        Err(e) => {},
    }
}

/// What `compile` returns for a command sequence.
pub open spec fn compiled(tokens: Seq<Token>, r: Result<Vec<Inst>, CompileError>) -> bool {
    match r {
        Ok(insts) => compile_spec(tokens) == Ok::<Seq<Inst>, CompileError>(insts@) && well_formed(
            insts@,
        ),
        Err(e) => compile_spec(tokens) == Err::<Seq<Inst>, CompileError>(e),
    }
}

/// Compiling the same command sequence again gives the same bytecode, or
/// the same error.
pub proof fn lemma_recompile(
    tokens: Seq<Token>,
    first: Result<Vec<Inst>, CompileError>,
    second: Result<Vec<Inst>, CompileError>,
)
    requires
        compiled(tokens, first),
        compiled(tokens, second),
    ensures
        first is Ok <==> second is Ok,
        first is Ok ==> first->Ok_0@ == second->Ok_0@,
        first is Err ==> first->Err_0 == second->Err_0,
{
}

/// Compiles a command sequence to bytecode.
///
/// Runs of `<`, `>`, `+` and `-` become one instruction each. A loop of one
/// of the shapes `[-]`, `[->+<]` and `[>]` becomes one instruction; any
/// other becomes a pair of jumps. A bracket without its partner is an error.
pub fn compile(tokens: &Vec<Token>) -> (r: Result<Vec<Inst>, CompileError>)
    requires
        tokens.len() <= isize::MAX,
    ensures
        compiled(tokens@, r),
{
    let mut insts: Vec<Inst> = Vec::new();
    let mut acc_val: isize = 1;
    let mut stack: Vec<(usize, usize)> = Vec::new();
    let len_tokens = tokens.len();
    let mut i: usize = 0;
    while i < len_tokens
        invariant
            len_tokens == tokens.len(),
            tokens.len() <= isize::MAX,
            i <= len_tokens,
            scan(tokens@, i as int) == Ok::<Scratch, CompileError>(
                Scratch { insts: insts@, opens: stack@ },
            ),
            acc_val == (if i < len_tokens && (tokens[i as int] == Token::LT || tokens[i as int]
                == Token::GT || tokens[i as int] == Token::PLUS || tokens[i as int]
                == Token::MINUS) {
                run_length(tokens@, i as int)
            } else {
                1
            }),
        decreases len_tokens - i,
    {
        proof {
            lemma_scan_coherent(tokens@, i as int);
            lemma_run_length_bounds(tokens@, i as int);
            if i + 1 < len_tokens {
                lemma_run_length_bounds(tokens@, i + 1);
            }
        }
        let ghost before = Scratch { insts: insts@, opens: stack@ };
        let last = i == len_tokens - 1;
        match tokens[i] {
            Token::LT => {
                if last || tokens[i + 1] != Token::LT {
                    insts.push(Inst::MOVPTR(-acc_val));
                    acc_val = 1;
                } else {
                    acc_val += 1;
                }
            },
            Token::GT => {
                if last || tokens[i + 1] != Token::GT {
                    insts.push(Inst::MOVPTR(acc_val));
                    acc_val = 1;
                } else {
                    acc_val += 1;
                }
            },
            Token::PLUS => {
                if last || tokens[i + 1] != Token::PLUS {
                    insts.push(Inst::ADD(acc_val));
                    acc_val = 1;
                } else {
                    acc_val += 1;
                }
            },
            Token::MINUS => {
                if last || tokens[i + 1] != Token::MINUS {
                    insts.push(Inst::ADD(-acc_val));
                    acc_val = 1;
                } else {
                    acc_val += 1;
                }
            },
            Token::DOT => {
                insts.push(Inst::PUTC);
            },
            Token::COMMA => {
                insts.push(Inst::GETC);
            },
            Token::LSQB => {
                stack.push((insts.len(), i));
                insts.push(Inst::JZ(0));
            },
            Token::RSQB => {
                match stack.pop() {
                    Some((saved, _)) => {
                        proof {
                            lemma_open_jumps_sorted(insts@, insts@.len() as int);
                            assert(before.opens[before.opens.len() - 1].0 == saved);
                        }
                        close_loop(&mut insts, saved);
                    },
                    None => {
                        proof {
                            lemma_scan_error_stays(tokens@, i + 1, tokens@.len() as int);
                        }
                        return Err(CompileError::RSQBMismatch(i));
                    },
                }
            },
        }
        assert(step(tokens@, i as int, before) == Ok::<Scratch, CompileError>(
            Scratch { insts: insts@, opens: stack@ },
        ));
        i += 1;
    }
    if stack.len() > 0 {
        let (_, pos) = stack[0];
        return Err(CompileError::LSQBMismatch(pos));
    }
    proof {
        lemma_compile_well_formed(tokens@);
    }
    Ok(insts)
}

} // verus!
