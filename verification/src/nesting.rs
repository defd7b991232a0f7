//! How the jumps of a bytecode sequence nest.
//!
//! A `JZ` opens a loop and a `JNZ` closes the innermost open one. Which jump
//! belongs to which is a matter of position alone: the index that a jump
//! carries plays no part here.

use crate::bytecode::Inst;
use vstd::prelude::*;

verus! {

/// Whether two instructions open or close a loop alike.
pub open spec fn same_kind(a: Inst, b: Inst) -> bool {
    (a is JZ <==> b is JZ) && (a is JNZ <==> b is JNZ)
}

/// The indices of the `JZ` among the first `n` instructions that none of
/// these instructions closes, the innermost last.
pub open spec fn open_jumps(ir: Seq<Inst>, n: int) -> Seq<int>
    decreases n,
{
    if n <= 0 {
        Seq::empty()
    } else {
        let before = open_jumps(ir, n - 1);
        match ir[n - 1] {
            Inst::JZ(_) => before.push(n - 1),
            Inst::JNZ(_) => if before.len() > 0 {
                before.drop_last()
            } else {
                before
            },
            _ => before,
        }
    }
}

/// Whether the `JNZ` at index `q` has a loop to close.
pub open spec fn closes(ir: Seq<Inst>, q: int) -> bool {
    0 <= q < ir.len() && ir[q] is JNZ && open_jumps(ir, q).len() > 0
}

/// The index of the `JZ` whose loop the `JNZ` at index `q` closes.
pub open spec fn opener(ir: Seq<Inst>, q: int) -> int {
    open_jumps(ir, q).last()
}

/// The first index from `k` on of a `JNZ` that closes the loop opened at
/// `p`, or the length of `ir` where there is none.
pub open spec fn next_close(ir: Seq<Inst>, k: int, p: int) -> int
    decreases ir.len() - k,
{
    if k >= ir.len() {
        ir.len() as int
    } else if closes(ir, k) && opener(ir, k) == p {
        k
    } else {
        next_close(ir, k + 1, p)
    }
}

/// The index of the `JNZ` that closes the loop opened by the `JZ` at index
/// `p`, or the length of `ir` where the loop stays open.
pub open spec fn closer(ir: Seq<Inst>, p: int) -> int {
    next_close(ir, p + 1, p)
}

/// Every `JNZ` closes a loop and no loop stays open.
pub open spec fn balanced(ir: Seq<Inst>) -> bool {
    &&& open_jumps(ir, ir.len() as int).len() == 0
    &&& forall|q: int| 0 <= q < ir.len() && ir[q] is JNZ ==> #[trigger] closes(ir, q)
}

/// The open loops among the first `n` instructions depend only on where
/// among them the jumps stand.
pub proof fn lemma_open_jumps_congruent(a: Seq<Inst>, b: Seq<Inst>, n: int)
    requires
        0 <= n <= a.len(),
        n <= b.len(),
        forall|k: int| 0 <= k < n ==> same_kind(#[trigger] a[k], b[k]),
    ensures
        open_jumps(a, n) == open_jumps(b, n),
    decreases n,
{
    if n > 0 {
        lemma_open_jumps_congruent(a, b, n - 1);
        assert(same_kind(a[n - 1], b[n - 1]));
    }
}

/// The open loops are listed by rising index, and each index is that of a
/// `JZ` among the instructions looked at.
pub proof fn lemma_open_jumps_sorted(ir: Seq<Inst>, n: int)
    requires
        0 <= n <= ir.len(),
    ensures
        open_jumps(ir, n).len() <= n,
        forall|j: int|
            0 <= j < open_jumps(ir, n).len() ==> 0 <= #[trigger] open_jumps(ir, n)[j] < n
                && ir[open_jumps(ir, n)[j]] is JZ,
        forall|i: int, j: int|
            0 <= i < j < open_jumps(ir, n).len() ==> open_jumps(ir, n)[i] < open_jumps(ir, n)[j],
    decreases n,
{
    if n > 0 {
        lemma_open_jumps_sorted(ir, n - 1);
    }
}

/// A loop that is open after `n` instructions has been open, at the same
/// depth, ever since its `JZ`.
pub proof fn lemma_open_since(ir: Seq<Inst>, n: int, j: int, k: int)
    requires
        0 <= n <= ir.len(),
        0 <= j < open_jumps(ir, n).len(),
        open_jumps(ir, n)[j] < k <= n,
    ensures
        open_jumps(ir, k).len() > j,
        open_jumps(ir, k)[j] == open_jumps(ir, n)[j],
    decreases n,
{
    if k < n {
        let before = open_jumps(ir, n - 1);
        lemma_open_jumps_sorted(ir, n - 1);
        assert(j < before.len() && before[j] == open_jumps(ir, n)[j]);
        lemma_open_since(ir, n - 1, j, k);
    }
}

/// Where `next_close` finds an index, a `JNZ` stands there that closes the
/// loop asked for, and none before it does, from `k` on.
pub proof fn lemma_next_close(ir: Seq<Inst>, k: int, p: int)
    requires
        0 <= k <= ir.len(),
    ensures
        k <= next_close(ir, k, p) <= ir.len(),
        next_close(ir, k, p) < ir.len() ==> closes(ir, next_close(ir, k, p)) && opener(
            ir,
            next_close(ir, k, p),
        ) == p,
        forall|m: int| k <= m < next_close(ir, k, p) ==> !(closes(ir, m) && opener(ir, m) == p),
    decreases ir.len() - k,
{
    if k < ir.len() && !(closes(ir, k) && opener(ir, k) == p) {
        lemma_next_close(ir, k + 1, p);
    }
}

/// The `JNZ` that closes a loop is the closer of the loop's `JZ`.
pub proof fn lemma_closer_of_opener(ir: Seq<Inst>, q: int)
    requires
        closes(ir, q),
    ensures
        0 <= opener(ir, q) < q,
        ir[opener(ir, q)] is JZ,
        closer(ir, opener(ir, q)) == q,
{
    let p = opener(ir, q);
    let d = open_jumps(ir, q).len() as int;
    lemma_open_jumps_sorted(ir, q);
    lemma_next_close(ir, p + 1, p);
    let r = closer(ir, p);
    if r < q {
        // An earlier close of the same loop would have left it shut.
        lemma_open_since(ir, q, d - 1, r);
        lemma_open_since(ir, q, d - 1, r + 1);
        lemma_open_jumps_sorted(ir, r);
        assert(open_jumps(ir, r)[d - 1] == p);
        assert(open_jumps(ir, r).last() == p);
        assert(open_jumps(ir, r).len() == d);
        assert(open_jumps(ir, r + 1) == open_jumps(ir, r).drop_last());
        assert(false);
    }
}

/// A `JZ` among the first `n` instructions is still open after them, or its
/// closer stands among them.
pub proof fn lemma_open_or_closed(ir: Seq<Inst>, p: int, n: int)
    requires
        0 <= p < n <= ir.len(),
        ir[p] is JZ,
    ensures
        open_jumps(ir, n).contains(p) || closer(ir, p) < n,
    decreases n,
{
    let s = open_jumps(ir, n);
    let before = open_jumps(ir, n - 1);
    if n == p + 1 {
        assert(s[s.len() - 1] == p);
    } else {
        lemma_open_or_closed(ir, p, n - 1);
        if closer(ir, p) >= n - 1 {
            let j = choose|j: int| 0 <= j < before.len() && before[j] == p;
            lemma_next_close(ir, p + 1, p);
            if ir[n - 1] is JNZ {
                if j == before.len() - 1 {
                    assert(closes(ir, n - 1) && opener(ir, n - 1) == p);
                } else {
                    assert(s[j] == p);
                }
            } else {
                assert(s[j] == p);
            }
        }
    }
}

/// In a balanced sequence each `JZ` has its closer, which is behind it and
/// closes its loop.
pub proof fn lemma_opener_of_closer(ir: Seq<Inst>, p: int)
    requires
        balanced(ir),
        0 <= p < ir.len(),
        ir[p] is JZ,
    ensures
        p < closer(ir, p) < ir.len(),
        closes(ir, closer(ir, p)),
        opener(ir, closer(ir, p)) == p,
{
    lemma_open_or_closed(ir, p, ir.len() as int);
    lemma_next_close(ir, p + 1, p);
}

/// Tells whether every `JNZ` closes a loop and no loop stays open.
pub fn is_balanced(ir: &[Inst]) -> (b: bool)
    ensures
        b == balanced(ir@),
{
    let mut depth: usize = 0;
    let mut n: usize = 0;
    while n < ir.len()
        invariant
            n <= ir.len(),
            depth == open_jumps(ir@, n as int).len(),
            forall|q: int| 0 <= q < n && ir@[q] is JNZ ==> #[trigger] closes(ir@, q),
        decreases ir.len() - n,
    {
        proof {
            lemma_open_jumps_sorted(ir@, n as int);
        }
        match ir[n] {
            Inst::JZ(_) => {
                depth = depth + 1;
            },
            Inst::JNZ(_) => {
                if depth == 0 {
                    assert(!closes(ir@, n as int));
                    return false;
                }
                depth = depth - 1;
            },
            _ => {},
        }
        n = n + 1;
    }
    depth == 0
}

} // verus!
