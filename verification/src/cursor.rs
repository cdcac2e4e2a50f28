//! Laws of a procedure's cursor: how a procedure that starts again wraps, and
//! how one that runs once comes to its end.

use vstd::prelude::*;
use vstd::arithmetic::div_mod::{lemma_fundamental_div_mod, lemma_fundamental_div_mod_converse};
use crate::procedure::ProcedureView;

verus! {

/// The place that follows place `k` in a list of `len` statements that is
/// walked round and round.
pub proof fn lemma_next_place(x: int, len: int)
    requires
        0 <= x,
        0 < len,
    ensures
        0 <= x % len < len,
        (x + 1) % len == if x % len + 1 == len {
            0
        } else {
            x % len + 1
        },
{
    lemma_fundamental_div_mod(x, len);
    let q = x / len;
    let k = x % len;
    if k + 1 == len {
        assert(x + 1 == (q + 1) * len + 0) by (nonlinear_arith)
            requires
                x == len * q + k,
                k + 1 == len,
        ;
        lemma_fundamental_div_mod_converse(x + 1, len, q + 1, 0);
    } else {
        assert(x + 1 == q * len + (k + 1)) by (nonlinear_arith)
            requires
                x == len * q + k,
        ;
        lemma_fundamental_div_mod_converse(x + 1, len, q, k + 1);
    }
}

/// Auto-restart looping. A procedure that starts again, with at least one
/// statement and its counter within the list, never runs out: its `n`-th
/// next step yields the statement `n` places after the cursor, counted round
/// the list. With statements `[A, B]` and the cursor at the start, three
/// steps yield `A`, `B`, `A`.
pub proof fn lemma_always_wraps(p: ProcedureView, n: nat)
    requires
        p.kind is Always,
        p.stmts.len() > 0,
        p.counter <= p.stmts.len(),
    ensures
        p.advanced_by(n).kind == p.kind,
        p.advanced_by(n).stmts == p.stmts,
        p.advanced_by(n).counter <= p.stmts.len(),
        p.advanced_by(n).cursor() == (p.cursor() + n) % (p.stmts.len() as int),
        p.advanced_by(n).next() == Some(p.stmts[(p.cursor() + n) % (p.stmts.len() as int)]),
    decreases n,
{
    let len = p.stmts.len() as int;
    if n == 0 {
        vstd::arithmetic::div_mod::lemma_small_mod(p.cursor() as nat, len as nat);
    } else {
        lemma_always_wraps(p, (n - 1) as nat);
        lemma_next_place(p.cursor() + n - 1, len);
    }
}

/// A procedure that runs once yields its statements in order, each once: its
/// `n`-th next step yields the statement `n` places after the counter, as
/// long as there is one.
pub proof fn lemma_initial_in_order(p: ProcedureView, n: nat)
    requires
        p.kind is Initial,
        p.counter + n < p.stmts.len(),
    ensures
        p.advanced_by(n).kind == p.kind,
        p.advanced_by(n).stmts == p.stmts,
        p.advanced_by(n).counter == p.counter + n,
        p.advanced_by(n).next() == Some(p.stmts[(p.counter + n) as int]),
    decreases n,
{
    if n > 0 {
        lemma_initial_in_order(p, (n - 1) as nat);
    }
}

/// A procedure that runs once never wraps: when its counter has reached the
/// end, no step yields a statement or moves the counter again.
pub proof fn lemma_initial_stays_dormant(p: ProcedureView, n: nat)
    requires
        p.kind is Initial,
        p.counter >= p.stmts.len(),
    ensures
        p.advanced_by(n) == p,
        p.advanced_by(n).next() is None,
    decreases n,
{
    if n > 0 {
        lemma_initial_stays_dormant(p, (n - 1) as nat);
    }
}

} // verus!
