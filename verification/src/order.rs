//! Lexicographic order on sequences of rank values.

use crate::deck::{number_order, Rank};
use crate::ranking::values_of;
use core::cmp::Ordering;
use vstd::prelude::*;

verus! {

/// Compares two sequences position by position; the first difference
/// decides, and a proper prefix is smaller than the longer sequence.
pub open spec fn lex_order(a: Seq<int>, b: Seq<int>) -> Ordering
    decreases a.len(),
{
    if a.len() == 0 {
        if b.len() == 0 {
            Ordering::Equal
        } else {
            Ordering::Less
        }
    } else if b.len() == 0 {
        Ordering::Greater
    } else if a[0] < b[0] {
        Ordering::Less
    } else if a[0] > b[0] {
        Ordering::Greater
    } else {
        lex_order(a.drop_first(), b.drop_first())
    }
}

/// `a` comes strictly before `b`.
pub open spec fn lex_less(a: Seq<int>, b: Seq<int>) -> bool {
    lex_order(a, b) == Ordering::Less
}

/// `a` comes strictly after `b`.
pub open spec fn lex_greater(a: Seq<int>, b: Seq<int>) -> bool {
    lex_order(a, b) == Ordering::Greater
}

/// Two sequences compare equal exactly when they are the same sequence.
pub proof fn lemma_lex_equal(a: Seq<int>, b: Seq<int>)
    ensures
        lex_order(a, b) == Ordering::Equal <==> a == b,
    decreases a.len(),
{
    if a.len() > 0 && b.len() > 0 {
        lemma_lex_equal(a.drop_first(), b.drop_first());
        if a[0] == b[0] && a.drop_first() == b.drop_first() {
            assert forall|i: int| 0 <= i < a.len() implies a[i] == b[i] by {
                if i > 0 {
                    assert(a.drop_first()[i - 1] == b.drop_first()[i - 1]);
                }
            }
            assert(a.len() == a.drop_first().len() + 1);
            assert(b.len() == b.drop_first().len() + 1);
            assert(a =~= b);
        }
    } else if a.len() == 0 && b.len() == 0 {
        assert(a =~= b);
    }
}

/// Two sequences of which neither comes before the other are the same.
pub proof fn lemma_lex_tie(a: Seq<int>, b: Seq<int>)
    ensures
        (!lex_less(a, b) && !lex_greater(a, b)) <==> a == b,
{
    lemma_lex_equal(a, b);
}

/// Swapping the arguments reverses the outcome.
pub proof fn lemma_lex_swap(a: Seq<int>, b: Seq<int>)
    ensures
        lex_less(a, b) <==> lex_greater(b, a),
        lex_greater(a, b) <==> lex_less(b, a),
    decreases a.len(),
{
    if a.len() > 0 && b.len() > 0 {
        lemma_lex_swap(a.drop_first(), b.drop_first());
    }
}

/// The order is transitive: nothing greater than `b` lies at or below
/// something that `b` is at or above.
pub proof fn lemma_lex_transitive(a: Seq<int>, b: Seq<int>, c: Seq<int>)
    requires
        !lex_greater(a, b),
        !lex_greater(b, c),
    ensures
        !lex_greater(a, c),
        lex_less(a, b) || lex_less(b, c) ==> lex_less(a, c),
    decreases a.len(),
{
    if a.len() > 0 && b.len() > 0 && c.len() > 0 {
        if a[0] == b[0] && b[0] == c[0] {
            lemma_lex_transitive(a.drop_first(), b.drop_first(), c.drop_first());
        }
    }
}

/// What decides between two sequences that each start with one more value.
pub proof fn lemma_lex_cons(x: int, a: Seq<int>, y: int, b: Seq<int>)
    ensures
        lex_order(seq![x] + a, seq![y] + b) == if x < y {
            Ordering::Less
        } else if x > y {
            Ordering::Greater
        } else {
            lex_order(a, b)
        },
{
    assert((seq![x] + a).drop_first() =~= a);
    assert((seq![y] + b).drop_first() =~= b);
}

/// Orders two rank values.
pub fn order_of(a: usize, b: usize) -> (order: Ordering)
    ensures
        order == number_order(a, b),
{
    if a < b {
        Ordering::Less
    } else if a > b {
        Ordering::Greater
    } else {
        Ordering::Equal
    }
}

/// Orders two lists of ranks lexicographically by rank value.
pub fn compare_ranks(a: &Vec<Rank>, b: &Vec<Rank>) -> (order: Ordering)
    ensures
        order == lex_order(values_of(a@), values_of(b@)),
{
    let ghost va = values_of(a@);
    let ghost vb = values_of(b@);
    let ghost k: int = 0;
    let mut i: usize = 0;
    proof {
        assert(va.skip(0) =~= va);
        assert(vb.skip(0) =~= vb);
    }
    while i < a.len() && i < b.len()
        invariant
            k == i,
            i <= a@.len(),
            i <= b@.len(),
            va == values_of(a@),
            vb == values_of(b@),
            lex_order(va, vb) == lex_order(va.skip(k), vb.skip(k)),
        decreases a@.len() - i,
    {
        let x: usize = a[i].value();
        let y: usize = b[i].value();
        proof {
            assert(va.skip(k).drop_first() =~= va.skip(k + 1));
            assert(vb.skip(k).drop_first() =~= vb.skip(k + 1));
            assert(va.skip(k)[0] == x);
            assert(vb.skip(k)[0] == y);
        }
        if x < y {
            return Ordering::Less;
        }
        if x > y {
            return Ordering::Greater;
        }
        i += 1;
        proof {
            k = k + 1;
        }
    }
    if i < b.len() {
        Ordering::Less
    } else if i < a.len() {
        Ordering::Greater
    } else {
        Ordering::Equal
    }
}

} // verus!
