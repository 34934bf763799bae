//! Sorting grid keys on the host, for checking the order that the device arrives at.

use crate::layout::{KeyVal, EMPTY_CELL};
use vstd::prelude::*;

verus! {

/// Whether `a` may come before `b`: by key, and by agent within a key.
pub open spec fn in_order(a: KeyVal, b: KeyVal) -> bool {
    a.key < b.key || (a.key == b.key && a.val <= b.val)
}

/// Whether every pair is in order.
pub open spec fn is_sorted(s: Seq<KeyVal>) -> bool {
    forall|i: int, j: int| 0 <= i <= j < s.len() ==> in_order(#[trigger] s[i], #[trigger] s[j])
}

fn ordered(a: &KeyVal, b: &KeyVal) -> (r: bool)
    ensures
        r == in_order(*a, *b),
{
    a.key < b.key || (a.key == b.key && a.val <= b.val)
}

/// Merges two sorted runs.
fn merge(a: &Vec<KeyVal>, b: &Vec<KeyVal>) -> (out: Vec<KeyVal>)
    requires
        is_sorted(a@),
        is_sorted(b@),
    ensures
        is_sorted(out@),
        out@.to_multiset() == a@.to_multiset().add(b@.to_multiset()),
{
    let mut out: Vec<KeyVal> = Vec::new();
    let mut i: usize = 0;
    let mut j: usize = 0;
    proof {
        assert(a@.take(0) =~= Seq::<KeyVal>::empty());
        assert(b@.take(0) =~= Seq::<KeyVal>::empty());
        out@.to_multiset_ensures();
        assert(out@.to_multiset() =~= a@.take(0).to_multiset().add(b@.take(0).to_multiset()));
    }
    while i < a.len() || j < b.len()
        invariant
            i <= a@.len(),
            j <= b@.len(),
            is_sorted(a@),
            is_sorted(b@),
            is_sorted(out@),
            forall|k: int, m: int|
                0 <= k < out@.len() && i <= m < a@.len() ==> in_order(#[trigger] out@[k], #[trigger] a@[m]),
            forall|k: int, m: int|
                0 <= k < out@.len() && j <= m < b@.len() ==> in_order(#[trigger] out@[k], #[trigger] b@[m]),
            out@.to_multiset() == a@.take(i as int).to_multiset().add(
                b@.take(j as int).to_multiset(),
            ),
        decreases a@.len() - i + b@.len() - j,
    {
        let ghost before = out@;
        if j >= b.len() || (i < a.len() && ordered(&a[i], &b[j])) {
            let next = a[i];
            out.push(next);
            proof {
                before.to_multiset_ensures();
                a@.take(i as int).to_multiset_ensures();
                assert(a@.take(i as int + 1) =~= a@.take(i as int).push(next));
                assert(out@.to_multiset() =~= a@.take(i as int + 1).to_multiset().add(
                    b@.take(j as int).to_multiset(),
                ));
            }
            i += 1;
        } else {
            let next = b[j];
            out.push(next);
            proof {
                before.to_multiset_ensures();
                b@.take(j as int).to_multiset_ensures();
                assert(b@.take(j as int + 1) =~= b@.take(j as int).push(next));
                assert(out@.to_multiset() =~= a@.take(i as int).to_multiset().add(
                    b@.take(j as int + 1).to_multiset(),
                ));
            }
            j += 1;
        }
    }
    assert(a@.take(a@.len() as int) =~= a@);
    assert(b@.take(b@.len() as int) =~= b@);
    out
}

/// A sorted copy of `keys[from..to]`.
fn sorted_run(keys: &[KeyVal], from: usize, to: usize) -> (out: Vec<KeyVal>)
    requires
        from <= to <= keys@.len(),
    ensures
        is_sorted(out@),
        out@.to_multiset() == keys@.subrange(from as int, to as int).to_multiset(),
    decreases to - from,
{
    if to - from <= 1 {
        let mut out: Vec<KeyVal> = Vec::new();
        if from < to {
            out.push(keys[from]);
        }
        assert(out@ =~= keys@.subrange(from as int, to as int));
        out
    } else {
        let mid: usize = from + (to - from) / 2;
        let a = sorted_run(keys, from, mid);
        let b = sorted_run(keys, mid, to);
        let out = merge(&a, &b);
        proof {
            let (x, y) = (
                keys@.subrange(from as int, mid as int),
                keys@.subrange(mid as int, to as int),
            );
            assert(keys@.subrange(from as int, to as int) =~= x + y);
            vstd::seq_lib::lemma_multiset_commutative(x, y);
        }
        out
    }
}

/// Sorts keys by cell, and by agent within a cell.
///
/// The device orders agents within a cell arbitrarily, because its network is not stable; breaking
/// ties by agent is what makes this side of a comparison deterministic.
pub fn sort_keys(keys: &mut [KeyVal])
    ensures
        is_sorted(final(keys)@),
        final(keys)@.to_multiset() == old(keys)@.to_multiset(),
        forall|i: int, j: int|
            0 <= i < j < final(keys)@.len() ==> (#[trigger] final(keys)@[i]).key <= (
            #[trigger] final(keys)@[j]).key,
{
    let n: usize = keys.len();
    let sorted = sorted_run(keys, 0, n);
    proof {
        assert(keys@.subrange(0, n as int) =~= keys@);
        sorted@.to_multiset_ensures();
        keys@.to_multiset_ensures();
        assert(sorted@.len() == keys@.len());
    }
    let mut i: usize = 0;
    while i < n
        invariant
            i <= n,
            n == sorted@.len() == keys@.len(),
            keys@.take(i as int) == sorted@.take(i as int),
        decreases n - i,
    {
        keys[i] = sorted[i];
        assert(keys@.take(i as int + 1) =~= sorted@.take(i as int + 1));
        i += 1;
    }
    assert(keys@.take(n as int) =~= keys@);
    assert(sorted@.take(n as int) =~= sorted@);
}

/// There is only one way to sort: two sorted rows of the same pairs are the same row.
pub proof fn law_sorting_has_one_result(a: Seq<KeyVal>, b: Seq<KeyVal>)
    requires
        is_sorted(a),
        is_sorted(b),
        a.to_multiset() == b.to_multiset(),
    ensures
        a == b,
    decreases a.len(),
{
    a.to_multiset_ensures();
    b.to_multiset_ensures();
    if a.len() > 0 {
        let (x, y) = (a[0], b[0]);
        assert(a.contains(x));
        assert(b.contains(y));
        assert(b.to_multiset().count(x) > 0);
        assert(a.to_multiset().count(y) > 0);
        let i = choose|i: int| 0 <= i < b.len() && b[i] == x;
        let j = choose|j: int| 0 <= j < a.len() && a[j] == y;
        assert(in_order(b[0], b[i]));
        assert(in_order(a[0], a[j]));
        assert(x == y);
        let (more_a, more_b) = (a.skip(1), b.skip(1));
        assert(a.remove(0) =~= more_a);
        assert(b.remove(0) =~= more_b);
        assert(more_a.to_multiset() =~= more_b.to_multiset());
        law_sorting_has_one_result(more_a, more_b);
        assert(a =~= seq![x] + more_a);
        assert(b =~= seq![y] + more_b);
    } else {
        assert(a =~= b);
    }
}

/// Sorted keys keep each cell together: whatever stands between two agents of a cell is of that cell.
pub proof fn law_cells_form_runs(s: Seq<KeyVal>, i: int, k: int, j: int)
    requires
        is_sorted(s),
        0 <= i <= k <= j < s.len(),
        s[i].key == s[j].key,
    ensures
        s[k].key == s[i].key,
{
    assert(in_order(s[i], s[k]));
    assert(in_order(s[k], s[j]));
}

/// Padding sorts to the end: the pairs that stand for no cell come behind every pair that stands for
/// one.
pub proof fn law_padding_sorts_to_the_end(s: Seq<KeyVal>, i: int, j: int)
    requires
        is_sorted(s),
        0 <= i < s.len(),
        0 <= j < s.len(),
        s[i].key != EMPTY_CELL,
        s[j].key == EMPTY_CELL,
    ensures
        i < j,
{
    if j <= i {
        assert(in_order(s[j], s[i]));
    }
}

/// Sorted pairs go up by cell, and by agent within a cell.
pub proof fn law_sorted_pairs_go_up(s: Seq<KeyVal>, i: int, j: int)
    requires
        is_sorted(s),
        0 <= i <= j < s.len(),
    ensures
        s[i].key <= s[j].key,
        s[i].key == s[j].key ==> s[i].val <= s[j].val,
{
    assert(in_order(s[i], s[j]));
}

/// Pairs that go up by cell, and by agent within a cell, are sorted.
pub proof fn law_pairs_that_go_up_are_sorted(s: Seq<KeyVal>)
    requires
        forall|i: int, j: int|
            0 <= i <= j < s.len() ==> (#[trigger] s[i]).key < (#[trigger] s[j]).key || (s[i].key == s[j].key
                && s[i].val <= s[j].val),
    ensures
        is_sorted(s),
{
}

} // verus!
