//! Facts about sequences that the loops of this library rest on.

use vstd::prelude::*;

verus! {

/// A sequence without repetition stays so when an item is added that it
/// does not hold.
pub proof fn lemma_push_fresh<T>(s: Seq<T>, x: T)
    requires
        s.no_duplicates(),
        !s.contains(x),
    ensures
        s.push(x).no_duplicates(),
        forall|y: T| #[trigger] s.push(x).contains(y) <==> s.contains(y) || y == x,
{
    assert forall|y: T| #[trigger] s.push(x).contains(y) <==> s.contains(y) || y == x by {
        vstd::seq_lib::lemma_seq_contains_after_push(s, x, y);
    }
    assert forall|i: int, j: int|
        0 <= i < s.push(x).len() && 0 <= j < s.push(x).len() && i != j implies s.push(x)[i]
        != s.push(x)[j] by {
        if i < s.len() && j < s.len() {
        } else if i < s.len() {
            assert(s.contains(s[i]));
        } else {
            assert(s.contains(s[j]));
        }
    }
}

/// One round of a loop that copies from `src` to `out` what meets `keep`:
/// after the item at `t` is dealt with, `out` holds what it held at first
/// and what meets `keep` among the first `t + 1` items. If neither `out` nor
/// `src` repeats an item and `out` held none of `src` at first, `out` still
/// repeats none.
pub proof fn lemma_filter_step<T>(
    base: Seq<T>,
    src: Seq<T>,
    t: int,
    keep: spec_fn(T) -> bool,
    before: Seq<T>,
    after: Seq<T>,
)
    requires
        0 <= t < src.len(),
        after == if keep(src[t]) {
            before.push(src[t])
        } else {
            before
        },
        forall|x: T| #[trigger]
            before.contains(x) <==> base.contains(x) || (src.take(t).contains(x) && keep(x)),
    ensures
        forall|x: T| #[trigger]
            after.contains(x) <==> base.contains(x) || (src.take(t + 1).contains(x) && keep(x)),
        before.no_duplicates() && src.no_duplicates() && (forall|x: T|
            base.contains(x) ==> !src.contains(x)) ==> after.no_duplicates(),
{
    assert(src.take(t + 1) =~= src.take(t).push(src[t]));
    assert forall|x: T| #[trigger]
        after.contains(x) <==> base.contains(x) || (src.take(t + 1).contains(x) && keep(
            x,
        )) by {
        vstd::seq_lib::lemma_seq_contains_after_push(src.take(t), src[t], x);
        vstd::seq_lib::lemma_seq_contains_after_push(before, src[t], x);
    }
    if before.no_duplicates() && src.no_duplicates() && (forall|x: T|
        base.contains(x) ==> !src.contains(x)) && keep(src[t]) {
        assert(src.contains(src[t]));
        if src.take(t).contains(src[t]) {
            let k = choose|k: int| 0 <= k < src.take(t).len() && src.take(t)[k] == src[t];
            assert(src[k] == src[t]);
        }
        lemma_push_fresh(before, src[t]);
    }
}

/// Two sequences without repetition that share no item make one without
/// repetition, which holds what either holds.
pub proof fn lemma_concat_apart<T>(a: Seq<T>, b: Seq<T>)
    requires
        a.no_duplicates(),
        b.no_duplicates(),
        forall|x: T| a.contains(x) ==> !b.contains(x),
    ensures
        (a + b).no_duplicates(),
        forall|x: T| #[trigger] (a + b).contains(x) <==> a.contains(x) || b.contains(x),
{
    assert forall|i: int, j: int|
        0 <= i < (a + b).len() && 0 <= j < (a + b).len() && i != j implies (a + b)[i] != (a
        + b)[j] by {
        if i < a.len() && j >= a.len() {
            assert(a.contains(a[i]));
            assert(b.contains(b[j - a.len()]));
        } else if j < a.len() && i >= a.len() {
            assert(a.contains(a[j]));
            assert(b.contains(b[i - a.len()]));
        }
    }
    assert forall|x: T| #[trigger] (a + b).contains(x) <==> a.contains(x) || b.contains(x) by {
        if (a + b).contains(x) {
            let w = choose|w: int| 0 <= w < (a + b).len() && (a + b)[w] == x;
            if w < a.len() {
                assert(a[w] == x);
            } else {
                assert(b[w - a.len()] == x);
            }
        }
        if a.contains(x) {
            let w = choose|w: int| 0 <= w < a.len() && a[w] == x;
            assert((a + b)[w] == x);
        }
        if b.contains(x) {
            let w = choose|w: int| 0 <= w < b.len() && b[w] == x;
            assert((a + b)[a.len() + w] == x);
        }
    }
}

} // verus!
