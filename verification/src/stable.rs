//! Facts about filtering sequences, used to show that the sorts keep items
//! with equal keys in the order they came in.

use vstd::prelude::*;

verus! {

/// Filtering an empty sequence gives it back.
pub proof fn lemma_filter_empty<A>(s: Seq<A>, pred: spec_fn(A) -> bool)
    requires
        s.len() == 0,
    ensures
        s.filter(pred) == s,
{
    reveal(Seq::filter);
}

/// A sequence none of whose items the predicate keeps filters to nothing.
proof fn lemma_filter_none<A>(s: Seq<A>, pred: spec_fn(A) -> bool)
    requires
        forall|j: int| 0 <= j < s.len() ==> !pred(#[trigger] s[j]),
    ensures
        s.filter(pred).len() == 0,
    decreases s.len(),
{
    reveal(Seq::filter);
    if s.len() > 0 {
        let d = s.drop_last();
        assert forall|j: int| 0 <= j < d.len() implies !pred(#[trigger] d[j]) by {
            assert(d[j] == s[j]);
        }
        lemma_filter_none(d, pred);
        assert(!pred(s[s.len() - 1]));
    }
}

/// Taking out the first item the predicate keeps takes it off the front of
/// the filtered sequence; taking out an item it drops changes nothing there.
pub proof fn lemma_filter_remove<A>(s: Seq<A>, i: int, pred: spec_fn(A) -> bool)
    requires
        0 <= i < s.len(),
        pred(s[i]) ==> forall|j: int| 0 <= j < i ==> !pred(#[trigger] s[j]),
    ensures
        s.filter(pred) == (if pred(s[i]) {
            seq![s[i]] + s.remove(i).filter(pred)
        } else {
            s.remove(i).filter(pred)
        }),
{
    let a = s.subrange(0, i);
    let b = s.subrange(i + 1, s.len() as int);
    let one = seq![s[i]];
    assert(s =~= (a + one) + b);
    assert(s.remove(i) =~= a + b);
    Seq::filter_distributes_over_add(a + one, b, pred);
    Seq::filter_distributes_over_add(a, one, pred);
    Seq::filter_distributes_over_add(a, b, pred);
    assert(one =~= Seq::<A>::empty().push(s[i]));
    Seq::<A>::empty().lemma_filter_push(s[i], pred);
    lemma_filter_empty(Seq::<A>::empty(), pred);
    if pred(s[i]) {
        assert forall|j: int| 0 <= j < a.len() implies !pred(#[trigger] a[j]) by {
            assert(a[j] == s[j]);
        }
        lemma_filter_none(a, pred);
        assert(a.filter(pred) =~= Seq::<A>::empty());
        assert(s.filter(pred) =~= seq![s[i]] + s.remove(i).filter(pred));
    } else {
        assert(s.filter(pred) =~= s.remove(i).filter(pred));
    }
}

/// Moving the first kept item from the input onto the output keeps the
/// filtered output followed by the filtered input unchanged.
pub proof fn lemma_filter_move<A>(out: Seq<A>, rest: Seq<A>, i: int, pred: spec_fn(A) -> bool)
    requires
        0 <= i < rest.len(),
        pred(rest[i]) ==> forall|j: int| 0 <= j < i ==> !pred(#[trigger] rest[j]),
    ensures
        out.push(rest[i]).filter(pred) + rest.remove(i).filter(pred) == out.filter(pred) + rest.filter(
            pred,
        ),
{
    lemma_filter_remove(rest, i, pred);
    out.lemma_filter_push(rest[i], pred);
    if pred(rest[i]) {
        assert(out.filter(pred).push(rest[i]) + rest.remove(i).filter(pred) =~= out.filter(pred) + (
        seq![rest[i]] + rest.remove(i).filter(pred)));
    }
}

} // verus!
