use vstd::prelude::*;

verus! {

/// Filtering one more element of a sequence's prefix either keeps the filtered prefix
/// or extends it by that element.
pub proof fn lemma_take_filter_step<A>(s: Seq<A>, k: int, pred: spec_fn(A) -> bool)
    requires
        0 <= k < s.len(),
    ensures
        s.take(k + 1).filter(pred) == if pred(s[k]) {
            s.take(k).filter(pred).push(s[k])
        } else {
            s.take(k).filter(pred)
        },
{
    assert(s.take(k + 1) =~= s.take(k).push(s[k]));
    s.take(k).lemma_filter_push(s[k], pred);
}

/// Filtering the empty prefix of a sequence gives the empty sequence.
pub proof fn lemma_take_zero_filter<A>(s: Seq<A>, pred: spec_fn(A) -> bool)
    ensures
        s.take(0).filter(pred) == Seq::<A>::empty(),
{
    reveal_with_fuel(Seq::filter, 1);
    assert(s.take(0) =~= Seq::<A>::empty());
}

/// An element is in a filtered sequence exactly when it is in the sequence and the
/// predicate accepts it.
pub proof fn lemma_filter_member<A>(s: Seq<A>, pred: spec_fn(A) -> bool, e: A)
    ensures
        s.filter(pred).contains(e) <==> (s.contains(e) && pred(e)),
{
    broadcast use vstd::seq_lib::group_filter_ensures;

    if s.filter(pred).contains(e) {
        s.lemma_filter_contains_rev(pred, e);
        let i = choose|i: int| 0 <= i < s.filter(pred).len() && s.filter(pred)[i] == e;
        assert(pred(s.filter(pred)[i]));
    }
    if s.contains(e) && pred(e) {
        let i = choose|i: int| 0 <= i < s.len() && s[i] == e;
        assert(s.filter(pred).contains(s[i]));
    }
}

/// Filtering a sequence without duplicates gives a sequence without duplicates.
pub proof fn lemma_filter_no_duplicates<A>(s: Seq<A>, pred: spec_fn(A) -> bool)
    requires
        s.no_duplicates(),
    ensures
        s.filter(pred).no_duplicates(),
    decreases s.len(),
{
    reveal_with_fuel(Seq::filter, 1);
    if s.len() > 0 {
        let rest = s.drop_last();
        assert(rest.no_duplicates());
        lemma_filter_no_duplicates(rest, pred);
        if pred(s.last()) {
            let f = rest.filter(pred);
            if f.contains(s.last()) {
                rest.lemma_filter_contains_rev(pred, s.last());
                let i = choose|i: int| 0 <= i < rest.len() && rest[i] == s.last();
                assert(s[i] == s[s.len() - 1]);
            }
            assert forall|i: int, j: int|
                0 <= i < f.push(s.last()).len() && 0 <= j < f.push(s.last()).len() && i != j
                    implies f.push(s.last())[i] != f.push(s.last())[j] by {
                if i == f.len() {
                    assert(f[j] == f.push(s.last())[j]);
                } else if j == f.len() {
                    assert(f[i] == f.push(s.last())[i]);
                }
            }
        }
    }
}

} // verus!
