//! Small general lemmas about sequence filtering, used by the registry and
//! the cut-elimination proofs.

use vstd::prelude::*;

verus! {

/// Filtering a sequence extended by one element keeps the element exactly
/// when the predicate holds of it.
pub proof fn lemma_filter_push<A>(s: Seq<A>, x: A, p: spec_fn(A) -> bool)
    ensures
        s.push(x).filter(p) == if p(x) {
            s.filter(p).push(x)
        } else {
            s.filter(p)
        },
{
    reveal(Seq::filter);
    assert(s.push(x).drop_last() =~= s);
    assert(s.push(x).last() == x);
}

/// A filtered sequence is no longer than the original.
pub proof fn lemma_filter_len<A>(s: Seq<A>, p: spec_fn(A) -> bool)
    ensures
        s.filter(p).len() <= s.len(),
{
    broadcast use Seq::lemma_filter_len;

}

/// If some element fails the predicate, filtering strictly shrinks the
/// sequence.
pub proof fn lemma_filter_len_lt<A>(s: Seq<A>, p: spec_fn(A) -> bool, i: int)
    requires
        0 <= i < s.len(),
        !p(s[i]),
    ensures
        s.filter(p).len() < s.len(),
    decreases s.len(),
{
    reveal(Seq::filter);
    broadcast use Seq::lemma_filter_len;

    if i == s.len() - 1 {
        assert(s.drop_last().filter(p).len() <= s.drop_last().len());
    } else {
        lemma_filter_len_lt(s.drop_last(), p, i);
    }
}

/// Every element of a filtered sequence is an element of the original.
pub proof fn lemma_filter_elem<A>(s: Seq<A>, p: spec_fn(A) -> bool, i: int)
    requires
        0 <= i < s.filter(p).len(),
    ensures
        exists|j: int| 0 <= j < s.len() && #[trigger] s[j] == s.filter(p)[i],
    decreases s.len(),
{
    reveal(Seq::filter);
    if s.len() > 0 {
        let f = s.filter(p);
        let fd = s.drop_last().filter(p);
        if p(s.last()) && i == f.len() - 1 {
            assert(s[s.len() - 1] == f[i]);
        } else {
            lemma_filter_elem(s.drop_last(), p, i);
            let j = choose|j: int|
                0 <= j < s.drop_last().len() && #[trigger] s.drop_last()[j] == fd[i];
            assert(s[j] == f[i]);
        }
    }
}

/// Pushing keeps every old element and adds the new one.
pub proof fn lemma_push_contains<A>(s: Seq<A>, x: A)
    ensures
        forall|y: A| s.contains(y) ==> s.push(x).contains(y),
        s.push(x).contains(x),
{
    assert forall|y: A| s.contains(y) implies s.push(x).contains(y) by {
        let j = choose|j: int| 0 <= j < s.len() && s[j] == y;
        assert(s.push(x)[j] == y);
    }
    assert(s.push(x)[s.len() as int] == x);
}

} // verus!
