use vstd::prelude::*;

verus! {

/// Where a predicate holds on a prefix of `s` and on nothing after it,
/// filtering `s` by it keeps exactly that prefix.
pub proof fn lemma_filter_prefix<A>(s: Seq<A>, p: spec_fn(A) -> bool, k: int)
    requires
        0 <= k <= s.len(),
        forall|i: int| 0 <= i < k ==> p(s[i]),
        forall|i: int| k <= i < s.len() ==> !p(s[i]),
    ensures
        s.filter(p) == s.take(k),
    decreases s.len(),
{
    reveal(Seq::filter);
    if s.len() == 0 {
        assert(s.take(k) =~= s);
    } else if k == s.len() {
        lemma_filter_prefix(s.drop_last(), p, k - 1);
        assert(s.drop_last().take(k - 1) =~= s.drop_last());
        assert(s.drop_last().push(s.last()) =~= s);
        assert(s.take(k) =~= s);
    } else {
        lemma_filter_prefix(s.drop_last(), p, k);
        assert(s.drop_last().take(k) =~= s.take(k));
    }
}

} // verus!
