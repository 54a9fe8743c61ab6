//! Counting facts about lists of indices: distinct indices below a bound
//! are at most that many, and a list that holds every index below a bound
//! has at least that many entries.
use vstd::prelude::*;

verus! {

/// The indices below `n`.
pub open spec fn below(n: usize) -> Set<usize> {
    Set::new(|x: usize| x < n)
}

/// There are `n` indices below `n`.
pub proof fn lemma_below_len(n: usize)
    ensures
        below(n).finite(),
        below(n).len() == n,
    decreases n,
{
    if n == 0 {
        assert(below(0) =~= Set::<usize>::empty());
    } else {
        lemma_below_len((n - 1) as usize);
        assert(below(n) =~= below((n - 1) as usize).insert((n - 1) as usize));
    }
}

/// A list of distinct indices below `n` has at most `n` entries.
pub proof fn lemma_distinct_below(s: Seq<usize>, n: usize)
    requires
        s.no_duplicates(),
        forall|i: int| 0 <= i < s.len() ==> #[trigger] s[i] < n,
    ensures
        s.len() <= n,
{
    lemma_below_len(n);
    s.unique_seq_to_set();
    assert forall|x: usize| s.to_set().contains(x) implies below(n).contains(x) by {
        let k = choose|k: int| 0 <= k < s.len() && s[k] == x;
        assert(s[k] < n);
    }
    vstd::set_lib::lemma_len_subset(s.to_set(), below(n));
}

/// A list that holds every index below `m` has at least `m` entries.
pub proof fn lemma_covers_below(s: Seq<usize>, m: usize)
    requires
        forall|x: usize| x < m ==> s.contains(x),
    ensures
        s.len() >= m,
{
    lemma_below_len(m);
    vstd::seq_lib::seq_to_set_is_finite(s);
    assert forall|x: usize| below(m).contains(x) implies s.to_set().contains(x) by {
        assert(s.contains(x));
    }
    vstd::set_lib::lemma_len_subset(below(m), s.to_set());
    s.lemma_cardinality_of_set();
}

} // verus!
