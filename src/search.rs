use vstd::prelude::*;

verus! {

/// The position of the first element of `s` that satisfies `p`, if there is one.
pub open spec fn first_index<A>(s: Seq<A>, p: spec_fn(A) -> bool) -> Option<int>
    decreases s.len(),
{
    if s.len() == 0 {
        None
    } else {
        match first_index(s.drop_last(), p) {
            Some(i) => Some(i),
            None => if p(s.last()) {
                Some(s.len() - 1)
            } else {
                None
            },
        }
    }
}

/// `first_index` finds the earliest element that satisfies the predicate, and
/// finds nothing only when no element does.
pub proof fn lemma_first_index<A>(s: Seq<A>, p: spec_fn(A) -> bool)
    ensures
        match first_index(s, p) {
            Some(i) => 0 <= i < s.len() && p(s[i]) && forall|j: int| 0 <= j < i ==> !p(#[trigger] s[j]),
            None => forall|j: int| 0 <= j < s.len() ==> !p(#[trigger] s[j]),
        },
    decreases s.len(),
{
    if s.len() > 0 {
        let t = s.drop_last();
        lemma_first_index(t, p);
        assert forall|j: int| 0 <= j < t.len() implies t[j] == s[j] by {}
    }
}

/// Two sequences that agree on the predicate at every position have their first
/// match at the same place.
pub proof fn lemma_first_index_same<A>(s: Seq<A>, t: Seq<A>, p: spec_fn(A) -> bool)
    requires
        s.len() == t.len(),
        forall|j: int| 0 <= j < s.len() ==> p(#[trigger] s[j]) == p(t[j]),
    ensures
        first_index(s, p) == first_index(t, p),
{
    lemma_first_index(s, p);
    lemma_first_index(t, p);
    match first_index(s, p) {
        Some(i) => {
            match first_index(t, p) {
                Some(k) => {
                    if i < k {
                        assert(!p(t[i]));
                    } else if k < i {
                        assert(!p(s[k]));
                    }
                },
                None => {
                    assert(!p(t[i]));
                },
            }
        },
        None => {
            match first_index(t, p) {
                Some(k) => {
                    assert(!p(s[k]));
                },
                None => {},
            }
        },
    }
}

/// Once a prefix holds a match, the whole sequence has its first match there.
pub proof fn lemma_first_index_prefix<A>(s: Seq<A>, p: spec_fn(A) -> bool, k: int)
    requires
        0 <= k <= s.len(),
        first_index(s.subrange(0, k), p) is Some,
    ensures
        first_index(s, p) == first_index(s.subrange(0, k), p),
{
    let pre = s.subrange(0, k);
    lemma_first_index(pre, p);
    lemma_first_index(s, p);
    let i = first_index(pre, p)->0;
    assert(pre[i] == s[i]);
    match first_index(s, p) {
        Some(m) => {
            if m < i {
                assert(pre[m] == s[m]);
            } else if i < m {
                assert(!p(s[i]));
            }
        },
        None => {
            assert(!p(s[i]));
        },
    }
}

/// One step of a forward scan for the first match.
pub proof fn lemma_first_index_step<A>(s: Seq<A>, p: spec_fn(A) -> bool, k: int)
    requires
        0 <= k < s.len(),
        first_index(s.subrange(0, k), p) is None,
    ensures
        first_index(s.subrange(0, k + 1), p) == if p(s[k]) {
            Some(k)
        } else {
            None::<int>
        },
{
    assert(s.subrange(0, k + 1).drop_last() =~= s.subrange(0, k));
}

/// The position of the first largest value in `s` (earlier positions win ties).
pub open spec fn highest_index(s: Seq<u64>) -> Option<int>
    decreases s.len(),
{
    if s.len() == 0 {
        None
    } else {
        match highest_index(s.drop_last()) {
            Some(i) => if s.last() > s[i] {
                Some(s.len() - 1)
            } else {
                Some(i)
            },
            None => Some(s.len() - 1),
        }
    }
}

/// `highest_index` finds a largest value, and no earlier position holds one as large.
pub proof fn lemma_highest_index(s: Seq<u64>)
    ensures
        match highest_index(s) {
            Some(m) => {
                &&& 0 <= m < s.len()
                &&& forall|j: int| 0 <= j < s.len() ==> #[trigger] s[j] <= s[m]
                &&& forall|j: int| 0 <= j < m ==> #[trigger] s[j] < s[m]
            },
            None => s.len() == 0,
        },
    decreases s.len(),
{
    if s.len() > 0 {
        let t = s.drop_last();
        lemma_highest_index(t);
        assert forall|j: int| 0 <= j < t.len() implies t[j] == s[j] by {}
    }
}

/// One step of a forward scan for the first largest value.
pub proof fn lemma_highest_index_step(s: Seq<u64>, k: int)
    requires
        0 <= k < s.len(),
    ensures
        highest_index(s.subrange(0, k + 1)) == match highest_index(s.subrange(0, k)) {
            Some(i) => if s[k] > s[i] {
                Some(k)
            } else {
                Some(i)
            },
            None => Some(k),
        },
{
    let pre = s.subrange(0, k + 1);
    assert(pre.drop_last() =~= s.subrange(0, k));
    lemma_highest_index(s.subrange(0, k));
    match highest_index(s.subrange(0, k)) {
        Some(i) => {
            assert(pre[i] == s[i]);
        },
        None => {},
    }
}

} // verus!
