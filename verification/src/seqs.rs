//! The first position in a sequence where a predicate holds.

use vstd::prelude::*;

verus! {

/// The first index of `s` at which `p` holds, if any.
pub open spec fn first_where<A>(s: Seq<A>, p: spec_fn(A) -> bool) -> Option<int>
    decreases s.len(),
{
    if s.len() == 0 {
        None
    } else if p(s[0]) {
        Some(0)
    } else {
        match first_where(s.drop_first(), p) {
            Some(i) => Some(i + 1),
            None => None,
        }
    }
}

/// `first_where` gives the first index at which `p` holds, and `None` only when
/// `p` holds nowhere.
pub proof fn lemma_first_where<A>(s: Seq<A>, p: spec_fn(A) -> bool)
    ensures
        match first_where(s, p) {
            Some(i) => 0 <= i < s.len() && p(s[i]) && forall|j: int| 0 <= j < i ==> !p(#[trigger] s[j]),
            None => forall|j: int| 0 <= j < s.len() ==> !p(#[trigger] s[j]),
        },
    decreases s.len(),
{
    if s.len() > 0 && !p(s[0]) {
        lemma_first_where(s.drop_first(), p);
        assert forall|j: int| 1 <= j < s.len() implies s[j] == s.drop_first()[j - 1] by {}
    }
}

/// An index at which `p` holds, with `p` false before it, is `first_where`.
pub proof fn lemma_first_where_at<A>(s: Seq<A>, p: spec_fn(A) -> bool, i: int)
    requires
        0 <= i < s.len(),
        p(s[i]),
        forall|j: int| 0 <= j < i ==> !p(#[trigger] s[j]),
    ensures
        first_where(s, p) == Some(i),
{
    lemma_first_where(s, p);
    match first_where(s, p) {
        Some(k) => {
            if k < i {
                assert(!p(s[k]));
            } else if k > i {
                assert(!p(s[i]));
            }
        },
        None => {
            assert(!p(s[i]));
        },
    }
}

/// When `p` holds nowhere in `s`, `first_where` is `None`.
pub proof fn lemma_first_where_none<A>(s: Seq<A>, p: spec_fn(A) -> bool)
    requires
        forall|j: int| 0 <= j < s.len() ==> !p(#[trigger] s[j]),
    ensures
        first_where(s, p) is None,
{
    lemma_first_where(s, p);
    if let Some(k) = first_where(s, p) {
        assert(!p(s[k]));
    }
}

/// `acc` followed by the elements of `s` not seen before, in order.
pub open spec fn dedup_into<A>(acc: Seq<A>, s: Seq<A>) -> Seq<A>
    decreases s.len(),
{
    if s.len() == 0 {
        acc
    } else if acc.contains(s[0]) {
        dedup_into(acc, s.drop_first())
    } else {
        dedup_into(acc.push(s[0]), s.drop_first())
    }
}

/// Deduplication keeps each element once.
pub proof fn lemma_dedup_no_duplicates<A>(acc: Seq<A>, s: Seq<A>)
    requires
        acc.no_duplicates(),
    ensures
        dedup_into(acc, s).no_duplicates(),
    decreases s.len(),
{
    if s.len() > 0 {
        if acc.contains(s[0]) {
            lemma_dedup_no_duplicates(acc, s.drop_first());
        } else {
            assert(acc.push(s[0]).no_duplicates()) by {
                assert forall|i: int, j: int| 0 <= i < acc.len() + 1 && 0 <= j < acc.len() + 1 && i != j
                    implies acc.push(s[0])[i] != acc.push(s[0])[j] by {
                    if i == acc.len() {
                        assert(acc.contains(acc[j]));
                    } else if j == acc.len() {
                        assert(acc.contains(acc[i]));
                    }
                }
            }
            lemma_dedup_no_duplicates(acc.push(s[0]), s.drop_first());
        }
    }
}

/// Deduplication loses nothing: every element of `acc` and of `s` is kept.
pub proof fn lemma_dedup_covers<A>(acc: Seq<A>, s: Seq<A>)
    ensures
        forall|x: A| acc.contains(x) ==> #[trigger] dedup_into(acc, s).contains(x),
        forall|i: int| 0 <= i < s.len() ==> dedup_into(acc, s).contains(#[trigger] s[i]),
    decreases s.len(),
{
    if s.len() > 0 {
        let next = if acc.contains(s[0]) { acc } else { acc.push(s[0]) };
        lemma_dedup_covers(next, s.drop_first());
        assert(dedup_into(acc, s) == dedup_into(next, s.drop_first()));
        assert(next.contains(s[0])) by {
            if !acc.contains(s[0]) {
                assert(next[acc.len() as int] == s[0]);
            }
        }
        assert forall|x: A| acc.contains(x) implies #[trigger] dedup_into(acc, s).contains(x) by {
            if !acc.contains(s[0]) {
                let k = choose|k: int| 0 <= k < acc.len() && acc[k] == x;
                assert(next[k] == x);
            }
        }
        assert forall|i: int| 0 <= i < s.len() implies dedup_into(acc, s).contains(#[trigger] s[i]) by {
            if i == 0 {
            } else {
                assert(s[i] == s.drop_first()[i - 1]);
            }
        }
    }
}

} // verus!
