//! Small facts about sequences that several modules share.

use vstd::prelude::*;

verus! {

/// The numbers below `n` that satisfy `keep`, in ascending order.
pub open spec fn ascending_where(n: nat, keep: spec_fn(int) -> bool) -> Seq<usize>
    decreases n,
{
    if n == 0 {
        Seq::empty()
    } else {
        let rest = ascending_where((n - 1) as nat, keep);
        if keep(n - 1) {
            rest.push((n - 1) as usize)
        } else {
            rest
        }
    }
}

/// What `ascending_where` lists: exactly the numbers that satisfy `keep`, each
/// once and in order.
pub proof fn lemma_ascending_where(n: nat, keep: spec_fn(int) -> bool)
    requires
        n <= usize::MAX + 1,
    ensures
        forall|x: usize| #[trigger] ascending_where(n, keep).contains(x) <==> (x < n && keep(x as int)),
        forall|i: int, j: int|
            0 <= i < j < ascending_where(n, keep).len() ==> #[trigger] ascending_where(n, keep)[i]
                < #[trigger] ascending_where(n, keep)[j],
    decreases n,
{
    if n > 0 {
        let rest = ascending_where((n - 1) as nat, keep);
        let all = ascending_where(n, keep);
        lemma_ascending_where((n - 1) as nat, keep);
        assert forall|x: usize| #[trigger] all.contains(x) <==> (x < n && keep(x as int)) by {
            if all.contains(x) {
                let i = choose|i: int| 0 <= i < all.len() && all[i] == x;
                if i < rest.len() {
                    assert(rest[i] == x);
                    assert(rest.contains(x));
                }
            }
            if x < n && keep(x as int) {
                if x < n - 1 {
                    assert(rest.contains(x));
                    let i = choose|i: int| 0 <= i < rest.len() && rest[i] == x;
                    assert(all[i] == x);
                } else {
                    assert(all[all.len() - 1] == x);
                }
            }
        }
        assert forall|i: int, j: int| 0 <= i < j < all.len() implies #[trigger] all[i] < #[trigger] all[j] by {
            if j < rest.len() {
                assert(rest[i] < rest[j]);
            } else {
                assert(rest.contains(rest[i]));
            }
        }
    }
}

/// How many items of a sequence satisfy `keep`.
pub open spec fn count_where<A>(s: Seq<A>, keep: spec_fn(A) -> bool) -> nat
    decreases s.len(),
{
    if s.len() == 0 {
        0
    } else {
        count_where(s.drop_last(), keep) + if keep(s.last()) {
            1nat
        } else {
            0nat
        }
    }
}

/// Counting over a concatenation adds up.
pub proof fn lemma_count_where_add<A>(a: Seq<A>, b: Seq<A>, keep: spec_fn(A) -> bool)
    ensures
        count_where(a + b, keep) == count_where(a, keep) + count_where(b, keep),
    decreases b.len(),
{
    if b.len() == 0 {
        assert(a + b =~= a);
    } else {
        lemma_count_where_add(a, b.drop_last(), keep);
        assert((a + b).drop_last() =~= a + b.drop_last());
    }
}

/// Where all items or none satisfy `keep`, the count is the length or 0.
pub proof fn lemma_count_where_uniform<A>(s: Seq<A>, keep: spec_fn(A) -> bool, all: bool)
    requires
        forall|i: int| 0 <= i < s.len() ==> keep(#[trigger] s[i]) == all,
    ensures
        count_where(s, keep) == if all {
            s.len()
        } else {
            0
        },
    decreases s.len(),
{
    if s.len() > 0 {
        assert(keep(s[s.len() - 1]) == all);
        assert forall|i: int| 0 <= i < s.drop_last().len() implies keep(#[trigger] s.drop_last()[i]) == all by {
            assert(s.drop_last()[i] == s[i]);
        }
        lemma_count_where_uniform(s.drop_last(), keep, all);
    }
}

/// Replacing one item changes the count by that item alone.
pub proof fn lemma_count_where_update<A>(s: Seq<A>, i: int, x: A, keep: spec_fn(A) -> bool)
    requires
        0 <= i < s.len(),
    ensures
        count_where(s.update(i, x), keep) + (if keep(s[i]) {
            1nat
        } else {
            0nat
        }) == count_where(s, keep) + if keep(x) {
            1nat
        } else {
            0nat
        },
    decreases s.len(),
{
    let t = s.update(i, x);
    if i == s.len() - 1 {
        assert(t.drop_last() =~= s.drop_last());
    } else {
        assert(t.drop_last() =~= s.drop_last().update(i, x));
        lemma_count_where_update(s.drop_last(), i, x, keep);
    }
}

/// A sequence with two of its items exchanged.
pub open spec fn swapped<A>(s: Seq<A>, i: int, j: int) -> Seq<A> {
    s.update(i, s[j]).update(j, s[i])
}

/// Replacing an item takes it out of the multiset and puts the new one in.
pub proof fn lemma_multiset_update<A>(s: Seq<A>, i: int, x: A)
    requires
        0 <= i < s.len(),
    ensures
        s.update(i, x).to_multiset() == s.to_multiset().remove(s[i]).insert(x),
{
    broadcast use vstd::seq_lib::group_to_multiset_ensures;

    assert(s.update(i, x) =~= s.remove(i).insert(i, x));
    vstd::seq_lib::to_multiset_remove(s, i);
    vstd::seq_lib::to_multiset_insert(s.remove(i), i, x);
}

/// Exchanging two items keeps the multiset.
pub proof fn lemma_swap_keeps_items<A>(s: Seq<A>, i: int, j: int)
    requires
        0 <= i < s.len(),
        0 <= j < s.len(),
    ensures
        swapped(s, i, j).to_multiset() == s.to_multiset(),
{
    broadcast use vstd::seq_lib::group_to_multiset_ensures;

    let half = s.update(i, s[j]);
    lemma_multiset_update(s, i, s[j]);
    lemma_multiset_update(half, j, s[i]);
    assert(s.contains(s[i]) && s.contains(s[j]));
    assert(s.to_multiset().count(s[i]) > 0 && s.to_multiset().count(s[j]) > 0);
    if i == j {
        assert(swapped(s, i, j) =~= s);
    } else {
        assert(half[j] == s[j]);
        assert(half.to_multiset().remove(s[j]).insert(s[i]) =~= s.to_multiset());
    }
}

/// Exchanging two items keeps the count.
pub proof fn lemma_swap_keeps_count<A>(s: Seq<A>, i: int, j: int, keep: spec_fn(A) -> bool)
    requires
        0 <= i < s.len(),
        0 <= j < s.len(),
    ensures
        count_where(swapped(s, i, j), keep) == count_where(s, keep),
{
    let half = s.update(i, s[j]);
    lemma_count_where_update(s, i, s[j], keep);
    lemma_count_where_update(half, j, s[i], keep);
}

/// Counting depends only on which items there are, not on their order.
pub proof fn lemma_count_where_same_items<A>(s: Seq<A>, t: Seq<A>, keep: spec_fn(A) -> bool)
    requires
        s.to_multiset() == t.to_multiset(),
    ensures
        count_where(s, keep) == count_where(t, keep),
    decreases s.len(),
{
    broadcast use vstd::seq_lib::group_to_multiset_ensures;

    vstd::seq_lib::to_multiset_len(s);
    vstd::seq_lib::to_multiset_len(t);
    if s.len() > 0 {
        let last = s.last();
        assert(s.contains(last));
        vstd::seq_lib::to_multiset_contains(s, last);
        vstd::seq_lib::to_multiset_contains(t, last);
        let i = choose|i: int| 0 <= i < t.len() && t[i] == last;
        let fewer = t.remove(i);
        vstd::seq_lib::to_multiset_remove(t, i);
        vstd::seq_lib::to_multiset_build(s.drop_last(), last);
        assert(s.drop_last().push(last) =~= s);
        assert(s.drop_last().to_multiset() =~= fewer.to_multiset());
        lemma_count_where_same_items(s.drop_last(), fewer, keep);
        let front = t.take(i);
        let back = t.skip(i + 1);
        assert(t =~= front.push(last) + back);
        assert(fewer =~= front + back);
        lemma_count_where_add(front.push(last), back, keep);
        lemma_count_where_add(front, back, keep);
        assert(front.push(last).drop_last() =~= front);
    }
}

/// Tests that agree on all items of a list count the same.
pub proof fn lemma_count_where_agreeing<A>(s: Seq<A>, p: spec_fn(A) -> bool, q: spec_fn(A) -> bool)
    requires
        forall|i: int| 0 <= i < s.len() ==> p(#[trigger] s[i]) == q(s[i]),
    ensures
        count_where(s, p) == count_where(s, q),
    decreases s.len(),
{
    if s.len() > 0 {
        assert(p(s[s.len() - 1]) == q(s[s.len() - 1]));
        assert forall|i: int| 0 <= i < s.drop_last().len() implies p(#[trigger] s.drop_last()[i]) == q(
            s.drop_last()[i],
        ) by {
            assert(s.drop_last()[i] == s[i]);
        }
        lemma_count_where_agreeing(s.drop_last(), p, q);
    }
}

/// Where fewer items pass a test than another one that lets all of them pass,
/// an item passes only the second.
pub proof fn lemma_count_where_more<A>(s: Seq<A>, p: spec_fn(A) -> bool, q: spec_fn(A) -> bool) -> (at: int)
    requires
        forall|i: int| 0 <= i < s.len() && p(#[trigger] s[i]) ==> q(s[i]),
        count_where(s, p) < count_where(s, q),
    ensures
        0 <= at < s.len(),
        q(s[at]),
        !p(s[at]),
    decreases s.len(),
{
    let last = s.len() - 1;
    if q(s[last]) && !p(s[last]) {
        last
    } else {
        let rest = s.drop_last();
        assert forall|i: int| 0 <= i < rest.len() && p(#[trigger] rest[i]) implies q(rest[i]) by {
            assert(rest[i] == s[i]);
        }
        assert(p(s[last]) ==> q(s[last]));
        lemma_count_where_more(rest, p, q)
    }
}

/// Listing numbers lists those that are wanted and no others, each once, from the
/// smallest to the largest.
pub proof fn law_wanted_numbers_are_listed(n: nat, keep: spec_fn(int) -> bool, x: usize, i: int, j: int)
    requires
        n <= usize::MAX + 1,
    ensures
        ascending_where(n, keep).contains(x) <==> x < n && keep(x as int),
        0 <= i < j < ascending_where(n, keep).len() ==> ascending_where(n, keep)[i] < ascending_where(n, keep)[j],
{
    lemma_ascending_where(n, keep);
}

/// Counting is filtering and taking the length.
pub proof fn law_counting_is_filtering<A>(s: Seq<A>, keep: spec_fn(A) -> bool)
    ensures
        count_where(s, keep) == s.filter(keep).len(),
    decreases s.len(),
{
    reveal(Seq::filter);
    if s.len() > 0 {
        law_counting_is_filtering(s.drop_last(), keep);
    }
}

} // verus!
