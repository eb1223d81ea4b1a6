//! Stable ordering of rows by a "comes before" relation, and the facts that
//! make such an ordering a sorted permutation.
use vstd::multiset::Multiset;
use vstd::prelude::*;

verus! {

broadcast use vstd::seq_lib::group_to_multiset_ensures;

/// `sorted` with `x` placed after every element that `x` does not come
/// before, and before the run of trailing elements that it comes before.
pub open spec fn insert_ordered<A>(sorted: Seq<A>, x: A, before: spec_fn(A, A) -> bool) -> Seq<
    A,
>
    decreases sorted.len(),
{
    if sorted.len() == 0 {
        seq![x]
    } else if before(x, sorted.last()) {
        insert_ordered(sorted.drop_last(), x, before).push(sorted.last())
    } else {
        sorted.push(x)
    }
}

/// The elements of `s`, ordered by `before` (stably: elements that are not
/// ordered against each other keep their order in `s`).
pub open spec fn sort_ordered<A>(s: Seq<A>, before: spec_fn(A, A) -> bool) -> Seq<A>
    decreases s.len(),
{
    if s.len() == 0 {
        s
    } else {
        insert_ordered(sort_ordered(s.drop_last(), before), s.last(), before)
    }
}

/// Every element of `s` comes before every later one.
pub open spec fn is_ordered<A>(s: Seq<A>, before: spec_fn(A, A) -> bool) -> bool {
    forall|i: int, j: int| 0 <= i < j < s.len() ==> before(#[trigger] s[i], #[trigger] s[j])
}

/// `before` is a strict total order on the elements of `s`.
pub open spec fn strict_total_on<A>(s: Seq<A>, before: spec_fn(A, A) -> bool) -> bool {
    &&& forall|a: A| s.contains(a) ==> !before(a, a)
    &&& forall|a: A, b: A, c: A|
        s.contains(a) && s.contains(b) && s.contains(c) && #[trigger] before(a, b)
            && #[trigger] before(b, c) ==> before(a, c)
    &&& forall|a: A, b: A| s.contains(a) && s.contains(b) ==> a == b || before(a, b) || before(b, a)
}

/// Placing `x` at position `k`, where the elements from `k` on are exactly
/// the trailing ones that `x` comes before, is what `insert_ordered` does.
pub proof fn lemma_insert_ordered_at<A>(
    sorted: Seq<A>,
    x: A,
    before: spec_fn(A, A) -> bool,
    k: int,
)
    requires
        0 <= k <= sorted.len(),
        forall|j: int| k <= j < sorted.len() ==> before(x, #[trigger] sorted[j]),
        k == 0 || !before(x, sorted[k - 1]),
    ensures
        insert_ordered(sorted, x, before) == sorted.insert(k, x),
    decreases sorted.len(),
{
    if sorted.len() == 0 {
        assert(sorted.insert(k, x) =~= seq![x]);
    } else if k == sorted.len() {
        assert(sorted.insert(k, x) =~= sorted.push(x));
    } else {
        let last = sorted.last();
        assert(before(x, sorted[sorted.len() - 1]));
        lemma_insert_ordered_at(sorted.drop_last(), x, before, k);
        assert(sorted.drop_last().insert(k, x).push(last) =~= sorted.insert(k, x));
    }
}

/// Inserting keeps every element and adds `x`.
pub proof fn lemma_insert_ordered_multiset<A>(sorted: Seq<A>, x: A, before: spec_fn(A, A) -> bool)
    ensures
        insert_ordered(sorted, x, before).to_multiset() == sorted.to_multiset().insert(x),
    decreases sorted.len(),
{
    if sorted.len() == 0 {
        assert(seq![x] =~= Seq::<A>::empty().push(x));
        assert(Seq::<A>::empty().to_multiset() =~= Multiset::empty());
    } else if before(x, sorted.last()) {
        lemma_insert_ordered_multiset(sorted.drop_last(), x, before);
        assert(sorted =~= sorted.drop_last().push(sorted.last()));
        assert(sorted.to_multiset() =~= sorted.drop_last().to_multiset().insert(sorted.last()));
        assert(insert_ordered(sorted, x, before).to_multiset() =~= sorted.to_multiset().insert(x));
    }
}

/// Ordering keeps exactly the elements of `s`, each as often as it occurs.
pub proof fn lemma_sort_ordered_multiset<A>(s: Seq<A>, before: spec_fn(A, A) -> bool)
    ensures
        sort_ordered(s, before).to_multiset() == s.to_multiset(),
    decreases s.len(),
{
    if s.len() == 0 {
    } else {
        lemma_sort_ordered_multiset(s.drop_last(), before);
        lemma_insert_ordered_multiset(sort_ordered(s.drop_last(), before), s.last(), before);
        assert(s =~= s.drop_last().push(s.last()));
    }
}

/// An element occurs in the ordered sequence exactly when it occurs in `s`.
pub proof fn lemma_sort_ordered_contains<A>(s: Seq<A>, before: spec_fn(A, A) -> bool, a: A)
    ensures
        sort_ordered(s, before).contains(a) <==> s.contains(a),
{
    lemma_sort_ordered_multiset(s, before);
    vstd::seq_lib::to_multiset_contains(s, a);
    vstd::seq_lib::to_multiset_contains(sort_ordered(s, before), a);
    if sort_ordered(s, before).contains(a) {
        assert(sort_ordered(s, before).to_multiset().count(a) > 0);
    }
    if s.contains(a) {
        assert(s.to_multiset().count(a) > 0);
    }
}

/// The ordered sequence has as many elements as `s`.
pub proof fn lemma_sort_ordered_len<A>(s: Seq<A>, before: spec_fn(A, A) -> bool)
    ensures
        sort_ordered(s, before).len() == s.len(),
{
    lemma_sort_ordered_multiset(s, before);
    vstd::seq_lib::to_multiset_len(s);
    vstd::seq_lib::to_multiset_len(sort_ordered(s, before));
}

proof fn lemma_insert_ordered_contains<A>(
    sorted: Seq<A>,
    x: A,
    before: spec_fn(A, A) -> bool,
    a: A,
)
    ensures
        insert_ordered(sorted, x, before).contains(a) <==> (sorted.contains(a) || a == x),
{
    lemma_insert_ordered_multiset(sorted, x, before);
    vstd::seq_lib::to_multiset_contains(sorted, a);
    vstd::seq_lib::to_multiset_contains(insert_ordered(sorted, x, before), a);
    if insert_ordered(sorted, x, before).contains(a) {
        assert(insert_ordered(sorted, x, before).to_multiset().count(a) > 0);
    }
    if sorted.contains(a) {
        assert(sorted.to_multiset().count(a) > 0);
    }
    if a == x {
        assert(insert_ordered(sorted, x, before).to_multiset().count(a) > 0);
    }
}

proof fn lemma_insert_ordered_sorted<A>(
    sorted: Seq<A>,
    x: A,
    before: spec_fn(A, A) -> bool,
    all: Seq<A>,
)
    requires
        is_ordered(sorted, before),
        strict_total_on(all, before),
        forall|a: A| sorted.contains(a) ==> all.contains(a),
        all.contains(x),
        !sorted.contains(x),
    ensures
        is_ordered(insert_ordered(sorted, x, before), before),
    decreases sorted.len(),
{
    if sorted.len() == 0 {
    } else {
        let last = sorted.last();
        assert(sorted.contains(last));
        if before(x, last) {
            let rest = sorted.drop_last();
            assert forall|a: A| rest.contains(a) implies all.contains(a) by {
                let i = choose|i: int| 0 <= i < rest.len() && rest[i] == a;
                assert(sorted[i] == a);
            }
            assert(!rest.contains(x)) by {
                if rest.contains(x) {
                    let i = choose|i: int| 0 <= i < rest.len() && rest[i] == x;
                    assert(sorted[i] == x);
                }
            }
            lemma_insert_ordered_sorted(rest, x, before, all);
            let ins = insert_ordered(rest, x, before);
            assert forall|i: int, j: int| 0 <= i < j < ins.push(last).len() implies before(
                #[trigger] ins.push(last)[i],
                #[trigger] ins.push(last)[j],
            ) by {
                if j == ins.len() {
                    let e = ins[i];
                    assert(ins.contains(e));
                    lemma_insert_ordered_contains(rest, x, before, e);
                    if e != x {
                        let m = choose|m: int| 0 <= m < rest.len() && rest[m] == e;
                        assert(sorted[m] == e);
                        assert(before(sorted[m], sorted[sorted.len() - 1]));
                    }
                }
            }
        } else {
            assert(x != last);
            assert(before(last, x));
            assert forall|i: int, j: int| 0 <= i < j < sorted.push(x).len() implies before(
                #[trigger] sorted.push(x)[i],
                #[trigger] sorted.push(x)[j],
            ) by {
                if j == sorted.len() && i < sorted.len() - 1 {
                    assert(before(sorted[i], sorted[sorted.len() - 1]));
                    assert(all.contains(sorted[i]));
                }
            }
        }
    }
}

/// When `before` is a strict total order on the elements of `s` and no
/// element occurs twice, the ordered sequence is sorted by `before`.
pub proof fn lemma_sort_ordered_sorted<A>(s: Seq<A>, before: spec_fn(A, A) -> bool)
    requires
        strict_total_on(s, before),
        s.no_duplicates(),
    ensures
        is_ordered(sort_ordered(s, before), before),
    decreases s.len(),
{
    if s.len() > 0 {
        let rest = s.drop_last();
        assert forall|a: A| rest.contains(a) implies s.contains(a) by {
            let i = choose|i: int| 0 <= i < rest.len() && rest[i] == a;
            assert(s[i] == a);
        }
        assert(rest.no_duplicates());
        assert(strict_total_on(rest, before));
        lemma_sort_ordered_sorted(rest, before);
        assert forall|a: A| sort_ordered(rest, before).contains(a) implies s.contains(a) by {
            lemma_sort_ordered_contains(rest, before, a);
        }
        assert(!sort_ordered(rest, before).contains(s.last())) by {
            lemma_sort_ordered_contains(rest, before, s.last());
            if rest.contains(s.last()) {
                let i = choose|i: int| 0 <= i < rest.len() && rest[i] == s.last();
                assert(s[i] == s[s.len() - 1]);
            }
        }
        assert(s.contains(s.last())) by {
            assert(s[s.len() - 1] == s.last());
        }
        lemma_insert_ordered_sorted(sort_ordered(rest, before), s.last(), before, s);
    }
}

} // verus!
