//! Stable ordering of an event batch by ascending timestamp.
//!
//! The specification-level sort inserts each element of the input, left to
//! right, into the sorted prefix after every element whose timestamp does not
//! exceed its own. That pins the result of [`sort_events`] down completely:
//! ascending timestamps, the same multiset of events, and among equal
//! timestamps the original input order.

use vstd::multiset::Multiset;
use vstd::prelude::*;

use crate::rewindable::Rewindable;

verus! {

/// `s` is ordered by non-decreasing timestamp.
pub open spec fn sorted_by_ts<T: Rewindable>(s: Seq<T>) -> bool {
    forall|i: int, j: int|
        0 <= i <= j < s.len() ==> #[trigger] s[i].ts() <= #[trigger] s[j].ts()
}

/// `x` inserted into `s` after every element whose timestamp does not exceed
/// `x`'s own: the insertion step of a stable sort.
pub open spec fn insert_by_ts<T: Rewindable>(x: T, s: Seq<T>) -> Seq<T>
    decreases s.len(),
{
    if s.len() == 0 {
        seq![x]
    } else if x.ts() < s[0].ts() {
        seq![x] + s
    } else {
        seq![s[0]] + insert_by_ts(x, s.drop_first())
    }
}

/// The stable sort of `s` by ascending timestamp.
pub open spec fn stable_sorted<T: Rewindable>(s: Seq<T>) -> Seq<T>
    decreases s.len(),
{
    if s.len() == 0 {
        Seq::empty()
    } else {
        insert_by_ts(s.last(), stable_sorted(s.drop_last()))
    }
}

/// The events carrying timestamp `k`, in order.
pub open spec fn with_ts<T: Rewindable>(k: int) -> spec_fn(T) -> bool {
    |x: T| x.ts() == k
}

proof fn lemma_insert_by_ts_len<T: Rewindable>(x: T, s: Seq<T>)
    ensures
        insert_by_ts(x, s).len() == s.len() + 1,
    decreases s.len(),
{
    if s.len() == 0 {
    } else if x.ts() < s[0].ts() {
    } else {
        lemma_insert_by_ts_len(x, s.drop_first());
    }
}

proof fn lemma_insert_by_ts_sorted<T: Rewindable>(x: T, s: Seq<T>)
    requires
        sorted_by_ts(s),
    ensures
        sorted_by_ts(insert_by_ts(x, s)),
    decreases s.len(),
{
    if s.len() == 0 {
    } else if x.ts() < s[0].ts() {
    } else {
        assert(sorted_by_ts(s.drop_first()));
        lemma_insert_by_ts_sorted(x, s.drop_first());
        lemma_insert_by_ts_len(x, s.drop_first());
        let r = seq![s[0]] + insert_by_ts(x, s.drop_first());
        assert forall|i: int, j: int| 0 <= i <= j < r.len() implies #[trigger] r[i].ts()
            <= #[trigger] r[j].ts() by {
            if i == 0 && j > 0 {
                lemma_insert_by_ts_smallest(x, s.drop_first(), j - 1);
            }
        }
    }
}

/// Every element of `insert_by_ts(x, s)` has a timestamp at least as large as
/// the smaller of `x`'s and the least timestamp present in `s`.
proof fn lemma_insert_by_ts_smallest<T: Rewindable>(x: T, s: Seq<T>, i: int)
    requires
        sorted_by_ts(s),
        0 <= i < insert_by_ts(x, s).len(),
    ensures
        insert_by_ts(x, s)[i].ts() >= x.ts() || (s.len() > 0 && insert_by_ts(x, s)[i].ts()
            >= s[0].ts()),
    decreases s.len(),
{
    lemma_insert_by_ts_len(x, s);
    if s.len() == 0 {
    } else if x.ts() < s[0].ts() {
    } else {
        if i > 0 {
            assert(sorted_by_ts(s.drop_first()));
            lemma_insert_by_ts_smallest(x, s.drop_first(), i - 1);
        }
    }
}

proof fn lemma_insert_by_ts_multiset<T: Rewindable>(x: T, s: Seq<T>)
    ensures
        insert_by_ts(x, s).to_multiset() =~= s.to_multiset().insert(x),
    decreases s.len(),
{
    broadcast use vstd::seq_lib::group_to_multiset_ensures;

    if s.len() == 0 {
        assert(seq![x] =~= Seq::<T>::empty().push(x));
    } else if x.ts() < s[0].ts() {
        vstd::seq_lib::lemma_multiset_commutative(seq![x], s);
        assert(seq![x].to_multiset() =~= Multiset::<T>::empty().insert(x)) by {
            assert(seq![x] =~= Seq::<T>::empty().push(x));
        }
    } else {
        lemma_insert_by_ts_multiset(x, s.drop_first());
        vstd::seq_lib::lemma_multiset_commutative(seq![s[0]], insert_by_ts(x, s.drop_first()));
        vstd::seq_lib::lemma_multiset_commutative(seq![s[0]], s.drop_first());
        assert(seq![s[0]] + s.drop_first() =~= s);
    }
}

pub proof fn lemma_stable_sorted_len<T: Rewindable>(s: Seq<T>)
    ensures
        stable_sorted(s).len() == s.len(),
    decreases s.len(),
{
    if s.len() > 0 {
        lemma_stable_sorted_len(s.drop_last());
        lemma_insert_by_ts_len(s.last(), stable_sorted(s.drop_last()));
    }
}

pub proof fn lemma_stable_sorted_sorted<T: Rewindable>(s: Seq<T>)
    ensures
        sorted_by_ts(stable_sorted(s)),
    decreases s.len(),
{
    if s.len() > 0 {
        lemma_stable_sorted_sorted(s.drop_last());
        lemma_insert_by_ts_sorted(s.last(), stable_sorted(s.drop_last()));
    }
}

pub proof fn lemma_stable_sorted_multiset<T: Rewindable>(s: Seq<T>)
    ensures
        stable_sorted(s).to_multiset() =~= s.to_multiset(),
    decreases s.len(),
{
    broadcast use vstd::seq_lib::group_to_multiset_ensures;

    if s.len() > 0 {
        lemma_stable_sorted_multiset(s.drop_last());
        lemma_insert_by_ts_multiset(s.last(), stable_sorted(s.drop_last()));
        assert(s =~= s.drop_last().push(s.last()));
    }
}

/// `insert_by_ts` places `x` exactly at the first position whose element's
/// timestamp strictly exceeds `x`'s.
proof fn lemma_insert_by_ts_at<T: Rewindable>(x: T, s: Seq<T>, pos: int)
    requires
        sorted_by_ts(s),
        0 <= pos <= s.len(),
        forall|m: int| 0 <= m < pos ==> #[trigger] s[m].ts() <= x.ts(),
        forall|m: int| pos <= m < s.len() ==> x.ts() < #[trigger] s[m].ts(),
    ensures
        insert_by_ts(x, s) =~= s.take(pos) + seq![x] + s.skip(pos),
    decreases s.len(),
{
    if s.len() == 0 {
        assert(s.take(0) =~= Seq::<T>::empty());
        assert(s.skip(0) =~= s);
    } else if x.ts() < s[0].ts() {
        assert(pos == 0);
        assert(s.take(0) =~= Seq::<T>::empty());
        assert(s.skip(0) =~= s);
    } else {
        assert(pos >= 1);
        let rest = s.drop_first();
        assert(sorted_by_ts(rest));
        lemma_insert_by_ts_at(x, rest, pos - 1);
        assert(seq![s[0]] + rest.take(pos - 1) =~= s.take(pos));
        assert(rest.skip(pos - 1) =~= s.skip(pos));
    }
}

/// Sort the batch stably by ascending timestamp, in place: an insertion sort
/// whose result is exactly the specification-level stable sort.
pub fn sort_events<T: Rewindable>(events: &mut Vec<T>)
    ensures
        final(events)@ == stable_sorted(old(events)@),
{
    let ghost orig = events@;
    let n = events.len();
    let mut i: usize = 0;
    while i < n
        invariant
            i <= n,
            events@.len() == n,
            orig.len() == n,
            events@.take(i as int) == stable_sorted(orig.take(i as int)),
            events@.skip(i as int) == orig.skip(i as int),
        decreases n - i,
    {
        let ghost pre = events@;
        let ghost prefix = pre.take(i as int);
        let ghost x_spec = pre[i as int];
        proof {
            assert(x_spec == orig.skip(i as int)[0]);
            assert(x_spec == orig[i as int]);
            lemma_stable_sorted_sorted(orig.take(i as int));
            assert(sorted_by_ts(prefix));
        }
        let x_ts = events[i].timestamp();
        let mut j: usize = 0;
        while j < i && events[j].timestamp() <= x_ts
            invariant
                j <= i,
                i < n,
                events@ == pre,
                events@.len() == n,
                x_ts as int == x_spec.ts(),
                forall|m: int| 0 <= m < j ==> #[trigger] pre[m].ts() <= x_spec.ts(),
            decreases i - j,
        {
            j = j + 1;
        }
        proof {
            assert(forall|m: int| j <= m < i ==> x_spec.ts() < #[trigger] prefix[m].ts()) by {
                if j < i {
                    assert(x_spec.ts() < prefix[j as int].ts());
                    assert(forall|m: int|
                        j <= m < i ==> prefix[j as int].ts() <= #[trigger] prefix[m].ts());
                }
            }
            lemma_insert_by_ts_at(x_spec, prefix, j as int);
        }
        let x = events.remove(i);
        events.insert(j, x);
        proof {
            let post = events@;
            assert(post =~= pre.remove(i as int).insert(j as int, x_spec));
            assert(post.take(i as int + 1) =~= prefix.take(j as int) + seq![x_spec]
                + prefix.skip(j as int));
            assert(post.take(i as int + 1) =~= insert_by_ts(x_spec, prefix));
            assert(orig.take(i as int + 1).drop_last() =~= orig.take(i as int));
            assert(orig.take(i as int + 1).last() == x_spec);
            assert(stable_sorted(orig.take(i as int + 1)) == insert_by_ts(
                x_spec,
                stable_sorted(orig.take(i as int)),
            ));
            assert forall|q: int| i as int + 1 <= q < n implies post[q] == orig[q] by {
                assert(post[q] == pre.remove(i as int)[q - 1]);
                assert(pre.remove(i as int)[q - 1] == pre[q]);
                assert(pre[q] == pre.skip(i as int)[q - i as int]);
                assert(orig.skip(i as int)[q - i as int] == orig[q]);
            }
            assert(post.skip(i as int + 1) =~= orig.skip(i as int + 1));
        }
        i = i + 1;
    }
    proof {
        assert(events@.take(n as int) =~= events@);
        assert(orig.take(n as int) =~= orig);
    }
}

/// A sequence none of whose elements carries timestamp `k` filters down to
/// nothing under `with_ts(k)`.
proof fn lemma_filter_ts_empty<T: Rewindable>(s: Seq<T>, k: int)
    requires
        forall|i: int| 0 <= i < s.len() ==> #[trigger] s[i].ts() != k,
    ensures
        s.filter(with_ts(k)) =~= Seq::<T>::empty(),
    decreases s.len(),
{
    reveal(Seq::filter);
    if s.len() > 0 {
        assert(forall|i: int|
            0 <= i < s.drop_last().len() ==> #[trigger] s.drop_last()[i].ts() != k);
        lemma_filter_ts_empty(s.drop_last(), k);
    }
}

proof fn lemma_filter_singleton<T: Rewindable>(x: T, p: spec_fn(T) -> bool)
    ensures
        seq![x].filter(p) =~= if p(x) {
            seq![x]
        } else {
            Seq::<T>::empty()
        },
{
    reveal(Seq::filter);
    assert(seq![x].drop_last() =~= Seq::<T>::empty());
    assert(Seq::<T>::empty().filter(p) =~= Seq::<T>::empty());
    assert(seq![x].last() == x);
    assert(Seq::<T>::empty().push(x) =~= seq![x]);
}

/// Inserting `x` into a sorted sequence puts it after every element with an
/// equal timestamp: filtering by any timestamp value keeps the input order,
/// with `x` appended last among its equals.
proof fn lemma_insert_by_ts_filter<T: Rewindable>(x: T, s: Seq<T>, k: int)
    requires
        sorted_by_ts(s),
    ensures
        insert_by_ts(x, s).filter(with_ts(k)) =~= if x.ts() == k {
            s.filter(with_ts(k)).push(x)
        } else {
            s.filter(with_ts(k))
        },
    decreases s.len(),
{
    let p = with_ts::<T>(k);
    broadcast use Seq::filter_distributes_over_add;

    lemma_filter_singleton(x, p);
    if s.len() == 0 {
        assert(seq![x] =~= Seq::<T>::empty().push(x));
    } else if x.ts() < s[0].ts() {
        assert(insert_by_ts(x, s) == seq![x] + s);
        assert((seq![x] + s).filter(p) =~= seq![x].filter(p) + s.filter(p));
        if x.ts() == k {
            assert(forall|i: int| 0 <= i < s.len() ==> #[trigger] s[i].ts() != k) by {
                assert(forall|i: int| 0 <= i < s.len() ==> s[0].ts() <= #[trigger] s[i].ts());
            }
            lemma_filter_ts_empty(s, k);
            assert((seq![x] + s).filter(p) =~= s.filter(p).push(x));
        } else {
            assert((seq![x] + s).filter(p) =~= s.filter(p));
        }
    } else {
        let rest = s.drop_first();
        assert(sorted_by_ts(rest));
        lemma_insert_by_ts_filter(x, rest, k);
        lemma_filter_singleton(s[0], p);
        assert(insert_by_ts(x, s) == seq![s[0]] + insert_by_ts(x, rest));
        assert((seq![s[0]] + insert_by_ts(x, rest)).filter(p) =~= seq![s[0]].filter(p)
            + insert_by_ts(x, rest).filter(p));
        assert(s =~= seq![s[0]] + rest);
        assert(s.filter(p) =~= seq![s[0]].filter(p) + rest.filter(p));
        if x.ts() == k {
            assert(seq![s[0]].filter(p) + rest.filter(p).push(x) =~= (seq![s[0]].filter(p)
                + rest.filter(p)).push(x));
        }
    }
}

/// Stability of the sort: for every timestamp value, the events carrying it
/// appear in the sorted batch exactly as they appeared in the input, in the
/// same order. Together with sortedness and multiset preservation this pins
/// the sorted batch down completely.
pub proof fn lemma_stable_sorted_stable<T: Rewindable>(s: Seq<T>, k: int)
    ensures
        stable_sorted(s).filter(with_ts(k)) =~= s.filter(with_ts(k)),
    decreases s.len(),
{
    let p = with_ts::<T>(k);
    reveal(Seq::filter);
    if s.len() > 0 {
        lemma_stable_sorted_stable(s.drop_last(), k);
        lemma_stable_sorted_sorted(s.drop_last());
        lemma_insert_by_ts_filter(s.last(), stable_sorted(s.drop_last()), k);
    }
}

} // verus!
