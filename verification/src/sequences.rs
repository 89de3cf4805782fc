//! Facts about filtered sequences that the registry and the event bus rest on.

use vstd::prelude::*;

verus! {

/// A sequence is what is left of itself without its last item, and that item.
pub proof fn lemma_split_last<A>(s: Seq<A>)
    requires
        s.len() > 0,
    ensures
        s == s.drop_last().push(s.last()),
{
    assert(s =~= s.drop_last().push(s.last()));
}

/// A filter that every item passes changes nothing.
pub proof fn lemma_filter_keeps_all<A>(s: Seq<A>, keep: spec_fn(A) -> bool)
    requires
        forall|i: int| 0 <= i < s.len() ==> keep(#[trigger] s[i]),
    ensures
        s.filter(keep) == s,
    decreases s.len(),
{
    if s.len() == 0 {
        assert(s.filter(keep) =~= s) by {
            reveal(Seq::filter);
        }
    } else {
        let t = s.drop_last();
        assert forall|i: int| 0 <= i < t.len() implies keep(#[trigger] t[i]) by {
            assert(t[i] == s[i]);
        }
        lemma_filter_keeps_all(t, keep);
        lemma_split_last(s);
        t.lemma_filter_push(s.last(), keep);
    }
}

/// A filter that no item passes leaves nothing.
pub proof fn lemma_filter_keeps_none<A>(s: Seq<A>, keep: spec_fn(A) -> bool)
    requires
        forall|i: int| 0 <= i < s.len() ==> !keep(#[trigger] s[i]),
    ensures
        s.filter(keep) == Seq::<A>::empty(),
    decreases s.len(),
{
    if s.len() == 0 {
        assert(s.filter(keep) =~= Seq::<A>::empty()) by {
            reveal(Seq::filter);
        }
    } else {
        let t = s.drop_last();
        assert forall|i: int| 0 <= i < t.len() implies !keep(#[trigger] t[i]) by {
            assert(t[i] == s[i]);
        }
        lemma_filter_keeps_none(t, keep);
        lemma_split_last(s);
        t.lemma_filter_push(s.last(), keep);
    }
}

/// A filter that exactly one item fails removes that item.
pub proof fn lemma_filter_drops_one<A>(s: Seq<A>, keep: spec_fn(A) -> bool, at: int)
    requires
        0 <= at < s.len(),
        !keep(s[at]),
        forall|i: int| 0 <= i < s.len() && i != at ==> keep(#[trigger] s[i]),
    ensures
        s.filter(keep) == s.remove(at),
    decreases s.len(),
{
    let t = s.drop_last();
    lemma_split_last(s);
    t.lemma_filter_push(s.last(), keep);
    if at == s.len() - 1 {
        assert forall|i: int| 0 <= i < t.len() implies keep(#[trigger] t[i]) by {
            assert(t[i] == s[i]);
        }
        lemma_filter_keeps_all(t, keep);
        assert(s.remove(at) =~= t);
    } else {
        assert forall|i: int| 0 <= i < t.len() && i != at implies keep(#[trigger] t[i]) by {
            assert(t[i] == s[i]);
        }
        assert(t[at] == s[at]);
        lemma_filter_drops_one(t, keep, at);
        assert(s.remove(at) =~= t.remove(at).push(s.last()));
    }
}

/// Every item of a filtered sequence passes the filter and comes from the
/// sequence; items keep their relative order.
pub proof fn lemma_filter_items<A>(s: Seq<A>, keep: spec_fn(A) -> bool)
    ensures
        s.filter(keep).len() <= s.len(),
        forall|k: int|
            0 <= k < s.filter(keep).len() ==> keep(#[trigger] s.filter(keep)[k]) && s.contains(
                s.filter(keep)[k],
            ),
        forall|i: int| 0 <= i < s.len() && keep(s[i]) ==> s.filter(keep).contains(#[trigger] s[i]),
    decreases s.len(),
{
    let f = s.filter(keep);
    if s.len() == 0 {
        assert(f =~= s) by {
            reveal(Seq::filter);
        }
    } else {
        let t = s.drop_last();
        let ft = t.filter(keep);
        lemma_filter_items(t, keep);
        lemma_split_last(s);
        t.lemma_filter_push(s.last(), keep);
        assert forall|k: int| 0 <= k < f.len() implies keep(#[trigger] f[k]) && s.contains(
            f[k],
        ) by {
            if k < ft.len() {
                assert(f[k] == ft[k]);
                assert(t.contains(ft[k]));
                let i = choose|i: int| 0 <= i < t.len() && t[i] == ft[k];
                assert(s[i] == ft[k]);
            } else {
                assert(f[k] == s[s.len() - 1]);
            }
        }
        assert forall|i: int| 0 <= i < s.len() && keep(s[i]) implies f.contains(
            #[trigger] s[i],
        ) by {
            if i < t.len() {
                assert(s[i] == t[i]);
                assert(ft.contains(t[i]));
                let k = choose|k: int| 0 <= k < ft.len() && ft[k] == t[i];
                assert(f[k] == s[i]);
            } else {
                assert(f[f.len() - 1] == s[i]);
            }
        }
    }
}

/// A relation that holds between every earlier and every later item of a
/// sequence holds between those of the filtered sequence.
pub proof fn lemma_filter_keeps_order<A>(
    s: Seq<A>,
    keep: spec_fn(A) -> bool,
    before: spec_fn(A, A) -> bool,
)
    requires
        forall|i: int, j: int| 0 <= i < j < s.len() ==> before(#[trigger] s[i], #[trigger] s[j]),
    ensures
        forall|i: int, j: int|
            0 <= i < j < s.filter(keep).len() ==> before(
                #[trigger] s.filter(keep)[i],
                #[trigger] s.filter(keep)[j],
            ),
    decreases s.len(),
{
    let f = s.filter(keep);
    if s.len() == 0 {
        assert(f =~= s) by {
            reveal(Seq::filter);
        }
    } else {
        let t = s.drop_last();
        let ft = t.filter(keep);
        assert forall|i: int, j: int| 0 <= i < j < t.len() implies before(
            #[trigger] t[i],
            #[trigger] t[j],
        ) by {
            assert(t[i] == s[i] && t[j] == s[j]);
        }
        lemma_filter_keeps_order(t, keep, before);
        lemma_filter_items(t, keep);
        lemma_split_last(s);
        t.lemma_filter_push(s.last(), keep);
        assert forall|i: int, j: int| 0 <= i < j < f.len() implies before(
            #[trigger] f[i],
            #[trigger] f[j],
        ) by {
            if j < ft.len() {
                assert(f[i] == ft[i] && f[j] == ft[j]);
            } else {
                assert(f[j] == s[s.len() - 1]);
                assert(f[i] == ft[i]);
                assert(t.contains(ft[i]));
                let k = choose|k: int| 0 <= k < t.len() && t[k] == ft[i];
                assert(s[k] == ft[i]);
            }
        }
    }
}

/// Filtering twice by the same test is filtering once.
pub proof fn lemma_filter_twice<A>(s: Seq<A>, keep: spec_fn(A) -> bool)
    ensures
        s.filter(keep).filter(keep) == s.filter(keep),
{
    lemma_filter_items(s, keep);
    lemma_filter_keeps_all(s.filter(keep), keep);
}

/// What a filter does to the first `k + 1` items, given what it does to the
/// first `k`.
pub proof fn lemma_filter_take_next<A>(s: Seq<A>, keep: spec_fn(A) -> bool, k: int)
    requires
        0 <= k < s.len(),
    ensures
        s.take(k + 1).filter(keep) == if keep(s[k]) {
            s.take(k).filter(keep).push(s[k])
        } else {
            s.take(k).filter(keep)
        },
{
    assert(s.take(k + 1) =~= s.take(k).push(s[k]));
    s.take(k).lemma_filter_push(s[k], keep);
}

} // verus!
