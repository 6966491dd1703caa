//! Keeping, in order, the images of the items that a partial map accepts.
use vstd::prelude::*;

verus! {

/// `o` as a list of at most one item.
pub open spec fn opt_seq<B>(o: Option<B>) -> Seq<B> {
    match o {
        Some(b) => seq![b],
        None => Seq::empty(),
    }
}

/// The images under `f` of the items of `s` that `f` accepts, in order.
pub open spec fn collect<A, B>(s: Seq<A>, f: spec_fn(A) -> Option<B>) -> Seq<B>
    decreases s.len(),
{
    if s.len() == 0 {
        Seq::empty()
    } else {
        collect(s.drop_last(), f) + opt_seq(f(s.last()))
    }
}

pub proof fn lemma_collect_push<A, B>(s: Seq<A>, f: spec_fn(A) -> Option<B>, i: int)
    requires
        0 <= i < s.len(),
    ensures
        collect(s.take(i + 1), f) == collect(s.take(i), f) + opt_seq(f(s[i])),
{
    assert(s.take(i + 1).drop_last() =~= s.take(i));
}

pub proof fn lemma_collect_concat<A, B>(s: Seq<A>, t: Seq<A>, f: spec_fn(A) -> Option<B>)
    ensures
        collect(s + t, f) == collect(s, f) + collect(t, f),
    decreases t.len(),
{
    if t.len() == 0 {
        assert(s + t =~= s);
        assert(collect(s, f) + Seq::<B>::empty() =~= collect(s, f));
    } else {
        assert((s + t).drop_last() =~= s + t.drop_last());
        lemma_collect_concat(s, t.drop_last(), f);
        assert(collect(s, f) + collect(t.drop_last(), f) + opt_seq(f(t.last())) =~= collect(s, f)
            + (collect(t.drop_last(), f) + opt_seq(f(t.last()))));
    }
}

pub proof fn lemma_collect_cons<A, B>(x: A, t: Seq<A>, f: spec_fn(A) -> Option<B>)
    ensures
        collect(seq![x] + t, f) == opt_seq(f(x)) + collect(t, f),
{
    lemma_collect_concat(seq![x], t, f);
    assert(seq![x].drop_last() =~= Seq::<A>::empty());
    assert(collect(Seq::<A>::empty(), f) == Seq::<B>::empty());
    assert(collect(seq![x], f) == collect(seq![x].drop_last(), f) + opt_seq(f(seq![x].last())));
    assert(Seq::<B>::empty() + opt_seq(f(x)) =~= opt_seq(f(x)));
}

/// Two lists whose items the two maps send to the same images collect to
/// the same list.
pub proof fn lemma_collect_pointwise<A, C, B>(
    s: Seq<A>,
    t: Seq<C>,
    f: spec_fn(A) -> Option<B>,
    g: spec_fn(C) -> Option<B>,
)
    requires
        s.len() == t.len(),
        forall|i: int| 0 <= i < s.len() ==> f(#[trigger] s[i]) == g(t[i]),
    ensures
        collect(s, f) == collect(t, g),
    decreases s.len(),
{
    if s.len() > 0 {
        let (s1, t1) = (s.drop_last(), t.drop_last());
        assert forall|i: int| 0 <= i < s1.len() implies f(#[trigger] s1[i]) == g(t1[i]) by {
            assert(s1[i] == s[i] && t1[i] == t[i]);
        }
        lemma_collect_pointwise(s1, t1, f, g);
        assert(f(s[s.len() - 1]) == g(t[t.len() - 1]));
    }
}

/// A map that accepts every item collects to the list of images.
pub proof fn lemma_collect_total<A, B>(s: Seq<A>, t: Seq<B>, f: spec_fn(A) -> Option<B>)
    requires
        s.len() == t.len(),
        forall|i: int| 0 <= i < s.len() ==> f(#[trigger] s[i]) == Some(t[i]),
    ensures
        collect(s, f) == t,
    decreases s.len(),
{
    if s.len() > 0 {
        let (s1, t1) = (s.drop_last(), t.drop_last());
        assert forall|i: int| 0 <= i < s1.len() implies f(#[trigger] s1[i]) == Some(t1[i]) by {
            assert(s1[i] == s[i] && t1[i] == t[i]);
        }
        lemma_collect_total(s1, t1, f);
        assert(f(s[s.len() - 1]) == Some(t[t.len() - 1]));
        assert(t1 + seq![t[t.len() - 1]] =~= t);
    } else {
        assert(t =~= Seq::<B>::empty());
    }
}

} // verus!
