//! Tempo and scroll-speed changes: the merge of the two lists into the one
//! timing list that the chart text holds.
use crate::collect::{collect, lemma_collect_cons};
use crate::types::{BpmTimePoint, EffectTimePoint};
use vstd::prelude::*;

verus! {

/// One entry of a merged timing list.
#[derive(Debug, Clone, Copy, PartialEq)]
pub enum TimePoint {
    Bpm(BpmTimePoint),
    Effect(EffectTimePoint),
}

impl TimePoint {
    pub open spec fn offset_spec(&self) -> i32 {
        match *self {
            TimePoint::Bpm(p) => p.offset,
            TimePoint::Effect(p) => p.offset,
        }
    }
}

/// The merge of two lists: while either is non-empty, the head of `b` goes
/// first when `e` is empty or when `b`'s head is not later than `e`'s head;
/// otherwise the head of `e` goes first. On equal offsets the tempo change
/// comes before the scroll-speed change.
pub open spec fn merged(b: Seq<BpmTimePoint>, e: Seq<EffectTimePoint>) -> Seq<TimePoint>
    decreases b.len() + e.len(),
{
    if b.len() == 0 && e.len() == 0 {
        Seq::empty()
    } else if e.len() == 0 || (b.len() > 0 && b[0].offset <= e[0].offset) {
        seq![TimePoint::Bpm(b[0])] + merged(b.drop_first(), e)
    } else {
        seq![TimePoint::Effect(e[0])] + merged(b, e.drop_first())
    }
}

/// Merges the tempo and the scroll-speed changes into one timing list.
pub fn merge_timing(b: &Vec<BpmTimePoint>, e: &Vec<EffectTimePoint>) -> (r: Vec<TimePoint>)
    ensures
        r@ == merged(b@, e@),
{
    let mut out: Vec<TimePoint> = Vec::new();
    let mut i: usize = 0;
    let mut j: usize = 0;
    proof {
        assert(b@.skip(0) =~= b@);
        assert(e@.skip(0) =~= e@);
        assert(out@ + merged(b@, e@) =~= merged(b@, e@));
    }
    while i < b.len() || j < e.len()
        invariant
            0 <= i <= b@.len(),
            0 <= j <= e@.len(),
            out@ + merged(b@.skip(i as int), e@.skip(j as int)) == merged(b@, e@),
        decreases b@.len() - i + e@.len() - j,
    {
        let ghost bs = b@.skip(i as int);
        let ghost es = e@.skip(j as int);
        if j >= e.len() || (i < b.len() && b[i].offset <= e[j].offset) {
            proof {
                assert(bs.drop_first() =~= b@.skip(i + 1));
                assert(out@.push(TimePoint::Bpm(b@[i as int])) + merged(bs.drop_first(), es) =~= out@
                    + merged(bs, es));
            }
            out.push(TimePoint::Bpm(b[i]));
            i = i + 1;
        } else {
            proof {
                assert(es.drop_first() =~= e@.skip(j + 1));
                assert(out@.push(TimePoint::Effect(e@[j as int])) + merged(bs, es.drop_first())
                    =~= out@ + merged(bs, es));
            }
            out.push(TimePoint::Effect(e[j]));
            j = j + 1;
        }
    }
    proof {
        assert(out@ + merged(b@.skip(i as int), e@.skip(j as int)) =~= out@);
    }
    out
}

/// The tempo change of a timing entry.
pub open spec fn bpm_of_event(t: TimePoint) -> Option<BpmTimePoint> {
    match t {
        TimePoint::Bpm(p) => Some(p),
        TimePoint::Effect(_) => None,
    }
}

/// The scroll-speed change of a timing entry.
pub open spec fn effect_of_event(t: TimePoint) -> Option<EffectTimePoint> {
    match t {
        TimePoint::Bpm(_) => None,
        TimePoint::Effect(p) => Some(p),
    }
}

/// Splitting a merged list gives back both lists, each in its own order.
pub proof fn lemma_split_merged(b: Seq<BpmTimePoint>, e: Seq<EffectTimePoint>)
    ensures
        collect(merged(b, e), |t: TimePoint| bpm_of_event(t)) == b,
        collect(merged(b, e), |t: TimePoint| effect_of_event(t)) == e,
    decreases b.len() + e.len(),
{
    let fb = |t: TimePoint| bpm_of_event(t);
    let fe = |t: TimePoint| effect_of_event(t);
    if b.len() == 0 && e.len() == 0 {
        assert(b =~= Seq::<BpmTimePoint>::empty());
        assert(e =~= Seq::<EffectTimePoint>::empty());
    } else if e.len() == 0 || (b.len() > 0 && b[0].offset <= e[0].offset) {
        let x = TimePoint::Bpm(b[0]);
        lemma_split_merged(b.drop_first(), e);
        lemma_collect_cons(x, merged(b.drop_first(), e), fb);
        lemma_collect_cons(x, merged(b.drop_first(), e), fe);
        assert(seq![b[0]] + b.drop_first() =~= b);
        assert(Seq::<EffectTimePoint>::empty() + e =~= e);
    } else {
        let x = TimePoint::Effect(e[0]);
        lemma_split_merged(b, e.drop_first());
        lemma_collect_cons(x, merged(b, e.drop_first()), fb);
        lemma_collect_cons(x, merged(b, e.drop_first()), fe);
        assert(seq![e[0]] + e.drop_first() =~= e);
        assert(Seq::<BpmTimePoint>::empty() + b =~= b);
    }
}

} // verus!
