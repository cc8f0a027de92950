//! Per-tick input aggregation: a stream of pointer-motion deltas and wheel
//! events is reduced to one pan vector and one scroll total.  Wheel amounts
//! are normalized to line units before summing, so streams that mix units
//! within one tick are not biased.
use vstd::prelude::*;
use vstd::seq_lib::{commutative_foldr, lemma_fold_right_permutation};
use crate::fx::{div_trunc, lemma_div_trunc_mag};

verus! {

/// A two-component fixed-point vector (screen-space pan delta).
#[derive(Clone, Copy, PartialEq, Eq, Structural, Debug)]
pub struct Vec2Fx {
    pub x: i64,
    pub y: i64,
}

/// The resolution a wheel event reports its amount in.
#[derive(Clone, Copy, PartialEq, Eq, Structural, Debug)]
pub enum ScrollUnit {
    /// Coarse wheel steps; the common unit the totals are expressed in.
    Line,
    /// Fine-grained deltas; ten pixels count as one line.
    Pixel,
}

/// One wheel event: a signed fixed-point amount and its unit.
#[derive(Clone, Copy, PartialEq, Eq, Structural, Debug)]
pub struct ScrollEvent {
    pub amount: i64,
    pub unit: ScrollUnit,
}

/// Largest magnitude a single event field may carry.
pub const EVENT_MAX: i64 = 1_000_000_000;

/// Largest number of events one tick may deliver.
pub const EVENTS_MAX: usize = 4096;

/// A pixel amount counts as a tenth of a line.
pub const PIXELS_PER_LINE: i64 = 10;

/// Sum of a valuation over a sequence, folded from the back.
pub open spec fn sum_by<T>(s: Seq<T>, v: spec_fn(T) -> int) -> int
    decreases s.len(),
{
    if s.len() == 0 {
        0
    } else {
        v(s.last()) + sum_by(s.drop_last(), v)
    }
}

/// The folding step that accumulates a valuation.
pub open spec fn sum_step<T>(v: spec_fn(T) -> int) -> spec_fn(T, int) -> int {
    |t: T, acc: int| v(t) + acc
}

/// The horizontal component of the aggregated pan delta.
pub open spec fn pan_sum_x(s: Seq<Vec2Fx>) -> int {
    sum_by(s, |e: Vec2Fx| e.x as int)
}

/// The vertical component of the aggregated pan delta.
pub open spec fn pan_sum_y(s: Seq<Vec2Fx>) -> int {
    sum_by(s, |e: Vec2Fx| e.y as int)
}

/// A wheel amount normalized to line units: pixel amounts are divided by
/// [`PIXELS_PER_LINE`], rounding toward zero on the fixed-point grid.
pub open spec fn scroll_norm(e: ScrollEvent) -> int {
    match e.unit {
        ScrollUnit::Line => e.amount as int,
        ScrollUnit::Pixel => div_trunc(e.amount as int, PIXELS_PER_LINE as int),
    }
}

/// The aggregated scroll total in line units.
pub open spec fn scroll_sum(s: Seq<ScrollEvent>) -> int {
    sum_by(s, |e: ScrollEvent| scroll_norm(e))
}

/// `sum_by` agrees with folding its step function from the right, from any
/// start value.
proof fn lemma_sum_by_fold<T>(s: Seq<T>, v: spec_fn(T) -> int, b: int)
    ensures
        s.fold_right(sum_step(v), b) == sum_by(s, v) + b,
    decreases s.len(),
{
    if s.len() > 0 {
        lemma_sum_by_fold(s.drop_last(), v, v(s.last()) + b);
    }
}

/// A sum over a sequence does not depend on the order of its elements.
pub proof fn lemma_sum_by_permutation<T>(s1: Seq<T>, s2: Seq<T>, v: spec_fn(T) -> int)
    requires
        s1.to_multiset() == s2.to_multiset(),
    ensures
        sum_by(s1, v) == sum_by(s2, v),
{
    assert(commutative_foldr(sum_step(v)));
    lemma_fold_right_permutation(s1, s2, sum_step(v), 0);
    lemma_sum_by_fold(s1, v, 0);
    lemma_sum_by_fold(s2, v, 0);
}

/// A sum over a concatenation is the sum of the parts.
pub proof fn lemma_sum_by_concat<T>(s1: Seq<T>, s2: Seq<T>, v: spec_fn(T) -> int)
    ensures
        sum_by(s1 + s2, v) == sum_by(s1, v) + sum_by(s2, v),
    decreases s2.len(),
{
    if s2.len() == 0 {
        assert(s1 + s2 =~= s1);
    } else {
        assert((s1 + s2).drop_last() =~= s1 + s2.drop_last());
        lemma_sum_by_concat(s1, s2.drop_last(), v);
    }
}

/// One step of a left-to-right accumulation of a sum.
proof fn lemma_sum_by_take_step<T>(s: Seq<T>, v: spec_fn(T) -> int, i: int)
    requires
        0 <= i < s.len(),
    ensures
        sum_by(s.take(i + 1), v) == sum_by(s.take(i), v) + v(s[i]),
{
    assert(s.take(i + 1).drop_last() =~= s.take(i));
}

/// Pan aggregation is order-independent: any reordering of the same events
/// yields the same aggregate delta.
pub proof fn lemma_pan_order_independent(s1: Seq<Vec2Fx>, s2: Seq<Vec2Fx>)
    requires
        s1.to_multiset() == s2.to_multiset(),
    ensures
        pan_sum_x(s1) == pan_sum_x(s2),
        pan_sum_y(s1) == pan_sum_y(s2),
{
    lemma_sum_by_permutation(s1, s2, |e: Vec2Fx| e.x as int);
    lemma_sum_by_permutation(s1, s2, |e: Vec2Fx| e.y as int);
}

/// Pan aggregation is additive: aggregating two streams back to back equals
/// the sum of their aggregates; in particular a pair `[a, b]` aggregates to
/// the single event carrying delta `a + b`.
pub proof fn lemma_pan_additive(s1: Seq<Vec2Fx>, s2: Seq<Vec2Fx>)
    ensures
        pan_sum_x(s1 + s2) == pan_sum_x(s1) + pan_sum_x(s2),
        pan_sum_y(s1 + s2) == pan_sum_y(s1) + pan_sum_y(s2),
{
    lemma_sum_by_concat(s1, s2, |e: Vec2Fx| e.x as int);
    lemma_sum_by_concat(s1, s2, |e: Vec2Fx| e.y as int);
}

/// Scroll aggregation is order-independent and additive in the normalized
/// line units, so mixing units within one tick cannot bias the total.
pub proof fn lemma_scroll_order_independent(s1: Seq<ScrollEvent>, s2: Seq<ScrollEvent>)
    requires
        s1.to_multiset() == s2.to_multiset(),
    ensures
        scroll_sum(s1) == scroll_sum(s2),
{
    lemma_sum_by_permutation(s1, s2, |e: ScrollEvent| scroll_norm(e));
}

/// Scroll aggregation distributes over concatenation of event streams.
pub proof fn lemma_scroll_additive(s1: Seq<ScrollEvent>, s2: Seq<ScrollEvent>)
    ensures
        scroll_sum(s1 + s2) == scroll_sum(s1) + scroll_sum(s2),
{
    lemma_sum_by_concat(s1, s2, |e: ScrollEvent| scroll_norm(e));
}

/// Reduce the tick's pointer-motion events to their vector sum.  An empty
/// stream yields the zero vector.
pub fn aggregate_pan(events: &Vec<Vec2Fx>) -> (r: Vec2Fx)
    requires
        events@.len() <= EVENTS_MAX,
        forall|i: int| 0 <= i < events@.len() ==> -EVENT_MAX <= #[trigger] events@[i].x
            <= EVENT_MAX && -EVENT_MAX <= events@[i].y <= EVENT_MAX,
    ensures
        r.x == pan_sum_x(events@),
        r.y == pan_sum_y(events@),
{
    let mut acc = Vec2Fx { x: 0, y: 0 };
    let mut i: usize = 0;
    proof {
        assert(events@.take(0) =~= Seq::<Vec2Fx>::empty());
    }
    while i < events.len()
        invariant
            i <= events@.len() <= EVENTS_MAX,
            forall|j: int| 0 <= j < events@.len() ==> -EVENT_MAX <= #[trigger] events@[j].x
                <= EVENT_MAX && -EVENT_MAX <= events@[j].y <= EVENT_MAX,
            acc.x == pan_sum_x(events@.take(i as int)),
            acc.y == pan_sum_y(events@.take(i as int)),
            -(i as int) * (EVENT_MAX as int) <= acc.x <= (i as int) * (EVENT_MAX as int),
            -(i as int) * (EVENT_MAX as int) <= acc.y <= (i as int) * (EVENT_MAX as int),
        decreases events@.len() - i,
    {
        let e = events[i];
        proof {
            lemma_sum_by_take_step(events@, |ev: Vec2Fx| ev.x as int, i as int);
            lemma_sum_by_take_step(events@, |ev: Vec2Fx| ev.y as int, i as int);
        }
        acc = Vec2Fx { x: acc.x + e.x, y: acc.y + e.y };
        i = i + 1;
    }
    proof {
        assert(events@.take(events@.len() as int) =~= events@);
    }
    acc
}

/// Reduce the tick's wheel events to one scroll total in line units,
/// normalizing each event before accumulation.  An empty stream yields zero.
pub fn aggregate_scroll(events: &Vec<ScrollEvent>) -> (r: i64)
    requires
        events@.len() <= EVENTS_MAX,
        forall|i: int| 0 <= i < events@.len() ==> -EVENT_MAX <= #[trigger] events@[i].amount
            <= EVENT_MAX,
    ensures
        r == scroll_sum(events@),
{
    let mut acc: i64 = 0;
    let mut i: usize = 0;
    proof {
        assert(events@.take(0) =~= Seq::<ScrollEvent>::empty());
    }
    while i < events.len()
        invariant
            i <= events@.len() <= EVENTS_MAX,
            forall|j: int| 0 <= j < events@.len() ==> -EVENT_MAX <= #[trigger] events@[j].amount
                <= EVENT_MAX,
            acc == scroll_sum(events@.take(i as int)),
            -(i as int) * (EVENT_MAX as int) <= acc <= (i as int) * (EVENT_MAX as int),
        decreases events@.len() - i,
    {
        let e = events[i];
        let n: i64 = match e.unit {
            ScrollUnit::Line => e.amount,
            ScrollUnit::Pixel => e.amount / PIXELS_PER_LINE,
        };
        proof {
            lemma_div_trunc_mag(e.amount as int, PIXELS_PER_LINE as int, EVENT_MAX as int);
            assert(-EVENT_MAX <= scroll_norm(e) <= EVENT_MAX);
            lemma_sum_by_take_step(events@, |ev: ScrollEvent| scroll_norm(ev), i as int);
        }
        acc = acc + n;
        i = i + 1;
    }
    proof {
        assert(events@.take(events@.len() as int) =~= events@);
    }
    acc
}

} // verus!
