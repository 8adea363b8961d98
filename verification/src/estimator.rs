//! The estimator: the share of sampled points that satisfy a predicate.

use crate::point::Point;
use crate::sampler::PointGenerator;
use vstd::prelude::*;

verus! {

/// Why no estimate could be made.
#[derive(Clone, Copy, Debug, PartialEq, Eq)]
pub enum EstimateError {
    /// The sample is empty, so the share of matching points is undefined.
    ZeroCount,
}

/// The outcome of an estimation run: `matches` points out of `count` satisfied
/// the predicate. The count is positive and the matches do not exceed it, so
/// the quotient `matches / count` is a number between 0 and 1.
#[derive(Clone, Copy, Debug, PartialEq, Eq)]
pub struct Ratio {
    matches: usize,
    count: usize,
}

impl Ratio {
    #[verifier::type_invariant]
    spec fn well_formed(self) -> bool {
        self.matches <= self.count && self.count > 0
    }

    /// The number of points that satisfied the predicate.
    pub closed spec fn spec_matches(&self) -> usize {
        self.matches
    }

    /// The number of points that were examined.
    pub closed spec fn spec_count(&self) -> usize {
        self.count
    }

    /// The number of points that satisfied the predicate; never more than
    /// `count`.
    #[verifier::when_used_as_spec(spec_matches)]
    pub fn matches(&self) -> (m: usize)
        ensures
            m == self.matches(),
            m <= self.count(),
    {
        proof {
            use_type_invariant(self);
        }
        self.matches
    }

    /// The number of points that were examined; never zero.
    #[verifier::when_used_as_spec(spec_count)]
    pub fn count(&self) -> (c: usize)
        ensures
            c == self.count(),
            c > 0,
    {
        proof {
            use_type_invariant(self);
        }
        self.count
    }
}

/// Every point of `points` lies in the unit square.
pub open spec fn all_in_unit_square(points: Seq<Point>) -> bool {
    forall|i: int| 0 <= i < points.len() ==> (#[trigger] points[i]).in_unit_square()
}

/// `verdicts` holds, for each point of `points` in turn, an answer that
/// `pred` can give on that point.
pub open spec fn judged<F: Fn(&Point) -> bool>(
    pred: F,
    points: Seq<Point>,
    verdicts: Seq<bool>,
) -> bool {
    &&& verdicts.len() == points.len()
    &&& forall|i: int|
        0 <= i < points.len() ==> pred.ensures((&points[i],), #[trigger] verdicts[i])
}

/// How many of `verdicts` are `true`.
pub open spec fn hits(verdicts: Seq<bool>) -> nat {
    verdicts.filter(|b: bool| b).len()
}

/// `matches` is the number of points of `points` on which `pred` answers
/// `true`, for some run of `pred` over the points.
pub open spec fn tallies<F: Fn(&Point) -> bool>(pred: F, points: Seq<Point>, matches: nat) -> bool {
    exists|verdicts: Seq<bool>| #[trigger] judged(pred, points, verdicts) && matches == hits(verdicts)
}

/// `pred` is a pure test for membership in `model`: whatever it answers on a
/// point is `model` of that point.
pub open spec fn decides<F: Fn(&Point) -> bool>(pred: F, model: spec_fn(Point) -> bool) -> bool {
    forall|p: Point, b: bool| #[trigger] pred.ensures((&p,), b) ==> b == model(p)
}

/// One more verdict adds one to the hits if it is `true`, and nothing
/// otherwise.
proof fn lemma_hits_push(verdicts: Seq<bool>, verdict: bool)
    ensures
        hits(verdicts.push(verdict)) == hits(verdicts) + if verdict { 1nat } else { 0nat },
        hits(verdicts) <= verdicts.len(),
{
    broadcast use Seq::lemma_filter_len_push;
    broadcast use Seq::lemma_filter_len;
}

/// Under a pure predicate the verdicts are fixed by the points, and the hits
/// are the number of points in the set that the predicate decides.
proof fn lemma_hits_of_decided<F: Fn(&Point) -> bool>(
    pred: F,
    model: spec_fn(Point) -> bool,
    points: Seq<Point>,
    verdicts: Seq<bool>,
)
    requires
        decides(pred, model),
        judged(pred, points, verdicts),
    ensures
        hits(verdicts) == points.filter(model).len(),
    decreases points.len(),
{
    reveal(Seq::filter);
    if points.len() > 0 {
        let last = points.len() - 1;
        assert(pred.ensures((&points[last],), verdicts[last]));
        assert(judged(pred, points.drop_last(), verdicts.drop_last()));
        lemma_hits_of_decided(pred, model, points.drop_last(), verdicts.drop_last());
    }
}

/// The estimator is deterministic given a pure predicate and a fixed sequence
/// of points: the number of matches is the number of points that belong to the
/// set which the predicate decides.
pub proof fn lemma_tally_is_determined<F: Fn(&Point) -> bool>(
    pred: F,
    model: spec_fn(Point) -> bool,
    points: Seq<Point>,
    matches: nat,
)
    requires
        decides(pred, model),
        tallies(pred, points, matches),
    ensures
        matches == points.filter(model).len(),
{
    let verdicts = choose|verdicts: Seq<bool>| #[trigger]
        judged(pred, points, verdicts) && matches == hits(verdicts);
    lemma_hits_of_decided(pred, model, points, verdicts);
}

/// No point, no match.
proof fn lemma_tally_empty<F: Fn(&Point) -> bool>(pred: F)
    ensures
        tallies(pred, Seq::<Point>::empty(), 0),
{
    reveal(Seq::filter);
    let verdicts = Seq::<bool>::empty();
    assert(judged(pred, Seq::<Point>::empty(), verdicts) && 0 == hits(verdicts));
}

/// Applies `pred` to one more point and adds its answer to a running tally:
/// `matches` counts the matches among `points`, the result those among
/// `points` followed by `p`. A tally never exceeds the number of points.
fn tally_point<F>(
    pred: &F,
    p: &Point,
    matches: usize,
    Ghost(points): Ghost<Seq<Point>>,
) -> (next: usize) where F: Fn(&Point) -> bool
    requires
        pred.requires((p,)),
        tallies(*pred, points, matches as nat),
        points.len() < usize::MAX,
    ensures
        tallies(*pred, points.push(*p), next as nat),
        next <= points.len() + 1,
{
    let ghost verdicts = choose|verdicts: Seq<bool>| #[trigger]
        judged(*pred, points, verdicts) && matches == hits(verdicts);
    let hit = pred(p);
    proof {
        lemma_hits_push(verdicts, hit);
        assert(judged(*pred, points.push(*p), verdicts.push(hit)));
    }
    if hit {
        matches + 1
    } else {
        matches
    }
}

/// The share of the given points that satisfy `pred`.
///
/// An empty sample is rejected with `ZeroCount`. Otherwise `pred` is applied
/// once to each point, in order, and the result counts the points on which it
/// answered `true` against the size of the sample.
pub fn integrate_over<F>(pred: F, points: &[Point]) -> (res: Result<Ratio, EstimateError>) where
    F: Fn(&Point) -> bool,

    requires
        forall|i: int| 0 <= i < points@.len() ==> pred.requires((&#[trigger] points@[i],)),
    ensures
        points@.len() == 0 ==> res == Err::<Ratio, EstimateError>(EstimateError::ZeroCount),
        points@.len() > 0 ==> res is Ok,
        res matches Ok(r) ==> {
            &&& r.count() == points@.len()
            &&& tallies(pred, points@, r.matches() as nat)
        },
{
    let count = points.len();
    if count == 0 {
        return Err(EstimateError::ZeroCount);
    }
    let mut matches: usize = 0;
    let mut seen: usize = 0;
    proof {
        lemma_tally_empty(pred);
        assert(points@.take(0) == Seq::<Point>::empty());
    }
    while seen < count
        invariant
            count == points@.len(),
            seen <= count,
            forall|i: int| 0 <= i < points@.len() ==> pred.requires((&#[trigger] points@[i],)),
            tallies(pred, points@.take(seen as int), matches as nat),
            matches <= seen,
        decreases count - seen,
    {
        assert(points@.take(seen + 1) == points@.take(seen as int).push(points@[seen as int]));
        matches = tally_point(&pred, &points[seen], matches, Ghost(points@.take(seen as int)));
        seen += 1;
    }
    assert(points@.take(count as int) == points@);
    Ok(Ratio { matches, count })
}

/// Estimates the probability that a uniformly random point of the unit square
/// satisfies `pred`, from the next `count` points of the generator `pg`.
///
/// A `count` of zero is rejected with `ZeroCount`, and nothing is drawn.
/// Otherwise exactly `count` points are drawn from `pg`, `pred` is applied
/// once to each in the order drawn, and the result counts the points on which
/// it answered `true` against `count`. The history of `pg` grows by the points
/// drawn; what it held before stays as it was.
pub fn integrate_from<F>(
    pred: F,
    count: usize,
    pg: &mut PointGenerator,
) -> (res: Result<Ratio, EstimateError>) where F: Fn(&Point) -> bool
    requires
        forall|p: Point| p.in_unit_square() ==> #[trigger] pred.requires((&p,)),
    ensures
        count == 0 ==> {
            &&& res == Err::<Ratio, EstimateError>(EstimateError::ZeroCount)
            &&& final(pg)@ == old(pg)@
        },
        count > 0 ==> res is Ok,
        res matches Ok(r) ==> {
            &&& r.count() == count
            &&& final(pg)@.len() == old(pg)@.len() + count
            &&& final(pg)@.take(old(pg)@.len() as int) == old(pg)@
            &&& all_in_unit_square(final(pg)@.skip(old(pg)@.len() as int))
            &&& tallies(pred, final(pg)@.skip(old(pg)@.len() as int), r.matches() as nat)
        },
{
    if count == 0 {
        return Err(EstimateError::ZeroCount);
    }
    let ghost before = pg@;
    let ghost start = before.len() as int;
    let mut matches: usize = 0;
    let mut drawn: usize = 0;
    proof {
        lemma_tally_empty(pred);
        assert(pg@.skip(start) == Seq::<Point>::empty());
        assert(pg@.take(start) == before);
    }
    while drawn < count
        invariant
            drawn <= count,
            start == before.len(),
            forall|p: Point| p.in_unit_square() ==> #[trigger] pred.requires((&p,)),
            pg@.len() == start + drawn,
            pg@.take(start) == before,
            all_in_unit_square(pg@.skip(start)),
            tallies(pred, pg@.skip(start), matches as nat),
            matches <= drawn,
        decreases count - drawn,
    {
        let ghost sample = pg@.skip(start);
        let p = pg.gen();
        proof {
            assert(pg@.skip(start) == sample.push(p));
            assert(pg@.take(start) == before);
        }
        matches = tally_point(&pred, &p, matches, Ghost(sample));
        drawn += 1;
    }
    Ok(Ratio { matches, count })
}

/// Estimates the probability that a uniformly random point of the unit square
/// satisfies `pred`, from `count` samples.
///
/// A generator is made for this run alone and handed to `integrate_from`,
/// which draws exactly `count` points from it. A `count` of zero is rejected
/// with `ZeroCount`. Which points are drawn is left to chance; all of them lie
/// in the unit square.
pub fn integrate<F>(pred: F, count: usize) -> (res: Result<Ratio, EstimateError>) where
    F: Fn(&Point) -> bool,

    requires
        forall|p: Point| p.in_unit_square() ==> #[trigger] pred.requires((&p,)),
    ensures
        count == 0 ==> res == Err::<Ratio, EstimateError>(EstimateError::ZeroCount),
        count > 0 ==> res is Ok,
        res matches Ok(r) ==> {
            &&& r.count() == count
            &&& exists|draws: Seq<Point>|
                {
                    &&& draws.len() == count
                    &&& all_in_unit_square(draws)
                    &&& #[trigger] tallies(pred, draws, r.matches() as nat)
                }
        },
{
    let mut pg = PointGenerator::new();
    let res = integrate_from(pred, count, &mut pg);
    proof {
        if let Ok(r) = res {
            assert(pg@.skip(0) == pg@);
            assert(tallies(pred, pg@, r.matches() as nat));
        }
    }
    res
}

} // verus!
