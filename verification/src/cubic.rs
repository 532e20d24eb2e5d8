//! Points, and the flattening of cubic Bézier curves into points.
use vstd::prelude::*;
use crate::scalar::Scalar;

verus! {

#[derive(Debug, Clone, Copy)]
pub struct Point<S> {
    pub x: S,
    pub y: S,
}

impl<S: Scalar> Point<S> {
    /// The point mapped by the affine matrix `[a, b, c, d, e, f]`:
    /// `(a x + c y + e, b x + d y + f)`.
    pub open spec fn spec_transform(self, m: Seq<S>) -> Self {
        Point {
            x: self.x.spec_times(m[0]).spec_plus(self.y.spec_times(m[2])).spec_plus(m[4]),
            y: self.x.spec_times(m[1]).spec_plus(self.y.spec_times(m[3])).spec_plus(m[5]),
        }
    }

    /// Applies the affine matrix `[a, b, c, d, e, f]` to this point:
    /// `(a x + c y + e, b x + d y + f)`.
    pub fn transform(&self, matrix: &[S; 6]) -> (p: Self)
        ensures
            p == self.spec_transform(matrix@),
    {
        Point {
            x: self.x.times(matrix[0]).plus(self.y.times(matrix[2])).plus(matrix[4]),
            y: self.x.times(matrix[1]).plus(self.y.times(matrix[3])).plus(matrix[5]),
        }
    }
}

/// The point of the cubic Bézier curve `p0` .. `p3` at `t = k / steps`:
/// `(1-t)^3 P0 + 3 (1-t)^2 t P1 + 3 (1-t) t^2 P2 + t^3 P3`, evaluated in the
/// order of `CubicFlattenIter::next`.
pub open spec fn spec_cubic_point<S: Scalar>(
    p0: Point<S>,
    p1: Point<S>,
    p2: Point<S>,
    p3: Point<S>,
    steps: usize,
    k: usize,
) -> Point<S> {
    let t = S::spec_from_usize(k).spec_over(S::spec_from_usize(steps));
    let mt = S::spec_one().spec_minus(t);
    let mt2 = mt.spec_times(mt);
    let mt3 = mt2.spec_times(mt);
    let t2 = t.spec_times(t);
    let t3 = t2.spec_times(t);
    let three = S::spec_from_i64(3);
    Point {
        x: mt3.spec_times(p0.x).spec_plus(three.spec_times(mt2).spec_times(t).spec_times(p1.x)).spec_plus(
            three.spec_times(mt).spec_times(t2).spec_times(p2.x),
        ).spec_plus(t3.spec_times(p3.x)),
        y: mt3.spec_times(p0.y).spec_plus(three.spec_times(mt2).spec_times(t).spec_times(p1.y)).spec_plus(
            three.spec_times(mt).spec_times(t2).spec_times(p2.y),
        ).spec_plus(t3.spec_times(p3.y)),
    }
}

/// The points of a cubic Bézier curve at `t = 0, 1/steps, ..., 1`.
pub struct CubicFlattenIter<S> {
    pub p0: Point<S>,
    pub p1: Point<S>,
    pub p2: Point<S>,
    pub p3: Point<S>,
    pub steps: usize,
    pub current_step: usize,
}

impl<S: Scalar> CubicFlattenIter<S> {
    /// The step counter stays within `0..=steps + 1`.
    pub open spec fn wf(&self) -> bool {
        self.steps < usize::MAX && self.current_step <= self.steps + 1
    }

    /// How many points are still to come.
    pub open spec fn remaining(&self) -> nat {
        if self.current_step <= self.steps {
            (self.steps + 1 - self.current_step) as nat
        } else {
            0
        }
    }

    pub fn new(p0: Point<S>, p1: Point<S>, p2: Point<S>, p3: Point<S>, steps: usize) -> (it: Self)
        requires
            steps < usize::MAX,
        ensures
            it.wf(),
            it.p0 == p0 && it.p1 == p1 && it.p2 == p2 && it.p3 == p3,
            it.steps == steps,
            it.current_step == 0,
            it.remaining() == steps + 1,
    {
        Self { p0, p1, p2, p3, steps, current_step: 0 }
    }

    /// The next point, `B(t) = (1-t)^3 P0 + 3 (1-t)^2 t P1 + 3 (1-t) t^2 P2 + t^3 P3`
    /// with `t = current_step / steps`; `None` once all `steps + 1` points are out.
    pub fn next(&mut self) -> (r: Option<Point<S>>)
        requires
            old(self).wf(),
        ensures
            final(self).wf(),
            r is Some <==> old(self).remaining() > 0,
            final(self).remaining() == if old(self).remaining() > 0 {
                old(self).remaining() - 1
            } else {
                0
            },
            final(self).steps == old(self).steps,
            final(self).p0 == old(self).p0 && final(self).p1 == old(self).p1,
            final(self).p2 == old(self).p2 && final(self).p3 == old(self).p3,
            old(self).current_step <= old(self).steps ==> final(self).current_step
                == old(self).current_step + 1,
            r matches Some(p) ==> p == spec_cubic_point(
                old(self).p0,
                old(self).p1,
                old(self).p2,
                old(self).p3,
                old(self).steps,
                old(self).current_step,
            ),
    {
        if self.current_step > self.steps {
            return None;
        }
        let t = S::from_usize(self.current_step).over(S::from_usize(self.steps));
        self.current_step = self.current_step + 1;

        let mt = S::one().minus(t);
        let mt2 = mt.times(mt);
        let mt3 = mt2.times(mt);
        let t2 = t.times(t);
        let t3 = t2.times(t);
        let three = S::from_i64(3);

        let x = mt3.times(self.p0.x).plus(three.times(mt2).times(t).times(self.p1.x)).plus(
            three.times(mt).times(t2).times(self.p2.x),
        ).plus(t3.times(self.p3.x));
        let y = mt3.times(self.p0.y).plus(three.times(mt2).times(t).times(self.p1.y)).plus(
            three.times(mt).times(t2).times(self.p2.y),
        ).plus(t3.times(self.p3.y));
        Some(Point { x, y })
    }
}

/// The flattened points lie on the cubic Bézier curve: the point at
/// `t = k / steps` weighs `P0` by `(1-t)^3`, the first control point `P1` by
/// `3 (1-t)^2 t`, the second control point `P2` by `3 (1-t) t^2` and `P3` by
/// `t^3`, so that the curve leaves `P0` heading toward `P1` and arrives at
/// `P3` coming from `P2`.
pub proof fn lemma_cubic_point_weights<S: Scalar>(
    p0: Point<S>,
    p1: Point<S>,
    p2: Point<S>,
    p3: Point<S>,
    steps: usize,
    k: usize,
)
    ensures
        ({
            let t = S::spec_from_usize(k).spec_over(S::spec_from_usize(steps));
            let u = S::spec_one().spec_minus(t);
            let three = S::spec_from_i64(3);
            let w0 = u.spec_times(u).spec_times(u);
            let w1 = three.spec_times(u.spec_times(u)).spec_times(t);
            let w2 = three.spec_times(u).spec_times(t.spec_times(t));
            let w3 = t.spec_times(t).spec_times(t);
            let q = spec_cubic_point(p0, p1, p2, p3, steps, k);
            &&& q.x == w0.spec_times(p0.x).spec_plus(w1.spec_times(p1.x)).spec_plus(
                w2.spec_times(p2.x),
            ).spec_plus(w3.spec_times(p3.x))
            &&& q.y == w0.spec_times(p0.y).spec_plus(w1.spec_times(p1.y)).spec_plus(
                w2.spec_times(p2.y),
            ).spec_plus(w3.spec_times(p3.y))
        }),
{
}

/// The matrix `[a, b, c, d, e, f]` maps `(x, y)` to `(a x + c y + e, b x + d y + f)`:
/// `(a, b)` is the image of the x axis, `(c, d)` that of the y axis, and
/// `(e, f)` the translation.
pub proof fn lemma_transform_point<S: Scalar>(p: Point<S>, m: Seq<S>)
    ensures
        p.spec_transform(m).x == p.x.spec_times(m[0]).spec_plus(p.y.spec_times(m[2])).spec_plus(m[4]),
        p.spec_transform(m).y == p.x.spec_times(m[1]).spec_plus(p.y.spec_times(m[3])).spec_plus(m[5]),
{
}

} // verus!
