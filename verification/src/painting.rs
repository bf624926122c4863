//! The freehand painting model: an ordered sequence of strokes, each an
//! ordered sequence of points in the normalized 0-1 coordinate space, held as
//! fixed-point fractions of `crate::POINT_UNIT`. The last stroke is the one
//! open stroke, receiving points while the pointer drags; releasing the
//! pointer seals it and opens a fresh empty stroke. The device-coordinate
//! transform is the rendering collaborator's business, not this model's.

use vstd::prelude::*;

verus! {

/// A point of a stroke, in normalized coordinates: `x` and `y` are fractions
/// of `crate::POINT_UNIT`, so `POINT_UNIT` stands for 1.0.
#[derive(Debug, Clone, Copy, PartialEq, Eq, Structural)]
pub struct Point {
    pub x: u32,
    pub y: u32,
}

/// The pen style strokes are drawn with: a width in thousandths of a logical
/// pixel, and an RGB color.
#[derive(Debug, Clone, Copy, PartialEq, Eq, Structural)]
pub struct StrokeStyle {
    pub width_milli: u32,
    pub red: u8,
    pub green: u8,
    pub blue: u8,
}

/// The style a fresh painting starts with: a thin green pen.
pub open spec fn initial_style() -> StrokeStyle {
    StrokeStyle { width_milli: 1000, red: 25, green: 200, blue: 100 }
}

/// The stroke sequence of a painting that was just created or cleared:
/// exactly one stroke, open and empty.
pub open spec fn cleared_strokes() -> Seq<Seq<Point>> {
    seq![Seq::<Point>::empty()]
}

/// One paint step on a stroke sequence whose last element is the open stroke:
/// append `p` to the open stroke unless it already ends in `p` (stationary
/// pointer samples are suppressed).
pub open spec fn paint_step(v: Seq<Seq<Point>>, p: Point) -> Seq<Seq<Point>>
    recommends
        v.len() >= 1,
{
    let open_stroke = v[v.len() - 1];
    if open_stroke.len() > 0 && open_stroke[open_stroke.len() - 1] == p {
        v
    } else {
        v.update(v.len() - 1, open_stroke.push(p))
    }
}

/// One release step: if the open stroke holds any points, seal it and open a
/// fresh empty stroke as the new last element; otherwise nothing changes.
pub open spec fn release_step(v: Seq<Seq<Point>>) -> Seq<Seq<Point>>
    recommends
        v.len() >= 1,
{
    if v[v.len() - 1].len() > 0 {
        v.push(Seq::<Point>::empty())
    } else {
        v
    }
}

/// The strokes eligible for line-shape emission: those with at least two
/// points, open or closed.
pub open spec fn renderable(v: Seq<Seq<Point>>) -> Seq<Seq<Point>> {
    v.filter(|s: Seq<Point>| s.len() >= 2)
}

/// The views of a sequence of point vectors.
pub open spec fn stroke_views(v: Seq<Vec<Point>>) -> Seq<Seq<Point>> {
    Seq::new(v.len(), |i: int| v[i]@)
}

/// The freehand painting state: the strokes drawn so far plus the current pen
/// style. The invariant that the one open stroke is always the last element
/// is kept by exposing only `begin_or_continue`, `release` and `clear`.
pub struct PaintingModel {
    strokes: Vec<Vec<Point>>,
    style: StrokeStyle,
}

impl PaintingModel {
    /// The strokes, as a sequence of point sequences; the last is the open stroke.
    pub closed spec fn strokes_view(&self) -> Seq<Seq<Point>> {
        stroke_views(self.strokes@)
    }

    /// The current pen style.
    pub closed spec fn spec_style(&self) -> StrokeStyle {
        self.style
    }

    /// Well-formed: there is always at least the open stroke.
    pub open spec fn wf(&self) -> bool {
        self.strokes_view().len() >= 1
    }

    /// A fresh painting: one empty open stroke, the initial pen style.
    pub fn new() -> (r: PaintingModel)
        ensures
            r.wf(),
            r.strokes_view() == cleared_strokes(),
            r.spec_style() == initial_style(),
    {
        let mut strokes: Vec<Vec<Point>> = Vec::new();
        strokes.push(Vec::new());
        let r = PaintingModel {
            strokes,
            style: StrokeStyle { width_milli: 1000, red: 25, green: 200, blue: 100 },
        };
        proof {
            assert(r.strokes_view() =~~= cleared_strokes());
        }
        r
    }

    /// Record one pointer sample while the pointer is down: append the point
    /// to the open stroke unless it already ends in that point.
    pub fn begin_or_continue(&mut self, p: Point)
        requires
            old(self).wf(),
        ensures
            final(self).wf(),
            final(self).strokes_view() == paint_step(old(self).strokes_view(), p),
            final(self).spec_style() == old(self).spec_style(),
    {
        let n: usize = self.strokes.len();
        let open_len: usize = self.strokes[n - 1].len();
        if open_len > 0 && self.strokes[n - 1][open_len - 1] == p {
            proof {
                assert(final(self).strokes_view() =~~= paint_step(
                    old(self).strokes_view(),
                    p,
                ));
            }
        } else {
            let mut open_stroke = self.strokes.pop().unwrap();
            open_stroke.push(p);
            self.strokes.push(open_stroke);
            proof {
                assert(final(self).strokes_view() =~~= paint_step(
                    old(self).strokes_view(),
                    p,
                ));
            }
        }
    }

    /// The pointer was released: if the open stroke holds any points, seal it
    /// and open a fresh empty stroke; the sealed strokes are kept forever.
    pub fn release(&mut self)
        requires
            old(self).wf(),
        ensures
            final(self).wf(),
            final(self).strokes_view() == release_step(old(self).strokes_view()),
            final(self).spec_style() == old(self).spec_style(),
            old(self).strokes_view().last().len() > 0 ==> {
                &&& final(self).strokes_view().len() == old(self).strokes_view().len() + 1
                &&& final(self).strokes_view().last().len() == 0
            },
    {
        let n: usize = self.strokes.len();
        if self.strokes[n - 1].len() > 0 {
            self.strokes.push(Vec::new());
        }
        proof {
            assert(final(self).strokes_view() =~~= release_step(old(self).strokes_view()));
        }
    }

    /// Discard every stroke, leaving exactly one stroke: open and empty.
    pub fn clear(&mut self)
        ensures
            final(self).wf(),
            final(self).strokes_view() == cleared_strokes(),
            final(self).spec_style() == old(self).spec_style(),
    {
        self.strokes.clear();
        self.strokes.push(Vec::new());
        proof {
            assert(final(self).strokes_view() =~~= cleared_strokes());
        }
    }

    /// The current pen style.
    pub fn style(&self) -> (r: StrokeStyle)
        ensures
            r == self.spec_style(),
    {
        self.style
    }

    /// Change the pen style; the strokes are untouched.
    pub fn set_style(&mut self, style: StrokeStyle)
        ensures
            final(self).strokes_view() == old(self).strokes_view(),
            final(self).spec_style() == style,
    {
        self.style = style;
    }

    /// How many strokes the painting holds, the open one included.
    pub fn stroke_count(&self) -> (r: usize)
        ensures
            r == self.strokes_view().len(),
    {
        self.strokes.len()
    }

    /// How many points the open stroke holds so far.
    pub fn open_stroke_len(&self) -> (r: usize)
        requires
            self.wf(),
        ensures
            r == self.strokes_view().last().len(),
    {
        let n: usize = self.strokes.len();
        self.strokes[n - 1].len()
    }

    /// The points of stroke `i`, copied out for the rendering collaborator.
    fn copy_stroke(stroke: &Vec<Point>) -> (r: Vec<Point>)
        ensures
            r@ == stroke@,
    {
        let mut r: Vec<Point> = Vec::new();
        let mut i: usize = 0;
        while i < stroke.len()
            invariant
                0 <= i <= stroke@.len(),
                r@ == stroke@.take(i as int),
            decreases stroke@.len() - i,
        {
            r.push(stroke[i]);
            proof {
                assert(stroke@.take(i + 1) =~= stroke@.take(i as int).push(stroke@[i as int]));
            }
            i = i + 1;
        }
        proof {
            assert(stroke@.take(stroke@.len() as int) =~= stroke@);
        }
        r
    }

    /// The strokes eligible for line-shape emission — those with at least two
    /// points — copied out in order for the rendering collaborator.
    pub fn renderable_strokes(&self) -> (r: Vec<Vec<Point>>)
        ensures
            stroke_views(r@) == renderable(self.strokes_view()),
    {
        let mut r: Vec<Vec<Point>> = Vec::new();
        let mut i: usize = 0;
        proof {
            reveal(Seq::filter);
            assert(self.strokes_view().take(0) =~= Seq::<Seq<Point>>::empty());
            assert(stroke_views(r@) =~= renderable(self.strokes_view().take(0)));
        }
        while i < self.strokes.len()
            invariant
                0 <= i <= self.strokes@.len(),
                stroke_views(r@) == renderable(self.strokes_view().take(i as int)),
            decreases self.strokes@.len() - i,
        {
            proof {
                reveal(Seq::filter);
                let v = self.strokes_view();
                assert(v.take(i + 1).drop_last() =~= v.take(i as int));
                assert(v.take(i + 1).last() == v[i as int]);
            }
            if self.strokes[i].len() >= 2 {
                let s = Self::copy_stroke(&self.strokes[i]);
                proof {
                    assert(stroke_views(r@.push(s)) =~= stroke_views(r@).push(s@));
                }
                r.push(s);
            }
            i = i + 1;
        }
        proof {
            assert(self.strokes_view().take(self.strokes@.len() as int) =~= self.strokes_view());
        }
        r
    }
}

impl Default for PaintingModel {
    /// A fresh painting, as `new` makes it.
    fn default() -> (r: PaintingModel)
        ensures
            r.wf(),
            r.strokes_view() == cleared_strokes(),
            r.spec_style() == initial_style(),
    {
        PaintingModel::new()
    }
}

/// Law: painting the same point twice in a row changes the strokes once and
/// only once — the second paint step with the same point is a no-op, so the
/// open stroke grows by exactly one point, not two.
pub proof fn lemma_paint_step_idempotent(v: Seq<Seq<Point>>, p: Point)
    requires
        v.len() >= 1,
    ensures
        paint_step(paint_step(v, p), p) == paint_step(v, p),
{
    let w = paint_step(v, p);
    let open_stroke = v[v.len() - 1];
    if !(open_stroke.len() > 0 && open_stroke[open_stroke.len() - 1] == p) {
        assert(w[w.len() - 1] == open_stroke.push(p));
        assert(w[w.len() - 1][w[w.len() - 1].len() - 1] == p);
    }
}

} // verus!
