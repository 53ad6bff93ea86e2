//! The canvas of the elevated view, on which the faces of the crystal's prisms
//! are painted back to front, scanline by scanline.

use vstd::prelude::*;

verus! {

/// What was painted on each pixel.  Thickness and shade are patterns of
/// singles.
pub struct IsoCanvas {
    pub w: usize,
    pub h: usize,
    pub covered: Vec<bool>,
    pub thickness: Vec<u32>,
    pub shade: Vec<u32>,
}

/// Which end of an edge a scanline meets first.
#[derive(Clone, Copy, PartialEq, Eq, Structural, Debug)]
pub enum Crossing {
    /// It does not cross the edge.
    Misses,
    /// It crosses the edge, which descends from its first end.
    Down,
    /// It crosses the edge, which descends from its second end.
    Up,
}

/// How a scanline at height `y` meets an edge whose ends are at heights `a` and
/// `b`.
pub open spec fn crossing_of(a: int, b: int, y: int) -> Crossing {
    if a <= y < b {
        Crossing::Down
    } else if b <= y < a {
        Crossing::Up
    } else {
        Crossing::Misses
    }
}

/// An edge is met the other way round from its other end; a level edge is never
/// met; and an edge in two parts, one above the other, is met exactly where one of
/// them is, and then only one of them, the same way.
pub proof fn crossings_add_up(a: int, b: int, c: int, y: int)
    requires
        a <= b <= c,
    ensures
        crossing_of(a, b, y) is Down <==> crossing_of(b, a, y) is Up,
        crossing_of(a, b, y) is Misses <==> crossing_of(b, a, y) is Misses,
        crossing_of(a, a, y) is Misses,
        crossing_of(a, c, y) is Misses <==> crossing_of(a, b, y) is Misses && crossing_of(
            b,
            c,
            y,
        ) is Misses,
        crossing_of(a, b, y) is Misses || crossing_of(b, c, y) is Misses,
        crossing_of(a, c, y) is Down <==> a <= y < c,
        !(crossing_of(a, c, y) is Up),
{
}

/// Whether a scanline at height `y` crosses an edge whose ends are at heights
/// `a` and `b` (order codes).  An edge reaches from its upper end, included,
/// to its lower end, left out, so that two edges that meet are never both
/// crossed where they meet; a level edge is never crossed.
pub fn crossing(a: i64, b: i64, y: i64) -> (c: Crossing)
    ensures
        c == Crossing::Down <==> a <= y < b,
        c == Crossing::Up <==> b <= y < a,
        c == Crossing::Misses <==> !(a <= y < b) && !(b <= y < a),
        c == crossing_of(a as int, b as int, y as int),
{
    if a <= y && y < b {
        Crossing::Down
    } else if b <= y && y < a {
        Crossing::Up
    } else {
        Crossing::Misses
    }
}

/// Where two edges meet, one above the other, a scanline crosses exactly one
/// of them if it crosses the edge from end to end.
pub proof fn edges_meet_without_gap(a: int, b: int, c: int, y: int)
    requires
        a <= b <= c,
    ensures
        a <= y < c <==> (a <= y < b) != (b <= y < c),
        !((a <= y < b) && (b <= y < c)),
{
}

impl IsoCanvas {
    pub open spec fn wf(self) -> bool {
        &&& self.covered@.len() == self.w * self.h
        &&& self.thickness@.len() == self.w * self.h
        &&& self.shade@.len() == self.w * self.h
    }

    /// Whether pixel `i` lies in row `y`, from column `x0` up to, not
    /// including, column `x1`.
    pub open spec fn in_span(self, y: int, x0: int, x1: int, i: int) -> bool {
        y * self.w + x0 <= i < y * self.w + x1
    }

    /// A blank canvas.
    pub fn new(w: usize, h: usize) -> (canvas: IsoCanvas)
        requires
            w * h <= usize::MAX,
        ensures
            canvas.wf(),
            canvas.w == w,
            canvas.h == h,
            forall|i: int| 0 <= i < w * h ==> !#[trigger] canvas.covered@[i],
            forall|i: int| 0 <= i < w * h ==> #[trigger] canvas.thickness@[i] == 0,
            forall|i: int| 0 <= i < w * h ==> #[trigger] canvas.shade@[i] == 0,
    {
        let n: usize = w * h;
        IsoCanvas {
            w,
            h,
            covered: vec![false; n],
            thickness: vec![0; n],
            shade: vec![0; n],
        }
    }

    /// Whether this is `before` with a span painted over, and nothing else changed.
    pub open spec fn filled_from(
        self,
        before: IsoCanvas,
        y: int,
        x0: int,
        x1: int,
        thickness: u32,
        shade: u32,
    ) -> bool {
        &&& self.wf()
        &&& self.w == before.w
        &&& self.h == before.h
        &&& forall|i: int|
            0 <= i < before.w * before.h ==> #[trigger] self.covered@[i] == (before.covered@[i]
                || before.in_span(y, x0, x1, i))
        &&& forall|i: int|
            0 <= i < before.w * before.h ==> #[trigger] self.thickness@[i] == if before.in_span(
                y,
                x0,
                x1,
                i,
            ) {
                thickness
            } else {
                before.thickness@[i]
            }
        &&& forall|i: int|
            0 <= i < before.w * before.h ==> #[trigger] self.shade@[i] == if before.in_span(
                y,
                x0,
                x1,
                i,
            ) {
                shade
            } else {
                before.shade@[i]
            }
    }

    /// Painting a span covers the pixels of its row from its first column up to its
    /// end with the given thickness and shade, whatever was there, and leaves every
    /// other pixel alone.
    pub proof fn spans_paint_their_pixels(
        self,
        before: IsoCanvas,
        y: int,
        x0: int,
        x1: int,
        thickness: u32,
        shade: u32,
        u: int,
        v: int,
    )
        requires
            self.filled_from(before, y, x0, x1, thickness, shade),
            0 <= x0 <= x1 <= before.w,
            0 <= u < before.w,
            0 <= v < before.h,
        ensures
            ({
                let i = v * before.w + u;
                let painted = v == y && x0 <= u < x1;
                &&& painted ==> self.covered@[i] && self.thickness@[i] == thickness
                    && self.shade@[i] == shade
                &&& !painted ==> self.covered@[i] == before.covered@[i] && self.thickness@[i]
                    == before.thickness@[i] && self.shade@[i] == before.shade@[i]
            }),
    {
        before.spans_keep_to_their_row(y, x0, x1, u, v);
        row_fits(v, before.w as int, before.h as int);
    }

    /// Paint row `y` from column `x0` up to, not including, column `x1`, over
    /// what was there.
    pub fn fill_span(&mut self, y: usize, x0: usize, x1: usize, thickness: u32, shade: u32)
        requires
            old(self).wf(),
            y < old(self).h,
            x1 <= old(self).w,
        ensures
            final(self).wf(),
            final(self).w == old(self).w,
            final(self).h == old(self).h,
            final(self).filled_from(
                *old(self),
                y as int,
                x0 as int,
                x1 as int,
                thickness,
                shade,
            ),
            forall|i: int|
                0 <= i < old(self).w * old(self).h ==> #[trigger] final(self).covered@[i] == (old(
                    self,
                ).covered@[i] || old(self).in_span(y as int, x0 as int, x1 as int, i)),
            forall|i: int|
                0 <= i < old(self).w * old(self).h ==> #[trigger] final(self).thickness@[i] == if old(
                    self,
                ).in_span(y as int, x0 as int, x1 as int, i) {
                    thickness
                } else {
                    old(self).thickness@[i]
                },
            forall|i: int|
                0 <= i < old(self).w * old(self).h ==> #[trigger] final(self).shade@[i] == if old(
                    self,
                ).in_span(y as int, x0 as int, x1 as int, i) {
                    shade
                } else {
                    old(self).shade@[i]
                },
    {
        let ghost before = *self;
        let mut x: usize = x0;
        proof {
            assert(self.covered.len() == self.w * self.h);
            row_fits(y as int, self.w as int, self.h as int);
        }
        let row: usize = y * self.w;
        while x < x1
            invariant
                before.wf(),
                y < before.h,
                x1 <= before.w,
                x0 <= x,
                x <= x1 || x == x0,
                row == y * before.w,
                row + before.w <= before.w * before.h,
                before.w * before.h <= usize::MAX,
                self.w == before.w,
                self.h == before.h,
                self.covered@.len() == before.covered@.len(),
                self.thickness@.len() == before.thickness@.len(),
                self.shade@.len() == before.shade@.len(),
                forall|i: int|
                    0 <= i < before.w * before.h ==> #[trigger] self.covered@[i] == (
                    before.covered@[i] || before.in_span(y as int, x0 as int, x as int, i)),
                forall|i: int|
                    0 <= i < before.w * before.h ==> #[trigger] self.thickness@[i]
                        == if before.in_span(y as int, x0 as int, x as int, i) {
                        thickness
                    } else {
                        before.thickness@[i]
                    },
                forall|i: int|
                    0 <= i < before.w * before.h ==> #[trigger] self.shade@[i] == if before.in_span(
                        y as int,
                        x0 as int,
                        x as int,
                        i,
                    ) {
                        shade
                    } else {
                        before.shade@[i]
                    },
            decreases x1 - x,
        {
            let i: usize = row + x;
            self.covered[i] = true;
            self.thickness[i] = thickness;
            self.shade[i] = shade;
            x = x + 1;
        }
    }

    /// A span holds the pixels of its row and columns, and no others.
    pub proof fn spans_keep_to_their_row(self, y: int, x0: int, x1: int, u: int, v: int)
        requires
            0 <= x0 <= x1 <= self.w,
            0 <= u < self.w,
        ensures
            self.in_span(y, x0, x1, v * self.w + u) <==> v == y && x0 <= u < x1,
    {
        let w = self.w as int;
        if v < y {
            assert(v * w + w <= y * w) by (nonlinear_arith)
                requires
                    v < y,
                    w >= 0,
            ;
        } else if v > y {
            assert(y * w + w <= v * w) by (nonlinear_arith)
                requires
                    v > y,
                    w >= 0,
            ;
        }
    }

    /// Spans that end where another begins cover their row without gap, and no
    /// pixel twice.
    pub proof fn spans_tile(self, y: int, a: int, b: int, c: int, i: int)
        requires
            a <= b <= c,
        ensures
            self.in_span(y, a, c, i) <==> self.in_span(y, a, b, i) != self.in_span(y, b, c, i),
            !(self.in_span(y, a, b, i) && self.in_span(y, b, c, i)),
    {
    }
}

proof fn row_fits(y: int, w: int, h: int)
    requires
        0 <= y < h,
        0 <= w,
    ensures
        0 <= y * w,
        y * w + w <= w * h,
{
    assert(0 <= y * w && y * w + w <= w * h) by (nonlinear_arith)
        requires
            0 <= y < h,
            0 <= w,
    ;
}

} // verus!
