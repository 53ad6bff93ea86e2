//! A simple RGB canvas with a tiny bitmap font for labels.

use crate::encode;
use crate::encode::ImageError;
use crate::svg::Palette;
use vstd::prelude::*;

verus! {

/// Width of a character cell: a 3 px glyph and a 1 px gap.
pub const FONT_W: usize = 4;

pub const FONT_H: usize = 5;

pub const FONT_SCALE: usize = 2;

/// Simple RGB canvas.
pub struct Canvas {
    pub width: usize,
    pub height: usize,
    pub rgb: Vec<u8>,
}

/// The five rows of a glyph, three bits each, bit 2 the left pixel.
pub open spec fn glyph_rows(c: char) -> Option<Seq<u8>> {
    if c == '0' {
        Some(seq![7u8, 5, 5, 5, 7])
    } else if c == '1' {
        Some(seq![2u8, 6, 2, 2, 7])
    } else if c == '2' {
        Some(seq![7u8, 1, 7, 4, 7])
    } else if c == '3' {
        Some(seq![7u8, 1, 7, 1, 7])
    } else if c == '4' {
        Some(seq![5u8, 5, 7, 1, 1])
    } else if c == '5' {
        Some(seq![7u8, 4, 7, 1, 7])
    } else if c == '6' {
        Some(seq![7u8, 4, 7, 5, 7])
    } else if c == '7' {
        Some(seq![7u8, 1, 2, 2, 2])
    } else if c == '8' {
        Some(seq![7u8, 5, 7, 5, 7])
    } else if c == '9' {
        Some(seq![7u8, 5, 7, 1, 7])
    } else if c == '-' {
        Some(seq![0u8, 0, 7, 0, 0])
    } else if c == '.' {
        Some(seq![0u8, 0, 0, 0, 2])
    } else if c == '=' {
        Some(seq![0u8, 7, 0, 7, 0])
    } else if c == 'r' {
        Some(seq![0u8, 0, 6, 4, 4])
    } else if c == 'C' {
        Some(seq![7u8, 4, 4, 4, 7])
    } else if c == ' ' {
        Some(seq![0u8, 0, 0, 0, 0])
    } else {
        None
    }
}

/// 3 by 5 glyphs, one byte per row, bit 2 = left pixel.
pub fn glyph(c: char) -> (g: Option<[u8; 5]>)
    ensures
        match g {
            Some(rows) => glyph_rows(c) == Some(rows@),
            None => glyph_rows(c) is None,
        },
{
    let g: Option<[u8; 5]> = match c {
        '0' => Some([7, 5, 5, 5, 7]),
        '1' => Some([2, 6, 2, 2, 7]),
        '2' => Some([7, 1, 7, 4, 7]),
        '3' => Some([7, 1, 7, 1, 7]),
        '4' => Some([5, 5, 7, 1, 1]),
        '5' => Some([7, 4, 7, 1, 7]),
        '6' => Some([7, 4, 7, 5, 7]),
        '7' => Some([7, 1, 2, 2, 2]),
        '8' => Some([7, 5, 7, 5, 7]),
        '9' => Some([7, 5, 7, 1, 7]),
        '-' => Some([0, 0, 7, 0, 0]),
        '.' => Some([0, 0, 0, 0, 2]),
        '=' => Some([0, 7, 0, 7, 0]),
        'r' => Some([0, 0, 6, 4, 4]),
        'C' => Some([7, 4, 4, 4, 7]),
        ' ' => Some([0, 0, 0, 0, 0]),
        _ => None,
    };
    proof {
        match g {
            Some(rows) => {
                assert(glyph_rows(c).unwrap() =~= rows@);
            },
            None => {},
        }
    }
    g
}

/// Whether column `col` of a glyph row is set.
pub open spec fn bit_set(row: u8, col: int) -> bool {
    if col == 0 {
        row as int / 4 % 2 == 1
    } else if col == 1 {
        row as int / 2 % 2 == 1
    } else {
        row as int % 2 == 1
    }
}

/// Whether pixel (x, y), counted from a character's corner, belongs to its
/// glyph.
pub open spec fn inked(rows: Seq<u8>, x: int, y: int) -> bool {
    &&& 0 <= x < 3 * FONT_SCALE
    &&& 0 <= y < FONT_H * FONT_SCALE
    &&& bit_set(rows[y / FONT_SCALE as int], x / FONT_SCALE as int)
}

/// Number of characters among the first `m` that have a glyph.
pub open spec fn drawn(s: Seq<char>, m: nat) -> nat
    decreases m,
{
    if m == 0 {
        0
    } else {
        drawn(s, (m - 1) as nat) + if glyph_rows(s[m - 1]) is Some {
            1nat
        } else {
            0
        }
    }
}

/// Whether pixel (x, y), counted from the corner of the label, belongs to one
/// of the first `m` characters; characters without a glyph take no room.
pub open spec fn lettered(s: Seq<char>, m: nat, x: int, y: int) -> bool
    decreases m,
{
    if m == 0 {
        false
    } else {
        lettered(s, (m - 1) as nat, x, y) || (glyph_rows(s[m - 1]) matches Some(rows) && inked(
            rows,
            x - drawn(s, (m - 1) as nat) * FONT_W * FONT_SCALE,
            y,
        ))
    }
}

/// The font has the digits, the minus sign, the point, the equals sign, the letters
/// of the labels and the blank; every glyph is five rows of three bits, no two look
/// the same, and only the blank is empty.
pub proof fn glyphs_tell_characters_apart(a: char, b: char)
    ensures
        glyph_rows(a) is Some <==> '0' <= a <= '9' || a == '-' || a == '.' || a == '=' || a == 'r'
            || a == 'C' || a == ' ',
        glyph_rows(a) matches Some(rows) ==> rows.len() == 5 && forall|i: int|
            0 <= i < 5 ==> #[trigger] rows[i] < 8,
        glyph_rows(a) is Some && glyph_rows(a) == glyph_rows(b) ==> a == b,
        glyph_rows(a) matches Some(rows) ==> (a == ' ' <==> rows == seq![0u8, 0, 0, 0, 0]),
{
    if glyph_rows(a) is Some && glyph_rows(b) is Some && a != b {
        let (x, y) = (glyph_rows(a).unwrap(), glyph_rows(b).unwrap());
        if x == y {
            assert(x[0] == y[0] && x[1] == y[1] && x[2] == y[2] && x[3] == y[3] && x[4] == y[4]);
        }
    }
    if let Some(rows) = glyph_rows(a) {
        let none = seq![0u8, 0, 0, 0, 0];
        if rows == none {
            assert(rows[0] == 0 && rows[1] == 0 && rows[2] == 0 && rows[3] == 0 && rows[4] == 0);
        }
    }
}

/// The bits of a glyph's row stand for its pixels from left to right.
pub proof fn bits_run_from_left_to_right(row: u8)
    requires
        row < 8,
    ensures
        row == (if bit_set(row, 0) {
            4int
        } else {
            0
        }) + (if bit_set(row, 1) {
            2int
        } else {
            0
        }) + (if bit_set(row, 2) {
            1int
        } else {
            0
        }),
{
}

proof fn glyphs_are_counted(s: Seq<char>, m: nat)
    requires
        m <= s.len(),
        forall|i: int| 0 <= i < s.len() ==> glyph_rows(#[trigger] s[i]) is Some,
    ensures
        drawn(s, m) == m,
    decreases m,
{
    if m > 0 {
        glyphs_are_counted(s, (m - 1) as nat);
    }
}

/// A label is its glyphs side by side, each in a cell eight pixels wide: pixel
/// (x, y) is inked exactly where the glyph of the character whose cell it lies in
/// has its bit set there, two pixels to a bit each way.
pub proof fn labels_are_their_glyphs_side_by_side(s: Seq<char>, m: nat, x: int, y: int)
    requires
        m <= s.len(),
        forall|i: int| 0 <= i < s.len() ==> glyph_rows(#[trigger] s[i]) is Some,
    ensures
        lettered(s, m, x, y) <==> 0 <= x < 8 * m && 0 <= y < 10 && x % 8 < 6 && bit_set(
            glyph_rows(s[x / 8]).unwrap()[y / 2],
            x % 8 / 2,
        ),
    decreases m,
{
    if m > 0 {
        labels_are_their_glyphs_side_by_side(s, (m - 1) as nat, x, y);
        glyphs_are_counted(s, (m - 1) as nat);
        let at = x - (m - 1) * 8;
        assert(drawn(s, (m - 1) as nat) * FONT_W * FONT_SCALE == (m - 1) * 8) by (nonlinear_arith)
            requires
                drawn(s, (m - 1) as nat) == m - 1,
                FONT_W == 4,
                FONT_SCALE == 2,
        ;
        if 0 <= at < 8 {
            assert(x / 8 == m - 1 && x % 8 == at);
        }
    }
}

impl Canvas {
    pub open spec fn wf(self) -> bool {
        self.rgb@.len() == self.width * self.height * 3
    }

    /// Colour of pixel (x, y).
    pub open spec fn pixel(self, x: int, y: int) -> Seq<u8> {
        let i = (y * self.width + x) * 3;
        seq![self.rgb@[i], self.rgb@[i + 1], self.rgb@[i + 2]]
    }

    /// Whether (x, y) is a pixel of the canvas.
    pub open spec fn has_pixel(self, x: int, y: int) -> bool {
        0 <= x < self.width && 0 <= y < self.height
    }

    /// Whether the canvas differs from `other` only in colour, and there only
    /// where `changed` says so, pixel by pixel, by the colours `to`.
    pub open spec fn repainted(
        self,
        other: Canvas,
        changed: spec_fn(int, int) -> bool,
        to: spec_fn(int, int) -> Seq<u8>,
    ) -> bool {
        &&& self.wf()
        &&& self.width == other.width
        &&& self.height == other.height
        &&& forall|x: int, y: int|
            other.has_pixel(x, y) ==> #[trigger] self.pixel(x, y) == if changed(x, y) {
                to(x, y)
            } else {
                other.pixel(x, y)
            }
    }

    proof fn pixel_is_inside(self, x: int, y: int)
        requires
            self.wf(),
            self.has_pixel(x, y),
        ensures
            0 <= (y * self.width + x) * 3,
            (y * self.width + x) * 3 + 2 < self.rgb@.len(),
            0 <= y * self.width <= y * self.width + x,
    {
        let (w, h) = (self.width as int, self.height as int);
        assert(0 <= y * w && y * w + x < w * h) by (nonlinear_arith)
            requires
                0 <= x < w,
                0 <= y < h,
        ;
    }

    proof fn pixels_are_apart(self, x: int, y: int, u: int, v: int)
        requires
            self.has_pixel(x, y),
            self.has_pixel(u, v),
            (x, y) != (u, v),
        ensures
            (y * self.width + x) * 3 + 2 < (v * self.width + u) * 3 || (v * self.width + u) * 3 + 2
                < (y * self.width + x) * 3,
    {
        let w = self.width as int;
        assert(y * w + x != v * w + u) by (nonlinear_arith)
            requires
                0 <= x < w,
                0 <= u < w,
                x != u || y != v,
        ;
    }

    /// A canvas the colour of the sky.
    pub fn new(width: usize, height: usize) -> (canvas: Canvas)
        requires
            width * height * 3 <= usize::MAX,
        ensures
            canvas.wf(),
            canvas.width == width,
            canvas.height == height,
            forall|x: int, y: int|
                canvas.has_pixel(x, y) ==> #[trigger] canvas.pixel(x, y) == seq![6u8, 12, 34],
    {
        let bg: [u8; 3] = Palette::background();
        proof {
            assert(0 <= width * height) by (nonlinear_arith)
                requires
                    width >= 0,
                    height >= 0,
            ;
        }
        let n: usize = width * height;
        let mut rgb: Vec<u8> = Vec::new();
        let mut i: usize = 0;
        while i < n
            invariant
                i <= n,
                bg@ == seq![6u8, 12, 34],
                rgb@.len() == 3 * i,
                forall|k: int| 0 <= k < 3 * i ==> #[trigger] rgb@[k] == seq![6u8, 12, 34][k % 3],
            decreases n - i,
        {
            rgb.push(bg[0]);
            rgb.push(bg[1]);
            rgb.push(bg[2]);
            i = i + 1;
        }
        let canvas = Canvas { width, height, rgb };
        proof {
            assert forall|x: int, y: int| canvas.has_pixel(x, y) implies #[trigger] canvas.pixel(x, y)
                == seq![6u8, 12, 34] by {
                canvas.pixel_is_inside(x, y);
                assert(canvas.pixel(x, y) =~= seq![6u8, 12, 34]);
            }
        }
        canvas
    }

    /// Paint one pixel; pixels off the canvas are ignored.
    pub fn put(&mut self, x: usize, y: usize, c: [u8; 3])
        requires
            old(self).wf(),
        ensures
            final(self).repainted(
                *old(self),
                |u: int, v: int| u == x && v == y,
                |u: int, v: int| c@,
            ),
    {
        let ghost before = *self;
        if x < self.width && y < self.height {
            proof {
                assert(self.rgb.len() == self.width * self.height * 3);
                self.pixel_is_inside(x as int, y as int);
            }
            let i: usize = (y * self.width + x) * 3;
            self.rgb[i] = c[0];
            self.rgb[i + 1] = c[1];
            self.rgb[i + 2] = c[2];
            proof {
                assert forall|u: int, v: int| before.has_pixel(u, v) implies #[trigger] self.pixel(
                    u,
                    v,
                ) == if u == x && v == y {
                    c@
                } else {
                    before.pixel(u, v)
                } by {
                    before.pixel_is_inside(u, v);
                    if u == x && v == y {
                        assert(self.pixel(u, v) =~= c@);
                    } else {
                        before.pixels_are_apart(x as int, y as int, u, v);
                    }
                }
            }
        }
    }

    /// Copy an image of `w` by `h` pixels to (x0, y0); what falls off the
    /// canvas is ignored.
    pub fn blit(&mut self, x0: usize, y0: usize, w: usize, h: usize, rgb: &Vec<u8>)
        requires
            old(self).wf(),
            w * h * 3 <= rgb@.len(),
            x0 + w <= usize::MAX,
            y0 + h <= usize::MAX,
        ensures
            final(self).repainted(
                *old(self),
                |u: int, v: int| x0 <= u < x0 + w && y0 <= v < y0 + h,
                |u: int, v: int| image_pixel(rgb@, w as int, u - x0, v - y0),
            ),
    {
        let ghost before = *self;
        let mut y: usize = 0;
        while y < h
            invariant
                w * h * 3 <= rgb@.len(),
                x0 + w <= usize::MAX,
                y0 + h <= usize::MAX,
                y <= h,
                self.repainted(
                    before,
                    |u: int, v: int| x0 <= u < x0 + w && y0 <= v < y0 + y,
                    |u: int, v: int| image_pixel(rgb@, w as int, u - x0, v - y0),
                ),
            decreases h - y,
        {
            let mut x: usize = 0;
            while x < w
                invariant
                    w * h * 3 <= rgb@.len(),
                    x0 + w <= usize::MAX,
                    y0 + h <= usize::MAX,
                    y < h,
                    x <= w,
                    self.repainted(
                        before,
                        |u: int, v: int|
                            (x0 <= u < x0 + w && y0 <= v < y0 + y) || (x0 <= u < x0 + x && v == y0
                                + y),
                        |u: int, v: int| image_pixel(rgb@, w as int, u - x0, v - y0),
                    ),
                decreases w - x,
            {
                proof {
                    assert(rgb.len() >= w * h * 3);
                    let (a, b, c, d) = (x as int, y as int, w as int, h as int);
                    assert(0 <= b * c && b * c + a < c * d) by (nonlinear_arith)
                        requires
                            0 <= a < c,
                            0 <= b < d,
                    ;
                }
                let i: usize = (y * w + x) * 3;
                self.put(x0 + x, y0 + y, [rgb[i], rgb[i + 1], rgb[i + 2]]);
                proof {
                    assert(seq![rgb@[i as int], rgb@[i + 1], rgb@[i + 2]] =~= [
                        rgb@[i as int],
                        rgb@[i + 1],
                        rgb@[i + 2],
                    ]@);
                }
                x = x + 1;
            }
            y = y + 1;
        }
    }

    /// Paint row `y` from column `x0` up to, not including, column `x1`.
    pub fn hline(&mut self, x0: usize, x1: usize, y: usize, c: [u8; 3])
        requires
            old(self).wf(),
        ensures
            final(self).repainted(
                *old(self),
                |u: int, v: int| x0 <= u < x1 && v == y,
                |u: int, v: int| c@,
            ),
    {
        let ghost before = *self;
        let mut x: usize = x0;
        while x < x1
            invariant
                x0 <= x,
                x <= x1 || x == x0,
                self.repainted(
                    before,
                    |u: int, v: int| x0 <= u < x && v == y,
                    |u: int, v: int| c@,
                ),
            decreases x1 - x,
        {
            self.put(x, y, c);
            x = x + 1;
        }
    }

    /// Paint column `x` from row `y0` up to, not including, row `y1`.
    pub fn vline(&mut self, x: usize, y0: usize, y1: usize, c: [u8; 3])
        requires
            old(self).wf(),
        ensures
            final(self).repainted(
                *old(self),
                |u: int, v: int| u == x && y0 <= v < y1,
                |u: int, v: int| c@,
            ),
    {
        let ghost before = *self;
        let mut y: usize = y0;
        while y < y1
            invariant
                y0 <= y,
                y <= y1 || y == y0,
                self.repainted(
                    before,
                    |u: int, v: int| u == x && y0 <= v < y,
                    |u: int, v: int| c@,
                ),
            decreases y1 - y,
        {
            self.put(x, y, c);
            y = y + 1;
        }
    }

    /// Paint one glyph with its corner at (x0, y0).
    fn letter(&mut self, x0: usize, y0: usize, rows: [u8; 5], c: [u8; 3])
        requires
            old(self).wf(),
            x0 + 3 * FONT_SCALE <= usize::MAX,
            y0 + FONT_H * FONT_SCALE <= usize::MAX,
        ensures
            final(self).repainted(
                *old(self),
                |u: int, v: int| inked(rows@, u - x0, v - y0),
                |u: int, v: int| c@,
            ),
    {
        let ghost before = *self;
        let mut dy: usize = 0;
        while dy < FONT_H * FONT_SCALE
            invariant
                x0 + 3 * FONT_SCALE <= usize::MAX,
                y0 + FONT_H * FONT_SCALE <= usize::MAX,
                dy <= FONT_H * FONT_SCALE,
                self.repainted(
                    before,
                    |u: int, v: int| v < y0 + dy && inked(rows@, u - x0, v - y0),
                    |u: int, v: int| c@,
                ),
            decreases FONT_H * FONT_SCALE - dy,
        {
            let row: u8 = rows[dy / FONT_SCALE];
            let mut dx: usize = 0;
            while dx < 3 * FONT_SCALE
                invariant
                    x0 + 3 * FONT_SCALE <= usize::MAX,
                    y0 + FONT_H * FONT_SCALE <= usize::MAX,
                    dy < FONT_H * FONT_SCALE,
                    dx <= 3 * FONT_SCALE,
                    row == rows@[dy as int / FONT_SCALE as int],
                    self.repainted(
                        before,
                        |u: int, v: int|
                            (v < y0 + dy || (v == y0 + dy && u < x0 + dx)) && inked(
                                rows@,
                                u - x0,
                                v - y0,
                            ),
                        |u: int, v: int| c@,
                    ),
                decreases 3 * FONT_SCALE - dx,
            {
                let col: usize = dx / FONT_SCALE;
                let set: bool = if col == 0 {
                    row / 4 % 2 == 1
                } else if col == 1 {
                    row / 2 % 2 == 1
                } else {
                    row % 2 == 1
                };
                if set {
                    self.put(x0 + dx, y0 + dy, c);
                }
                proof {
                    assert(set == inked(rows@, dx as int, dy as int));
                }
                dx = dx + 1;
            }
            dy = dy + 1;
        }
    }

    /// Paint a label with its corner at (x0, y0); characters without a glyph
    /// are left out.
    pub fn text(&mut self, x0: usize, y0: usize, s: &str, c: [u8; 3])
        requires
            old(self).wf(),
            x0 + s@.len() * FONT_W * FONT_SCALE <= usize::MAX,
            y0 + FONT_H * FONT_SCALE <= usize::MAX,
        ensures
            final(self).repainted(
                *old(self),
                |u: int, v: int| lettered(s@, s@.len(), u - x0, v - y0),
                |u: int, v: int| c@,
            ),
    {
        let ghost before = *self;
        let mut x: usize = x0;
        for ch in it: s.chars()
            invariant
                it.seq() == s@,
                x0 + s@.len() * FONT_W * FONT_SCALE <= usize::MAX,
                y0 + FONT_H * FONT_SCALE <= usize::MAX,
                drawn(s@, it.index() as nat) <= it.index(),
                x == x0 + drawn(s@, it.index() as nat) * FONT_W * FONT_SCALE,
                self.repainted(
                    before,
                    |u: int, v: int| lettered(s@, it.index() as nat, u - x0, v - y0),
                    |u: int, v: int| c@,
                ),
        {
            let ghost m = it.index() as nat;
            match glyph(ch) {
                Some(rows) => {
                    self.letter(x, y0, rows, c);
                    x = x + FONT_W * FONT_SCALE;
                },
                None => {},
            }
            proof {
                assert(s@[m as int] == ch);
            }
        }
    }

    /// The canvas as a PNG file.  One wider or taller than such a file can say
    /// is refused.
    pub fn png(&self) -> (file: Result<Vec<u8>, ImageError>)
        requires
            self.wf(),
            1 + 3 * self.width <= usize::MAX,
        ensures
            ({
                let (w, h) = (self.width as u32, self.height as u32);
                match file {
                    Ok(bytes) => encode::is_image(w, h, self.rgb@) && bytes@ == encode::png_file(
                        w,
                        h,
                        self.rgb@,
                    ),
                    Err(e) => !encode::is_image(w, h, self.rgb@) && e == ImageError::Encoder,
                }
            }),
            self.width > 0 && self.height > 0 && self.width <= u32::MAX && self.height <= u32::MAX
                ==> file is Ok,
    {
        proof {
            let (w, h) = (self.width, self.height);
            assert(w as u32 <= w && h as u32 <= h) by (bit_vector);
            let (a, b) = (w as u32 as int, h as u32 as int);
            assert(3 * a * b <= w * h * 3) by (nonlinear_arith)
                requires
                    0 <= a <= w,
                    0 <= b <= h,
            ;
            assert(3 * w * h == w * h * 3) by (nonlinear_arith);
            assert(self.rgb.len() == w * h * 3);
        }
        encode::encode_png(self.width as u32, self.height as u32, &self.rgb)
    }
}

/// Colour of pixel (x, y) of an image `w` pixels wide.
pub open spec fn image_pixel(rgb: Seq<u8>, w: int, x: int, y: int) -> Seq<u8> {
    let i = (y * w + x) * 3;
    seq![rgb[i], rgb[i + 1], rgb[i + 2]]
}

} // verus!
