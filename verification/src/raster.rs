//! Pixel images: palettes of animations, packing of pixels, and the sampling
//! of oversized images.

use vstd::prelude::*;

verus! {

/// GIF palettes: 16 coverage by 16 thickness levels for flat renders, or 4
/// coverage by 8 thickness by 8 shade levels for lit ones.
#[derive(Clone, Copy, PartialEq, Eq, Structural, Debug)]
pub struct GifPalette {
    pub coverage: usize,
    pub thickness: usize,
    pub shade: usize,
}

/// One colour of a palette: its levels of coverage, thickness and shade.
#[derive(Clone, Copy, PartialEq, Eq, Structural, Debug)]
pub struct Level {
    pub coverage: usize,
    pub thickness: usize,
    pub shade: usize,
}

impl GifPalette {
    /// Whether the palette has 256 colours.
    pub open spec fn wf(self) -> bool {
        ||| (self.coverage == 16 && self.thickness == 16 && self.shade == 1)
        ||| (self.coverage == 4 && self.thickness == 8 && self.shade == 8)
    }

    /// Whether the palette has the level.
    pub open spec fn holds(self, level: Level) -> bool {
        level.coverage < self.coverage && level.thickness < self.thickness && level.shade
            < self.shade
    }

    /// Position of a level in the palette.
    pub open spec fn position(self, level: Level) -> int {
        (level.coverage * self.thickness + level.thickness) * self.shade + level.shade
    }

    /// The palette of a render, `lit` or flat.
    pub fn for_raster(lit: bool) -> (palette: GifPalette)
        ensures
            palette.wf(),
            palette.shade == if lit {
                8int
            } else {
                1
            },
    {
        if lit {
            GifPalette { coverage: 4, thickness: 8, shade: 8 }
        } else {
            GifPalette { coverage: 16, thickness: 16, shade: 1 }
        }
    }

    /// The palette has a place for every level, and no two share one.
    pub proof fn levels_have_their_places(self, a: Level, b: Level)
        requires
            self.wf(),
            self.holds(a),
            self.holds(b),
        ensures
            0 <= self.position(a) < 256,
            self.position(a) == self.position(b) <==> a == b,
    {
        self.position_is_plain(a);
        self.position_is_plain(b);
    }

    /// The palette is ordered by coverage, then thickness, then shade: no coverage
    /// at all comes first, and a level with more of an earlier one comes later.
    pub proof fn levels_are_ordered(self, a: Level, b: Level)
        requires
            self.wf(),
            self.holds(a),
            self.holds(b),
        ensures
            a.coverage < b.coverage ==> self.position(a) < self.position(b),
            a.coverage == b.coverage && a.thickness < b.thickness ==> self.position(a)
                < self.position(b),
            a.coverage == b.coverage && a.thickness == b.thickness ==> self.position(b)
                - self.position(a) == b.shade - a.shade,
            a.coverage == 0 && a.thickness == 0 && a.shade == 0 ==> self.position(a) == 0,
    {
        self.position_is_plain(a);
        self.position_is_plain(b);
    }

    proof fn position_is_plain(self, level: Level)
        requires
            self.wf(),
        ensures
            self.position(level) == if self.shade == 1 {
                16 * level.coverage + level.thickness + level.shade
            } else {
                64 * level.coverage + 8 * level.thickness + level.shade
            },
    {
        let (c, h, t, s) = (
            level.coverage as int,
            level.thickness as int,
            self.thickness as int,
            self.shade as int,
        );
        if s == 1 {
            assert((c * t + h) * s == 16 * c + h) by (nonlinear_arith)
                requires
                    t == 16,
                    s == 1,
            ;
        } else {
            assert((c * t + h) * s == 64 * c + 8 * h) by (nonlinear_arith)
                requires
                    t == 8,
                    s == 8,
            ;
        }
    }

    /// The levels in the order of the palette: by coverage, then thickness,
    /// then shade.
    pub fn levels(&self) -> (levels: Vec<Level>)
        requires
            self.wf(),
        ensures
            levels@.len() == 256,
            forall|i: int|
                0 <= i < 256 ==> self.holds(#[trigger] levels@[i]) && self.position(levels@[i])
                    == i,
    {
        let mut levels: Vec<Level> = Vec::new();
        let mut i: usize = 0;
        while i < 256
            invariant
                self.wf(),
                i <= 256,
                levels@.len() == i,
                forall|k: int|
                    0 <= k < i ==> self.holds(#[trigger] levels@[k]) && self.position(levels@[k])
                        == k,
            decreases 256 - i,
        {
            let rest: usize = i / self.shade;
            let level = Level {
                coverage: rest / self.thickness,
                thickness: rest % self.thickness,
                shade: i % self.shade,
            };
            proof {
                self.position_is_plain(level);
                let (t, s) = (self.thickness as int, self.shade as int);
                if s == 1 {
                    assert(i as int / s == i && i as int % s == 0) by (nonlinear_arith)
                        requires
                            s == 1,
                    ;
                    assert(rest as int / t == i as int / 16 && rest as int % t == i as int % 16);
                } else {
                    assert(rest == i as int / 8 && level.shade == i as int % 8);
                    assert(rest as int / t == rest as int / 8 && rest as int % t == rest as int % 8);
                }
            }
            levels.push(level);
            i = i + 1;
        }
        levels
    }

    /// Position of a level in the palette, as a pixel.
    pub fn index(&self, level: Level) -> (i: u8)
        requires
            self.wf(),
            self.holds(level),
        ensures
            i == self.position(level),
    {
        proof {
            self.levels_have_their_places(level, level);
            let (c, t) = (level.coverage as int, self.thickness as int);
            assert(0 <= c * t <= 256) by (nonlinear_arith)
                requires
                    0 <= c < 16,
                    0 <= t <= 16,
            ;
        }
        ((level.coverage * self.thickness + level.thickness) * self.shade + level.shade) as u8
    }

    /// The pixels of a frame: the position of each pixel's level.
    pub fn indices(&self, levels: &Vec<Level>) -> (pixels: Vec<u8>)
        requires
            self.wf(),
            forall|i: int| 0 <= i < levels@.len() ==> self.holds(#[trigger] levels@[i]),
        ensures
            pixels@.len() == levels@.len(),
            forall|i: int|
                0 <= i < levels@.len() ==> #[trigger] pixels@[i] == self.position(levels@[i]),
    {
        let mut pixels: Vec<u8> = Vec::new();
        let mut i: usize = 0;
        while i < levels.len()
            invariant
                self.wf(),
                forall|i: int| 0 <= i < levels@.len() ==> self.holds(#[trigger] levels@[i]),
                i <= levels@.len(),
                pixels@.len() == i,
                forall|k: int| 0 <= k < i ==> #[trigger] pixels@[k] == self.position(levels@[k]),
            decreases levels@.len() - i,
        {
            pixels.push(self.index(levels[i]));
            i = i + 1;
        }
        pixels
    }
}

/// The bytes of a list of colours, three to a colour.
pub fn flatten(colours: &Vec<[u8; 3]>) -> (bytes: Vec<u8>)
    ensures
        bytes@.len() == 3 * colours@.len(),
        forall|i: int, c: int|
            0 <= i < colours@.len() && 0 <= c < 3 ==> bytes@[3 * i + c] == #[trigger] colours@[i][c],
{
    let mut bytes: Vec<u8> = Vec::new();
    let mut i: usize = 0;
    while i < colours.len()
        invariant
            i <= colours@.len(),
            bytes@.len() == 3 * i,
            forall|k: int, c: int|
                0 <= k < i && 0 <= c < 3 ==> bytes@[3 * k + c] == #[trigger] colours@[k][c],
        decreases colours@.len() - i,
    {
        let colour: [u8; 3] = colours[i];
        let ghost before = bytes@;
        bytes.push(colour[0]);
        bytes.push(colour[1]);
        bytes.push(colour[2]);
        proof {
            assert forall|k: int, c: int| 0 <= k < i + 1 && 0 <= c < 3 implies bytes@[3 * k + c]
                == #[trigger] colours@[k][c] by {
                if k < i {
                    assert(before[3 * k + c] == colours@[k][c]);
                }
            }
        }
        i = i + 1;
    }
    bytes
}

/// The first `m` bytes of an RGB image with an opaque alpha byte after every
/// third, and after the last if the image stops short of a pixel.
pub open spec fn with_alpha(rgb: Seq<u8>, m: nat) -> Seq<u8>
    decreases m,
{
    if m == 0 {
        Seq::empty()
    } else {
        let before = with_alpha(rgb, (m - 1) as nat).push(rgb[m - 1]);
        if m % 3 == 0 || m == rgb.len() {
            before.push(255)
        } else {
            before
        }
    }
}

/// An RGB image with an opaque alpha channel.
pub fn rgba(rgb: &Vec<u8>) -> (out: Vec<u8>)
    ensures
        out@ == with_alpha(rgb@, rgb@.len()),
{
    let mut out: Vec<u8> = Vec::new();
    let mut i: usize = 0;
    while i < rgb.len()
        invariant
            i <= rgb@.len(),
            out@ == with_alpha(rgb@, i as nat),
        decreases rgb@.len() - i,
    {
        out.push(rgb[i]);
        i = i + 1;
        if i % 3 == 0 || i == rgb.len() {
            out.push(255);
        }
    }
    out
}

/// An image of whole pixels keeps its pixels and gains an opaque alpha byte
/// for each.
pub proof fn alpha_follows_every_pixel(rgb: Seq<u8>, p: nat)
    requires
        3 * p <= rgb.len(),
        rgb.len() % 3 == 0,
    ensures
        with_alpha(rgb, 3 * p).len() == 4 * p,
        forall|i: int|
            0 <= i < p ==> #[trigger] with_alpha(rgb, 3 * p).subrange(4 * i, 4 * i + 4) == seq![
                rgb[3 * i],
                rgb[3 * i + 1],
                rgb[3 * i + 2],
                255u8,
            ],
    decreases p,
{
    if p > 0 {
        let q = (p - 1) as nat;
        alpha_follows_every_pixel(rgb, q);
        let before = with_alpha(rgb, 3 * q);
        reveal_with_fuel(with_alpha, 4);
        let after = with_alpha(rgb, 3 * p);
        let at = 3 * q as int;
        assert(after == before.push(rgb[at]).push(rgb[at + 1]).push(rgb[at + 2]).push(255));
        assert forall|i: int| 0 <= i < p implies #[trigger] after.subrange(4 * i, 4 * i + 4) == seq![
            rgb[3 * i],
            rgb[3 * i + 1],
            rgb[3 * i + 2],
            255u8,
        ] by {
            if i < q {
                assert(after.subrange(4 * i, 4 * i + 4) =~= before.subrange(4 * i, 4 * i + 4));
            } else {
                assert(after.subrange(4 * i, 4 * i + 4) =~= seq![
                    rgb[3 * i],
                    rgb[3 * i + 1],
                    rgb[3 * i + 2],
                    255u8,
                ]);
            }
        }
    }
}

/// Pixel of the `k`-th of the `ss` by `ss` samples of output pixel (px, py),
/// in an oversized image `ss` times as wide as the output.
pub open spec fn sample_of(px: int, py: int, k: int, ss: int, out_w: int) -> int {
    (py * ss + k / ss) * (out_w * ss) + px * ss + k % ss
}

/// The samples of an output pixel are the pixels of the oversized image that lie
/// in its square, row by row: each is in it, and each pixel in it is one of them.
pub proof fn samples_are_the_pixels_of_a_square(
    px: int,
    py: int,
    ss: int,
    out_w: int,
    x: int,
    y: int,
)
    requires
        ss >= 1,
        0 <= px < out_w,
        0 <= py,
        0 <= x < out_w * ss,
        0 <= y,
    ensures
        (x / ss == px && y / ss == py) <==> exists|k: int|
            0 <= k < ss * ss && #[trigger] sample_of(px, py, k, ss, out_w) == y * (out_w * ss) + x,
        x / ss == px && y / ss == py ==> sample_of(
            px,
            py,
            (y % ss) * ss + x % ss,
            ss,
            out_w,
        ) == y * (out_w * ss) + x,
{
    let w = out_w * ss;
    vstd::arithmetic::div_mod::lemma_fundamental_div_mod(x, ss);
    vstd::arithmetic::div_mod::lemma_fundamental_div_mod(y, ss);
    vstd::arithmetic::div_mod::lemma_mod_bound(x, ss);
    vstd::arithmetic::div_mod::lemma_mod_bound(y, ss);
    if x / ss == px && y / ss == py {
        let k = (y % ss) * ss + x % ss;
        let (sy, sx) = (y % ss, x % ss);
        assert(0 <= sy * ss && sy * ss + ss <= ss * ss) by (nonlinear_arith)
            requires
                0 <= sy < ss,
        ;
        assert(ss * sy == sy * ss) by (nonlinear_arith);
        assert(py * ss == ss * py && px * ss == ss * px) by (nonlinear_arith);
        vstd::arithmetic::div_mod::lemma_fundamental_div_mod_converse(k, ss, sy, sx);
        assert(sample_of(px, py, k, ss, out_w) == y * w + x);
    }
    if exists|k: int| 0 <= k < ss * ss && #[trigger] sample_of(px, py, k, ss, out_w) == y * w + x {
        let k = choose|k: int|
            0 <= k < ss * ss && #[trigger] sample_of(px, py, k, ss, out_w) == y * w + x;
        let (sy, sx) = (k / ss, k % ss);
        vstd::arithmetic::div_mod::lemma_fundamental_div_mod(k, ss);
        vstd::arithmetic::div_mod::lemma_mod_bound(k, ss);
        assert(0 <= sy < ss) by (nonlinear_arith)
            requires
                0 <= k < ss * ss,
                k == ss * sy + sx,
                0 <= sx < ss,
        ;
        let (u, v) = (px * ss + sx, py * ss + sy);
        assert(0 <= px * ss && px * ss + ss <= out_w * ss && 0 <= py * ss) by (nonlinear_arith)
            requires
                0 <= px < out_w,
                0 <= py,
                ss >= 1,
        ;
        assert(v == y && u == x) by (nonlinear_arith)
            requires
                v * w + u == y * w + x,
                0 <= u < w,
                0 <= x < w,
        ;
        assert(px * ss == ss * px && py * ss == ss * py) by (nonlinear_arith);
        vstd::arithmetic::div_mod::lemma_fundamental_div_mod_converse(x, ss, px, sx);
        vstd::arithmetic::div_mod::lemma_fundamental_div_mod_converse(y, ss, py, sy);
    }
}

/// Pixels of the oversized image that output pixel (px, py) averages, row by
/// row.
pub fn samples(px: usize, py: usize, ss: usize, out_w: usize, out_h: usize) -> (pixels: Vec<usize>)
    requires
        ss >= 1,
        px < out_w,
        py < out_h,
        (out_w * ss) * (out_h * ss) <= usize::MAX,
    ensures
        pixels@.len() == ss * ss,
        forall|k: int|
            0 <= k < ss * ss ==> #[trigger] pixels@[k] == sample_of(
                px as int,
                py as int,
                k,
                ss as int,
                out_w as int,
            ),
        forall|k: int|
            0 <= k < ss * ss ==> #[trigger] pixels@[k] < (out_w * ss) * (out_h * ss),
{
    let mut pixels: Vec<usize> = Vec::new();
    let mut sy: usize = 0;
    proof {
        let (s, w, h) = (ss as int, out_w as int, out_h as int);
        assert(w * s >= s && h * s >= s && s * s <= (w * s) * (h * s) && w * s <= (w * s) * (h * s)
            && h * s <= (w * s) * (h * s) && 0 * s == 0) by (nonlinear_arith)
            requires
                s >= 1,
                w >= 1,
                h >= 1,
        ;
    }
    let w: usize = out_w * ss;
    while sy < ss
        invariant
            ss >= 1,
            px < out_w,
            py < out_h,
            w == out_w * ss,
            w * (out_h * ss) <= usize::MAX,
            ss * ss <= usize::MAX,
            out_h * ss <= usize::MAX,
            sy <= ss,
            pixels@.len() == sy * ss,
            forall|k: int|
                0 <= k < sy * ss ==> #[trigger] pixels@[k] == sample_of(
                    px as int,
                    py as int,
                    k,
                    ss as int,
                    out_w as int,
                ),
            forall|k: int| 0 <= k < sy * ss ==> #[trigger] pixels@[k] < w * (out_h * ss),
        decreases ss - sy,
    {
        let mut sx: usize = 0;
        while sx < ss
            invariant
                ss >= 1,
                px < out_w,
                py < out_h,
                w == out_w * ss,
                w * (out_h * ss) <= usize::MAX,
                ss * ss <= usize::MAX,
                out_h * ss <= usize::MAX,
                sy < ss,
                sx <= ss,
                pixels@.len() == sy * ss + sx,
                forall|k: int|
                    0 <= k < sy * ss + sx ==> #[trigger] pixels@[k] == sample_of(
                        px as int,
                        py as int,
                        k,
                        ss as int,
                        out_w as int,
                    ),
                forall|k: int|
                    0 <= k < sy * ss + sx ==> #[trigger] pixels@[k] < w * (out_h * ss),
            decreases ss - sx,
        {
            let ghost k = sy * ss + sx;
            proof {
                vstd::arithmetic::div_mod::lemma_fundamental_div_mod_converse(
                    k,
                    ss as int,
                    sy as int,
                    sx as int,
                );
                assert(ss * sy == sy * ss) by (nonlinear_arith);
                sample_is_inside(
                    px as int,
                    py as int,
                    sx as int,
                    sy as int,
                    ss as int,
                    out_w as int,
                    out_h as int,
                );
            }
            pixels.push((py * ss + sy) * w + px * ss + sx);
            sx = sx + 1;
        }
        proof {
            assert(sy * ss + ss == (sy + 1) * ss) by (nonlinear_arith);
        }
        sy = sy + 1;
    }
    pixels
}

proof fn sample_is_inside(px: int, py: int, sx: int, sy: int, ss: int, out_w: int, out_h: int)
    requires
        ss >= 1,
        0 <= px < out_w,
        0 <= py < out_h,
        0 <= sx < ss,
        0 <= sy < ss,
    ensures
        0 <= py * ss <= py * ss + sy < out_h * ss,
        0 <= px * ss <= px * ss + sx < out_w * ss,
        0 <= (py * ss + sy) * (out_w * ss) <= (py * ss + sy) * (out_w * ss) + px * ss,
        (py * ss + sy) * (out_w * ss) + px * ss + sx < (out_w * ss) * (out_h * ss),
{
    assert(0 <= py * ss && py * ss + ss <= out_h * ss) by (nonlinear_arith)
        requires
            0 <= py < out_h,
            ss >= 1,
    ;
    assert(0 <= px * ss && px * ss + ss <= out_w * ss) by (nonlinear_arith)
        requires
            0 <= px < out_w,
            ss >= 1,
    ;
    let (y, x, w, h) = (py * ss + sy, px * ss + sx, out_w * ss, out_h * ss);
    assert(0 <= y * w && y * w + w <= w * h) by (nonlinear_arith)
        requires
            0 <= y < h,
            0 <= w,
    ;
}

} // verus!
