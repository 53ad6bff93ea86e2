//! The morphology diagram as a chart: one tile per (temperature,
//! supersaturation) cell, warm on the left, humid at the top, each with the
//! crystal from above and, below it, in the elevated view.

use crate::canvas;
use crate::canvas::{Canvas, FONT_H, FONT_SCALE, FONT_W};
use crate::text;
use vstd::prelude::*;

verus! {

/// Something painted on the chart.
pub enum Mark {
    /// A label with its corner at (x, y).
    Label { x: usize, y: usize, text: String, colour: [u8; 3] },
    /// A square image, `size` pixels wide, with its corner at (x, y).
    Image { x: usize, y: usize, size: usize, rgb: Vec<u8> },
    /// Row `y` from column `x0` up to, not including, column `x1`.
    Row { x0: usize, x1: usize, y: usize, colour: [u8; 3] },
    /// Column `x` from row `y0` up to, not including, row `y1`.
    Column { x: usize, y0: usize, y1: usize, colour: [u8; 3] },
}

/// Something painted on the chart, by its contents.
pub enum Stroke {
    Label { x: int, y: int, text: Seq<char>, colour: Seq<u8> },
    Image { x: int, y: int, size: int, rgb: Seq<u8> },
    Row { x0: int, x1: int, y: int, colour: Seq<u8> },
    Column { x: int, y0: int, y1: int, colour: Seq<u8> },
}

impl Stroke {
    /// Whether it covers pixel (u, v).
    pub open spec fn covers(self, u: int, v: int) -> bool {
        match self {
            Stroke::Label { x, y, text, .. } => canvas::lettered(text, text.len(), u - x, v - y),
            Stroke::Image { x, y, size, .. } => x <= u < x + size && y <= v < y + size,
            Stroke::Row { x0, x1, y, .. } => x0 <= u < x1 && v == y,
            Stroke::Column { x, y0, y1, .. } => u == x && y0 <= v < y1,
        }
    }

    /// The colour it gives pixel (u, v).
    pub open spec fn colour_at(self, u: int, v: int) -> Seq<u8> {
        match self {
            Stroke::Label { colour, .. } => colour,
            Stroke::Image { x, y, size, rgb } => canvas::image_pixel(rgb, size, u - x, v - y),
            Stroke::Row { colour, .. } => colour,
            Stroke::Column { colour, .. } => colour,
        }
    }
}

/// Colour of pixel (u, v) after the first `m` strokes: that of the last one to
/// cover it, or of the sky.
pub open spec fn shown(strokes: Seq<Stroke>, m: nat, u: int, v: int) -> Seq<u8>
    decreases m,
{
    if m == 0 {
        seq![6u8, 12, 34]
    } else if strokes[m - 1].covers(u, v) {
        strokes[m - 1].colour_at(u, v)
    } else {
        shown(strokes, (m - 1) as nat, u, v)
    }
}

impl Mark {
    /// The mark by its contents.
    pub open spec fn stroke(self) -> Stroke {
        match self {
            Mark::Label { x, y, text, colour } => Stroke::Label {
                x: x as int,
                y: y as int,
                text: text@,
                colour: colour@,
            },
            Mark::Image { x, y, size, rgb } => Stroke::Image {
                x: x as int,
                y: y as int,
                size: size as int,
                rgb: rgb@,
            },
            Mark::Row { x0, x1, y, colour } => Stroke::Row {
                x0: x0 as int,
                x1: x1 as int,
                y: y as int,
                colour: colour@,
            },
            Mark::Column { x, y0, y1, colour } => Stroke::Column {
                x: x as int,
                y0: y0 as int,
                y1: y1 as int,
                colour: colour@,
            },
        }
    }

    /// Whether the mark can be painted: an image has all its pixels, and the
    /// machine can count to the mark's far corner.
    pub open spec fn paintable(self) -> bool {
        match self {
            Mark::Label { x, y, text, .. } => x + text@.len() * FONT_W * FONT_SCALE <= usize::MAX
                && y + FONT_H * FONT_SCALE <= usize::MAX,
            Mark::Image { x, y, size, rgb } => x + size <= usize::MAX && y + size <= usize::MAX
                && size * size * 3 <= rgb@.len(),
            Mark::Row { .. } => true,
            Mark::Column { .. } => true,
        }
    }
}

impl Canvas {
    /// Paint one mark over what is there.
    pub fn paint(&mut self, mark: &Mark)
        requires
            old(self).wf(),
            mark.paintable(),
        ensures
            final(self).wf(),
            final(self).width == old(self).width,
            final(self).height == old(self).height,
            forall|u: int, v: int|
                old(self).has_pixel(u, v) ==> #[trigger] final(self).pixel(u, v)
                    == if mark.stroke().covers(u, v) {
                    mark.stroke().colour_at(u, v)
                } else {
                    old(self).pixel(u, v)
                },
    {
        match mark {
            Mark::Label { x, y, text, colour } => {
                self.text(*x, *y, text.as_str(), *colour);
            },
            Mark::Image { x, y, size, rgb } => {
                self.blit(*x, *y, *size, *size, rgb);
            },
            Mark::Row { x0, x1, y, colour } => {
                self.hline(*x0, *x1, *y, *colour);
            },
            Mark::Column { x, y0, y1, colour } => {
                self.vline(*x, *y0, *y1, *colour);
            },
        }
    }
}

/// One crystal of the chart.
pub struct Tile {
    /// Position of its temperature.
    pub column: usize,
    /// Position of its supersaturation.
    pub level: usize,
    /// Its radius in cells.
    pub radius: i32,
    /// The crystal from above, `tile` pixels square.
    pub top: Vec<u8>,
    /// The crystal in the elevated view, `tile` pixels square.
    pub relief: Option<Vec<u8>>,
}

/// A chart laid out like the morphology diagram.
pub struct Chart {
    /// Pixel size of a tile.
    pub tile: usize,
    /// Whether the elevated views are shown.
    pub with_relief: bool,
    /// Labels of the columns, warmest first.
    pub temperatures: Vec<String>,
    /// Labels of the levels, driest first.
    pub supersaturations: Vec<String>,
    pub tiles: Vec<Tile>,
}

/// Room for the labels on the left.
pub const LABEL_W: usize = 68;

/// Room for the labels at the top.
pub const HEADER_H: usize = 22;

impl Chart {
    /// Height of a cell of the chart.
    pub open spec fn cell_h(self) -> int {
        if self.with_relief {
            2 * self.tile as int
        } else {
            self.tile as int
        }
    }

    pub open spec fn width(self) -> int {
        LABEL_W + self.temperatures@.len() * self.tile
    }

    pub open spec fn height(self) -> int {
        HEADER_H + self.supersaturations@.len() * self.cell_h()
    }

    /// Left edge of a column.
    pub open spec fn column_x(self, column: int) -> int {
        LABEL_W + column * self.tile
    }

    /// Top edge of the row of cells `ri` from the top.
    pub open spec fn row_y(self, ri: int) -> int {
        HEADER_H + ri * self.cell_h()
    }

    /// Row, from the top, of a level: the highest is on top.
    pub open spec fn row_of(self, level: int) -> int {
        self.supersaturations@.len() - 1 - level
    }

    /// Whether the chart can be drawn: the machine can hold it and count to the
    /// ends of its labels, tiles lie on the chart, and their images have all
    /// their pixels.
    pub open spec fn drawable(self) -> bool {
        &&& self.cell_h() <= usize::MAX
        &&& self.temperatures@.len() < usize::MAX
        &&& self.supersaturations@.len() < usize::MAX
        &&& self.width() * self.height() * 3 <= usize::MAX
        &&& forall|i: int|
            0 <= i < self.temperatures@.len() ==> #[trigger] self.column_x(i) + 6
                + self.temperatures@[i]@.len() * FONT_W * FONT_SCALE <= usize::MAX
        &&& forall|i: int|
            0 <= i < self.supersaturations@.len() ==> 6 + (#[trigger] self.supersaturations@[i])@.len()
                * FONT_W * FONT_SCALE <= usize::MAX
        &&& forall|i: int| 0 <= i < self.tiles@.len() ==> self.tile_ok(#[trigger] self.tiles@[i])
    }

    /// Whether a tile lies on the chart and its images have all their pixels.
    pub open spec fn tile_ok(self, t: Tile) -> bool {
        &&& t.column < self.temperatures@.len()
        &&& t.level < self.supersaturations@.len()
        &&& self.tile * self.tile * 3 <= t.top@.len()
        &&& t.relief matches Some(r) ==> self.tile * self.tile * 3 <= r@.len()
    }

    /// The labels of the first `m` temperatures.
    pub open spec fn column_strokes(self, m: nat) -> Seq<Stroke>
        decreases m,
    {
        if m == 0 {
            Seq::empty()
        } else {
            self.column_strokes((m - 1) as nat).push(
                Stroke::Label {
                    x: self.column_x(m - 1) + 6,
                    y: 6,
                    text: self.temperatures@[m - 1]@,
                    colour: seq![200u8, 215, 240],
                },
            )
        }
    }

    /// The labels of the first `m` rows of cells.
    pub open spec fn row_strokes(self, m: nat) -> Seq<Stroke>
        decreases m,
    {
        if m == 0 {
            Seq::empty()
        } else {
            self.row_strokes((m - 1) as nat).push(
                Stroke::Label {
                    x: 6,
                    y: self.row_y(m - 1) + 6,
                    text: self.supersaturations@[self.row_of(m - 1)]@,
                    colour: seq![200u8, 215, 240],
                },
            )
        }
    }

    /// The strokes of one tile: the view from above, the radius, and the
    /// elevated view below.
    pub open spec fn tile_strokes(self, t: Tile) -> Seq<Stroke> {
        let x = self.column_x(t.column as int);
        let y = self.row_y(self.row_of(t.level as int));
        let two = seq![
            Stroke::Image { x, y, size: self.tile as int, rgb: t.top@ },
            Stroke::Label {
                x: x + 4,
                y: y + self.tile - FONT_H * FONT_SCALE - 4,
                text: seq!['r', '='] + text::decimal(t.radius as int),
                colour: seq![150u8, 165, 200],
            },
        ];
        match t.relief {
            Some(r) => two.push(
                Stroke::Image { x, y: y + self.tile, size: self.tile as int, rgb: r@ },
            ),
            None => two,
        }
    }

    /// The strokes of the first `m` tiles.
    pub open spec fn tiles_strokes(self, m: nat) -> Seq<Stroke>
        decreases m,
    {
        if m == 0 {
            Seq::empty()
        } else {
            self.tiles_strokes((m - 1) as nat) + self.tile_strokes(self.tiles@[m - 1])
        }
    }

    /// The first `m` vertical grid lines.
    pub open spec fn vertical_lines(self, m: nat) -> Seq<Stroke>
        decreases m,
    {
        if m == 0 {
            Seq::empty()
        } else {
            self.vertical_lines((m - 1) as nat).push(
                Stroke::Column {
                    x: self.column_x(m - 1),
                    y0: HEADER_H as int,
                    y1: self.height(),
                    colour: seq![40u8, 55, 90],
                },
            )
        }
    }

    /// The first `m` horizontal grid lines.
    pub open spec fn horizontal_lines(self, m: nat) -> Seq<Stroke>
        decreases m,
    {
        if m == 0 {
            Seq::empty()
        } else {
            self.horizontal_lines((m - 1) as nat).push(
                Stroke::Row {
                    x0: LABEL_W as int,
                    x1: self.width(),
                    y: self.row_y(m - 1),
                    colour: seq![40u8, 55, 90],
                },
            )
        }
    }

    /// Everything painted on the chart, in order.
    pub open spec fn strokes(self) -> Seq<Stroke> {
        self.column_strokes(self.temperatures@.len()) + self.row_strokes(
            self.supersaturations@.len(),
        ) + self.tiles_strokes(self.tiles@.len()) + self.vertical_lines(
            self.temperatures@.len() + 1,
        ) + self.horizontal_lines(self.supersaturations@.len() + 1)
    }
}

/// Tiles of different cells share no pixel, and of two levels the higher one is
/// nearer the top.
pub proof fn tiles_do_not_overlap(chart: Chart, a: Tile, b: Tile, u: int, v: int)
    requires
        chart.drawable(),
        a.column < chart.temperatures@.len(),
        b.column < chart.temperatures@.len(),
        a.level < chart.supersaturations@.len(),
        b.level < chart.supersaturations@.len(),
        a.column != b.column || a.level != b.level,
    ensures
        a.level > b.level && chart.tile > 0 ==> chart.row_y(chart.row_of(a.level as int))
            < chart.row_y(chart.row_of(b.level as int)),
        !(chart.in_cell(a, u, v) && chart.in_cell(b, u, v)),
{
    let (t, h) = (chart.tile as int, chart.cell_h());
    let (x, y) = (a.column as int, b.column as int);
    if x != y {
        assert(!(x * t <= u - LABEL_W < x * t + t && y * t <= u - LABEL_W < y * t + t))
            by (nonlinear_arith)
            requires
                x != y,
                t >= 0,
        ;
    }
    let (p, q) = (chart.row_of(a.level as int), chart.row_of(b.level as int));
    if p != q {
        assert(!(p * h <= v - HEADER_H < p * h + h && q * h <= v - HEADER_H < q * h + h))
            by (nonlinear_arith)
            requires
                p != q,
                h >= 0,
        ;
    }
    if p < q {
        assert(p * h + h <= q * h) by (nonlinear_arith)
            requires
                p < q,
                h >= 0,
        ;
    }
}

impl Chart {
    /// Whether pixel (u, v) lies in the cell of a tile.
    pub open spec fn in_cell(self, t: Tile, u: int, v: int) -> bool {
        let x = self.column_x(t.column as int);
        let y = self.row_y(self.row_of(t.level as int));
        x <= u < x + self.tile && y <= v < y + self.cell_h()
    }
}

/// Painting is over what is there: a pixel has the colour of the last stroke that
/// covers it, and of the sky where none does.
pub proof fn the_last_stroke_shows(strokes: Seq<Stroke>, m: nat, k: int, u: int, v: int)
    requires
        m <= strokes.len(),
        forall|l: int| k < l < m ==> !(#[trigger] strokes[l]).covers(u, v),
        -1 <= k < m,
        k >= 0 ==> strokes[k].covers(u, v),
    ensures
        shown(strokes, m, u, v) == if k >= 0 {
            strokes[k].colour_at(u, v)
        } else {
            seq![6u8, 12, 34]
        },
    decreases m,
{
    if m > 0 && k < m - 1 {
        assert(!strokes[m - 1].covers(u, v));
        the_last_stroke_shows(strokes, (m - 1) as nat, k, u, v);
    }
}

impl Chart {
    proof fn counts_of_strokes(self)
        ensures
            self.column_strokes(self.temperatures@.len()).len() == self.temperatures@.len(),
            self.row_strokes(self.supersaturations@.len()).len() == self.supersaturations@.len(),
            self.vertical_lines(self.temperatures@.len() + 1).len() == self.temperatures@.len() + 1,
            self.horizontal_lines(self.supersaturations@.len() + 1).len()
                == self.supersaturations@.len() + 1,
    {
        self.column_label(self.temperatures@.len(), 0);
        self.row_label(self.supersaturations@.len(), 0);
        self.vertical_line(self.temperatures@.len() + 1, 0);
        self.horizontal_line(self.supersaturations@.len() + 1, 0);
    }

    proof fn column_label(self, m: nat, i: int)
        ensures
            self.column_strokes(m).len() == m,
            0 <= i < m ==> self.column_strokes(m)[i] == (Stroke::Label {
                x: LABEL_W + i * self.tile + 6,
                y: 6,
                text: self.temperatures@[i]@,
                colour: seq![200u8, 215, 240],
            }),
        decreases m,
    {
        if m > 0 {
            self.column_label((m - 1) as nat, i);
        }
    }

    proof fn row_label(self, m: nat, i: int)
        ensures
            self.row_strokes(m).len() == m,
            0 <= i < m ==> self.row_strokes(m)[i] == (Stroke::Label {
                x: 6,
                y: HEADER_H + i * self.cell_h() + 6,
                text: self.supersaturations@[self.supersaturations@.len() - 1 - i]@,
                colour: seq![200u8, 215, 240],
            }),
        decreases m,
    {
        if m > 0 {
            self.row_label((m - 1) as nat, i);
        }
    }

    proof fn vertical_line(self, m: nat, i: int)
        ensures
            self.vertical_lines(m).len() == m,
            0 <= i < m ==> self.vertical_lines(m)[i] == (Stroke::Column {
                x: LABEL_W + i * self.tile,
                y0: HEADER_H as int,
                y1: HEADER_H + self.supersaturations@.len() * self.cell_h(),
                colour: seq![40u8, 55, 90],
            }),
        decreases m,
    {
        if m > 0 {
            self.vertical_line((m - 1) as nat, i);
        }
    }

    proof fn horizontal_line(self, m: nat, i: int)
        ensures
            self.horizontal_lines(m).len() == m,
            0 <= i < m ==> self.horizontal_lines(m)[i] == (Stroke::Row {
                x0: LABEL_W as int,
                x1: LABEL_W + self.temperatures@.len() * self.tile,
                y: HEADER_H + i * self.cell_h(),
                colour: seq![40u8, 55, 90],
            }),
        decreases m,
    {
        if m > 0 {
            self.horizontal_line((m - 1) as nat, i);
        }
    }

    /// Height of a row of the chart in pixels: one tile, or two with the elevated
    /// views.
    pub open spec fn row_pixels(self) -> int {
        self.tile * if self.with_relief {
            2int
        } else {
            1
        }
    }

    /// The labels stand by their columns and rows: the temperatures along the top,
    /// each over its column, from the first on the left, and the supersaturations
    /// down the left, each by its row, with the first at the bottom.
    pub proof fn labels_stand_by_their_columns_and_rows(self, column: int, level: int)
        requires
            0 <= column < self.temperatures@.len(),
            0 <= level < self.supersaturations@.len(),
        ensures
            self.strokes().contains(
                Stroke::Label {
                    x: 68 + column * self.tile + 6,
                    y: 6,
                    text: self.temperatures@[column]@,
                    colour: seq![200u8, 215, 240],
                },
            ),
            self.strokes().contains(
                Stroke::Label {
                    x: 6,
                    y: 22 + (self.supersaturations@.len() - 1 - level) * self.row_pixels() + 6,
                    text: self.supersaturations@[level]@,
                    colour: seq![200u8, 215, 240],
                },
            ),
    {
        let (cols, rows) = (self.temperatures@.len(), self.supersaturations@.len());
        let ri = rows - 1 - level;
        self.counts_of_strokes();
        self.column_label(cols, column);
        self.row_label(rows, ri);
        assert(self.row_pixels() == self.cell_h()) by (nonlinear_arith)
            requires
                self.row_pixels() == self.tile * (if self.with_relief {
                    2int
                } else {
                    1
                }),
                self.cell_h() == if self.with_relief {
                    2 * self.tile as int
                } else {
                    self.tile as int
                },
        ;
        assert(self.strokes()[column] == self.column_strokes(cols)[column]);
        assert(self.strokes()[cols + ri] == self.row_strokes(rows)[ri]);
    }

    proof fn tile_is_among_the_first(self, m: nat, i: int) -> (p: int)
        requires
            0 <= i < m,
        ensures
            0 <= p,
            p + self.tile_strokes(self.tiles@[i]).len() <= self.tiles_strokes(m).len(),
            forall|k: int|
                0 <= k < self.tile_strokes(self.tiles@[i]).len() ==> self.tiles_strokes(m)[p + k]
                    == #[trigger] self.tile_strokes(self.tiles@[i])[k],
        decreases m,
    {
        if i == m - 1 {
            self.tiles_strokes((m - 1) as nat).len() as int
        } else {
            self.tile_is_among_the_first((m - 1) as nat, i)
        }
    }

    /// A tile stands in its column and, counted from the bottom, at its level: the
    /// view from above at the top of the cell, with the radius over its lower left
    /// corner, and the elevated view, if there is one, right below.
    pub proof fn tiles_stand_in_their_cells(self, i: int)
        requires
            0 <= i < self.tiles@.len(),
        ensures
            ({
                let t = self.tiles@[i];
                let x = 68 + t.column * self.tile;
                let y = 22 + (self.supersaturations@.len() - 1 - t.level) * self.row_pixels();
                &&& self.strokes().contains(
                    Stroke::Image { x, y, size: self.tile as int, rgb: t.top@ },
                )
                &&& self.strokes().contains(
                    Stroke::Label {
                        x: x + 4,
                        y: y + self.tile - 14,
                        text: seq!['r', '='] + text::decimal(t.radius as int),
                        colour: seq![150u8, 165, 200],
                    },
                )
                &&& t.relief matches Some(r) ==> self.strokes().contains(
                    Stroke::Image { x, y: y + self.tile, size: self.tile as int, rgb: r@ },
                )
            }),
    {
        let (cols, rows) = (self.temperatures@.len(), self.supersaturations@.len());
        let t = self.tiles@[i];
        let parts = self.tile_strokes(t);
        self.counts_of_strokes();
        let p = self.tile_is_among_the_first(self.tiles@.len(), i);
        assert(self.row_pixels() == self.cell_h()) by (nonlinear_arith)
            requires
                self.row_pixels() == self.tile * (if self.with_relief {
                    2int
                } else {
                    1
                }),
                self.cell_h() == if self.with_relief {
                    2 * self.tile as int
                } else {
                    self.tile as int
                },
        ;
        let tiles = self.tiles_strokes(self.tiles@.len());
        assert(tiles[p + 0] == parts[0] && tiles[p + 1] == parts[1]);
        assert(self.strokes()[cols + rows + p] == parts[0]);
        assert(self.strokes()[cols + rows + p + 1] == parts[1]);
        if t.relief is Some {
            assert(tiles[p + 2] == parts[2]);
            assert(self.strokes()[cols + rows + p + 2] == parts[2]);
        }
    }

    /// Grid lines part the columns and the rows and close the chart on all sides,
    /// over everything else.
    pub proof fn grid_lines_part_the_cells(self, column: int, row: int)
        requires
            0 <= column <= self.temperatures@.len(),
            0 <= row <= self.supersaturations@.len(),
        ensures
            self.strokes().contains(
                Stroke::Column {
                    x: 68 + column * self.tile,
                    y0: 22,
                    y1: 22 + self.supersaturations@.len() * self.row_pixels(),
                    colour: seq![40u8, 55, 90],
                },
            ),
            self.strokes().contains(
                Stroke::Row {
                    x0: 68,
                    x1: 68 + self.temperatures@.len() * self.tile,
                    y: 22 + row * self.row_pixels(),
                    colour: seq![40u8, 55, 90],
                },
            ),
            self.width() == 68 + self.temperatures@.len() * self.tile,
            self.height() == 22 + self.supersaturations@.len() * self.row_pixels(),
    {
        let (cols, rows) = (self.temperatures@.len(), self.supersaturations@.len());
        self.counts_of_strokes();
        self.vertical_line(cols + 1, column);
        self.horizontal_line(rows + 1, row);
        assert(self.row_pixels() == self.cell_h()) by (nonlinear_arith)
            requires
                self.row_pixels() == self.tile * (if self.with_relief {
                    2int
                } else {
                    1
                }),
                self.cell_h() == if self.with_relief {
                    2 * self.tile as int
                } else {
                    self.tile as int
                },
        ;
        let at = cols + rows + self.tiles_strokes(self.tiles@.len()).len();
        assert(self.strokes()[at + column] == self.vertical_lines(cols + 1)[column]);
        assert(self.strokes()[at + cols + 1 + row] == self.horizontal_lines(rows + 1)[row]);
    }
}

/// A stroke covers its own place: an image its square and a line its pixels, and
/// an image's pixels come out in its own rows and columns.
pub proof fn strokes_cover_their_place(stroke: Stroke, u: int, v: int)
    ensures
        match stroke {
            Stroke::Image { x, y, size, rgb } => (stroke.covers(u, v) <==> 0 <= u - x < size && 0
                <= v - y < size) && (stroke.covers(u, v) ==> stroke.colour_at(u, v) == seq![
                rgb[3 * ((v - y) * size + (u - x))],
                rgb[3 * ((v - y) * size + (u - x)) + 1],
                rgb[3 * ((v - y) * size + (u - x)) + 2],
            ]),
            Stroke::Row { x0, x1, y, colour } => (stroke.covers(u, v) <==> v == y && x0 <= u < x1)
                && stroke.colour_at(u, v) == colour,
            Stroke::Column { x, y0, y1, colour } => (stroke.covers(u, v) <==> u == x && y0 <= v
                < y1) && stroke.colour_at(u, v) == colour,
            Stroke::Label { x, y, text, colour } => (stroke.covers(u, v) <==> canvas::lettered(
                text,
                text.len(),
                u - x,
                v - y,
            )) && stroke.colour_at(u, v) == colour,
        },
{
}

/// The contents of a list of marks.
pub open spec fn strokes_of(marks: Seq<Mark>) -> Seq<Stroke> {
    marks.map(|i: int, m: Mark| m.stroke())
}

spec fn all_paintable(marks: Seq<Mark>) -> bool {
    forall|i: int| 0 <= i < marks.len() ==> (#[trigger] marks[i]).paintable()
}

fn push_mark(marks: &mut Vec<Mark>, mark: Mark)
    requires
        all_paintable(old(marks)@),
        mark.paintable(),
    ensures
        strokes_of(final(marks)@) == strokes_of(old(marks)@).push(mark.stroke()),
        all_paintable(final(marks)@),
{
    let ghost before = marks@;
    marks.push(mark);
    proof {
        assert(strokes_of(marks@) =~= strokes_of(before).push(mark.stroke()));
    }
}

impl Chart {
    proof fn places_are_small(self, column: int, ri: int)
        requires
            self.drawable(),
            0 <= column <= self.temperatures@.len(),
            0 <= ri <= self.supersaturations@.len(),
        ensures
            LABEL_W <= self.column_x(column) <= self.width() <= usize::MAX / 66,
            HEADER_H <= self.row_y(ri) <= self.height() <= usize::MAX / 204,
            0 <= column * self.tile,
            0 <= ri * self.cell_h(),
            column < self.temperatures@.len() ==> self.column_x(column) + self.tile <= self.width(),
            ri < self.supersaturations@.len() ==> self.row_y(ri) + self.cell_h() <= self.height(),
    {
        let (c, n, t) = (column, self.temperatures@.len() as int, self.tile as int);
        assert(0 <= c * t <= n * t) by (nonlinear_arith)
            requires
                0 <= c <= n,
                0 <= t,
        ;
        let (r, m, h) = (ri, self.supersaturations@.len() as int, self.cell_h());
        assert(0 <= r * h <= m * h) by (nonlinear_arith)
            requires
                0 <= r <= m,
                0 <= h,
        ;
        if c < n {
            assert(c * t + t <= n * t) by (nonlinear_arith)
                requires
                    c < n,
                    0 <= t,
            ;
        }
        if r < m {
            assert(r * h + h <= m * h) by (nonlinear_arith)
                requires
                    r < m,
                    0 <= h,
            ;
        }
        let (width, height) = (self.width(), self.height());
        assert(width * 22 <= width * height && height * 68 <= width * height) by (nonlinear_arith)
            requires
                width >= 68,
                height >= 22,
        ;
    }

    fn cell_height(&self) -> (h: usize)
        requires
            self.cell_h() <= usize::MAX,
        ensures
            h == self.cell_h(),
    {
        if self.with_relief {
            2 * self.tile
        } else {
            self.tile
        }
    }

    fn x_of(&self, column: usize) -> (x: usize)
        requires
            self.drawable(),
            column <= self.temperatures@.len(),
        ensures
            x == self.column_x(column as int),
            x <= usize::MAX / 66,
            column < self.temperatures@.len() ==> x + self.tile <= usize::MAX / 66,
    {
        proof {
            self.places_are_small(column as int, 0);
        }
        LABEL_W + column * self.tile
    }

    fn y_of(&self, ri: usize) -> (y: usize)
        requires
            self.drawable(),
            ri <= self.supersaturations@.len(),
        ensures
            y == self.row_y(ri as int),
            HEADER_H <= y <= usize::MAX / 204,
            ri < self.supersaturations@.len() ==> y + self.tile <= usize::MAX / 204,
    {
        proof {
            self.places_are_small(0, ri as int);
        }
        HEADER_H + ri * self.cell_height()
    }

    fn mark_labels(&self) -> (marks: Vec<Mark>)
        requires
            self.drawable(),
        ensures
            all_paintable(marks@),
            strokes_of(marks@) == self.column_strokes(self.temperatures@.len()) + self.row_strokes(
                self.supersaturations@.len(),
            ),
    {
        let mut marks: Vec<Mark> = Vec::new();
        let mut ci: usize = 0;
        proof {
            assert(strokes_of(marks@) =~= Seq::<Stroke>::empty());
        }
        while ci < self.temperatures.len()
            invariant
                self.drawable(),
                ci <= self.temperatures@.len(),
                all_paintable(marks@),
                strokes_of(marks@) == self.column_strokes(ci as nat),
            decreases self.temperatures@.len() - ci,
        {
            let colour: [u8; 3] = [200, 215, 240];
            let label: String = self.temperatures[ci].clone();
            proof {
                assert(self.column_x(ci as int) + 6 + self.temperatures@[ci as int]@.len() * FONT_W
                    * FONT_SCALE <= usize::MAX);
                assert(colour@ =~= seq![200u8, 215, 240]);
            }
            let x: usize = self.x_of(ci) + 6;
            push_mark(&mut marks, Mark::Label { x, y: 6, text: label, colour });
            ci = ci + 1;
        }
        let ghost columns = strokes_of(marks@);
        let mut ri: usize = 0;
        let rows: usize = self.supersaturations.len();
        proof {
            assert(columns + Seq::<Stroke>::empty() =~= columns);
        }
        while ri < rows
            invariant
                self.drawable(),
                rows == self.supersaturations@.len(),
                ri <= rows,
                all_paintable(marks@),
                strokes_of(marks@) == columns + self.row_strokes(ri as nat),
            decreases rows - ri,
        {
            let colour: [u8; 3] = [200, 215, 240];
            let label: String = self.supersaturations[rows - 1 - ri].clone();
            proof {
                assert(6 + self.supersaturations@[rows - 1 - ri]@.len() * FONT_W * FONT_SCALE
                    <= usize::MAX);
                assert(colour@ =~= seq![200u8, 215, 240]);
            }
            let y: usize = self.y_of(ri) + 6;
            push_mark(&mut marks, Mark::Label { x: 6, y, text: label, colour });
            ri = ri + 1;
            proof {
                assert(strokes_of(marks@) =~= columns + self.row_strokes(ri as nat));
            }
        }
        marks
    }

    fn mark_tile(&self, i: usize, marks: &mut Vec<Mark>)
        requires
            self.drawable(),
            i < self.tiles@.len(),
            all_paintable(old(marks)@),
        ensures
            all_paintable(final(marks)@),
            strokes_of(final(marks)@) == strokes_of(old(marks)@) + self.tile_strokes(
                self.tiles@[i as int],
            ),
    {
        let ghost before = strokes_of(marks@);
        let tile: &Tile = &self.tiles[i];
        let rows: usize = self.supersaturations.len();
        proof {
            assert(self.tile_ok(self.tiles@[i as int]));
        }
        let x: usize = self.x_of(tile.column);
        let y: usize = self.y_of(rows - 1 - tile.level);
        let colour: [u8; 3] = [150, 165, 200];
        let mut label: String = String::new();
        label.push('r');
        label.push('=');
        text::push_decimal(&mut label, tile.radius as i64);
        proof {
            assert(label@ =~= seq!['r', '='] + text::decimal(tile.radius as int));
            assert(colour@ =~= seq![150u8, 165, 200]);
            decimals_are_short(tile.radius as int);
        }
        push_mark(marks, Mark::Image { x, y, size: self.tile, rgb: copy_bytes(&tile.top) });
        push_mark(
            marks,
            Mark::Label {
                x: x + 4,
                y: y + self.tile - FONT_H * FONT_SCALE - 4,
                text: label,
                colour,
            },
        );
        match &tile.relief {
            Some(relief) => {
                push_mark(
                    marks,
                    Mark::Image { x, y: y + self.tile, size: self.tile, rgb: copy_bytes(relief) },
                );
            },
            None => {},
        }
        proof {
            assert(strokes_of(marks@) =~= before + self.tile_strokes(self.tiles@[i as int]));
        }
    }

    /// Everything painted on the chart, in order: labels, tiles, grid lines.
    pub fn marks(&self) -> (marks: Vec<Mark>)
        requires
            self.drawable(),
        ensures
            strokes_of(marks@) == self.strokes(),
            forall|i: int| 0 <= i < marks@.len() ==> (#[trigger] marks@[i]).paintable(),
    {
        let mut marks: Vec<Mark> = self.mark_labels();
        let ghost labels = strokes_of(marks@);
        let mut i: usize = 0;
        proof {
            assert(labels + Seq::<Stroke>::empty() =~= labels);
        }
        while i < self.tiles.len()
            invariant
                self.drawable(),
                i <= self.tiles@.len(),
                all_paintable(marks@),
                strokes_of(marks@) == labels + self.tiles_strokes(i as nat),
            decreases self.tiles@.len() - i,
        {
            self.mark_tile(i, &mut marks);
            i = i + 1;
            proof {
                assert(strokes_of(marks@) =~= labels + self.tiles_strokes(i as nat));
            }
        }
        let ghost before = strokes_of(marks@);
        let cols: usize = self.temperatures.len();
        let rows: usize = self.supersaturations.len();
        let width: usize = self.x_of(cols);
        let height: usize = self.y_of(rows);
        let mut ci: usize = 0;
        proof {
            assert(before + Seq::<Stroke>::empty() =~= before);
        }
        while ci <= cols
            invariant
                self.drawable(),
                cols == self.temperatures@.len(),
                height == self.height(),
                ci <= cols + 1,
                all_paintable(marks@),
                strokes_of(marks@) == before + self.vertical_lines(ci as nat),
            decreases cols + 1 - ci,
        {
            let colour: [u8; 3] = [40, 55, 90];
            proof {
                assert(colour@ =~= seq![40u8, 55, 90]);
            }
            let x: usize = self.x_of(ci);
            push_mark(&mut marks, Mark::Column { x, y0: HEADER_H, y1: height, colour });
            ci = ci + 1;
            proof {
                assert(strokes_of(marks@) =~= before + self.vertical_lines(ci as nat));
            }
        }
        let ghost lined = strokes_of(marks@);
        let mut ri: usize = 0;
        proof {
            assert(lined + Seq::<Stroke>::empty() =~= lined);
        }
        while ri <= rows
            invariant
                self.drawable(),
                rows == self.supersaturations@.len(),
                width == self.width(),
                ri <= rows + 1,
                all_paintable(marks@),
                strokes_of(marks@) == lined + self.horizontal_lines(ri as nat),
            decreases rows + 1 - ri,
        {
            let colour: [u8; 3] = [40, 55, 90];
            proof {
                assert(colour@ =~= seq![40u8, 55, 90]);
            }
            let y: usize = self.y_of(ri);
            push_mark(&mut marks, Mark::Row { x0: LABEL_W, x1: width, y, colour });
            ri = ri + 1;
            proof {
                assert(strokes_of(marks@) =~= lined + self.horizontal_lines(ri as nat));
            }
        }
        marks
    }

    /// Draw the chart.
    pub fn draw(&self) -> (canvas: Canvas)
        requires
            self.drawable(),
        ensures
            canvas.wf(),
            canvas.width == self.width(),
            canvas.height == self.height(),
            forall|u: int, v: int|
                canvas.has_pixel(u, v) ==> #[trigger] canvas.pixel(u, v) == shown(
                    self.strokes(),
                    self.strokes().len(),
                    u,
                    v,
                ),
    {
        let marks: Vec<Mark> = self.marks();
        let width: usize = self.x_of(self.temperatures.len());
        let height: usize = self.y_of(self.supersaturations.len());
        let mut canvas: Canvas = Canvas::new(width, height);
        let mut i: usize = 0;
        while i < marks.len()
            invariant
                i <= marks@.len(),
                strokes_of(marks@) == self.strokes(),
                forall|i: int| 0 <= i < marks@.len() ==> (#[trigger] marks@[i]).paintable(),
                canvas.wf(),
                canvas.width == width,
                canvas.height == height,
                forall|u: int, v: int|
                    canvas.has_pixel(u, v) ==> #[trigger] canvas.pixel(u, v) == shown(
                        self.strokes(),
                        i as nat,
                        u,
                        v,
                    ),
            decreases marks@.len() - i,
        {
            let ghost before = canvas;
            assert(marks@[i as int].paintable());
            canvas.paint(&marks[i]);
            proof {
                assert(self.strokes()[i as int] == marks@[i as int].stroke());
                assert forall|u: int, v: int| canvas.has_pixel(u, v) implies #[trigger] canvas.pixel(
                    u,
                    v,
                ) == shown(self.strokes(), (i + 1) as nat, u, v) by {
                    assert(before.pixel(u, v) == shown(self.strokes(), i as nat, u, v));
                }
            }
            i = i + 1;
        }
        canvas
    }
}

impl Chart {
    fn labels_fit(&self) -> (b: bool)
        requires
            self.cell_h() <= usize::MAX,
            self.width() * self.height() * 3 <= usize::MAX,
        ensures
            b == ((forall|i: int|
                0 <= i < self.temperatures@.len() ==> #[trigger] self.column_x(i) + 6
                    + self.temperatures@[i]@.len() * FONT_W * FONT_SCALE <= usize::MAX) && (forall|
                i: int,
            |
                0 <= i < self.supersaturations@.len() ==> 6 + (#[trigger] self.supersaturations@[i])@.len()
                    * FONT_W * FONT_SCALE <= usize::MAX)),
    {
        let mut i: usize = 0;
        while i < self.temperatures.len()
            invariant
                i <= self.temperatures@.len(),
                forall|k: int|
                    0 <= k < i ==> #[trigger] self.column_x(k) + 6 + self.temperatures@[k]@.len()
                        * FONT_W * FONT_SCALE <= usize::MAX,
            decreases self.temperatures@.len() - i,
        {
            proof {
                products_fit(i as int, self.tile as int);
            }
            let start: u128 = LABEL_W as u128 + i as u128 * self.tile as u128 + 6;
            assert(start == self.column_x(i as int) + 6);
            let letters: usize = self.temperatures[i].as_str().unicode_len();
            if start > usize::MAX as u128 || letters > (usize::MAX - start as usize) / (FONT_W
                * FONT_SCALE) {
                assert(self.column_x(i as int) + 6 + self.temperatures@[i as int]@.len() * FONT_W
                    * FONT_SCALE > usize::MAX);
                return false;
            }
            i = i + 1;
        }
        let mut j: usize = 0;
        while j < self.supersaturations.len()
            invariant
                j <= self.supersaturations@.len(),
                forall|k: int|
                    0 <= k < j ==> 6 + (#[trigger] self.supersaturations@[k])@.len() * FONT_W
                        * FONT_SCALE <= usize::MAX,
            decreases self.supersaturations@.len() - j,
        {
            let letters: usize = self.supersaturations[j].as_str().unicode_len();
            if letters > (usize::MAX - 6) / (FONT_W * FONT_SCALE) {
                assert(6 + self.supersaturations@[j as int]@.len() * FONT_W * FONT_SCALE
                    > usize::MAX);
                return false;
            }
            j = j + 1;
        }
        true
    }

    /// Whether the chart can be drawn.
    pub fn is_drawable(&self) -> (b: bool)
        ensures
            b == self.drawable(),
    {
        let cols: u128 = self.temperatures.len() as u128;
        let rows: u128 = self.supersaturations.len() as u128;
        let tile: u128 = self.tile as u128;
        if self.with_relief && self.tile > usize::MAX / 2 || self.temperatures.len() == usize::MAX
            || self.supersaturations.len() == usize::MAX {
            return false;
        }
        let cell: u128 = self.cell_height() as u128;
        proof {
            products_fit(cols as int, tile as int);
            products_fit(rows as int, cell as int);
        }
        let width: u128 = LABEL_W as u128 + cols * tile;
        let height: u128 = HEADER_H as u128 + rows * cell;
        proof {
            let (w, h) = (width as int, height as int);
            assert(w * 22 <= w * h && h * 68 <= w * h) by (nonlinear_arith)
                requires
                    w >= 68,
                    h >= 22,
            ;
        }
        if width > usize::MAX as u128 / 66 || height > usize::MAX as u128 / 204 {
            return false;
        }
        proof {
            let (w, h) = (width as int, height as int);
            let (m, n) = (usize::MAX as int / 66, usize::MAX as int / 204);
            assert(0 <= w * h <= w * h * 3 <= (3 * m) * n) by (nonlinear_arith)
                requires
                    0 <= w <= m,
                    0 <= h <= n,
            ;
            products_fit(3 * m, n);
        }
        if width * height * 3 > usize::MAX as u128 {
            return false;
        }
        if !self.labels_fit() {
            return false;
        }
        let mut i: usize = 0;
        while i < self.tiles.len()
            invariant
                i <= self.tiles@.len(),
                tile == self.tile,
                forall|k: int| 0 <= k < i ==> self.tile_ok(#[trigger] self.tiles@[k]),
            decreases self.tiles@.len() - i,
        {
            let t: &Tile = &self.tiles[i];
            proof {
                products_fit(tile as int, tile as int);
            }
            let pixels: u128 = tile * tile;
            let relief_short: bool = match &t.relief {
                Some(r) => pixels > r.len() as u128 / 3,
                None => false,
            };
            if t.column >= self.temperatures.len() || t.level >= self.supersaturations.len()
                || pixels > t.top.len() as u128 / 3 || relief_short {
                assert(!self.tile_ok(self.tiles@[i as int]));
                return false;
            }
            i = i + 1;
        }
        true
    }
}

proof fn products_fit(a: int, b: int)
    requires
        0 <= a <= usize::MAX,
        0 <= b <= usize::MAX,
    ensures
        0 <= a * b <= u128::MAX - 0x1_0000_0000,
{
    let m = usize::MAX as int;
    assert(0 <= a * b <= m * m) by (nonlinear_arith)
        requires
            0 <= a <= m,
            0 <= b <= m,
    ;
    assert(m * m <= 0xffff_ffff_ffff_ffff * 0xffff_ffff_ffff_ffff) by (nonlinear_arith)
        requires
            0 <= m <= 0xffff_ffff_ffff_ffff,
    ;
}

fn copy_bytes(bytes: &Vec<u8>) -> (copy: Vec<u8>)
    ensures
        copy@ == bytes@,
{
    let mut copy: Vec<u8> = Vec::new();
    let mut i: usize = 0;
    while i < bytes.len()
        invariant
            i <= bytes@.len(),
            copy@ == bytes@.take(i as int),
        decreases bytes@.len() - i,
    {
        copy.push(bytes[i]);
        i = i + 1;
        proof {
            assert(copy@ =~= bytes@.take(i as int));
        }
    }
    proof {
        assert(copy@ =~= bytes@);
    }
    copy
}

proof fn decimals_are_short(n: int)
    requires
        -0x8000_0000 <= n <= 0x7fff_ffff,
    ensures
        text::decimal(n).len() <= 11,
{
    let m = (if n < 0 {
        -n
    } else {
        n
    }) as nat;
    reveal_with_fuel(text::digits, 11);
    assert(text::digits(m).len() <= 10);
}

/// The (temperature, supersaturation) cells of a diagram in the order in which
/// they are grown: level by level, and within a level from the first
/// temperature on.
pub fn jobs(temperatures: usize, supersaturations: usize) -> (jobs: Vec<(usize, usize)>)
    requires
        temperatures * supersaturations <= usize::MAX,
    ensures
        jobs@.len() == temperatures * supersaturations,
        forall|s: int, t: int|
            0 <= s < supersaturations && 0 <= t < temperatures ==> #[trigger] jobs@[s * temperatures
                + t] == (t as usize, s as usize),
{
    let mut jobs: Vec<(usize, usize)> = Vec::new();
    let mut s: usize = 0;
    proof {
        assert(0 * temperatures == 0) by (nonlinear_arith);
    }
    while s < supersaturations
        invariant
            temperatures * supersaturations <= usize::MAX,
            s <= supersaturations,
            jobs@.len() == s * temperatures,
            forall|a: int, b: int|
                0 <= a < s && 0 <= b < temperatures ==> #[trigger] jobs@[a * temperatures + b] == (
                    b as usize,
                    a as usize,
                ),
        decreases supersaturations - s,
    {
        let mut t: usize = 0;
        while t < temperatures
            invariant
                s < supersaturations,
                t <= temperatures,
                jobs@.len() == s * temperatures + t,
                forall|a: int, b: int|
                    0 <= a < s && 0 <= b < temperatures ==> #[trigger] jobs@[a * temperatures + b]
                        == (b as usize, a as usize),
                forall|b: int|
                    0 <= b < t ==> #[trigger] jobs@[s * temperatures + b] == (b as usize, s),
            decreases temperatures - t,
        {
            let ghost before = jobs@;
            jobs.push((t, s));
            proof {
                assert forall|a: int, b: int| 0 <= a < s && 0 <= b < temperatures implies #[trigger] jobs@[a
                    * temperatures + b] == (b as usize, a as usize) by {
                    assert(a * temperatures + b < s * temperatures) by (nonlinear_arith)
                        requires
                            0 <= a < s,
                            0 <= b < temperatures,
                    ;
                    assert(before[a * temperatures + b] == (b as usize, a as usize));
                }
            }
            t = t + 1;
        }
        proof {
            assert(s * temperatures + temperatures == (s + 1) * temperatures) by (nonlinear_arith);
        }
        s = s + 1;
    }
    proof {
        assert(supersaturations * temperatures == temperatures * supersaturations)
            by (nonlinear_arith);
    }
    jobs
}

/// Position of the first entry equal to `x`.
pub fn first_position(codes: &Vec<i64>, x: i64) -> (at: Option<usize>)
    ensures
        match at {
            Some(i) => i < codes@.len() && codes@[i as int] == x && forall|k: int|
                0 <= k < i ==> #[trigger] codes@[k] != x,
            None => !codes@.contains(x),
        },
{
    let mut i: usize = 0;
    while i < codes.len()
        invariant
            i <= codes@.len(),
            forall|k: int| 0 <= k < i ==> #[trigger] codes@[k] != x,
        decreases codes@.len() - i,
    {
        if codes[i] == x {
            return Some(i);
        }
        i = i + 1;
    }
    None
}

} // verus!
