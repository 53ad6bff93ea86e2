//! Vector output.
//!
//! The crystal is drawn as a handful of nested thickness bands, each traced as
//! the outline of the set of cells above a mass threshold.  Outlines are
//! written in integer lattice units, so every edge is one of six short
//! relative moves; a group transform restores the hexagonal geometry.

use crate::outline;
use crate::outline::Vertex;
use crate::snapshot::Snapshot;
use crate::text;
use vstd::prelude::*;

verus! {

/// Colour scheme: dark sky, ice going from deep blue (thin) to white (thick).
#[derive(Clone, Copy, Debug)]
pub struct Palette;

/// A colour as `#rrggbb`.
pub open spec fn hex_text(rgb: [u8; 3]) -> Seq<char> {
    seq!['#'] + text::hex_pair(rgb[0]) + text::hex_pair(rgb[1]) + text::hex_pair(rgb[2])
}

impl Palette {
    /// A colour as `#rrggbb`.
    pub fn hex(rgb: [u8; 3]) -> (s: String)
        ensures
            s@ == hex_text(rgb),
            s@.len() == 7,
    {
        let mut s: String = String::new();
        s.push('#');
        proof {
            assert(s@ =~= seq!['#']);
        }
        text::push_hex(&mut s, rgb[0]);
        text::push_hex(&mut s, rgb[1]);
        text::push_hex(&mut s, rgb[2]);
        s
    }

    /// Colour of the sky.
    pub fn background() -> (rgb: [u8; 3])
        ensures
            rgb@ == seq![6u8, 12, 34],
    {
        [6, 12, 34]
    }
}

/// Path text of the first `m` vertices of a ring: a move to the first, then
/// the steps from each to the next.
pub open spec fn ring_text(ring: Seq<Vertex>, m: nat) -> Seq<char>
    decreases m,
{
    if m == 0 {
        Seq::empty()
    } else {
        let (x, y) = outline::coords_of(ring[m - 1].corner());
        if m == 1 {
            Seq::empty().push('M') + text::decimal(x) + seq![' '] + text::decimal(y)
        } else {
            let (x0, y0) = outline::coords_of(ring[m - 2].corner());
            ring_text(ring, (m - 1) as nat) + seq!['l'] + text::decimal(x - x0) + seq![' ']
                + text::decimal(y - y0)
        }
    }
}

/// Path text of the first `m` rings, each closed.
pub open spec fn path_text(loops: Seq<Vec<Vertex>>, m: nat) -> Seq<char>
    decreases m,
{
    if m == 0 {
        Seq::empty()
    } else {
        path_text(loops, (m - 1) as nat) + ring_text(loops[m - 1]@, loops[m - 1]@.len()) + seq!['z']
    }
}

/// Whether the rings can be written: none is empty, and their coordinates
/// fit a machine word.
pub open spec fn writable(loops: Seq<Vec<Vertex>>) -> bool {
    forall|a: int|
        0 <= a < loops.len() ==> (#[trigger] loops[a])@.len() > 0 && forall|i: int|
            0 <= i < loops[a]@.len() ==> (#[trigger] loops[a]@[i]).fits()
}

/// Outlines as returned by tracing can be written.
pub proof fn outlines_are_writable(snap: Snapshot, threshold: u32, loops: Seq<Vec<Vertex>>)
    requires
        outline::are_outlines(snap, threshold, loops),
    ensures
        writable(loops),
{
    assert forall|a: int| 0 <= a < loops.len() implies (#[trigger] loops[a])@.len() > 0 && forall|
        i: int,
    |
        0 <= i < loops[a]@.len() ==> (#[trigger] loops[a]@[i]).fits() by {
        assert(outline::closed_walk(snap, threshold, loops[a]@));
    }
}

fn push_char(out: &mut String, c: char)
    ensures
        final(out)@ == old(out)@ + seq![c],
{
    let ghost before = out@;
    out.push(c);
    proof {
        assert(out@ =~= before + seq![c]);
    }
}

fn push_ring(out: &mut String, ring: &Vec<Vertex>)
    requires
        ring@.len() > 0,
        forall|i: int| 0 <= i < ring@.len() ==> (#[trigger] ring@[i]).fits(),
    ensures
        final(out)@ == old(out)@ + ring_text(ring@, ring@.len()),
{
    let ghost before = out@;
    let first: (i32, i32) = ring[0].coords();
    out.push('M');
    text::push_decimal(out, first.0 as i64);
    push_char(out, ' ');
    text::push_decimal(out, first.1 as i64);
    let mut at: (i32, i32) = first;
    let mut i: usize = 1;
    proof {
        assert(out@ =~= before + ring_text(ring@, 1));
    }
    while i < ring.len()
        invariant
            1 <= i <= ring@.len(),
            forall|i: int| 0 <= i < ring@.len() ==> (#[trigger] ring@[i]).fits(),
            (at.0 as int, at.1 as int) == outline::coords_of(ring@[i - 1].corner()),
            out@ == before + ring_text(ring@, i as nat),
        decreases ring@.len() - i,
    {
        let xy: (i32, i32) = ring[i].coords();
        assert(ring@[i as int].fits());
        assert(ring@[i - 1].fits());
        push_char(out, 'l');
        text::push_decimal(out, xy.0 as i64 - at.0 as i64);
        push_char(out, ' ');
        text::push_decimal(out, xy.1 as i64 - at.1 as i64);
        at = xy;
        i = i + 1;
        proof {
            assert(out@ =~= before + ring_text(ring@, i as nat));
        }
    }
}

/// Path data of closed outlines.
pub fn path_data(loops: &Vec<Vec<Vertex>>) -> (d: String)
    requires
        writable(loops@),
    ensures
        d@ == path_text(loops@, loops@.len()),
{
    let mut d: String = String::new();
    let mut a: usize = 0;
    while a < loops.len()
        invariant
            writable(loops@),
            a <= loops@.len(),
            d@ == path_text(loops@, a as nat),
        decreases loops@.len() - a,
    {
        assert(loops@[a as int]@.len() > 0);
        push_ring(&mut d, &loops[a]);
        push_char(&mut d, 'z');
        a = a + 1;
    }
    d
}

/// Elements of the first `m` bands; a band without an outline has none.
pub open spec fn bands_text(
    colours: Seq<[u8; 3]>,
    outlines: Seq<Vec<Vec<Vertex>>>,
    m: nat,
) -> Seq<char>
    decreases m,
{
    if m == 0 {
        Seq::empty()
    } else {
        let before = bands_text(colours, outlines, (m - 1) as nat);
        let loops = outlines[m - 1]@;
        if loops.len() == 0 {
            before
        } else {
            before + "<path fill=\""@ + hex_text(colours[m - 1])
                + "\" fill-rule=\"evenodd\" d=\""@ + path_text(loops, loops.len()) + "\"/>\n"@
        }
    }
}

/// A colour is written as a hash sign and two hexadecimal digits for each of red,
/// green and blue, from which it reads back; different colours are written
/// differently.
pub proof fn colours_read_back(a: [u8; 3], b: [u8; 3])
    ensures
        ({
            let t = hex_text(a);
            &&& t.len() == 7
            &&& t[0] == '#'
            &&& 16 * text::digit_value(t[1]) + text::digit_value(t[2]) == a[0]
            &&& 16 * text::digit_value(t[3]) + text::digit_value(t[4]) == a[1]
            &&& 16 * text::digit_value(t[5]) + text::digit_value(t[6]) == a[2]
        }),
        hex_text(a) == hex_text(b) ==> a@ == b@,
{
    text::hex_pairs_read_back(a[0]);
    text::hex_pairs_read_back(a[1]);
    text::hex_pairs_read_back(a[2]);
    text::hex_pairs_read_back(b[0]);
    text::hex_pairs_read_back(b[1]);
    text::hex_pairs_read_back(b[2]);
    let (t, u) = (hex_text(a), hex_text(b));
    assert(t[1] == text::hex_pair(a[0])[0] && t[2] == text::hex_pair(a[0])[1]);
    assert(t[3] == text::hex_pair(a[1])[0] && t[4] == text::hex_pair(a[1])[1]);
    assert(t[5] == text::hex_pair(a[2])[0] && t[6] == text::hex_pair(a[2])[1]);
    assert(u[1] == text::hex_pair(b[0])[0] && u[2] == text::hex_pair(b[0])[1]);
    assert(u[3] == text::hex_pair(b[1])[0] && u[4] == text::hex_pair(b[1])[1]);
    assert(u[5] == text::hex_pair(b[2])[0] && u[6] == text::hex_pair(b[2])[1]);
    if t == u {
        assert(a@ =~= b@);
    }
}

/// Path text of vertex `i` of a ring: a move to the first, a step from the one
/// before to each other.
pub open spec fn move_text(ring: Seq<Vertex>, i: int) -> Seq<char> {
    let (x, y) = outline::coords_of(ring[i].corner());
    if i == 0 {
        seq!['M'] + text::decimal(x) + seq![' '] + text::decimal(y)
    } else {
        let (x0, y0) = outline::coords_of(ring[i - 1].corner());
        seq!['l'] + text::decimal(x - x0) + seq![' '] + text::decimal(y - y0)
    }
}

proof fn moves_are_joined(ring: Seq<Vertex>, m: nat)
    ensures
        ring_text(ring, m) == Seq::new(m, |i: int| move_text(ring, i)).flatten_alt(),
    decreases m,
{
    let parts = Seq::new(m, |i: int| move_text(ring, i));
    if m > 0 {
        moves_are_joined(ring, (m - 1) as nat);
        assert(parts.drop_last() =~= Seq::new((m - 1) as nat, |i: int| move_text(ring, i)));
        assert(ring_text(ring, m) =~= ring_text(ring, (m - 1) as nat) + move_text(ring, m - 1));
    }
}

proof fn rings_are_joined(loops: Seq<Vec<Vertex>>, m: nat)
    ensures
        path_text(loops, m) == Seq::new(
            m,
            |a: int| ring_text(loops[a]@, loops[a]@.len()) + seq!['z'],
        ).flatten_alt(),
    decreases m,
{
    let parts = Seq::new(m, |a: int| ring_text(loops[a]@, loops[a]@.len()) + seq!['z']);
    if m > 0 {
        rings_are_joined(loops, (m - 1) as nat);
        assert(parts.drop_last() =~= Seq::new(
            (m - 1) as nat,
            |a: int| ring_text(loops[a]@, loops[a]@.len()) + seq!['z'],
        ));
        assert(path_text(loops, m) =~= path_text(loops, (m - 1) as nat) + (ring_text(
            loops[m - 1]@,
            loops[m - 1]@.len(),
        ) + seq!['z']));
    }
}

/// A path is its rings one after the other, each a move to its first vertex, a
/// step from each vertex to the next, and the sign that closes it.
pub proof fn paths_walk_their_rings(loops: Seq<Vec<Vertex>>, ring: Seq<Vertex>)
    ensures
        path_text(loops, loops.len()) == Seq::new(
            loops.len(),
            |a: int| ring_text(loops[a]@, loops[a]@.len()) + seq!['z'],
        ).flatten(),
        ring_text(ring, ring.len()) == Seq::new(
            ring.len(),
            |i: int| move_text(ring, i),
        ).flatten(),
{
    rings_are_joined(loops, loops.len());
    moves_are_joined(ring, ring.len());
    Seq::new(
        loops.len(),
        |a: int| ring_text(loops[a]@, loops[a]@.len()) + seq!['z'],
    ).lemma_flatten_and_flatten_alt_are_equivalent();
    Seq::new(ring.len(), |i: int| move_text(ring, i)).lemma_flatten_and_flatten_alt_are_equivalent();
}

/// The path element of a band: filled with its colour, along its outlines.
pub open spec fn band_element(colour: [u8; 3], loops: Seq<Vec<Vertex>>) -> Seq<char> {
    "<path fill=\""@ + hex_text(colour) + "\" fill-rule=\"evenodd\" d=\""@ + path_text(
        loops,
        loops.len(),
    ) + "\"/>\n"@
}

/// What a drawing holds of band `b`: its element, if it has an outline.
pub open spec fn band_part(
    colours: Seq<[u8; 3]>,
    outlines: Seq<Vec<Vec<Vertex>>>,
    b: int,
) -> Seq<char> {
    if outlines[b]@.len() == 0 {
        Seq::empty()
    } else {
        band_element(colours[b], outlines[b]@)
    }
}

proof fn bands_are_joined(colours: Seq<[u8; 3]>, outlines: Seq<Vec<Vec<Vertex>>>, m: nat)
    ensures
        bands_text(colours, outlines, m) == Seq::new(
            m,
            |b: int| band_part(colours, outlines, b),
        ).flatten_alt(),
    decreases m,
{
    let parts = Seq::new(m, |b: int| band_part(colours, outlines, b));
    if m > 0 {
        bands_are_joined(colours, outlines, (m - 1) as nat);
        assert(parts.drop_last() =~= Seq::new(
            (m - 1) as nat,
            |b: int| band_part(colours, outlines, b),
        ));
        assert(bands_text(colours, outlines, m) =~= bands_text(colours, outlines, (m - 1) as nat)
            + band_part(colours, outlines, m - 1));
    }
}

proof fn a_band_follows_the_ones_before(
    colours: Seq<[u8; 3]>,
    outlines: Seq<Vec<Vec<Vertex>>>,
    m: nat,
)
    requires
        m > 0,
    ensures
        bands_text(colours, outlines, m) == bands_text(colours, outlines, (m - 1) as nat)
            + band_part(colours, outlines, m - 1),
{
    assert(bands_text(colours, outlines, m) =~= bands_text(colours, outlines, (m - 1) as nat)
        + band_part(colours, outlines, m - 1));
}

proof fn joining_is_associative(a: Seq<char>, b: Seq<char>, c: Seq<char>, d: Seq<char>)
    ensures
        (a + b + c) + d == a + b + (c + d),
        a + b + Seq::<char>::empty() == a + b,
{
    assert((a + b + c) + d =~= a + b + (c + d));
    assert(a + b + Seq::<char>::empty() =~= a + b);
}

proof fn a_band_is_among_the_first(
    colours: Seq<[u8; 3]>,
    outlines: Seq<Vec<Vec<Vertex>>>,
    b: int,
    m: nat,
) -> (rest: Seq<char>)
    requires
        0 <= b < m,
    ensures
        bands_text(colours, outlines, m) == bands_text(colours, outlines, b as nat) + band_part(
            colours,
            outlines,
            b,
        ) + rest,
    decreases m,
{
    let (pre, part) = (bands_text(colours, outlines, b as nat), band_part(colours, outlines, b));
    a_band_follows_the_ones_before(colours, outlines, m);
    if b == m - 1 {
        joining_is_associative(pre, part, Seq::empty(), Seq::empty());
        Seq::empty()
    } else {
        let rest = a_band_is_among_the_first(colours, outlines, b, (m - 1) as nat);
        let last = band_part(colours, outlines, m - 1);
        joining_is_associative(pre, part, rest, last);
        rest + last
    }
}

proof fn colours_show_among_the_first(
    colours: Seq<[u8; 3]>,
    others: Seq<[u8; 3]>,
    outlines: Seq<Vec<Vec<Vertex>>>,
    b: int,
    m: nat,
)
    requires
        0 <= b < m,
        outlines[b]@.len() > 0,
    ensures
        bands_text(colours, outlines, m).len() == bands_text(others, outlines, m).len(),
        bands_text(colours, outlines, m) == bands_text(others, outlines, m) ==> colours[b]@
            == others[b]@,
    decreases m,
{
    let (one, two) = (bands_text(colours, outlines, m), bands_text(others, outlines, m));
    bands_are_as_long(colours, others, outlines, m);
    bands_are_as_long(colours, others, outlines, b as nat);
    let s = a_band_is_among_the_first(colours, outlines, b, m);
    let t = a_band_is_among_the_first(others, outlines, b, m);
    let at = bands_text(colours, outlines, b as nat).len() + "<path fill=\""@.len() as int;
    colours_read_back(colours[b], others[b]);
    colours_read_back(others[b], colours[b]);
    assert(one.subrange(at, at + 7) =~= hex_text(colours[b]));
    assert(two.subrange(at, at + 7) =~= hex_text(others[b]));
}

proof fn bands_are_as_long(
    colours: Seq<[u8; 3]>,
    others: Seq<[u8; 3]>,
    outlines: Seq<Vec<Vec<Vertex>>>,
    m: nat,
)
    ensures
        bands_text(colours, outlines, m).len() == bands_text(others, outlines, m).len(),
    decreases m,
{
    if m > 0 {
        bands_are_as_long(colours, others, outlines, (m - 1) as nat);
        colours_read_back(colours[m - 1], others[m - 1]);
        colours_read_back(others[m - 1], colours[m - 1]);
    }
}

/// The drawing: `size` pixels square, the lattice's origin at `half` with the
/// scales `sx` and `sy` (numbers already written out).
pub open spec fn document_text(
    size: u32,
    half: Seq<char>,
    sx: Seq<char>,
    sy: Seq<char>,
    description: Seq<char>,
    colours: Seq<[u8; 3]>,
    outlines: Seq<Vec<Vec<Vertex>>>,
) -> Seq<char> {
    let n = text::decimal(size as int);
    "<svg xmlns=\"http://www.w3.org/2000/svg\" width=\""@ + n + "\" height=\""@ + n
        + "\" viewBox=\"0 0 "@ + n + " "@ + n
        + "\">\n<title>flakesim snow crystal</title>\n<desc>"@ + text::escaped(description)
        + "</desc>\n<rect width=\"100%\" height=\"100%\" fill=\"#060c22\"/>\n"@
        + "<g transform=\"translate("@ + half + " "@ + half + ") scale("@ + sx + " "@ + sy
        + ")\">\n"@ + bands_text(colours, outlines, colours.len()) + "</g>\n</svg>\n"@
}

/// What a drawing starts with.
pub open spec fn head_text(
    size: u32,
    half: Seq<char>,
    sx: Seq<char>,
    sy: Seq<char>,
    description: Seq<char>,
) -> Seq<char> {
    let n = text::decimal(size as int);
    "<svg xmlns=\"http://www.w3.org/2000/svg\" width=\""@ + n + "\" height=\""@ + n
        + "\" viewBox=\"0 0 "@ + n + " "@ + n
        + "\">\n<title>flakesim snow crystal</title>\n<desc>"@ + text::escaped(description)
        + "</desc>\n<rect width=\"100%\" height=\"100%\" fill=\"#060c22\"/>\n"@
        + "<g transform=\"translate("@ + half + " "@ + half + ") scale("@ + sx + " "@ + sy
        + ")\">\n"@
}

/// A drawing holds a path element for every band with an outline and for no
/// other, in the order of the bands, each filled with the band's own colour and
/// drawn along its own outlines, between the head and the end tags.
pub proof fn drawings_hold_a_path_for_each_band(
    size: u32,
    half: Seq<char>,
    sx: Seq<char>,
    sy: Seq<char>,
    description: Seq<char>,
    colours: Seq<[u8; 3]>,
    outlines: Seq<Vec<Vec<Vertex>>>,
)
    ensures
        document_text(size, half, sx, sy, description, colours, outlines) == head_text(
            size,
            half,
            sx,
            sy,
            description,
        ) + Seq::new(
            colours.len(),
            |b: int| band_part(colours, outlines, b),
        ).flatten() + "</g>\n</svg>\n"@,
{
    bands_are_joined(colours, outlines, colours.len());
    Seq::new(
        colours.len(),
        |b: int| band_part(colours, outlines, b),
    ).lemma_flatten_and_flatten_alt_are_equivalent();
}

/// The element of a band with an outline stands in the drawing, after those of the
/// bands before it.
pub proof fn every_band_is_drawn(
    size: u32,
    half: Seq<char>,
    sx: Seq<char>,
    sy: Seq<char>,
    description: Seq<char>,
    colours: Seq<[u8; 3]>,
    outlines: Seq<Vec<Vec<Vertex>>>,
    b: int,
)
    requires
        0 <= b < colours.len(),
        outlines[b]@.len() > 0,
    ensures
        exists|before: Seq<char>, after: Seq<char>|
            document_text(size, half, sx, sy, description, colours, outlines) == #[trigger] (
            before + band_element(colours[b], outlines[b]@) + after) && before == head_text(
                size,
                half,
                sx,
                sy,
                description,
            ) + Seq::new(b as nat, |a: int| band_part(colours, outlines, a)).flatten(),
{
    let pre = bands_text(colours, outlines, b as nat);
    let post = a_band_is_among_the_first(colours, outlines, b, colours.len());
    let head = head_text(size, half, sx, sy, description);
    let element = band_element(colours[b], outlines[b]@);
    let (before, after) = (head + pre, post + "</g>\n</svg>\n"@);
    bands_are_joined(colours, outlines, b as nat);
    Seq::new(
        b as nat,
        |a: int| band_part(colours, outlines, a),
    ).lemma_flatten_and_flatten_alt_are_equivalent();
    assert(document_text(size, half, sx, sy, description, colours, outlines) =~= before + element
        + after);
}

/// Drawings that differ in the colour of a band with an outline differ as text.
pub proof fn colours_show_in_the_drawing(
    size: u32,
    half: Seq<char>,
    sx: Seq<char>,
    sy: Seq<char>,
    description: Seq<char>,
    colours: Seq<[u8; 3]>,
    others: Seq<[u8; 3]>,
    outlines: Seq<Vec<Vec<Vertex>>>,
    b: int,
)
    requires
        colours.len() == others.len(),
        0 <= b < colours.len(),
        outlines[b]@.len() > 0,
        colours[b]@ != others[b]@,
    ensures
        document_text(size, half, sx, sy, description, colours, outlines) != document_text(
            size,
            half,
            sx,
            sy,
            description,
            others,
            outlines,
        ),
{
    let head = head_text(size, half, sx, sy, description);
    let one = document_text(size, half, sx, sy, description, colours, outlines);
    let two = document_text(size, half, sx, sy, description, others, outlines);
    let (p, q) = (
        bands_text(colours, outlines, colours.len()),
        bands_text(others, outlines, others.len()),
    );
    colours_show_among_the_first(colours, others, outlines, b, colours.len());
    let (from, to) = (head.len() as int, (head.len() + p.len()) as int);
    assert(one.subrange(from, to) =~= p);
    assert(two.subrange(from, to) =~= q);
}

/// The text of a drawing of nested bands, each with its colour and its
/// outlines, from back to front.
pub fn document(
    size: u32,
    half: &str,
    sx: &str,
    sy: &str,
    description: &str,
    colours: &Vec<[u8; 3]>,
    outlines: &Vec<Vec<Vec<Vertex>>>,
) -> (svg: String)
    requires
        colours@.len() == outlines@.len(),
        forall|b: int| 0 <= b < outlines@.len() ==> writable((#[trigger] outlines@[b])@),
    ensures
        svg@ == document_text(
            size,
            half@,
            sx@,
            sy@,
            description@,
            colours@,
            outlines@,
        ),
{
    let mut svg: String = String::new();
    svg.append("<svg xmlns=\"http://www.w3.org/2000/svg\" width=\"");
    proof {
        assert(svg@ =~= "<svg xmlns=\"http://www.w3.org/2000/svg\" width=\""@);
    }
    text::push_decimal(&mut svg, size as i64);
    svg.append("\" height=\"");
    text::push_decimal(&mut svg, size as i64);
    svg.append("\" viewBox=\"0 0 ");
    text::push_decimal(&mut svg, size as i64);
    svg.append(" ");
    text::push_decimal(&mut svg, size as i64);
    svg.append("\">\n<title>flakesim snow crystal</title>\n<desc>");
    svg.append(text::escape(description).as_str());
    svg.append("</desc>\n<rect width=\"100%\" height=\"100%\" fill=\"#060c22\"/>\n");
    svg.append("<g transform=\"translate(");
    svg.append(half);
    svg.append(" ");
    svg.append(half);
    svg.append(") scale(");
    svg.append(sx);
    svg.append(" ");
    svg.append(sy);
    svg.append(")\">\n");
    let ghost head = svg@;
    let mut b: usize = 0;
    proof {
        assert(svg@ =~= head + Seq::<char>::empty());
    }
    while b < colours.len()
        invariant
            colours@.len() == outlines@.len(),
            forall|b: int| 0 <= b < outlines@.len() ==> writable((#[trigger] outlines@[b])@),
            b <= colours@.len(),
            svg@ == head + bands_text(colours@, outlines@, b as nat),
        decreases colours@.len() - b,
    {
        assert(writable(outlines@[b as int]@));
        if outlines[b].len() > 0 {
            let path: String = path_data(&outlines[b]);
            let fill: String = Palette::hex(colours[b]);
            svg.append("<path fill=\"");
            svg.append(fill.as_str());
            svg.append("\" fill-rule=\"evenodd\" d=\"");
            svg.append(path.as_str());
            svg.append("\"/>\n");
            proof {
                assert(svg@ =~= head + bands_text(colours@, outlines@, (b + 1) as nat));
            }
        }
        b = b + 1;
    }
    svg.append("</g>\n</svg>\n");
    svg
}

/// Outlines of the region above each threshold.
pub fn trace_bands(snap: &Snapshot, thresholds: &Vec<u32>) -> (outlines: Vec<Vec<Vec<Vertex>>>)
    requires
        snap.wf(),
    ensures
        outlines@.len() == thresholds@.len(),
        forall|b: int|
            0 <= b < outlines@.len() ==> outline::are_outlines(
                *snap,
                thresholds@[b],
                (#[trigger] outlines@[b])@,
            ),
{
    let mut outlines: Vec<Vec<Vec<Vertex>>> = Vec::new();
    let mut b: usize = 0;
    while b < thresholds.len()
        invariant
            snap.wf(),
            b <= thresholds@.len(),
            outlines@.len() == b,
            forall|k: int|
                0 <= k < b ==> outline::are_outlines(
                    *snap,
                    thresholds@[k],
                    (#[trigger] outlines@[k])@,
                ),
        decreases thresholds@.len() - b,
    {
        let loops: Vec<Vec<Vertex>> = outline::trace_region(snap, thresholds[b]);
        outlines.push(loops);
        b = b + 1;
    }
    outlines
}

} // verus!
