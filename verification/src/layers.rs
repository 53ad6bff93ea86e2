//! The vapour grid: hexagonal lattices stacked along the c-axis, one cell
//! thick next to the plane, doubling in thickness outward and coarsened in
//! step with it.

use crate::hex;
use crate::lattice;
use crate::number;
use vstd::prelude::*;

verus! {

/// Thickest layer, in cells.
pub const DZ_MAX: i32 = 32;

/// Most layers of a stack (layer counts are kept in a byte).
pub const MAX_LAYERS: usize = 255;

/// Tallest stack, in cells.
pub const MAX_HEIGHT: i32 = 0x80_0000;

/// Thickness of layer `k`: one cell for the first two, then doubling up to
/// the thickest.
pub open spec fn thickness(k: int) -> int {
    if k < 2 {
        1
    } else if k == 2 {
        2
    } else if k == 3 {
        4
    } else if k == 4 {
        8
    } else if k == 5 {
        16
    } else {
        DZ_MAX as int
    }
}

/// Height of the lowest `k` layers.
pub open spec fn stack_height(k: nat) -> int
    decreases k,
{
    if k == 0 {
        0
    } else {
        stack_height((k - 1) as nat) + thickness(k - 1)
    }
}

/// Least number of layers, at least `k`, that stand seven tenths of the
/// radius tall.
pub open spec fn layers_needed(radius: int, k: nat) -> nat
    decreases 7 * radius + 10 * DZ_MAX - 10 * stack_height(k),
{
    if 10 * stack_height(k) >= 7 * radius {
        k
    } else {
        layers_needed(radius, k + 1)
    }
}

/// Thicknesses of the layers over a lattice of the given radius.
pub open spec fn default_dz(radius: int) -> Seq<i32> {
    Seq::new(layers_needed(radius, 2), |k: int| thickness(k) as i32)
}

/// Layer thicknesses (cells) of the field along the c-axis for a lattice of
/// the given radius: two layers one cell thick next to the plane, then
/// doubling up to [`DZ_MAX`] until the stack is seven tenths of the radius
/// tall.
pub fn layers_for(radius: usize) -> (dz: Vec<i32>)
    requires
        radius <= lattice::MAX_RADIUS,
    ensures
        dz@ == default_dz(radius as int),
{
    let mut dz: Vec<i32> = Vec::new();
    dz.push(1);
    dz.push(1);
    let goal: i64 = 7 * radius as i64;
    let mut z: i64 = 2;
    let mut next: i32 = 2;
    proof {
        reveal_with_fuel(stack_height, 3);
    }
    while 10 * z < goal
        invariant
            goal == 7 * radius,
            radius <= lattice::MAX_RADIUS,
            dz@.len() >= 2,
            forall|k: int| 0 <= k < dz@.len() ==> #[trigger] dz@[k] == thickness(k),
            z == stack_height(dz@.len()),
            2 <= z <= goal + 32,
            next == thickness(dz@.len() as int),
            layers_needed(radius as int, 2) == layers_needed(radius as int, dz@.len()),
        decreases goal + 32 - z,
    {
        dz.push(next);
        z = z + next as i64;
        next = if 2 * next < DZ_MAX {
            2 * next
        } else {
            DZ_MAX
        };
    }
    dz
}

/// A default stack ends at the first layer to reach seven tenths of the
/// radius, and never has fewer than two layers.
pub proof fn default_stack_reaches_its_height(radius: int)
    ensures
        default_dz(radius).len() >= 2,
        10 * stack_height(default_dz(radius).len()) >= 7 * radius,
        default_dz(radius).len() > 2 ==> 10 * stack_height((default_dz(radius).len() - 1) as nat)
            < 7 * radius,
{
    layers_needed_is_least(radius, 2);
}

proof fn layers_needed_is_least(radius: int, k: nat)
    ensures
        layers_needed(radius, k) >= k,
        10 * stack_height(layers_needed(radius, k)) >= 7 * radius,
        layers_needed(radius, k) > k ==> 10 * stack_height((layers_needed(radius, k) - 1) as nat)
            < 7 * radius,
    decreases 7 * radius + 10 * DZ_MAX - 10 * stack_height(k),
{
    if 10 * stack_height(k) < 7 * radius {
        layers_needed_is_least(radius, k + 1);
    }
}

/// Consecutive layers of a default stack differ in spacing by at most a
/// factor of two, and the layers within eight cells of the plane are not
/// coarsened.
pub proof fn default_spacings_double_at_most(k: int)
    requires
        k >= 0,
    ensures
        spacing(thickness(k), true) <= spacing(thickness(k + 1), true) <= 2 * spacing(
            thickness(k),
            true,
        ),
        spacing(thickness(k + 1), true) == spacing(thickness(k), true) || spacing(
            thickness(k + 1),
            true,
        ) == 2 * spacing(thickness(k), true),
        k < 4 ==> spacing(thickness(k), true) == 1,
        k >= 4 ==> stack_height(k as nat) >= 8,
{
    reveal_with_fuel(stack_height, 5);
    if k >= 4 {
        stack_height_increases(4, k as nat);
    }
}

/// Layers double in thickness outward, from one cell up to 32: the first two are
/// one cell thick, and each later one is twice as thick as the one below it, or
/// 32 cells where that is less.
pub proof fn layers_double_in_thickness(k: int)
    requires
        k >= 1,
    ensures
        thickness(0) == 1,
        thickness(1) == 1,
        thickness(k + 1) == if 2 * thickness(k) < 32 {
            2 * thickness(k)
        } else {
            32
        },
{
}

/// Coarse layers are a quarter as wide in spacing as they are thick, from eight
/// cells on; the others keep the lattice's spacing.
pub proof fn spacing_is_a_quarter_of_thickness(t: int, coarsen: bool)
    ensures
        coarsen && t >= 8 ==> 4 * spacing(t, coarsen) <= t < 4 * spacing(t, coarsen) + 4,
        !coarsen || t < 8 ==> spacing(t, coarsen) == 1,
{
}

/// A coarse layer's lattice covers the plane's with a ring to spare, and is no
/// wider than that takes; a layer at the lattice's spacing is as wide.
pub proof fn layers_cover_the_lattice(radius: int, s: int)
    requires
        radius >= 0,
        s >= 1,
    ensures
        s == 1 ==> layer_radius(radius, s) == radius,
        s > 1 ==> s * (layer_radius(radius, s) - 1) >= radius && s * (layer_radius(radius, s) - 2)
            < radius,
{
    if s > 1 {
        let m = (radius + s - 1) / s;
        vstd::arithmetic::div_mod::lemma_fundamental_div_mod(radius + s - 1, s);
        vstd::arithmetic::div_mod::lemma_mod_bound(radius + s - 1, s);
        assert(s * (m - 1) == s * m - s) by (nonlinear_arith);
    }
}

proof fn stack_height_increases(a: nat, b: nat)
    requires
        a <= b,
    ensures
        stack_height(a) <= stack_height(b),
    decreases b,
{
    if a < b {
        stack_height_increases(a, (b - 1) as nat);
    }
}

proof fn stack_height_grows(k: nat)
    requires
        k >= 6,
    ensures
        stack_height(k) == 32 * (k - 5),
    decreases k,
{
    reveal_with_fuel(stack_height, 7);
    if k > 6 {
        stack_height_grows((k - 1) as nat);
    }
}

proof fn default_heights_agree(radius: int, k: nat)
    requires
        k <= default_dz(radius).len(),
    ensures
        height_below(default_dz(radius), k) == stack_height(k),
    decreases k,
{
    if k > 0 {
        default_heights_agree(radius, (k - 1) as nat);
    }
}

proof fn default_cells_are_bounded(radius: int, k: nat)
    requires
        0 <= radius,
        k <= default_dz(radius).len(),
    ensures
        cells_below(radius, default_dz(radius), true, k) <= k * lattice::area(radius + 1),
    decreases k,
{
    let bound = lattice::area(radius + 1);
    if k > 0 {
        default_cells_are_bounded(radius, (k - 1) as nat);
        let s = spacing(default_dz(radius)[k - 1] as int, true);
        assert(0 <= layer_radius(radius, s) <= radius + 1) by {
            if s > 1 {
                assert(0 <= (radius + s - 1) / s <= radius) by (nonlinear_arith)
                    requires
                        s > 1,
                        radius >= 0,
                ;
            }
        }
        let w = lattice::width(layer_radius(radius, s));
        let v = lattice::width(radius + 1);
        assert(w * w <= v * v) by (nonlinear_arith)
            requires
                0 <= w <= v,
        ;
        assert((k - 1) * bound + bound == k * bound) by (nonlinear_arith);
    } else {
        assert(0 * bound == 0) by (nonlinear_arith);
    }
}

/// The default stack fits any machine for every lattice radius that a
/// history file may ask for.
pub proof fn configured_radii_are_stackable(radius: int)
    requires
        0 <= radius <= 3000,
    ensures
        stackable(radius, default_dz(radius), true),
{
    let dz = default_dz(radius);
    default_stack_reaches_its_height(radius);
    if dz.len() > 71 {
        stack_height_grows((dz.len() - 1) as nat);
    }
    default_heights_agree(radius, dz.len());
    stack_height_grows(71);
    stack_height_increases(dz.len(), 71);
    default_cells_are_bounded(radius, dz.len());
    let v = lattice::width(radius + 1);
    assert(v * v <= 6003 * 6003) by (nonlinear_arith)
        requires
            0 <= v <= 6003,
    ;
    let (n, bound) = (dz.len() as int, lattice::area(radius + 1));
    assert(n * bound <= 71 * 36036009) by (nonlinear_arith)
        requires
            0 <= n <= 71,
            0 <= bound <= 36036009,
    ;
    assert forall|j: int| 0 < j < dz.len() implies (spacing(#[trigger] dz[j] as int, true)
        == spacing(dz[j - 1] as int, true) || spacing(dz[j] as int, true) == 2 * spacing(
        dz[j - 1] as int,
        true,
    )) by {
        default_spacings_double_at_most(j - 1);
    }
}

/// Only the number of layers and of cells decides whether a default stack fits.
proof fn default_stack_is_held_by_its_cells(radius: int)
    requires
        0 <= radius < lattice::MAX_RADIUS,
        default_dz(radius).len() <= MAX_LAYERS,
    ensures
        stackable(radius, default_dz(radius), true) == (cells_below(
            radius,
            default_dz(radius),
            true,
            default_dz(radius).len(),
        ) <= usize::MAX),
{
    let dz = default_dz(radius);
    default_stack_reaches_its_height(radius);
    default_heights_agree(radius, dz.len());
    stack_height_increases(dz.len(), 255);
    stack_height_grows(255);
    assert forall|j: int| 0 < j < dz.len() implies (spacing(#[trigger] dz[j] as int, true)
        == spacing(dz[j - 1] as int, true) || spacing(dz[j] as int, true) == 2 * spacing(
        dz[j - 1] as int,
        true,
    )) by {
        default_spacings_double_at_most(j - 1);
    }
}

/// Whether the default stack of layers can be laid over a lattice of the given
/// radius on this machine.
pub fn can_stack(radius: usize) -> (b: bool)
    ensures
        b == stackable(radius as int, default_dz(radius as int), true),
{
    if radius >= lattice::MAX_RADIUS as usize {
        return false;
    }
    let dz: Vec<i32> = layers_for(radius);
    if dz.len() > MAX_LAYERS {
        return false;
    }
    let big_r: u128 = radius as u128;
    let mut cells: u128 = 0;
    let mut j: usize = 0;
    while j < dz.len()
        invariant
            radius < lattice::MAX_RADIUS,
            big_r == radius,
            dz@ == default_dz(radius as int),
            dz@.len() <= MAX_LAYERS,
            j <= dz@.len(),
            cells == cells_below(radius as int, dz@, true, j as nat),
            cells <= j * 0x10_0000_0000_0000,
        decreases dz@.len() - j,
    {
        let t: i32 = dz[j];
        let s: u128 = if t >= 8 {
            (t / 4) as u128
        } else {
            1
        };
        let radius_j: u128 = if s == 1 {
            big_r
        } else {
            (big_r + s - 1) / s + 1
        };
        proof {
            layer_radius_is_small(radius as int, s as int);
            let w = lattice::width(radius_j as int);
            assert(spacing(dz@[j as int] as int, true) == s);
            assert(0 <= w * w <= 0x10_0000_0000_0000) by (nonlinear_arith)
                requires
                    0 <= w <= 0x200_0001,
            ;
        }
        let w: u128 = 2 * radius_j + 1;
        cells = cells + w * w;
        j = j + 1;
    }
    proof {
        default_stack_is_held_by_its_cells(radius as int);
    }
    cells <= usize::MAX as u128
}

/// `a / s` rounded to the nearest whole number, halves away from zero.
pub open spec fn rounded_ratio(a: int, s: int) -> int {
    if a >= 0 {
        (2 * a + s) / (2 * s)
    } else {
        -((-2 * a + s) / (2 * s))
    }
}

/// Cell of the sublattice of spacing `s` nearest to cell (q, r): all three
/// cube coordinates are rounded, and the one rounded furthest is replaced by
/// what the other two leave.
pub open spec fn nearest_cell(s: int, q: int, r: int) -> hex::Cell {
    let y = -q - r;
    let (rq, rr, ry) = (rounded_ratio(q, s), rounded_ratio(r, s), rounded_ratio(y, s));
    let (dq, dr, dy) = (hex::abs(rq * s - q), hex::abs(rr * s - r), hex::abs(ry * s - y));
    if dq > dr && dq > dy {
        (-rr - ry, rr)
    } else if dr > dy {
        (rq, -rq - ry)
    } else {
        (rq, rr)
    }
}

proof fn rounding_error_is_small(a: int, s: int)
    requires
        s >= 1,
    ensures
        2 * hex::abs(rounded_ratio(a, s) * s - a) <= s,
{
    let p = if a >= 0 {
        a
    } else {
        -a
    };
    let n = (2 * p + s) / (2 * s);
    vstd::arithmetic::div_mod::lemma_fundamental_div_mod(2 * p + s, 2 * s);
    vstd::arithmetic::div_mod::lemma_mod_bound(2 * p + s, 2 * s);
    assert((2 * s) * n == 2 * (n * s)) by (nonlinear_arith);
    assert((-n) * s == -(n * s)) by (nonlinear_arith);
}

/// A cell lies in the hexagon of the sublattice cell nearest to it: none of
/// the six neighbouring sublattice cells is nearer.
pub proof fn nearest_cell_is_nearest(s: int, q: int, r: int)
    requires
        s >= 1,
    ensures
        ({
            let c = nearest_cell(s, q, r);
            let (a, b) = (q - s * c.0, r - s * c.1);
            &&& hex::abs(2 * a + b) <= s
            &&& hex::abs(a + 2 * b) <= s
            &&& hex::abs(a - b) <= s
            &&& 3 * hex::dist(a, b) <= 2 * s
        }),
{
    let y = -q - r;
    let (rq, rr, ry) = (rounded_ratio(q, s), rounded_ratio(r, s), rounded_ratio(y, s));
    rounding_error_is_small(q, s);
    rounding_error_is_small(r, s);
    rounding_error_is_small(y, s);
    let excess = rq + rr + ry;
    assert(rq * s + rr * s + ry * s == excess * s) by (nonlinear_arith)
        requires
            excess == rq + rr + ry,
    ;
    assert(-1 <= excess <= 1) by (nonlinear_arith)
        requires
            2 * hex::abs(excess * s) <= 3 * s,
            s >= 1,
    ;
    assert(excess * s == if excess == 1 {
        s
    } else if excess == -1 {
        -s
    } else {
        0
    }) by (nonlinear_arith)
        requires
            -1 <= excess <= 1,
    ;
    assert(s * (-rr - ry) == -(rr * s) - ry * s) by (nonlinear_arith);
    assert(s * (-rq - ry) == -(rq * s) - ry * s) by (nonlinear_arith);
    assert(s * rq == rq * s && s * rr == rr * s) by (nonlinear_arith);
}

/// The layer cell nearest to a lattice cell lies within the layer's lattice.
pub proof fn nearest_cell_is_on_its_layer(radius: int, s: int, q: int, r: int)
    requires
        s >= 1,
        hex::dist(q, r) <= radius,
    ensures
        hex::dist(nearest_cell(s, q, r).0, nearest_cell(s, q, r).1) <= layer_radius(radius, s),
        s == 1 ==> nearest_cell(s, q, r) == (q, r),
{
    let c = nearest_cell(s, q, r);
    nearest_cell_is_nearest(s, q, r);
    let (a, b) = (q - s * c.0, r - s * c.1);
    if s == 1 {
        assert(s * c.0 == c.0 && s * c.1 == c.1) by (nonlinear_arith)
            requires
                s == 1,
        ;
    } else {
        let reach = (radius + s - 1) / s;
        vstd::arithmetic::div_mod::lemma_fundamental_div_mod(radius + s - 1, s);
        vstd::arithmetic::div_mod::lemma_mod_bound(radius + s - 1, s);
        assert(s * (c.0 + c.1) == s * c.0 + s * c.1) by (nonlinear_arith);
        assert forall|x: int| -radius - s <= #[trigger] (s * x) <= radius + s implies hex::abs(x)
            <= reach + 1 by {
            assert(-(reach + 1) <= x <= reach + 1) by (nonlinear_arith)
                requires
                    -radius - s <= s * x <= radius + s,
                    radius <= s * reach,
                    s > 1,
            ;
        }
        assert(-radius - s <= s * c.0 <= radius + s);
        assert(-radius - s <= s * c.1 <= radius + s);
        assert(-radius - s <= s * (c.0 + c.1) <= radius + s);
    }
}

/// One layer of the field: the hex lattice at an in-plane spacing of `s`
/// cells.
#[derive(Clone, Copy)]
pub struct Layer {
    /// In-plane spacing, cells.
    pub s: i32,
    /// Lattice radius at that spacing.
    pub radius: i32,
    /// Row stride.
    pub w: usize,
    /// First index of the layer in the field array.
    pub off: usize,
    /// Cells in the layer.
    pub n: usize,
    /// Thickness, cells.
    pub dz: i32,
    /// Height of the layer's bottom above the plane, cells.
    pub z: i32,
}

/// In-plane spacing of a layer `t` cells thick.
pub open spec fn spacing(t: int, coarsen: bool) -> int {
    if coarsen && t >= 8 {
        t / 4
    } else {
        1
    }
}

/// Radius, in its own cells, of a layer of spacing `s` over a lattice of
/// radius `radius`.
pub open spec fn layer_radius(radius: int, s: int) -> int {
    if s == 1 {
        radius
    } else {
        (radius + s - 1) / s + 1
    }
}

/// Height of the lowest `k` of the layers with thicknesses `dz`.
pub open spec fn height_below(dz: Seq<i32>, k: nat) -> int
    decreases k,
{
    if k == 0 {
        0
    } else {
        height_below(dz, (k - 1) as nat) + dz[k - 1]
    }
}

/// Field cells in the lowest `k` of the layers with thicknesses `dz`.
pub open spec fn cells_below(radius: int, dz: Seq<i32>, coarsen: bool, k: nat) -> int
    decreases k,
{
    if k == 0 {
        0
    } else {
        cells_below(radius, dz, coarsen, (k - 1) as nat) + lattice::area(
            layer_radius(radius, spacing(dz[k - 1] as int, coarsen)),
        )
    }
}

/// Whether a stack of layers with thicknesses `dz` can be laid over a lattice
/// of radius `radius`: some layer, thicknesses of at least a cell, each layer
/// spaced as the one below or twice as far, and everything countable.
pub open spec fn stackable(radius: int, dz: Seq<i32>, coarsen: bool) -> bool {
    &&& 0 <= radius < lattice::MAX_RADIUS
    &&& 1 <= dz.len() <= MAX_LAYERS
    &&& forall|j: int| 0 <= j < dz.len() ==> 1 <= #[trigger] dz[j] <= MAX_HEIGHT
    &&& height_below(dz, dz.len()) <= MAX_HEIGHT
    &&& cells_below(radius, dz, coarsen, dz.len()) <= usize::MAX
    &&& spacing(dz[0] as int, coarsen) == 1
    &&& forall|j: int|
        0 < j < dz.len() ==> (spacing(#[trigger] dz[j] as int, coarsen) == spacing(
            dz[j - 1] as int,
            coarsen,
        ) || spacing(dz[j] as int, coarsen) == 2 * spacing(dz[j - 1] as int, coarsen))
}

/// The layers of the field over a lattice of radius `radius`.
pub struct LayerStack {
    pub radius: i32,
    pub layers: Vec<Layer>,
}

impl LayerStack {
    /// Cells of layer `j` if it is coarser than the lattice, none otherwise.
    pub open spec fn coarse_cells(self, j: int) -> int {
        if self.layers@[j].s > 1 {
            self.layers@[j].n as int
        } else {
            0
        }
    }

    /// Whether layer `j` is consistent with itself and the layer below it.
    pub open spec fn layer_ok(self, j: int) -> bool {
        let l = self.layers@[j];
        &&& 1 <= l.dz <= MAX_HEIGHT
        &&& 1 <= l.s <= MAX_HEIGHT
        &&& l.radius == layer_radius(self.radius as int, l.s as int)
        &&& l.w == lattice::width(l.radius as int)
        &&& l.n == lattice::area(l.radius as int)
        &&& l.off + l.n <= usize::MAX
        &&& 0 <= l.z <= l.z + l.dz <= MAX_HEIGHT
        &&& if j == 0 {
            l.z == 0 && l.off == 0 && l.s == 1
        } else {
            let below = self.layers@[j - 1];
            &&& l.z == below.z + below.dz
            &&& l.off == below.off + below.n
            &&& (l.s == below.s || l.s == 2 * below.s)
        }
    }

    /// Whether the layers form a stack.
    pub open spec fn wf(self) -> bool {
        &&& 0 <= self.radius < lattice::MAX_RADIUS
        &&& 1 <= self.layers@.len() <= MAX_LAYERS
        &&& forall|j: int| 0 <= j < self.layers@.len() ==> #[trigger] self.layer_ok(j)
    }

    /// Number of field cells.
    pub open spec fn field_len(self) -> int {
        let top = self.layers@[self.layers@.len() - 1];
        top.off + top.n
    }

    /// Lay out the stack with the given layer thicknesses.  With `coarsen`,
    /// layers thicker than four cells use a hex sublattice of a quarter of
    /// their thickness.
    pub fn new(radius: usize, dz: &Vec<i32>, coarsen: bool) -> (stack: LayerStack)
        requires
            stackable(radius as int, dz@, coarsen),
        ensures
            stack.wf(),
            stack.radius == radius,
            stack.layers@.len() == dz@.len(),
            stack.field_len() == cells_below(radius as int, dz@, coarsen, dz@.len()),
            forall|j: int|
                0 <= j < dz@.len() ==> (#[trigger] stack.layers@[j]).dz == dz@[j]
                    && stack.layers@[j].s == spacing(dz@[j] as int, coarsen),
    {
        let big_r: i32 = radius as i32;
        let mut layers: Vec<Layer> = Vec::new();
        let mut z: i32 = 0;
        let mut off: usize = 0;
        let mut j: usize = 0;
        while j < dz.len()
            invariant
                stackable(radius as int, dz@, coarsen),
                big_r == radius,
                j <= dz@.len(),
                layers@.len() == j,
                z == height_below(dz@, j as nat),
                off == cells_below(radius as int, dz@, coarsen, j as nat),
                j > 0 ==> z == layers@[j - 1].z + layers@[j - 1].dz && off == layers@[j - 1].off
                    + layers@[j - 1].n,
                forall|i: int|
                    0 <= i < j ==> (#[trigger] layers@[i]).dz == dz@[i] && layers@[i].s == spacing(
                        dz@[i] as int,
                        coarsen,
                    ),
                forall|i: int|
                    #![trigger layers@[i]]
                    0 <= i < j ==> (LayerStack { radius: big_r, layers }).layer_ok(i),
            decreases dz@.len() - j,
        {
            let t: i32 = dz[j];
            let s: i32 = if coarsen && t >= 8 {
                t / 4
            } else {
                1
            };
            let radius_j: i32 = if s == 1 {
                big_r
            } else {
                (big_r + s - 1) / s + 1
            };
            proof {
                heights_increase(dz@, (j + 1) as nat, dz@.len());
                cells_increase(big_r as int, dz@, coarsen, (j + 1) as nat, dz@.len());
                heights_increase(dz@, 0, j as nat);
                cells_increase(big_r as int, dz@, coarsen, 0, j as nat);
                if s > 1 {
                    assert(0 <= (big_r + s - 1) / s as int <= big_r) by (nonlinear_arith)
                        requires
                            s > 1,
                            big_r >= 0,
                    ;
                }
            }
            let w: usize = (2 * radius_j + 1) as usize;
            let n: usize = w * w;
            layers.push(Layer { s, radius: radius_j, w, off, n, dz: t, z });
            z = z + t;
            off = off + n;
            j = j + 1;
        }
        LayerStack { radius: big_r, layers }
    }

    /// Twice the height of the centre of layer `j` above the plane.
    pub open spec fn centre(self, j: int) -> int {
        2 * self.layers@[j].z + self.layers@[j].dz
    }

    /// Whether the centre of layer `j` lies below half the height `h` (the
    /// pattern of a single).
    pub open spec fn reaches(self, h: u32, j: int) -> bool {
        number::single(h) > self.centre(j) * number::single_unit()
    }

    /// Whether a cell of height `h` fills exactly `t` layers: always the
    /// first, and those above it whose centre lies below its half-height.
    pub open spec fn fills(self, h: u32, t: int) -> bool {
        &&& 1 <= t <= self.layers@.len()
        &&& forall|j: int| 1 <= j < self.layers@.len() ==> (j < t <==> #[trigger] self.reaches(h, j))
    }

    /// Number of field layers a cell of height `h` (the pattern of a single,
    /// in cells) fills: those whose centre lies below its half-height, and
    /// always the first.
    pub fn layers_of(&self, h: u32) -> (t: u8)
        requires
            self.wf(),
        ensures
            self.fills(h, t as int),
    {
        let mut t: usize = 1;
        while t < self.layers.len()
            invariant_except_break
                forall|j: int| 1 <= j < t ==> #[trigger] self.reaches(h, j),
            invariant
                self.wf(),
                1 <= t <= self.layers@.len(),
            ensures
                self.fills(h, t as int),
            decreases self.layers@.len() - t,
        {
            assert(self.layer_ok(t as int));
            let l: Layer = self.layers[t];
            let bound: u32 = number::whole((2 * l.z + l.dz) as u32);
            proof {
                number::singles_are_ordered(bound, h);
            }
            if bound >= h {
                proof {
                    assert forall|j: int| 1 <= j < self.layers@.len() implies (j < t
                        <==> #[trigger] self.reaches(h, j)) by {
                        if j >= t {
                            self.centres_rise(t as int, j);
                            let unit = number::single_unit();
                            vstd::arithmetic::power2::lemma_pow2_pos(149);
                            let (a, b) = (self.centre(t as int), self.centre(j));
                            assert(a * unit <= b * unit) by (nonlinear_arith)
                                requires
                                    a <= b,
                                    unit >= 0,
                            ;
                        }
                    }
                }
                break;
            }
            t = t + 1;
        }
        t as u8
    }

    /// A taller cell fills no fewer layers, and a cell fills a layer above the
    /// first exactly where its half-height passes the middle of the layer.
    pub proof fn taller_cells_fill_more(self, g: u32, h: u32, s: int, t: int, j: int)
        requires
            self.wf(),
            self.fills(g, s),
            self.fills(h, t),
            number::single(g) <= number::single(h),
            1 <= j < self.layers@.len(),
        ensures
            s <= t,
            s >= 1,
            j < s <==> number::single(g) > (2 * self.layers@[j].z + self.layers@[j].dz)
                * number::single_unit(),
    {
        assert(self.layer_ok(j));
        assert(j < s <==> self.reaches(g, j));
        if t < s {
            assert(self.reaches(g, t));
            assert(!self.reaches(h, t));
        }
    }

    /// Layer centres rise with the layer.
    pub proof fn centres_rise(self, i: int, j: int)
        requires
            self.wf(),
            0 <= i <= j < self.layers@.len(),
        ensures
            self.centre(i) <= self.centre(j),
        decreases j - i,
    {
        assert(self.layer_ok(j));
        if i < j {
            assert(self.layer_ok(j - 1));
            self.centres_rise(i, j - 1);
        }
    }

    /// Field index of the cell at coordinates (q, r) of layer `j`.
    pub open spec fn field_index(self, j: int, q: int, r: int) -> int {
        self.layers@[j].off + lattice::flat(self.layers@[j].radius as int, q, r)
    }

    /// Layers occupy consecutive, disjoint stretches of the field.
    pub proof fn layers_are_disjoint(self, i: int, j: int)
        requires
            self.wf(),
            0 <= i < j < self.layers@.len(),
        ensures
            self.layers@[i].off + self.layers@[i].n <= self.layers@[j].off,
            self.layers@[j].off + self.layers@[j].n <= self.field_len(),
        decreases j - i,
    {
        assert(self.layer_ok(i));
        assert(self.layer_ok(j));
        if i + 1 < j {
            assert(self.layer_ok(j - 1));
            self.layers_are_disjoint(i, j - 1);
        }
        self.layer_is_in_field(j);
    }

    /// Every layer lies inside the field.
    pub proof fn layer_is_in_field(self, j: int)
        requires
            self.wf(),
            0 <= j < self.layers@.len(),
        ensures
            self.layers@[j].off + self.layers@[j].n <= self.field_len(),
        decreases self.layers@.len() - j,
    {
        if j + 1 < self.layers@.len() {
            assert(self.layer_ok(j + 1));
            self.layer_is_in_field(j + 1);
        }
    }

    /// Field index of the cell at layer `j`'s coordinates (q, r).
    pub fn index(&self, j: usize, q: i32, r: i32) -> (i: usize)
        requires
            self.wf(),
            j < self.layers@.len(),
            lattice::on_grid(self.layers@[j as int].radius as int, q as int, r as int),
        ensures
            i == self.field_index(j as int, q as int, r as int),
            self.layers@[j as int].off <= i < self.layers@[j as int].off + self.layers@[j as int].n,
            i < self.field_len(),
    {
        proof {
            assert(self.layer_ok(j as int));
            self.layer_is_in_field(j as int);
            layer_radius_is_small(self.radius as int, self.layers@[j as int].s as int);
        }
        let l: Layer = self.layers[j];
        l.off + lattice::flat_index(l.radius, q, r)
    }

    /// Nearest cell of layer `j` to lattice cell (q, r).
    pub fn nearest(&self, j: usize, q: i32, r: i32) -> (c: (i32, i32))
        requires
            self.wf(),
            j < self.layers@.len(),
            hex::dist(q as int, r as int) <= self.radius,
        ensures
            (c.0 as int, c.1 as int) == nearest_cell(
                self.layers@[j as int].s as int,
                q as int,
                r as int,
            ),
            hex::dist(c.0 as int, c.1 as int) <= self.layers@[j as int].radius,
    {
        let s: i32 = self.layers[j].s;
        proof {
            assert(self.layer_ok(j as int));
            nearest_cell_is_on_its_layer(self.radius as int, s as int, q as int, r as int);
        }
        if s == 1 {
            return (q, r);
        }
        hex_round(s, q, r)
    }
}

/// The lattice of a layer is at most a cell wider than the plane's.
pub proof fn layer_radius_is_small(radius: int, s: int)
    requires
        0 <= radius,
        1 <= s,
    ensures
        0 <= layer_radius(radius, s) <= radius + 1,
{
    if s > 1 {
        assert(0 <= (radius + s - 1) / s <= radius) by (nonlinear_arith)
            requires
                s > 1,
                radius >= 0,
        ;
    }
}

fn round_ratio(a: i32, s: i32) -> (n: i32)
    requires
        -0x1000_0000 <= a <= 0x1000_0000,
        1 <= s <= 0x1000_0000,
    ensures
        n == rounded_ratio(a as int, s as int),
        -0x2000_0000 <= n <= 0x2000_0000,
        2 * hex::abs(n * s - a) <= s,
{
    proof {
        rounding_error_is_small(a as int, s as int);
        let p = hex::abs(a as int);
        assert(0 <= (2 * p + s) / (2 * s as int) <= 2 * p + s) by (nonlinear_arith)
            requires
                p >= 0,
                s >= 1,
        ;
        assert((2 * p + s) / (2 * s as int) <= p + 1) by (nonlinear_arith)
            requires
                p >= 0,
                s >= 1,
        ;
    }
    if a >= 0 {
        (2 * a + s) / (2 * s)
    } else {
        -((-2 * a + s) / (2 * s))
    }
}

/// Cell of the sublattice of spacing `s` nearest to cell (q, r).
pub fn hex_round(s: i32, q: i32, r: i32) -> (c: (i32, i32))
    requires
        hex::dist(q as int, r as int) <= lattice::MAX_RADIUS,
        1 <= s <= MAX_HEIGHT,
    ensures
        (c.0 as int, c.1 as int) == nearest_cell(s as int, q as int, r as int),
{
    let y: i32 = -q - r;
    let rq: i32 = round_ratio(q, s);
    let rr: i32 = round_ratio(r, s);
    let ry: i32 = round_ratio(y, s);
    let dq: i64 = gap(rq, s, q);
    let dr: i64 = gap(rr, s, r);
    let dy: i64 = gap(ry, s, y);
    if dq > dr && dq > dy {
        (-rr - ry, rr)
    } else if dr > dy {
        (rq, -rq - ry)
    } else {
        (rq, rr)
    }
}

fn gap(n: i32, s: i32, a: i32) -> (g: i64)
    requires
        1 <= s,
        -0x4000_0000 <= a <= 0x4000_0000,
    ensures
        g == hex::abs(n * s - a),
{
    proof {
        assert(-0x4000_0000_0000_0000 <= n * s <= 0x4000_0000_0000_0000) by (nonlinear_arith)
            requires
                -0x8000_0000 <= n <= 0x7fff_ffff,
                1 <= s <= 0x7fff_ffff,
        ;
    }
    let d: i64 = n as i64 * s as i64 - a as i64;
    if d < 0 {
        -d
    } else {
        d
    }
}

proof fn heights_increase(dz: Seq<i32>, a: nat, b: nat)
    requires
        a <= b <= dz.len(),
        forall|j: int| 0 <= j < dz.len() ==> 1 <= #[trigger] dz[j],
    ensures
        height_below(dz, a) <= height_below(dz, b),
    decreases b,
{
    if a < b {
        heights_increase(dz, a, (b - 1) as nat);
    }
}

proof fn cells_increase(radius: int, dz: Seq<i32>, coarsen: bool, a: nat, b: nat)
    requires
        a <= b <= dz.len(),
        forall|j: int| 0 <= j < dz.len() ==> 1 <= #[trigger] dz[j],
    ensures
        cells_below(radius, dz, coarsen, a) <= cells_below(radius, dz, coarsen, b),
    decreases b,
{
    if a < b {
        cells_increase(radius, dz, coarsen, a, (b - 1) as nat);
        let w = lattice::width(layer_radius(radius, spacing(dz[b - 1] as int, coarsen)));
        assert(w * w >= 0) by (nonlinear_arith);
    }
}

} // verus!
