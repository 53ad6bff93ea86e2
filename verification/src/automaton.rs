//! The crystal on its lattice: which cells are ice, how tall they are, and
//! the counters that a growth run reports.
//!
//! The crystal is a height map on the basal plane: each crystal cell carries
//! its extent along the c-axis, centred on the plane.  Heights are patterns
//! of singles (see [`crate::number`]).

use crate::hex;
use crate::lattice;
use crate::layers;
use crate::layers::{Layer, LayerStack};
use crate::number;
use vstd::prelude::*;

verus! {

/// What a coarse layer knows of the height map below it, per coarse cell.
pub struct Coarse {
    /// Lattice cells that the coarse cell gathers.
    pub cover: Vec<usize>,
    /// How many of them are ice at the layer.
    pub ice: Vec<usize>,
    /// How many of them are vapour beside ice at the layer.
    pub edges: Vec<usize>,
    /// How many of them are topped by a basal face at the layer, within a
    /// cell of the crystal's rim.
    pub narrow: Vec<usize>,
    /// How many of them are topped by a basal face at the layer, further in.
    pub wide: Vec<usize>,
}

impl Coarse {
    /// Whether the tables have `n` entries each.
    pub open spec fn sized(self, n: int) -> bool {
        &&& self.cover@.len() == n
        &&& self.ice@.len() == n
        &&& self.edges@.len() == n
        &&& self.narrow@.len() == n
        &&& self.wide@.len() == n
    }

    /// Whether nothing is counted in any of the tables, `n` entries each.
    pub open spec fn blank(self, n: int) -> bool {
        let zeros = Seq::new(n as nat, |c: int| 0usize);
        &&& self.cover@ =~= zeros
        &&& self.ice@ =~= zeros
        &&& self.edges@ =~= zeros
        &&& self.narrow@ =~= zeros
        &&& self.wide@ =~= zeros
    }
}

/// Snow-crystal growth on a hexagonal lattice.
pub struct Automaton {
    /// Geometry of the field layers over the lattice.
    pub stack: LayerStack,
    /// Whether each cell is crystal.
    pub ice: Vec<bool>,
    /// c-axis extent of each crystal cell, in cells.
    pub h: Vec<u32>,
    /// Kind of each boundary site: 0 none, 1 facet or tip, 2 kink; between a
    /// decision and its application, 1 for the sites that join.
    pub attach: Vec<u8>,
    /// Field layers each crystal cell fills (0 for vapour cells).
    pub top: Vec<u8>,
    /// Distance of each crystal cell from the crystal's rim, in cells.
    pub rim: Vec<u8>,
    /// Restriction of the height map to each coarse layer (empty tables for
    /// the others).
    pub coarse: Vec<Coarse>,
    /// Seed of the random draws.
    pub seed: u64,
    /// Growth steps taken.
    pub step: u64,
    /// Relaxation sweeps performed so far.
    pub sweeps: u64,
    pub crystal_cells: usize,
    pub crystal_radius: i32,
}

/// Number of set flags.
pub open spec fn count(s: Seq<bool>) -> nat
    decreases s.len(),
{
    if s.len() == 0 {
        0
    } else {
        count(s.drop_last()) + if s.last() {
            1nat
        } else {
            0
        }
    }
}

/// Setting a flag that was clear raises the count by one.
pub proof fn count_after_set(s: Seq<bool>, i: int)
    requires
        0 <= i < s.len(),
        !s[i],
    ensures
        count(s.update(i, true)) == count(s) + 1,
    decreases s.len(),
{
    let t = s.update(i, true);
    if i == s.len() - 1 {
        assert(t.drop_last() =~= s.drop_last());
    } else {
        count_after_set(s.drop_last(), i);
        assert(t.drop_last() =~= s.drop_last().update(i, true));
    }
}

/// No more flags are set than there are.
pub proof fn count_is_bounded(s: Seq<bool>)
    ensures
        count(s) <= s.len(),
        (exists|i: int| 0 <= i < s.len() && !#[trigger] s[i]) ==> count(s) < s.len(),
    decreases s.len(),
{
    if s.len() > 0 {
        count_is_bounded(s.drop_last());
        if exists|i: int| 0 <= i < s.len() && !#[trigger] s[i] {
            let i = choose|i: int| 0 <= i < s.len() && !#[trigger] s[i];
            if i < s.len() - 1 {
                assert(!s.drop_last()[i]);
            }
        }
    }
}

/// No flag is set in a sequence of clear ones.
pub proof fn count_of_clear(s: Seq<bool>)
    requires
        forall|i: int| 0 <= i < s.len() ==> !#[trigger] s[i],
    ensures
        count(s) == 0,
    decreases s.len(),
{
    if s.len() > 0 {
        count_of_clear(s.drop_last());
    }
}

/// Setting more flags never lowers the count.
pub proof fn count_is_monotone(s: Seq<bool>, t: Seq<bool>)
    requires
        s.len() == t.len(),
        forall|i: int| 0 <= i < s.len() && #[trigger] s[i] ==> t[i],
    ensures
        count(s) <= count(t),
    decreases s.len(),
{
    if s.len() > 0 {
        assert forall|i: int| 0 <= i < s.drop_last().len() && #[trigger] s.drop_last()[i] implies t.drop_last()[i] by {
            assert(s[i]);
        }
        count_is_monotone(s.drop_last(), t.drop_last());
        assert(s[s.len() - 1] ==> t[s.len() - 1]);
    }
}

impl Automaton {
    /// Lattice radius.
    pub open spec fn radius(self) -> int {
        self.stack.radius as int
    }

    /// Number of lattice array entries.
    pub open spec fn n(self) -> int {
        lattice::area(self.radius())
    }

    /// Row stride of the lattice arrays.
    pub open spec fn w(self) -> int {
        lattice::width(self.radius())
    }

    /// The cell at an array index.
    pub open spec fn cell(self, i: int) -> hex::Cell {
        lattice::cell_of(self.radius(), i)
    }

    /// Hex distance of the cell at an array index from the centre.
    pub open spec fn far(self, i: int) -> int {
        hex::dist(self.cell(i).0, self.cell(i).1)
    }

    /// Whether the arrays have their sizes.
    pub open spec fn sized(self) -> bool {
        &&& self.stack.wf()
        &&& self.ice@.len() == self.n()
        &&& self.h@.len() == self.n()
        &&& self.attach@.len() == self.n()
        &&& self.top@.len() == self.n()
        &&& self.rim@.len() == self.n()
        &&& self.coarse@.len() == self.stack.layers@.len()
        &&& forall|j: int|
            0 <= j < self.coarse@.len() ==> (#[trigger] self.coarse@[j]).sized(
                self.stack.coarse_cells(j),
            )
    }

    /// Whether every crystal cell fills the layers that its height reaches,
    /// and every vapour cell none.
    pub open spec fn topped(self) -> bool {
        forall|i: int|
            0 <= i < self.n() ==> if self.ice@[i] {
                self.stack.fills(self.h@[i], #[trigger] self.top@[i] as int)
            } else {
                self.top@[i] == 0
            }
    }

    /// Whether the counters describe the crystal: its number of cells, and
    /// the distance of its furthest cell from the centre.
    pub open spec fn counted(self) -> bool {
        &&& self.crystal_cells == count(self.ice@)
        &&& 0 <= self.crystal_radius <= self.radius()
        &&& forall|i: int|
            0 <= i < self.n() && #[trigger] self.ice@[i] ==> self.far(i) <= self.crystal_radius
        &&& exists|i: int|
            0 <= i < self.n() && #[trigger] self.ice@[i] && self.far(i) == self.crystal_radius
    }

    /// Whether only vapour cells inside the outer ring are marked as sites.
    pub open spec fn sited(self) -> bool {
        forall|i: int|
            0 <= i < self.n() && #[trigger] self.attach@[i] != 0 ==> !self.ice@[i] && self.far(i)
                < self.radius() && self.attach@[i] <= 2
    }

    /// Whether the crystal is consistent.
    pub open spec fn wf(self) -> bool {
        &&& self.sized()
        &&& self.topped()
        &&& self.counted()
        &&& self.sited()
    }

    /// Whether nothing but the step and sweep counters, the site marks and
    /// the derived tables differs.
    pub open spec fn same_crystal(self, other: Automaton) -> bool {
        &&& self.stack == other.stack
        &&& self.ice@ == other.ice@
        &&& self.h@ == other.h@
        &&& self.top@ == other.top@
        &&& self.seed == other.seed
        &&& self.crystal_cells == other.crystal_cells
        &&& self.crystal_radius == other.crystal_radius
    }

    /// The first `t` layers are those that lie below the first layer out of
    /// reach, so a height fills only one number of layers.
    pub proof fn fill_is_unique(self, h: u32, s: int, t: int)
        requires
            self.stack.fills(h, s),
            self.stack.fills(h, t),
        ensures
            s == t,
    {
        if s < t {
            assert(self.stack.reaches(h, s));
        } else if t < s {
            assert(self.stack.reaches(h, t));
        }
    }

    /// Whether this is a new lattice: only the cell at the centre is crystal, one
    /// cell tall, no site is marked and nothing is counted yet.
    pub open spec fn is_new(self) -> bool {
        &&& forall|i: int|
            0 <= i < self.n() ==> #[trigger] self.ice@[i] == (self.cell(i) == (0int, 0int))
        &&& forall|i: int|
            0 <= i < self.n() && self.ice@[i] ==> number::single(#[trigger] self.h@[i])
                == number::single_unit()
        &&& forall|i: int| 0 <= i < self.n() && !self.ice@[i] ==> #[trigger] self.h@[i] == 0
        &&& forall|i: int| 0 <= i < self.n() ==> #[trigger] self.attach@[i] == 0
        &&& self.step == 0
        &&& self.sweeps == 0
    }

    /// A new lattice holds one crystal cell, its centre, which fills the first layer
    /// alone.
    pub proof fn new_lattices_hold_their_centre(self, q: int, r: int)
        requires
            self.wf(),
            self.is_new(),
            lattice::on_grid(self.radius(), q, r),
        ensures
            self.ice@[lattice::flat(self.radius(), q, r)] <==> q == 0 && r == 0,
            self.crystal_radius == 0,
            q == 0 && r == 0 ==> number::single(self.h@[lattice::flat(self.radius(), q, r)])
                == number::single_unit() && self.top@[lattice::flat(self.radius(), q, r)] == 1,
            !(q == 0 && r == 0) ==> self.top@[lattice::flat(self.radius(), q, r)] == 0,
    {
        let i = lattice::flat(self.radius(), q, r);
        lattice::flat_is_inverted(self.radius(), q, r);
        let f = choose|f: int|
            0 <= f < self.n() && #[trigger] self.ice@[f] && self.far(f) == self.crystal_radius;
        assert(self.ice@[i] == (self.cell(i) == (0int, 0int)));
        assert(self.top@[i] == 0 || self.ice@[i]);
        if self.ice@[i] {
            assert(self.stack.fills(self.h@[i], self.top@[i] as int));
            if self.top@[i] > 1 {
                assert(self.stack.layer_ok(0) && self.stack.layer_ok(1));
                assert(self.stack.reaches(self.h@[i], 1));
                let (c, unit) = (self.stack.centre(1), number::single_unit());
                vstd::arithmetic::power2::lemma_pow2_pos(149);
                assert(1 * unit <= c * unit) by (nonlinear_arith)
                    requires
                        1 <= c,
                        unit >= 0,
                ;
            }
        }
    }

    /// Domain of the given cell radius, seeded with a single crystal cell
    /// one cell tall at the centre.
    pub fn new(radius: usize, seed: u64) -> (auto: Automaton)
        requires
            layers::stackable(radius as int, layers::default_dz(radius as int), true),
        ensures
            auto.wf(),
            auto.is_new(),
            auto.radius() == radius,
            auto.stack.layers@.len() == layers::default_dz(radius as int).len(),
            forall|j: int|
                0 <= j < auto.stack.layers@.len() ==> (#[trigger] auto.stack.layers@[j]).dz
                    == layers::thickness(j),
            forall|i: int|
                0 <= i < auto.n() ==> #[trigger] auto.ice@[i] == (auto.cell(i) == (0int, 0int)),
            forall|i: int|
                0 <= i < auto.n() ==> (if auto.ice@[i] {
                    number::single(#[trigger] auto.h@[i]) == number::single_unit()
                } else {
                    auto.h@[i] == 0
                }),
            forall|i: int| 0 <= i < auto.n() ==> #[trigger] auto.attach@[i] == 0,
            forall|i: int| 0 <= i < auto.n() ==> #[trigger] auto.rim@[i] == 0,
            forall|j: int|
                0 <= j < auto.coarse@.len() ==> (#[trigger] auto.coarse@[j]).blank(
                    auto.stack.coarse_cells(j),
                ),
            auto.seed == seed,
            auto.step == 0,
            auto.sweeps == 0,
            auto.crystal_cells == 1,
            auto.crystal_radius == 0,
    {
        let dz: Vec<i32> = layers::layers_for(radius);
        let stack: LayerStack = LayerStack::new(radius, &dz, true);
        let big_r: i32 = radius as i32;
        proof {
            assert(stack.layer_ok(0));
            assert(stack.layers@[0].n == lattice::area(radius as int));
        }
        let n: usize = stack.layers[0].n;
        let mut coarse: Vec<Coarse> = Vec::new();
        let mut j: usize = 0;
        while j < stack.layers.len()
            invariant
                stack.wf(),
                j <= stack.layers@.len(),
                coarse@.len() == j,
                forall|k: int|
                    0 <= k < j ==> (#[trigger] coarse@[k]).blank(stack.coarse_cells(k)),
            decreases stack.layers@.len() - j,
        {
            let l: Layer = stack.layers[j];
            let m: usize = if l.s > 1 {
                l.n
            } else {
                0
            };
            coarse.push(
                Coarse {
                    cover: vec![0; m],
                    ice: vec![0; m],
                    edges: vec![0; m],
                    narrow: vec![0; m],
                    wide: vec![0; m],
                },
            );
            j = j + 1;
        }
        let centre: usize = lattice::flat_index(big_r, 0, 0);
        let mut ice: Vec<bool> = vec![false; n];
        let mut h: Vec<u32> = vec![0; n];
        let mut top: Vec<u8> = vec![0; n];
        proof {
            count_of_clear(ice@);
            count_after_set(ice@, centre as int);
        }
        ice[centre] = true;
        h[centre] = number::whole(1);
        top[centre] = 1;
        let auto = Automaton {
            stack,
            ice,
            h,
            attach: vec![0; n],
            top,
            rim: vec![0; n],
            coarse,
            seed,
            step: 0,
            sweeps: 0,
            crystal_cells: 1,
            crystal_radius: 0,
        };
        proof {
            lattice::flat_is_inverted(radius as int, 0, 0);
            assert(auto.far(centre as int) == 0);
            assert forall|i: int| 0 <= i < auto.n() implies #[trigger] auto.ice@[i] == (auto.cell(i)
                == (0int, 0int)) by {
                lattice::cell_is_inverted(radius as int, i);
            }
            let one = auto.h@[centre as int];
            assert forall|k: int| 1 <= k < auto.stack.layers@.len() implies !#[trigger] auto.stack.reaches(
                one,
                k,
            ) by {
                auto.stack.centres_rise(0, k);
                let (c, unit) = (auto.stack.centre(k), number::single_unit());
                vstd::arithmetic::power2::lemma_pow2_pos(149);
                assert(1 * unit <= c * unit) by (nonlinear_arith)
                    requires
                        1 <= c,
                        unit >= 0,
                ;
            }
            assert(auto.stack.fills(one, 1));
            assert(auto.ice@[centre as int]);
        }
        auto
    }

    /// Array index of cell (q, r).
    pub fn index(&self, q: i32, r: i32) -> (i: usize)
        requires
            self.sized(),
            lattice::on_grid(self.radius(), q as int, r as int),
        ensures
            i == lattice::flat(self.radius(), q as int, r as int),
            i < self.n(),
            self.cell(i as int) == (q as int, r as int),
    {
        proof {
            assert(self.stack.layer_ok(0));
            lattice::flat_is_inverted(self.radius(), q as int, r as int);
        }
        lattice::flat_index(self.stack.radius, q, r)
    }

    /// Whether this is `before` with a hexagonal disc of radius `rs` frozen at its
    /// centre, `h0` tall.
    pub open spec fn seeded_from(self, before: Automaton, rs: int, h0: u32) -> bool {
        &&& self.stack == before.stack
        &&& self.seed == before.seed
        &&& self.step == before.step
        &&& self.sweeps == before.sweeps
        &&& forall|i: int|
            0 <= i < before.n() ==> #[trigger] self.ice@[i] == (before.ice@[i] || before.far(i)
                <= rs)
        &&& forall|i: int|
            0 <= i < before.n() ==> #[trigger] self.h@[i] == if before.far(i) <= rs {
                h0
            } else {
                before.h@[i]
            }
    }

    /// A seed on a new lattice is the hexagonal disc around the centre: its crystal
    /// cells are those within `rs` steps of it, all of the height given, and the
    /// crystal is as wide.
    pub proof fn seeds_are_hexagonal_discs(self, before: Automaton, rs: int, h0: u32, q: int, r: int)
        requires
            before.wf(),
            before.is_new(),
            self.wf(),
            self.seeded_from(before, rs, h0),
            1 <= rs <= before.radius(),
            lattice::on_grid(before.radius(), q, r),
        ensures
            ({
                let i = lattice::flat(before.radius(), q, r);
                &&& self.ice@[i] <==> hex::dist(q, r) <= rs
                &&& hex::dist(q, r) <= rs ==> self.h@[i] == h0 && self.stack.fills(
                    h0,
                    self.top@[i] as int,
                )
                &&& hex::dist(q, r) > rs ==> self.h@[i] == 0 && self.top@[i] == 0
                &&& self.crystal_radius == rs
            }),
    {
        let big_r = before.radius();
        let i = lattice::flat(big_r, q, r);
        lattice::flat_is_inverted(big_r, q, r);
        lattice::flat_is_inverted(big_r, rs, 0);
        let e = lattice::flat(big_r, rs, 0);
        assert(self.ice@[i] == (before.ice@[i] || before.far(i) <= rs));
        assert(before.ice@[i] == (before.cell(i) == (0int, 0int)));
        assert(self.ice@[e]);
        assert(self.far(e) == rs);
        let f = choose|f: int|
            0 <= f < self.n() && #[trigger] self.ice@[f] && self.far(f) == self.crystal_radius;
        assert(self.ice@[f] == (before.ice@[f] || before.far(f) <= rs));
        assert(before.ice@[f] == (before.cell(f) == (0int, 0int)));
        assert(self.top@[i] == 0 || self.ice@[i]);
        if self.ice@[i] {
            assert(self.stack.fills(self.h@[i], self.top@[i] as int));
        } else {
            assert(before.h@[i] == 0);
        }
    }

    /// Seed a frozen droplet: a hexagonal disc of cell radius `rs`, `h0` tall
    /// (a single cell has only tip sites, which nucleate too rarely).  Its cells
    /// are sites no longer.
    pub fn seed_hexagon(&mut self, rs: i32, h0: u32)
        requires
            old(self).wf(),
            1 <= rs <= old(self).radius(),
        ensures
            final(self).wf(),
            final(self).seeded_from(*old(self), rs as int, h0),
            final(self).stack == old(self).stack,
            final(self).attach@ == old(self).attach@.map(
                |i: int, a: u8|
                    if old(self).far(i) <= rs {
                        0
                    } else {
                        a
                    },
            ),
            final(self).rim@ == old(self).rim@,
            final(self).coarse@ == old(self).coarse@,
            final(self).seed == old(self).seed,
            final(self).step == old(self).step,
            final(self).sweeps == old(self).sweeps,
            forall|i: int|
                0 <= i < old(self).n() ==> #[trigger] final(self).ice@[i] == (old(self).ice@[i]
                    || old(self).far(i) <= rs),
            forall|i: int|
                0 <= i < old(self).n() ==> #[trigger] final(self).h@[i] == if old(self).far(i) <= rs {
                    h0
                } else {
                    old(self).h@[i]
                },
            final(self).crystal_radius == hex::max(
                old(self).crystal_radius as int,
                rs as int,
            ),
    {
        let t: u8 = self.stack.layers_of(h0);
        let n: usize = self.ice.len();
        let big_r: i32 = self.stack.radius;
        let ghost before = *self;
        let mut i: usize = 0;
        while i < n
            invariant
                before == *old(self),
                before.wf(),
                n == before.n(),
                big_r == before.radius(),
                1 <= rs <= big_r,
                before.stack.fills(h0, t as int),
                0 <= i <= n,
                self.stack == before.stack,
                self.rim@ == before.rim@,
                self.coarse@ == before.coarse@,
                self.seed == before.seed,
                self.step == before.step,
                self.sweeps == before.sweeps,
                self.crystal_radius == before.crystal_radius,
                self.ice@.len() == n,
                self.h@.len() == n,
                self.top@.len() == n,
                self.attach@.len() == n,
                self.crystal_cells == count(self.ice@),
                forall|k: int|
                    0 <= k < n ==> #[trigger] self.ice@[k] == (before.ice@[k] || (k < i
                        && before.far(k) <= rs)),
                forall|k: int|
                    0 <= k < n ==> #[trigger] self.h@[k] == if k < i && before.far(k) <= rs {
                        h0
                    } else {
                        before.h@[k]
                    },
                forall|k: int|
                    0 <= k < n ==> #[trigger] self.top@[k] == if k < i && before.far(k) <= rs {
                        t
                    } else {
                        before.top@[k]
                    },
                forall|k: int|
                    0 <= k < n ==> #[trigger] self.attach@[k] == if k < i && before.far(k) <= rs {
                        0
                    } else {
                        before.attach@[k]
                    },
            decreases n - i,
        {
            let c: (i32, i32) = lattice::cell_at_index(big_r, i);
            if hex::hex_distance(c.0, c.1) <= rs {
                if !self.ice[i] {
                    proof {
                        count_after_set(self.ice@, i as int);
                        count_is_bounded(self.ice@.update(i as int, true));
                    }
                    self.ice[i] = true;
                    self.crystal_cells = self.crystal_cells + 1;
                }
                self.attach[i] = 0;
                self.h[i] = h0;
                self.top[i] = t;
            }
            i = i + 1;
        }
        if self.crystal_radius < rs {
            self.crystal_radius = rs;
        }
        proof {
            let e = lattice::flat(big_r as int, rs as int, 0);
            lattice::flat_is_inverted(big_r as int, rs as int, 0);
            assert(self.far(e) == rs);
            assert(self.ice@[e]);
            let f = choose|f: int|
                0 <= f < before.n() && #[trigger] before.ice@[f] && before.far(f)
                    == before.crystal_radius;
            assert(self.ice@[f]);
            assert(self.far(f) == before.crystal_radius);
        }
    }

    /// Recompute the layer occupancy of every crystal cell from its height.
    fn refresh_top(&mut self)
        requires
            old(self).sized(),
        ensures
            final(self).sized(),
            final(self).topped(),
            final(self).stack == old(self).stack,
            final(self).ice@ == old(self).ice@,
            final(self).h@ == old(self).h@,
            final(self).attach@ == old(self).attach@,
            final(self).rim@ == old(self).rim@,
            final(self).coarse@ == old(self).coarse@,
            final(self).seed == old(self).seed,
            final(self).step == old(self).step,
            final(self).sweeps == old(self).sweeps,
            final(self).crystal_cells == old(self).crystal_cells,
            final(self).crystal_radius == old(self).crystal_radius,
    {
        let n: usize = self.ice.len();
        let ghost before = *self;
        let mut i: usize = 0;
        while i < n
            invariant
                before.sized(),
                n == before.n(),
                i <= n,
                self.sized(),
                self.stack == before.stack,
                self.ice@ == before.ice@,
                self.h@ == before.h@,
                self.attach@ == before.attach@,
                self.rim@ == before.rim@,
                self.coarse@ == before.coarse@,
                self.seed == before.seed,
                self.step == before.step,
                self.sweeps == before.sweeps,
                self.crystal_cells == before.crystal_cells,
                self.crystal_radius == before.crystal_radius,
                forall|k: int|
                    0 <= k < i ==> if self.ice@[k] {
                        self.stack.fills(self.h@[k], #[trigger] self.top@[k] as int)
                    } else {
                        self.top@[k] == 0
                    },
            decreases n - i,
        {
            let t: u8 = if self.ice[i] {
                self.stack.layers_of(self.h[i])
            } else {
                0
            };
            self.top[i] = t;
            i = i + 1;
        }
    }

    /// Whether this is `before` with a new height for every crystal cell, the
    /// layers brought up to date, and nothing else changed.
    pub open spec fn raised_from(self, before: Automaton, heights: Seq<u32>) -> bool {
        &&& self.stack == before.stack
        &&& self.ice@ == before.ice@
        &&& self.attach@ == before.attach@
        &&& self.rim@ == before.rim@
        &&& self.coarse@ == before.coarse@
        &&& self.seed == before.seed
        &&& self.step == before.step
        &&& self.sweeps == before.sweeps
        &&& self.crystal_cells == before.crystal_cells
        &&& self.crystal_radius == before.crystal_radius
        &&& forall|i: int|
            0 <= i < before.n() ==> #[trigger] self.h@[i] == if before.ice@[i] {
                heights[i]
            } else {
                before.h@[i]
            }
    }

    /// Raising gives each crystal cell the height given for it and the layers that
    /// this reaches, and changes neither vapour cells nor which cells are crystal.
    pub proof fn raising_changes_crystal_cells_only(
        self,
        raised: Automaton,
        heights: Seq<u32>,
        i: int,
    )
        requires
            self.wf(),
            raised.wf(),
            raised.raised_from(self, heights),
            0 <= i < self.n(),
        ensures
            raised.ice@[i] == self.ice@[i],
            self.ice@[i] ==> raised.h@[i] == heights[i] && raised.stack.fills(
                heights[i],
                raised.top@[i] as int,
            ),
            !self.ice@[i] ==> raised.h@[i] == self.h@[i] && raised.top@[i] == 0,
            raised.crystal_cells == self.crystal_cells,
            raised.crystal_radius == self.crystal_radius,
    {
        if raised.ice@[i] {
            assert(raised.stack.fills(raised.h@[i], raised.top@[i] as int));
        } else {
            assert(raised.top@[i] == 0);
        }
    }

    /// Give every crystal cell its new height (one per lattice cell; those of
    /// vapour cells are not read), and the layers it then fills.
    pub fn grow_heights(&mut self, heights: &Vec<u32>)
        requires
            old(self).wf(),
            heights@.len() == old(self).n(),
        ensures
            final(self).wf(),
            final(self).raised_from(*old(self), heights@),
    {
        let n: usize = self.ice.len();
        let ghost before = *self;
        let mut i: usize = 0;
        while i < n
            invariant
                before.wf(),
                n == before.n(),
                heights@.len() == n,
                i <= n,
                self.sized(),
                self.stack == before.stack,
                self.ice@ == before.ice@,
                self.attach@ == before.attach@,
                self.top@ == before.top@,
                self.rim@ == before.rim@,
                self.coarse@ == before.coarse@,
                self.seed == before.seed,
                self.step == before.step,
                self.sweeps == before.sweeps,
                self.crystal_cells == before.crystal_cells,
                self.crystal_radius == before.crystal_radius,
                forall|k: int|
                    0 <= k < n ==> #[trigger] self.h@[k] == if k < i && before.ice@[k] {
                        heights@[k]
                    } else {
                        before.h@[k]
                    },
            decreases n - i,
        {
            if self.ice[i] {
                self.h[i] = heights[i];
            }
            i = i + 1;
        }
        self.refresh_top();
        proof {
            let f = choose|f: int|
                0 <= f < before.n() && #[trigger] before.ice@[f] && before.far(f)
                    == before.crystal_radius;
            assert(self.ice@[f]);
            assert(self.far(f) == before.crystal_radius);
        }
    }

    /// Whether this is `before` with one more growth step counted, and nothing
    /// else changed.
    pub open spec fn finished_from(self, before: Automaton) -> bool {
        &&& self.same_crystal(before)
        &&& self.attach@ == before.attach@
        &&& self.rim@ == before.rim@
        &&& self.coarse@ == before.coarse@
        &&& self.step == before.step + 1
        &&& self.sweeps == before.sweeps
    }

    /// Record the end of a growth step.
    pub fn finish_step(&mut self)
        requires
            old(self).wf(),
            old(self).step < u64::MAX,
        ensures
            final(self).wf(),
            final(self).finished_from(*old(self)),
    {
        let ghost before = *self;
        self.step = self.step + 1;
        proof {
            before.counters_carry_over(*self);
        }
    }

    /// Record relaxation sweeps.
    pub fn count_sweeps(&mut self, used: usize)
        requires
            old(self).wf(),
            old(self).sweeps + used <= u64::MAX,
        ensures
            final(self).wf(),
            final(self).same_crystal(*old(self)),
            final(self).attach@ == old(self).attach@,
            final(self).rim@ == old(self).rim@,
            final(self).coarse@ == old(self).coarse@,
            final(self).step == old(self).step,
            final(self).sweeps == old(self).sweeps + used,
    {
        let ghost before = *self;
        self.sweeps = self.sweeps + used as u64;
        proof {
            before.counters_carry_over(*self);
        }
    }

    proof fn counters_carry_over(self, other: Automaton)
        requires
            self.counted(),
            other.same_crystal(self),
        ensures
            other.counted(),
    {
        let f = choose|f: int|
            0 <= f < self.n() && #[trigger] self.ice@[f] && self.far(f) == self.crystal_radius;
        assert(other.ice@[f]);
        assert(other.far(f) == self.crystal_radius);
    }

    /// Number of crystal cells.
    pub fn crystal_cells(&self) -> (cells: usize)
        ensures
            cells == self.crystal_cells,
            self.wf() ==> cells == count(self.ice@),
    {
        self.crystal_cells
    }

    /// Largest hex distance of any crystal cell from the centre.
    pub fn crystal_radius(&self) -> (radius: i32)
        ensures
            radius == self.crystal_radius,
    {
        self.crystal_radius
    }

    /// Growth steps taken.
    pub fn step_count(&self) -> (steps: u64)
        ensures
            steps == self.step,
    {
        self.step
    }

    /// Relaxation sweeps performed so far.
    pub fn sweep_count(&self) -> (sweeps: u64)
        ensures
            sweeps == self.sweeps,
    {
        self.sweeps
    }
}

} // verus!
