//! Boundary sites: which vapour cells touch the crystal, which of them are
//! full and join it, and what joining does to the crystal.

use crate::automaton;
use crate::automaton::Automaton;
use crate::draw;
use crate::hex;
use crate::lattice;
use crate::layers::Layer;
use crate::number;
use vstd::prelude::*;

verus! {

/// Pattern of the fill from which a site counts as full: one cell less a
/// ten-thousandth, so that rounding does not split symmetric sites.
pub const FULL: u32 = 0x3f7f_f972;

/// Mark of a facet or tip site.
pub const FACET: u8 = 1;

/// Mark of a kink site.
pub const KINK: u8 = 2;

impl Automaton {
    /// Whether the k-th neighbour of array entry `i` is ice.
    pub open spec fn ice_beside(self, i: int, k: int) -> bool {
        lattice::beside(self.n(), self.w(), i, k) matches Some(j) && self.ice@[j]
    }

    /// How many of the first `k` neighbours of entry `i` are ice.
    pub open spec fn ice_among(self, i: int, k: nat) -> nat
        decreases k,
    {
        if k == 0 {
            0
        } else {
            self.ice_among(i, (k - 1) as nat) + if self.ice_beside(i, k - 1) {
                1nat
            } else {
                0
            }
        }
    }

    /// How many of the six neighbours of entry `i` are ice.
    pub open spec fn ice_around(self, i: int) -> nat {
        self.ice_among(i, 6)
    }

    /// Whether the k-th neighbour of entry `i` is ice whose edge rises above
    /// the bottom of layer `j`.
    pub open spec fn edge_beside(self, i: int, j: int, k: int) -> bool {
        &&& lattice::beside(self.n(), self.w(), i, k) matches Some(b)
        &&& self.ice@[b]
        &&& number::single(self.h@[b]) > 2 * self.stack.layers@[j].z * number::single_unit()
    }

    pub open spec fn edges_among(self, i: int, j: int, k: nat) -> nat
        decreases k,
    {
        if k == 0 {
            0
        } else {
            self.edges_among(i, j, (k - 1) as nat) + if self.edge_beside(i, j, k - 1) {
                1nat
            } else {
                0
            }
        }
    }

    /// Kind of the boundary site at entry `i`: none where the cell is ice,
    /// lies on the outer ring or touches no ice; a kink where it touches
    /// three or more ice cells; a facet or tip site otherwise.
    pub open spec fn site_kind(self, i: int) -> u8 {
        if self.ice@[i] || self.far(i) >= self.radius() || self.ice_around(i) == 0 {
            0
        } else if self.ice_around(i) >= 3 {
            KINK
        } else {
            FACET
        }
    }

    /// Number of ice cells around entry `i`.
    pub fn ice_neighbours(&self, i: usize) -> (count: u32)
        requires
            self.sized(),
            i < self.n(),
        ensures
            count == self.ice_around(i as int),
            count <= 6,
    {
        let n: usize = self.ice.len();
        proof {
            assert(self.stack.layer_ok(0));
        }
        let w: usize = self.stack.layers[0].w;
        let mut count: u32 = 0;
        let mut k: usize = 0;
        while k < 6
            invariant
                self.sized(),
                i < n,
                n == self.n(),
                w == self.w(),
                k <= 6,
                count == self.ice_among(i as int, k as nat),
                count <= k,
            decreases 6 - k,
        {
            match lattice::neighbour(n, w, i, k) {
                Some(b) => {
                    if self.ice[b] {
                        count = count + 1;
                    }
                },
                None => {},
            }
            k = k + 1;
        }
        count
    }

    /// Entries of those of the first `m` neighbours of entry `i` that are ice.
    pub open spec fn ice_entries(self, i: int, m: nat) -> Seq<usize>
        decreases m,
    {
        if m == 0 {
            Seq::empty()
        } else if self.ice_beside(i, m - 1) {
            self.ice_entries(i, (m - 1) as nat).push(
                lattice::beside(self.n(), self.w(), i, m - 1).unwrap() as usize,
            )
        } else {
            self.ice_entries(i, (m - 1) as nat)
        }
    }

    /// Entries of the ice cells around entry `i`, over whose heights a site
    /// averages.
    pub fn crystal_around(&self, i: usize) -> (entries: Vec<usize>)
        requires
            self.sized(),
            i < self.n(),
        ensures
            entries@ == self.ice_entries(i as int, 6),
            entries@.len() == self.ice_around(i as int),
    {
        let n: usize = self.ice.len();
        proof {
            assert(self.stack.layer_ok(0));
        }
        let w: usize = self.stack.layers[0].w;
        let mut entries: Vec<usize> = Vec::new();
        let mut k: usize = 0;
        while k < 6
            invariant
                self.sized(),
                i < n,
                n == self.n(),
                w == self.w(),
                k <= 6,
                entries@ == self.ice_entries(i as int, k as nat),
                entries@.len() == self.ice_among(i as int, k as nat),
            decreases 6 - k,
        {
            match lattice::neighbour(n, w, i, k) {
                Some(b) => {
                    if self.ice[b] {
                        entries.push(b);
                    }
                },
                None => {},
            }
            k = k + 1;
        }
        entries
    }

    /// Number of ice cells around entry `i` whose edge rises into layer `j`.
    pub fn edge_neighbours(&self, i: usize, j: usize) -> (count: u32)
        requires
            self.sized(),
            i < self.n(),
            j < self.stack.layers@.len(),
        ensures
            count == self.edges_among(i as int, j as int, 6),
            count <= 6,
    {
        let n: usize = self.ice.len();
        proof {
            assert(self.stack.layer_ok(0));
            assert(self.stack.layer_ok(j as int));
        }
        let w: usize = self.stack.layers[0].w;
        let bottom: u32 = number::whole((2 * self.stack.layers[j].z) as u32);
        let mut count: u32 = 0;
        let mut k: usize = 0;
        while k < 6
            invariant
                self.sized(),
                i < n,
                n == self.n(),
                w == self.w(),
                k <= 6,
                j < self.stack.layers@.len(),
                number::single(bottom) == 2 * self.stack.layers@[j as int].z
                    * number::single_unit(),
                count == self.edges_among(i as int, j as int, k as nat),
                count <= k,
            decreases 6 - k,
        {
            match lattice::neighbour(n, w, i, k) {
                Some(b) => {
                    proof {
                        number::singles_are_ordered(bottom, self.h@[b as int]);
                    }
                    if self.ice[b] && self.h[b] > bottom {
                        count = count + 1;
                    }
                },
                None => {},
            }
            k = k + 1;
        }
        count
    }

    /// Whether an edge `h` tall beside entry `i` takes part in layer `j`: some
    /// neighbour's edge rises into the layer, and so does `h`.
    pub open spec fn edge_spans(self, i: int, h: u32, j: int) -> bool {
        &&& self.edges_among(i, j, 6) > 0
        &&& number::single(h) > 2 * self.stack.layers@[j].z * number::single_unit()
    }

    /// Number of layers that the edge which site `i` extends spans, from the
    /// plane up, where `h` is the mean height of its ice neighbours.
    pub fn edge_layers(&self, i: usize, h: u32) -> (t: usize)
        requires
            self.sized(),
            i < self.n(),
        ensures
            t <= self.stack.layers@.len(),
            forall|j: int| 0 <= j < t ==> #[trigger] self.edge_spans(i as int, h, j),
            t < self.stack.layers@.len() ==> !self.edge_spans(i as int, h, t as int),
    {
        let mut t: usize = 0;
        while t < self.stack.layers.len()
            invariant
                self.sized(),
                i < self.n(),
                t <= self.stack.layers@.len(),
                forall|j: int| 0 <= j < t ==> #[trigger] self.edge_spans(i as int, h, j),
            decreases self.stack.layers@.len() - t,
        {
            proof {
                assert(self.stack.layer_ok(t as int));
            }
            let bottom: u32 = number::whole((2 * self.stack.layers[t].z) as u32);
            proof {
                number::singles_are_ordered(bottom, h);
            }
            if self.edge_neighbours(i, t) == 0 || h <= bottom {
                return t;
            }
            t = t + 1;
        }
        t
    }

    /// Whether a step up to the k-th neighbour of crystal cell `i` shows a
    /// prism face within layer `j`: the part of the layer above the cell's own
    /// top and below the neighbour's is not empty.
    pub open spec fn step_beside(self, i: int, j: int, k: int) -> bool {
        let l = self.stack.layers@[j];
        let unit = number::single_unit();
        let here = number::single(self.h@[i]);
        &&& lattice::beside(self.n(), self.w(), i, k) matches Some(b)
        &&& self.ice@[b]
        &&& number::single(self.h@[b]) > hex::max(2 * l.z * unit, here)
        &&& here < 2 * (l.z + l.dz) * unit
    }

    /// Entries of those of the first `m` neighbours of crystal cell `i` whose
    /// step shows a face within layer `j`.
    pub open spec fn steps_among(self, i: int, j: int, m: nat) -> Seq<usize>
        decreases m,
    {
        if m == 0 {
            Seq::empty()
        } else if self.step_beside(i, j, m - 1) {
            self.steps_among(i, j, (m - 1) as nat).push(
                lattice::beside(self.n(), self.w(), i, m - 1).unwrap() as usize,
            )
        } else {
            self.steps_among(i, j, (m - 1) as nat)
        }
    }

    /// Entries of the taller neighbours of crystal cell `i` whose exposed
    /// prism face, above the cell's own top, crosses layer `j`.
    pub fn step_faces(&self, i: usize, j: usize) -> (taller: Vec<usize>)
        requires
            self.sized(),
            i < self.n(),
            j < self.stack.layers@.len(),
        ensures
            taller@ == self.steps_among(i as int, j as int, 6),
    {
        let n: usize = self.ice.len();
        proof {
            assert(self.stack.layer_ok(0));
            assert(self.stack.layer_ok(j as int));
        }
        let w: usize = self.stack.layers[0].w;
        let l: Layer = self.stack.layers[j];
        let bottom: u32 = number::whole((2 * l.z) as u32);
        let ceiling: u32 = number::whole((2 * (l.z + l.dz)) as u32);
        let here: u32 = self.h[i];
        let mut taller: Vec<usize> = Vec::new();
        let mut k: usize = 0;
        while k < 6
            invariant
                self.sized(),
                i < n,
                n == self.n(),
                w == self.w(),
                k <= 6,
                j < self.stack.layers@.len(),
                l == self.stack.layers@[j as int],
                here == self.h@[i as int],
                number::single(bottom) == 2 * l.z * number::single_unit(),
                number::single(ceiling) == 2 * (l.z + l.dz) * number::single_unit(),
                taller@ == self.steps_among(i as int, j as int, k as nat),
            decreases 6 - k,
        {
            match lattice::neighbour(n, w, i, k) {
                Some(b) => {
                    proof {
                        number::singles_are_ordered(bottom, self.h@[b as int]);
                        number::singles_are_ordered(here, self.h@[b as int]);
                        number::singles_are_ordered(here, ceiling);
                    }
                    if self.ice[b] && self.h[b] > bottom && self.h[b] > here && here < ceiling {
                        taller.push(b);
                    }
                },
                None => {},
            }
            k = k + 1;
        }
        taller
    }

    /// Whether this is `before` with every boundary site marked with its kind,
    /// and nothing else changed.
    pub open spec fn marked_from(self, before: Automaton) -> bool {
        &&& self.same_crystal(before)
        &&& self.rim@ == before.rim@
        &&& self.coarse@ == before.coarse@
        &&& self.step == before.step
        &&& self.sweeps == before.sweeps
        &&& forall|i: int|
            0 <= i < before.n() ==> #[trigger] self.attach@[i] == before.site_kind(i)
    }

    /// Mark every boundary site with its kind.
    pub fn mark_sites(&mut self)
        requires
            old(self).wf(),
        ensures
            final(self).wf(),
            final(self).marked_from(*old(self)),
    {
        let n: usize = self.ice.len();
        let big_r: i32 = self.stack.radius;
        let ghost before = *self;
        let mut i: usize = 0;
        while i < n
            invariant
                before.wf(),
                n == before.n(),
                big_r == before.radius(),
                i <= n,
                self.same_crystal(before),
                self.sized(),
                self.rim@ == before.rim@,
                self.coarse@ == before.coarse@,
                self.step == before.step,
                self.sweeps == before.sweeps,
                forall|k: int| 0 <= k < i ==> #[trigger] self.attach@[k] == before.site_kind(k),
            decreases n - i,
        {
            let c: (i32, i32) = lattice::cell_at_index(big_r, i);
            let kind: u8 = if self.ice[i] || hex::hex_distance(c.0, c.1) >= big_r {
                0
            } else {
                let around: u32 = self.ice_neighbours(i);
                proof {
                    same_ice_around(*self, before, i as int, 6);
                }
                if around == 0 {
                    0
                } else if around >= 3 {
                    KINK
                } else {
                    FACET
                }
            };
            self.attach[i] = kind;
            i = i + 1;
        }
    }

    /// Whether a site of the given kind joins the crystal: it is full, and it
    /// is a kink, or draws are off, or its draw falls below its threshold.
    pub open spec fn joins_as(
        self,
        kind: u8,
        i: int,
        fill: u32,
        threshold: u32,
        stochastic: bool,
        symmetric: bool,
    ) -> bool {
        &&& kind != 0
        &&& fill >= FULL
        &&& (kind == KINK || !stochastic || draw::level_of(
            self.seed,
            self.step,
            draw::drawing_cell(self.cell(i).0, self.cell(i).1, symmetric),
        ) < threshold)
    }

    /// Whether a marked site joins the crystal.
    pub open spec fn site_joins(
        self,
        i: int,
        fill: u32,
        threshold: u32,
        stochastic: bool,
        symmetric: bool,
    ) -> bool {
        self.joins_as(self.attach@[i], i, fill, threshold, stochastic, symmetric)
    }

    /// Whether this is `before` with its marks left on the sites that join, and
    /// nothing else changed.
    pub open spec fn settled_from(
        self,
        before: Automaton,
        fill: Seq<u32>,
        threshold: Seq<u32>,
        stochastic: bool,
        symmetric: bool,
    ) -> bool {
        &&& self.same_crystal(before)
        &&& self.rim@ == before.rim@
        &&& self.coarse@ == before.coarse@
        &&& self.step == before.step
        &&& self.sweeps == before.sweeps
        &&& forall|i: int|
            0 <= i < before.n() ==> #[trigger] self.attach@[i] == if before.site_joins(
                i,
                fill[i],
                threshold[i],
                stochastic,
                symmetric,
            ) {
                1u8
            } else {
                0u8
            }
    }

    /// Decide which of the marked sites join: those that hold a full cell of
    /// mass (`fill`, patterns of singles), except that a facet or tip site
    /// waits until its draw falls below its nucleation threshold (out of
    /// [`draw::LEVELS`]) when `stochastic`.  With `symmetric` the twelve
    /// images of a cell share one draw.
    pub fn settle_sites(
        &mut self,
        fill: &Vec<u32>,
        threshold: &Vec<u32>,
        stochastic: bool,
        symmetric: bool,
    )
        requires
            old(self).wf(),
            fill@.len() == old(self).n(),
            threshold@.len() == old(self).n(),
        ensures
            final(self).wf(),
            final(self).settled_from(*old(self), fill@, threshold@, stochastic, symmetric),
    {
        let n: usize = self.ice.len();
        let big_r: i32 = self.stack.radius;
        let ghost before = *self;
        let mut i: usize = 0;
        while i < n
            invariant
                before.wf(),
                n == before.n(),
                big_r == before.radius(),
                fill@.len() == n,
                threshold@.len() == n,
                i <= n,
                self.same_crystal(before),
                self.sized(),
                self.rim@ == before.rim@,
                self.coarse@ == before.coarse@,
                self.step == before.step,
                self.sweeps == before.sweeps,
                forall|k: int| i <= k < n ==> self.attach@[k] == before.attach@[k],
                forall|k: int|
                    0 <= k < i ==> #[trigger] self.attach@[k] == if before.site_joins(
                        k,
                        fill@[k],
                        threshold@[k],
                        stochastic,
                        symmetric,
                    ) {
                        1u8
                    } else {
                        0u8
                    },
            decreases n - i,
        {
            let kind: u8 = self.attach[i];
            let joins: bool = if kind == 0 || fill[i] < FULL {
                false
            } else if kind == KINK || !stochastic {
                true
            } else {
                let c: (i32, i32) = lattice::cell_at_index(big_r, i);
                draw::draw_level(self.seed, self.step, c.0, c.1, symmetric) < threshold[i]
            };
            self.attach[i] = if joins {
                1
            } else {
                0
            };
            i = i + 1;
        }
    }

    /// The array entries of the sites that are marked, in order.
    pub fn marked_sites(&self) -> (sites: Vec<usize>)
        requires
            self.sized(),
        ensures
            forall|i: int|
                0 <= i < self.n() ==> (#[trigger] self.attach@[i] != 0 <==> sites@.contains(
                    i as usize,
                )),
            forall|k: int| 0 <= k < sites@.len() ==> #[trigger] sites@[k] < self.n(),
            forall|k: int, l: int| 0 <= k < l < sites@.len() ==> sites@[k] < sites@[l],
    {
        let mut sites: Vec<usize> = Vec::new();
        let mut i: usize = 0;
        while i < self.attach.len()
            invariant
                self.sized(),
                i <= self.n(),
                forall|k: int|
                    0 <= k < i ==> (#[trigger] self.attach@[k] != 0 <==> sites@.contains(
                        k as usize,
                    )),
                forall|k: int| 0 <= k < sites@.len() ==> #[trigger] sites@[k] < i,
                forall|k: int, l: int| 0 <= k < l < sites@.len() ==> sites@[k] < sites@[l],
            decreases self.n() - i,
        {
            if self.attach[i] != 0 {
                let ghost prior = sites@;
                sites.push(i);
                proof {
                    assert(sites@[prior.len() as int] == i);
                    assert forall|k: int| 0 <= k < i + 1 implies (#[trigger] self.attach@[k] != 0
                        <==> sites@.contains(k as usize)) by {
                        if k < i && sites@.contains(k as usize) {
                            let m = choose|m: int| 0 <= m < sites@.len() && sites@[m] == k as usize;
                            assert(m < prior.len());
                            assert(prior[m] == k as usize);
                        }
                        if k < i && prior.contains(k as usize) {
                            let m = choose|m: int| 0 <= m < prior.len() && prior[m] == k as usize;
                            assert(sites@[m] == k as usize);
                        }
                    }
                }
            } else {
                proof {
                    assert(!sites@.contains(i));
                }
            }
            i = i + 1;
        }
        sites
    }

    /// Whether this is `before` with its marked sites turned into ice of the
    /// given heights, the marks cleared, the counters and layers brought up to
    /// date, and nothing else changed.
    pub open spec fn attached_from(self, before: Automaton, heights: Seq<u32>) -> bool {
        &&& self.stack == before.stack
        &&& self.rim@ == before.rim@
        &&& self.coarse@ == before.coarse@
        &&& self.seed == before.seed
        &&& self.step == before.step
        &&& self.sweeps == before.sweeps
        &&& forall|i: int| 0 <= i < before.n() ==> #[trigger] self.attach@[i] == 0
        &&& forall|i: int|
            0 <= i < before.n() ==> #[trigger] self.ice@[i] == (before.ice@[i] || before.attach@[i]
                != 0)
        &&& forall|i: int|
            0 <= i < before.n() ==> #[trigger] self.h@[i] == if before.attach@[i] != 0 {
                heights[i]
            } else {
                before.h@[i]
            }
    }

    /// Turn the marked sites into ice of the given heights (one per lattice
    /// cell; those of other cells are not read).  Returns the field cells
    /// that the new ice occupies, on the layers at the lattice's spacing.
    pub fn apply_attachment(&mut self, heights: &Vec<u32>) -> (cleared: Vec<usize>)
        requires
            old(self).wf(),
            heights@.len() == old(self).n(),
        ensures
            final(self).wf(),
            final(self).attached_from(*old(self), heights@),
            cleared@ == final(self).occupied(old(self).attach@, old(self).n() as nat),
    {
        let n: usize = self.ice.len();
        let big_r: i32 = self.stack.radius;
        let ghost before = *self;
        let mut cleared: Vec<usize> = Vec::new();
        let mut i: usize = 0;
        while i < n
            invariant
                before.wf(),
                n == before.n(),
                big_r == before.radius(),
                heights@.len() == n,
                i <= n,
                self.stack == before.stack,
                self.sized(),
                self.topped(),
                self.counted(),
                self.rim@ == before.rim@,
                self.coarse@ == before.coarse@,
                self.seed == before.seed,
                self.step == before.step,
                self.sweeps == before.sweeps,
                forall|k: int|
                    0 <= k < n ==> #[trigger] self.attach@[k] == if k < i {
                        0
                    } else {
                        before.attach@[k]
                    },
                forall|k: int|
                    0 <= k < n ==> #[trigger] self.ice@[k] == (before.ice@[k] || (k < i
                        && before.attach@[k] != 0)),
                forall|k: int|
                    0 <= k < n ==> #[trigger] self.h@[k] == if k < i && before.attach@[k] != 0 {
                        heights@[k]
                    } else {
                        before.h@[k]
                    },
                cleared@ == self.occupied(before.attach@, i as nat),
            decreases n - i,
        {
            let ghost prior = *self;
            if self.attach[i] != 0 {
                let height: u32 = heights[i];
                let t: u8 = self.stack.layers_of(height);
                let c: (i32, i32) = lattice::cell_at_index(big_r, i);
                let d: i32 = hex::hex_distance(c.0, c.1);
                proof {
                    assert(!self.ice@[i as int]);
                    automaton::count_after_set(self.ice@, i as int);
                    automaton::count_is_bounded(self.ice@.update(i as int, true));
                }
                self.attach[i] = 0;
                self.h[i] = height;
                self.ice[i] = true;
                self.top[i] = t;
                self.crystal_cells = self.crystal_cells + 1;
                if self.crystal_radius < d {
                    self.crystal_radius = d;
                }
                proof {
                    assert(self.ice@[i as int]);
                    let f = choose|f: int|
                        0 <= f < n && #[trigger] prior.ice@[f] && prior.far(f)
                            == prior.crystal_radius;
                    assert(self.ice@[f]);
                    assert(self.far(f) == prior.crystal_radius);
                    assert(self.far(i as int) == d);
                    assert forall|k: int| 0 <= k < n implies if self.ice@[k] {
                        self.stack.fills(self.h@[k], #[trigger] self.top@[k] as int)
                    } else {
                        self.top@[k] == 0
                    } by {
                        if k != i {
                            assert(prior.top@[k] == self.top@[k]);
                        }
                    }
                }
                self.push_cleared(i, &mut cleared);
            }
            proof {
                occupied_below_is_kept(prior, *self, before.attach@, i as nat);
            }
            i = i + 1;
        }
        cleared
    }

    /// Field cells of lattice entry `i` on those of the lowest `t` layers that
    /// are at the lattice's spacing.
    pub open spec fn fine_cells(self, i: int, t: nat) -> Seq<usize>
        decreases t,
    {
        if t == 0 {
            Seq::empty()
        } else if self.stack.layers@[t - 1].s == 1 {
            self.fine_cells(i, (t - 1) as nat).push((self.stack.layers@[t - 1].off + i) as usize)
        } else {
            self.fine_cells(i, (t - 1) as nat)
        }
    }

    /// Field cells that the marked ones of the first `m` lattice entries
    /// occupy.
    pub open spec fn occupied(self, marks: Seq<u8>, m: nat) -> Seq<usize>
        decreases m,
    {
        if m == 0 {
            Seq::empty()
        } else if marks[m - 1] != 0 {
            self.occupied(marks, (m - 1) as nat) + self.fine_cells(
                m - 1,
                self.top@[m - 1] as nat,
            )
        } else {
            self.occupied(marks, (m - 1) as nat)
        }
    }

    fn push_cleared(&self, i: usize, cleared: &mut Vec<usize>)
        requires
            self.sized(),
            i < self.n(),
            self.top@[i as int] <= self.stack.layers@.len(),
        ensures
            final(cleared)@ == old(cleared)@ + self.fine_cells(
                i as int,
                self.top@[i as int] as nat,
            ),
    {
        let t: usize = self.top[i] as usize;
        let ghost prior = cleared@;
        let mut j: usize = 0;
        proof {
            assert(prior + Seq::<usize>::empty() =~= prior);
        }
        while j < t
            invariant
                self.sized(),
                i < self.n(),
                t == self.top@[i as int],
                t <= self.stack.layers@.len(),
                j <= t,
                cleared@ == prior + self.fine_cells(i as int, j as nat),
            decreases t - j,
        {
            proof {
                assert(self.stack.layer_ok(j as int));
            }
            if self.stack.layers[j].s == 1 {
                cleared.push(self.stack.layers[j].off + i);
                proof {
                    assert(cleared@ =~= prior + self.fine_cells(i as int, (j + 1) as nat));
                }
            }
            j = j + 1;
        }
    }
}

impl Automaton {
    proof fn fine_cells_hold(self, i: int, t: nat, x: int)
        requires
            self.sized(),
            0 <= i < self.n(),
            t <= self.stack.layers@.len(),
            0 <= x <= usize::MAX,
        ensures
            self.fine_cells(i, t).contains(x as usize) <==> exists|j: int|
                0 <= j < t && (#[trigger] self.stack.layers@[j]).s == 1 && x
                    == self.stack.layers@[j].off + i,
        decreases t,
    {
        if t > 0 {
            let l = (t - 1) as nat;
            self.fine_cells_hold(i, l, x);
            assert(self.stack.layer_ok(t - 1));
            let (before, here) = (self.fine_cells(i, l), self.fine_cells(i, t));
            let layer = self.stack.layers@[t - 1];
            if layer.s == 1 {
                assert(here[before.len() as int] == (layer.off + i) as usize);
            }
            if before.contains(x as usize) {
                let a = choose|a: int| 0 <= a < before.len() && before[a] == x as usize;
                assert(here[a] == x as usize);
            }
            if here.contains(x as usize) && !before.contains(x as usize) {
                let a = choose|a: int| 0 <= a < here.len() && here[a] == x as usize;
                if a < before.len() {
                    assert(before[a] == x as usize);
                }
                assert(x == layer.off + i);
            }
        }
    }

    proof fn occupied_holds(self, marks: Seq<u8>, m: nat, x: int)
        requires
            self.sized(),
            m <= self.n(),
            forall|i: int| 0 <= i < self.n() ==> #[trigger] self.top@[i] <= self.stack.layers@.len(),
            0 <= x <= usize::MAX,
        ensures
            self.occupied(marks, m).contains(x as usize) <==> exists|i: int, j: int|
                0 <= i < m && marks[i] != 0 && #[trigger] self.fills_fine(i, j, x),
        decreases m,
    {
        if m > 0 {
            let l = (m - 1) as nat;
            self.occupied_holds(marks, l, x);
            let (before, here) = (self.occupied(marks, l), self.occupied(marks, m));
            if marks[m - 1] != 0 {
                let cells = self.fine_cells(m - 1, self.top@[m - 1] as nat);
                self.fine_cells_hold(m - 1, self.top@[m - 1] as nat, x);
                if before.contains(x as usize) {
                    let a = choose|a: int| 0 <= a < before.len() && before[a] == x as usize;
                    assert(here[a] == x as usize);
                }
                if cells.contains(x as usize) {
                    let a = choose|a: int| 0 <= a < cells.len() && cells[a] == x as usize;
                    assert(here[before.len() + a] == x as usize);
                    let j = choose|j: int|
                        0 <= j < self.top@[m - 1] && (#[trigger] self.stack.layers@[j]).s == 1 && x
                            == self.stack.layers@[j].off + m - 1;
                    assert(self.fills_fine(m - 1, j, x));
                }
                if here.contains(x as usize) && !before.contains(x as usize) {
                    let a = choose|a: int| 0 <= a < here.len() && here[a] == x as usize;
                    if a < before.len() {
                        assert(before[a] == x as usize);
                    } else {
                        assert(cells[a - before.len()] == x as usize);
                    }
                }
                if exists|j: int| #[trigger] self.fills_fine(m - 1, j, x) {
                    let j = choose|j: int| #[trigger] self.fills_fine(m - 1, j, x);
                    assert(self.stack.layers@[j].s == 1);
                    assert(cells.contains(x as usize));
                }
            }
        }
    }

    /// Whether field cell `x` is that of lattice entry `i` on layer `j`, a layer at
    /// the lattice's spacing that the crystal fills there.
    pub open spec fn fills_fine(self, i: int, j: int, x: int) -> bool {
        &&& 0 <= j < self.top@[i]
        &&& self.stack.layers@[j].s == 1
        &&& x == self.stack.layers@[j].off + i
    }

    /// Attaching turns each marked site into ice of the height given for it, and
    /// changes no other cell; no mark is left.  The field cells that it reports are
    /// those that the new ice fills on the layers at the lattice's spacing: all of
    /// them, and no others.
    pub proof fn attachment_turns_marks_into_ice(
        self,
        grown: Automaton,
        heights: Seq<u32>,
        i: int,
        x: int,
    )
        requires
            self.wf(),
            grown.wf(),
            grown.attached_from(self, heights),
            0 <= i < self.n(),
            0 <= x <= usize::MAX,
        ensures
            self.attach@[i] != 0 ==> grown.ice@[i] && grown.h@[i] == heights[i]
                && grown.stack.fills(heights[i], grown.top@[i] as int),
            self.attach@[i] == 0 ==> grown.ice@[i] == self.ice@[i] && grown.h@[i] == self.h@[i]
                && grown.top@[i] == self.top@[i],
            grown.attach@[i] == 0,
            grown.occupied(self.attach@, self.n() as nat).contains(x as usize) <==> exists|
                k: int,
                j: int,
            |
                0 <= k < self.n() && self.attach@[k] != 0 && #[trigger] grown.fills_fine(k, j, x),
    {
        assert forall|k: int| 0 <= k < grown.n() implies #[trigger] grown.top@[k]
            <= grown.stack.layers@.len() by {
            if grown.ice@[k] {
                assert(grown.stack.fills(grown.h@[k], grown.top@[k] as int));
            }
        }
        assert(grown.ice@[i] == (self.ice@[i] || self.attach@[i] != 0));
        if grown.ice@[i] {
            assert(grown.stack.fills(grown.h@[i], grown.top@[i] as int));
            if self.ice@[i] {
                assert(self.stack.fills(self.h@[i], self.top@[i] as int));
                self.fill_is_unique(self.h@[i], self.top@[i] as int, grown.top@[i] as int);
            }
        } else {
            assert(grown.top@[i] == 0 && self.top@[i] == 0);
        }
        grown.occupied_holds(self.attach@, self.n() as nat, x);
    }
}

proof fn occupied_below_is_kept(a: Automaton, b: Automaton, marks: Seq<u8>, m: nat)
    requires
        a.stack == b.stack,
        forall|k: int| 0 <= k < m ==> #[trigger] a.top@[k] == b.top@[k],
    ensures
        a.occupied(marks, m) == b.occupied(marks, m),
    decreases m,
{
    if m > 0 {
        occupied_below_is_kept(a, b, marks, (m - 1) as nat);
        fine_cells_are_kept(a, b, m - 1, a.top@[m - 1] as nat);
    }
}

proof fn fine_cells_are_kept(a: Automaton, b: Automaton, i: int, t: nat)
    requires
        a.stack == b.stack,
    ensures
        a.fine_cells(i, t) == b.fine_cells(i, t),
    decreases t,
{
    if t > 0 {
        fine_cells_are_kept(a, b, i, (t - 1) as nat);
    }
}

/// One for each of the six that holds.
pub open spec fn tally(a: bool, b: bool, c: bool, d: bool, e: bool, f: bool) -> int {
    let one = |x: bool|
        if x {
            1int
        } else {
            0
        };
    one(a) + one(b) + one(c) + one(d) + one(e) + one(f)
}

impl Automaton {
    /// Whether cell (q, r) is ice of the lattice that rises above the bottom of
    /// layer `j`.
    pub open spec fn edge_at(self, j: int, q: int, r: int) -> bool {
        let i = lattice::flat(self.radius(), q, r);
        &&& lattice::on_grid(self.radius(), q, r)
        &&& self.ice@[i]
        &&& number::single(self.h@[i]) > 2 * self.stack.layers@[j].z * number::single_unit()
    }

    /// The edges around a cell that rise into a layer are counted among its six
    /// neighbours, each once: those that are ice and taller than twice the height
    /// of the layer's bottom.
    pub proof fn edges_are_counted_around(self, i: int, j: int)
        requires
            self.sized(),
            0 <= i < self.n(),
        ensures
            ({
                let (q, r) = self.cell(i);
                self.edges_among(i, j, 6) == tally(
                    self.edge_at(j, q + 1, r),
                    self.edge_at(j, q - 1, r),
                    self.edge_at(j, q, r + 1),
                    self.edge_at(j, q, r - 1),
                    self.edge_at(j, q + 1, r - 1),
                    self.edge_at(j, q - 1, r + 1),
                )
            }),
    {
        let (big_r, c) = (self.radius(), self.cell(i));
        assert(self.stack.layer_ok(0));
        lattice::cell_is_inverted(big_r, i);
        reveal_with_fuel(Automaton::edges_among, 7);
        lattice::neighbours_go_by_coordinates(big_r, c.0, c.1, 0);
        lattice::neighbours_go_by_coordinates(big_r, c.0, c.1, 1);
        lattice::neighbours_go_by_coordinates(big_r, c.0, c.1, 2);
        lattice::neighbours_go_by_coordinates(big_r, c.0, c.1, 3);
        lattice::neighbours_go_by_coordinates(big_r, c.0, c.1, 4);
        lattice::neighbours_go_by_coordinates(big_r, c.0, c.1, 5);
        assert(hex::direction(0) == (1int, 0int) && hex::direction(1) == (-1int, 0int));
        assert(hex::direction(2) == (0int, 1int) && hex::direction(3) == (0int, -1int));
        assert(hex::direction(4) == (1int, -1int) && hex::direction(5) == (-1int, 1int));
    }

    /// An edge takes part in a layer exactly where one of the six neighbours rises
    /// into the layer and so does the edge's own height; so it takes part in the
    /// first layer wherever it has any height and a neighbour has, and in no layer
    /// above one that it does not reach.
    pub proof fn edges_span_the_layers_they_rise_into(self, i: int, h: u32, j: int, l: int)
        requires
            self.sized(),
            0 <= i < self.n(),
            0 <= j <= l < self.stack.layers@.len(),
        ensures
            ({
                let (q, r) = self.cell(i);
                let rises = self.edge_at(j, q + 1, r) || self.edge_at(j, q - 1, r) || self.edge_at(
                    j,
                    q,
                    r + 1,
                ) || self.edge_at(j, q, r - 1) || self.edge_at(j, q + 1, r - 1) || self.edge_at(
                    j,
                    q - 1,
                    r + 1,
                );
                self.edge_spans(i, h, j) <==> rises && number::single(h) > 2
                    * self.stack.layers@[j].z * number::single_unit()
            }),
            self.edge_spans(i, h, l) ==> self.edge_spans(i, h, j),
    {
        let unit = number::single_unit();
        self.edges_are_counted_around(i, j);
        self.edges_are_counted_around(i, l);
        self.bottoms_rise(j, l);
        let (a, b) = (2 * self.stack.layers@[j].z, 2 * self.stack.layers@[l].z);
        vstd::arithmetic::power2::lemma_pow2_pos(149);
        assert(a * unit <= b * unit) by (nonlinear_arith)
            requires
                a <= b,
                unit >= 0,
        ;
    }

    proof fn bottoms_rise(self, j: int, l: int)
        requires
            self.sized(),
            0 <= j <= l < self.stack.layers@.len(),
        ensures
            self.stack.layers@[j].z <= self.stack.layers@[l].z,
        decreases l - j,
    {
        assert(self.stack.layer_ok(l));
        if j < l {
            assert(self.stack.layer_ok(l - 1));
            self.bottoms_rise(j, l - 1);
        }
    }

    proof fn listed_neighbours_are_ice(self, i: int, m: nat, t: int)
        requires
            self.sized(),
            0 <= i < self.n(),
            m <= 6,
            0 <= t < self.ice_entries(i, m).len(),
        ensures
            ({
                let e = self.ice_entries(i, m)[t] as int;
                0 <= e < self.n() && self.ice@[e] && hex::adjacent(self.cell(i), self.cell(e))
            }),
        decreases m,
    {
        let before = self.ice_entries(i, (m - 1) as nat);
        if t < before.len() {
            self.listed_neighbours_are_ice(i, (m - 1) as nat, t);
        } else {
            let (big_r, c, d) = (self.radius(), self.cell(i), hex::direction(m - 1));
            assert(self.stack.layer_ok(0));
            lattice::cell_is_inverted(big_r, i);
            lattice::neighbours_go_by_coordinates(big_r, c.0, c.1, m - 1);
            lattice::flat_is_inverted(big_r, c.0 + d.0, c.1 + d.1);
        }
    }

    proof fn ice_neighbours_are_listed(self, i: int, m: nat, k: int)
        requires
            0 <= k < m,
            self.ice_beside(i, k),
        ensures
            self.ice_entries(i, m).contains(
                lattice::beside(self.n(), self.w(), i, k).unwrap() as usize,
            ),
        decreases m,
    {
        let e = lattice::beside(self.n(), self.w(), i, k).unwrap() as usize;
        let before = self.ice_entries(i, (m - 1) as nat);
        let here = self.ice_entries(i, m);
        if k == m - 1 {
            assert(here[before.len() as int] == e);
        } else {
            self.ice_neighbours_are_listed(i, (m - 1) as nat, k);
            let t = choose|t: int| 0 <= t < before.len() && #[trigger] before[t] == e;
            assert(here[t] == e);
        }
    }

    proof fn entries_are_counted(self, i: int, m: nat)
        ensures
            self.ice_entries(i, m).len() == self.ice_among(i, m),
        decreases m,
    {
        if m > 0 {
            self.entries_are_counted(i, (m - 1) as nat);
        }
    }

    /// A site averages over the ice cells that share an edge with it: over each of
    /// them, and over nothing else.
    pub proof fn sites_average_over_the_ice_around(self, i: int, e: int)
        requires
            self.sized(),
            0 <= i < self.n(),
            0 <= e < self.n(),
        ensures
            self.ice_entries(i, 6).contains(e as usize) <==> self.ice@[e] && hex::adjacent(
                self.cell(i),
                self.cell(e),
            ),
            self.ice_entries(i, 6).len() == self.ice_around(i),
    {
        let (big_r, c) = (self.radius(), self.cell(i));
        assert(self.stack.layer_ok(0));
        self.entries_are_counted(i, 6);
        lattice::cell_is_inverted(big_r, i);
        lattice::cell_is_inverted(big_r, e);
        if self.ice_entries(i, 6).contains(e as usize) {
            let t = choose|t: int|
                0 <= t < self.ice_entries(i, 6).len() && self.ice_entries(i, 6)[t] == e as usize;
            self.listed_neighbours_are_ice(i, 6, t);
        }
        if self.ice@[e] && hex::adjacent(c, self.cell(e)) {
            let d = self.cell(e);
            hex::directions_are_the_unit_cells(d.0 - c.0, d.1 - c.1);
            let k = choose|k: int|
                0 <= k < 6 && #[trigger] hex::direction(k) == (d.0 - c.0, d.1 - c.1);
            lattice::neighbours_go_by_coordinates(big_r, c.0, c.1, k);
            assert(self.ice_beside(i, k));
            self.ice_neighbours_are_listed(i, 6, k);
        }
    }

    proof fn listed_steps_are_taller(self, i: int, j: int, m: nat, t: int)
        requires
            self.sized(),
            0 <= i < self.n(),
            m <= 6,
            0 <= t < self.steps_among(i, j, m).len(),
        ensures
            self.shows_step(i, j, self.steps_among(i, j, m)[t] as int),
        decreases m,
    {
        let before = self.steps_among(i, j, (m - 1) as nat);
        if t < before.len() {
            self.listed_steps_are_taller(i, j, (m - 1) as nat, t);
        } else {
            let (big_r, c, d) = (self.radius(), self.cell(i), hex::direction(m - 1));
            assert(self.stack.layer_ok(0));
            lattice::cell_is_inverted(big_r, i);
            lattice::neighbours_go_by_coordinates(big_r, c.0, c.1, m - 1);
            lattice::flat_is_inverted(big_r, c.0 + d.0, c.1 + d.1);
            let e = lattice::flat(big_r, c.0 + d.0, c.1 + d.1);
            number::singles_are_ordered(self.h@[i], self.h@[e]);
        }
    }

    proof fn steps_are_listed(self, i: int, j: int, m: nat, k: int)
        requires
            0 <= k < m,
            self.step_beside(i, j, k),
        ensures
            self.steps_among(i, j, m).contains(
                lattice::beside(self.n(), self.w(), i, k).unwrap() as usize,
            ),
        decreases m,
    {
        let e = lattice::beside(self.n(), self.w(), i, k).unwrap() as usize;
        let before = self.steps_among(i, j, (m - 1) as nat);
        let here = self.steps_among(i, j, m);
        if k == m - 1 {
            assert(here[before.len() as int] == e);
        } else {
            self.steps_are_listed(i, j, (m - 1) as nat, k);
            let t = choose|t: int| 0 <= t < before.len() && #[trigger] before[t] == e;
            assert(here[t] == e);
        }
    }

    /// Whether the cell at entry `e` is ice beside the cell at entry `i` and taller,
    /// and some of what it is taller by lies within layer `j`.
    pub open spec fn shows_step(self, i: int, j: int, e: int) -> bool {
        let (l, unit) = (self.stack.layers@[j], number::single_unit());
        &&& 0 <= e < self.n() && self.ice@[e]
        &&& hex::adjacent(self.cell(i), self.cell(e))
        &&& self.h@[e] > self.h@[i]
        &&& number::single(self.h@[e]) > 2 * l.z * unit
        &&& number::single(self.h@[i]) < 2 * (l.z + l.dz) * unit
    }

    /// The steps up from a crystal cell within a layer are the neighbouring ice
    /// cells that are taller, where some of the difference lies within the layer;
    /// so of two neighbours at most one steps up to the other.
    pub proof fn steps_lead_up_to_taller_ice(self, i: int, j: int, e: int)
        requires
            self.sized(),
            0 <= i < self.n(),
            0 <= e < self.n(),
        ensures
            self.steps_among(i, j, 6).contains(e as usize) <==> self.shows_step(i, j, e),
            self.steps_among(i, j, 6).contains(e as usize) ==> !self.steps_among(e, j, 6).contains(
                i as usize,
            ),
    {
        self.steps_are_those_shown(i, j, e);
        self.steps_are_those_shown(e, j, i);
    }

    proof fn steps_are_those_shown(self, i: int, j: int, e: int)
        requires
            self.sized(),
            0 <= i < self.n(),
            0 <= e < self.n(),
        ensures
            self.steps_among(i, j, 6).contains(e as usize) <==> self.shows_step(i, j, e),
    {
        let (big_r, c) = (self.radius(), self.cell(i));
        assert(self.stack.layer_ok(0));
        lattice::cell_is_inverted(big_r, i);
        lattice::cell_is_inverted(big_r, e);
        if self.steps_among(i, j, 6).contains(e as usize) {
            let t = choose|t: int|
                0 <= t < self.steps_among(i, j, 6).len() && self.steps_among(i, j, 6)[t]
                    == e as usize;
            self.listed_steps_are_taller(i, j, 6, t);
        }
        if self.shows_step(i, j, e) {
            let d = self.cell(e);
            hex::directions_are_the_unit_cells(d.0 - c.0, d.1 - c.1);
            let k = choose|k: int|
                0 <= k < 6 && #[trigger] hex::direction(k) == (d.0 - c.0, d.1 - c.1);
            lattice::neighbours_go_by_coordinates(big_r, c.0, c.1, k);
            number::singles_are_ordered(self.h@[i], self.h@[e]);
            assert(self.step_beside(i, j, k));
            self.steps_are_listed(i, j, 6, k);
        }
    }
}

/// Crystals of the same cells have as many ice cells around every entry.
pub proof fn same_ice_around(a: Automaton, b: Automaton, i: int, k: nat)
    requires
        a.stack == b.stack,
        a.ice@ == b.ice@,
    ensures
        a.ice_among(i, k) == b.ice_among(i, k),
    decreases k,
{
    if k > 0 {
        same_ice_around(a, b, i, (k - 1) as nat);
    }
}

} // verus!
