//! Restriction of the height map to the coarse layers: what each coarse cell
//! gathers from the lattice cells nearest to it.

use crate::automaton::{Automaton, Coarse};
use crate::hex;
use crate::lattice;
use crate::layers;
use crate::layers::Layer;
use vstd::prelude::*;

verus! {

/// What a coarse cell counts.
pub enum Share {
    /// Lattice cells inside the outer ring.
    Cover,
    /// Cells that are ice at the layer.
    Ice,
    /// Cells that are not, beside one that is.
    Edges,
    /// Cells whose ice ends at the layer, at most a cell from the rim.
    Narrow,
    /// Cells whose ice ends at the layer, further from the rim.
    Wide,
}

impl Automaton {
    /// Whether the cell at lattice entry `i` is ice at layer `j`.
    pub open spec fn solid(self, i: int, j: int) -> bool {
        self.ice@[i] && self.top@[i] > j
    }

    /// Whether the k-th neighbour of entry `i` is ice at layer `j`.
    pub open spec fn solid_beside(self, i: int, j: int, k: int) -> bool {
        lattice::beside(self.n(), self.w(), i, k) matches Some(b) && self.solid(b, j)
    }

    /// Whether entry `i` counts towards a share at layer `j`.
    pub open spec fn counts(self, which: Share, i: int, j: int) -> bool {
        self.far(i) < self.radius() && match which {
            Share::Cover => true,
            Share::Ice => self.solid(i, j),
            Share::Edges => !self.solid(i, j) && exists|k: int|
                0 <= k < 6 && #[trigger] self.solid_beside(i, j, k),
            Share::Narrow => self.ice@[i] && self.top@[i] == j && self.rim@[i] <= 1,
            Share::Wide => self.ice@[i] && self.top@[i] == j && self.rim@[i] > 1,
        }
    }

    /// Index, within layer `j`, of the coarse cell that gathers entry `i`.
    pub open spec fn gatherer(self, i: int, j: int) -> int {
        let l = self.stack.layers@[j];
        let c = layers::nearest_cell(l.s as int, self.cell(i).0, self.cell(i).1);
        lattice::flat(l.radius as int, c.0, c.1)
    }

    /// How many of the first `m` entries coarse cell `c` of layer `j` counts
    /// towards a share.
    pub open spec fn share(self, which: Share, j: int, c: int, m: nat) -> nat
        decreases m,
    {
        if m == 0 {
            0
        } else {
            self.share(which, j, c, (m - 1) as nat) + if self.counts(which, m - 1, j)
                && self.gatherer(m - 1, j) == c {
                1nat
            } else {
                0
            }
        }
    }

    /// Whether `table` holds what the cells of layer `j` gather.
    pub open spec fn gathered(self, table: Coarse, j: int, m: nat) -> bool {
        forall|c: int|
            #![trigger table.cover@[c]]
            #![trigger table.ice@[c]]
            #![trigger table.edges@[c]]
            #![trigger table.narrow@[c]]
            #![trigger table.wide@[c]]
            0 <= c < self.stack.layers@[j].n ==> {
                &&& table.cover@[c] == self.share(Share::Cover, j, c, m)
                &&& table.ice@[c] == self.share(Share::Ice, j, c, m)
                &&& table.edges@[c] == self.share(Share::Edges, j, c, m)
                &&& table.narrow@[c] == self.share(Share::Narrow, j, c, m)
                &&& table.wide@[c] == self.share(Share::Wide, j, c, m)
            }
    }

    /// Whether the tables of the coarse layers hold what their cells gather.
    pub open spec fn restricted(self) -> bool {
        forall|j: int|
            0 <= j < self.stack.layers@.len() && self.stack.layers@[j].s > 1 ==> self.gathered(
                #[trigger] self.coarse@[j],
                j,
                self.n() as nat,
            )
    }

    /// A lattice cell is gathered by the coarse cell whose hexagon it lies in: none of
    /// the six coarse cells around that one is nearer, and on a layer at the
    /// lattice's spacing it is the cell's own.
    pub proof fn cells_are_gathered_by_the_nearest(self, i: int, j: int)
        requires
            self.sized(),
            0 <= i < self.n(),
            self.far(i) <= self.radius(),
            0 <= j < self.stack.layers@.len(),
        ensures
            ({
                let l = self.stack.layers@[j];
                let (q, r) = self.cell(i);
                let c = lattice::cell_of(l.radius as int, self.gatherer(i, j));
                let (a, b) = (q - l.s * c.0, r - l.s * c.1);
                &&& 0 <= self.gatherer(i, j) < l.n
                &&& hex::abs(2 * a + b) <= l.s && hex::abs(a + 2 * b) <= l.s && hex::abs(a - b)
                    <= l.s
                &&& 3 * hex::dist(a, b) <= 2 * l.s
                &&& l.s == 1 ==> c == (q, r)
            }),
    {
        let l = self.stack.layers@[j];
        let (q, r) = self.cell(i);
        assert(self.stack.layer_ok(j));
        layers::nearest_cell_is_nearest(l.s as int, q, r);
        layers::nearest_cell_is_on_its_layer(self.radius(), l.s as int, q, r);
        let c = layers::nearest_cell(l.s as int, q, r);
        lattice::flat_is_inverted(l.radius as int, c.0, c.1);
    }

    /// What a lattice cell inside the outer ring counts towards: always the cover;
    /// the ice exactly where the crystal fills the layer there; the edges exactly
    /// where it does not but a neighbour does; and one of the terraces exactly
    /// where its ice ends at the layer, the narrow one within a cell of the rim.
    /// Cells on the outer ring count towards nothing.
    pub proof fn cells_count_by_their_ice(self, i: int, j: int)
        requires
            self.sized(),
            0 <= i < self.n(),
            j >= 0,
        ensures
            self.far(i) >= self.radius() ==> !self.counts(Share::Cover, i, j) && !self.counts(
                Share::Ice,
                i,
                j,
            ) && !self.counts(Share::Edges, i, j) && !self.counts(Share::Narrow, i, j)
                && !self.counts(Share::Wide, i, j),
            self.far(i) < self.radius() ==> {
                let fills = self.ice@[i] && self.top@[i] > j;
                let ends = self.ice@[i] && self.top@[i] == j;
                &&& self.counts(Share::Cover, i, j)
                &&& self.counts(Share::Ice, i, j) <==> fills
                &&& self.counts(Share::Edges, i, j) <==> !fills && exists|b: int|
                    0 <= b < self.n() && #[trigger] self.ice@[b] && self.top@[b] > j
                        && hex::adjacent(self.cell(i), self.cell(b))
                &&& self.counts(Share::Narrow, i, j) || self.counts(Share::Wide, i, j) <==> ends
                &&& !(self.counts(Share::Narrow, i, j) && self.counts(Share::Wide, i, j))
                &&& self.counts(Share::Narrow, i, j) ==> self.rim@[i] <= 1
                &&& self.counts(Share::Wide, i, j) ==> self.rim@[i] >= 2
            },
    {
        let (big_r, c) = (self.radius(), self.cell(i));
        assert(self.stack.layer_ok(0));
        lattice::cell_is_inverted(big_r, i);
        if self.far(i) < big_r {
            if self.counts(Share::Edges, i, j) {
                let k = choose|k: int| 0 <= k < 6 && #[trigger] self.solid_beside(i, j, k);
                lattice::neighbours_go_by_coordinates(big_r, c.0, c.1, k);
                let d = hex::direction(k);
                let b = lattice::flat(big_r, c.0 + d.0, c.1 + d.1);
                lattice::flat_is_inverted(big_r, c.0 + d.0, c.1 + d.1);
                assert(self.ice@[b] && self.top@[b] > j && hex::adjacent(c, self.cell(b)));
            }
            if exists|b: int|
                0 <= b < self.n() && #[trigger] self.ice@[b] && self.top@[b] > j && hex::adjacent(
                    self.cell(i),
                    self.cell(b),
                ) {
                let b = choose|b: int|
                    0 <= b < self.n() && #[trigger] self.ice@[b] && self.top@[b] > j
                        && hex::adjacent(self.cell(i), self.cell(b));
                let e = self.cell(b);
                lattice::cell_is_inverted(big_r, b);
                hex::directions_are_the_unit_cells(e.0 - c.0, e.1 - c.1);
                let k = choose|k: int|
                    0 <= k < 6 && #[trigger] hex::direction(k) == (e.0 - c.0, e.1 - c.1);
                lattice::neighbours_go_by_coordinates(big_r, c.0, c.1, k);
                assert(self.solid_beside(i, j, k));
            }
        }
    }

    /// A coarse cell counts no more entries than were looked at, and no more
    /// towards any share than it gathers.
    pub proof fn shares_are_bounded(self, which: Share, j: int, c: int, m: nat)
        ensures
            self.share(which, j, c, m) <= self.share(Share::Cover, j, c, m) <= m,
        decreases m,
    {
        if m > 0 {
            self.shares_are_bounded(which, j, c, (m - 1) as nat);
        }
    }

    fn solid_at(&self, i: usize, j: usize) -> (b: bool)
        requires
            self.sized(),
            i < self.n(),
        ensures
            b == self.solid(i as int, j as int),
    {
        self.ice[i] && self.top[i] as usize > j
    }

    fn beside_solid(&self, i: usize, j: usize) -> (b: bool)
        requires
            self.sized(),
            i < self.n(),
        ensures
            b == exists|k: int| 0 <= k < 6 && #[trigger] self.solid_beside(i as int, j as int, k),
    {
        let n: usize = self.ice.len();
        proof {
            assert(self.stack.layer_ok(0));
        }
        let w: usize = self.stack.layers[0].w;
        let mut k: usize = 0;
        while k < 6
            invariant
                self.sized(),
                i < n,
                n == self.n(),
                w == self.w(),
                k <= 6,
                forall|m: int| 0 <= m < k ==> !#[trigger] self.solid_beside(i as int, j as int, m),
            decreases 6 - k,
        {
            match lattice::neighbour(n, w, i, k) {
                Some(b) => {
                    if self.solid_at(b, j) {
                        assert(self.solid_beside(i as int, j as int, k as int));
                        return true;
                    }
                },
                None => {},
            }
            k = k + 1;
        }
        false
    }

    /// Index, within layer `j`, of the cell nearest to lattice entry `i`.
    pub fn coarse_cell(&self, i: usize, j: usize) -> (c: usize)
        requires
            self.sized(),
            i < self.n(),
            self.far(i as int) <= self.radius(),
            j < self.stack.layers@.len(),
        ensures
            c == self.gatherer(i as int, j as int),
            c < self.stack.layers@[j as int].n,
    {
        let l: Layer = self.stack.layers[j];
        let at: (i32, i32) = lattice::cell_at_index(self.stack.radius, i);
        let near: (i32, i32) = self.stack.nearest(j, at.0, at.1);
        self.stack.index(j, near.0, near.1) - l.off
    }

    /// Index, within layer `j`, of the coarse cell that counts lattice entry `i`
    /// as ice, and so averages over its height; none where the entry is not.
    pub fn ice_gatherer(&self, i: usize, j: usize) -> (c: Option<usize>)
        requires
            self.sized(),
            i < self.n(),
            j < self.stack.layers@.len(),
        ensures
            c is Some <==> self.counts(Share::Ice, i as int, j as int),
            c matches Some(c) ==> c == self.gatherer(i as int, j as int) && c
                < self.stack.layers@[j as int].n,
    {
        let at: (i32, i32) = lattice::cell_at_index(self.stack.radius, i);
        if hex::hex_distance(at.0, at.1) < self.stack.radius && self.solid_at(i, j) {
            Some(self.coarse_cell(i, j))
        } else {
            None
        }
    }

    fn gather_layer(&self, j: usize) -> (table: Coarse)
        requires
            self.sized(),
            j < self.stack.layers@.len(),
        ensures
            table.sized(self.stack.layers@[j as int].n as int),
            self.gathered(table, j as int, self.n() as nat),
    {
        let cells: usize = self.stack.layers[j].n;
        let n: usize = self.ice.len();
        let big_r: i32 = self.stack.radius;
        let mut cover: Vec<usize> = vec![0; cells];
        let mut ice: Vec<usize> = vec![0; cells];
        let mut edges: Vec<usize> = vec![0; cells];
        let mut narrow: Vec<usize> = vec![0; cells];
        let mut wide: Vec<usize> = vec![0; cells];
        let mut i: usize = 0;
        while i < n
            invariant
                self.sized(),
                j < self.stack.layers@.len(),
                cells == self.stack.layers@[j as int].n,
                n == self.n(),
                big_r == self.radius(),
                i <= n,
                cover@.len() == cells,
                ice@.len() == cells,
                edges@.len() == cells,
                narrow@.len() == cells,
                wide@.len() == cells,
                forall|c: int|
                    0 <= c < cells ==> #[trigger] cover@[c] == self.share(
                        Share::Cover,
                        j as int,
                        c,
                        i as nat,
                    ),
                forall|c: int|
                    0 <= c < cells ==> #[trigger] ice@[c] == self.share(
                        Share::Ice,
                        j as int,
                        c,
                        i as nat,
                    ),
                forall|c: int|
                    0 <= c < cells ==> #[trigger] edges@[c] == self.share(
                        Share::Edges,
                        j as int,
                        c,
                        i as nat,
                    ),
                forall|c: int|
                    0 <= c < cells ==> #[trigger] narrow@[c] == self.share(
                        Share::Narrow,
                        j as int,
                        c,
                        i as nat,
                    ),
                forall|c: int|
                    0 <= c < cells ==> #[trigger] wide@[c] == self.share(
                        Share::Wide,
                        j as int,
                        c,
                        i as nat,
                    ),
            decreases n - i,
        {
            let at: (i32, i32) = lattice::cell_at_index(big_r, i);
            if hex::hex_distance(at.0, at.1) < big_r {
                let c: usize = self.coarse_cell(i, j);
                proof {
                    self.shares_are_bounded(Share::Ice, j as int, c as int, i as nat);
                    self.shares_are_bounded(Share::Edges, j as int, c as int, i as nat);
                    self.shares_are_bounded(Share::Narrow, j as int, c as int, i as nat);
                    self.shares_are_bounded(Share::Wide, j as int, c as int, i as nat);
                }
                cover[c] = cover[c] + 1;
                if self.solid_at(i, j) {
                    ice[c] = ice[c] + 1;
                } else {
                    if self.ice[i] && self.top[i] as usize == j {
                        if self.rim[i] <= 1 {
                            narrow[c] = narrow[c] + 1;
                        } else {
                            wide[c] = wide[c] + 1;
                        }
                    }
                    if self.beside_solid(i, j) {
                        edges[c] = edges[c] + 1;
                    }
                }
            }
            i = i + 1;
        }
        Coarse { cover, ice, edges, narrow, wide }
    }

    /// Restrict the height map to the coarse layers: per coarse cell, how many
    /// of its lattice cells are ice at that layer, how many are vapour beside
    /// ice there (the cell's sub-grid sink), and how many end there in a basal
    /// face (on narrow terraces next to the rim, and on wide ones).
    pub fn refresh_coarse(&mut self)
        requires
            old(self).wf(),
        ensures
            final(self).wf(),
            final(self).same_crystal(*old(self)),
            final(self).attach@ == old(self).attach@,
            final(self).rim@ == old(self).rim@,
            final(self).step == old(self).step,
            final(self).sweeps == old(self).sweeps,
            final(self).restricted(),
    {
        let ghost before = *self;
        let mut j: usize = 0;
        while j < self.stack.layers.len()
            invariant
                before.wf(),
                self.sized(),
                self.same_crystal(before),
                self.attach@ == before.attach@,
                self.rim@ == before.rim@,
                self.step == before.step,
                self.sweeps == before.sweeps,
                j <= self.stack.layers@.len(),
                forall|k: int|
                    0 <= k < j && self.stack.layers@[k].s > 1 ==> before.gathered(
                        #[trigger] self.coarse@[k],
                        k,
                        before.n() as nat,
                    ),
            decreases self.stack.layers@.len() - j,
        {
            if self.stack.layers[j].s > 1 {
                let table: Coarse = self.gather_layer(j);
                proof {
                    same_gathering(*self, before, table, j as int);
                }
                self.coarse[j] = table;
            }
            j = j + 1;
        }
        proof {
            assert forall|k: int|
                0 <= k < self.stack.layers@.len() && self.stack.layers@[k].s > 1 implies self.gathered(
                #[trigger] self.coarse@[k],
                k,
                self.n() as nat,
            ) by {
                same_gathering(before, *self, self.coarse@[k], k);
            }
        }
    }
}

impl Automaton {
    /// Sum of a share over the first `cells` coarse cells of layer `j`, of the
    /// first `m` entries.
    pub open spec fn total_share(self, which: Share, j: int, cells: nat, m: nat) -> nat
        decreases cells,
    {
        if cells == 0 {
            0
        } else {
            self.total_share(which, j, (cells - 1) as nat, m) + self.share(which, j, cells - 1, m)
        }
    }

    /// How many of the first `m` entries count towards a share at layer `j`.
    pub open spec fn counted_entries(self, which: Share, j: int, m: nat) -> nat
        decreases m,
    {
        if m == 0 {
            0
        } else {
            self.counted_entries(which, j, (m - 1) as nat) + if self.counts(which, m - 1, j) {
                1nat
            } else {
                0
            }
        }
    }

    proof fn one_entry_is_gathered_once(self, which: Share, j: int, cells: nat, m: nat)
        requires
            m > 0,
        ensures
            self.total_share(which, j, cells, m) == self.total_share(which, j, cells, (m - 1) as nat)
                + if self.counts(which, m - 1, j) && 0 <= self.gatherer(m - 1, j) < cells {
                1nat
            } else {
                0
            },
        decreases cells,
    {
        if cells > 0 {
            self.one_entry_is_gathered_once(which, j, (cells - 1) as nat, m);
        }
    }

    /// Restriction loses nothing and counts nothing twice: over the cells of a
    /// layer, a share adds up to the lattice cells that count towards it.
    pub proof fn restriction_conserves_shares(self, which: Share, j: int, m: nat)
        requires
            self.sized(),
            0 <= j < self.stack.layers@.len(),
            m <= self.n(),
        ensures
            self.total_share(which, j, self.stack.layers@[j].n as nat, m) == self.counted_entries(
                which,
                j,
                m,
            ),
        decreases m,
    {
        let cells = self.stack.layers@[j].n as nat;
        if m == 0 {
            self.nothing_is_gathered(which, j, cells);
        } else {
            self.restriction_conserves_shares(which, j, (m - 1) as nat);
            self.one_entry_is_gathered_once(which, j, cells, m);
            if self.counts(which, m - 1, j) {
                let l = self.stack.layers@[j];
                let c = self.cell(m - 1);
                assert(self.stack.layer_ok(j));
                layers::nearest_cell_is_on_its_layer(self.radius(), l.s as int, c.0, c.1);
                let near = layers::nearest_cell(l.s as int, c.0, c.1);
                lattice::flat_is_inverted(l.radius as int, near.0, near.1);
            }
        }
    }

    proof fn nothing_is_gathered(self, which: Share, j: int, cells: nat)
        ensures
            self.total_share(which, j, cells, 0) == 0,
        decreases cells,
    {
        if cells > 0 {
            self.nothing_is_gathered(which, j, (cells - 1) as nat);
        }
    }
}

proof fn same_share(a: Automaton, b: Automaton, which: Share, j: int, c: int, m: nat)
    requires
        a.stack == b.stack,
        a.ice@ == b.ice@,
        a.top@ == b.top@,
        a.rim@ == b.rim@,
    ensures
        a.share(which, j, c, m) == b.share(which, j, c, m),
    decreases m,
{
    if m > 0 {
        same_share(a, b, which, j, c, (m - 1) as nat);
        assert(a.counts(which, m - 1, j) == b.counts(which, m - 1, j)) by {
            if exists|k: int| 0 <= k < 6 && #[trigger] a.solid_beside(m - 1, j, k) {
                let k = choose|k: int| 0 <= k < 6 && #[trigger] a.solid_beside(m - 1, j, k);
                assert(b.solid_beside(m - 1, j, k));
            }
            if exists|k: int| 0 <= k < 6 && #[trigger] b.solid_beside(m - 1, j, k) {
                let k = choose|k: int| 0 <= k < 6 && #[trigger] b.solid_beside(m - 1, j, k);
                assert(a.solid_beside(m - 1, j, k));
            }
        }
    }
}

proof fn same_gathering(a: Automaton, b: Automaton, table: Coarse, j: int)
    requires
        a.stack == b.stack,
        a.ice@ == b.ice@,
        a.top@ == b.top@,
        a.rim@ == b.rim@,
        a.gathered(table, j, a.n() as nat),
    ensures
        b.gathered(table, j, b.n() as nat),
{
    assert forall|c: int|
        #![trigger table.cover@[c]]
        #![trigger table.ice@[c]]
        #![trigger table.edges@[c]]
        #![trigger table.narrow@[c]]
        #![trigger table.wide@[c]]
        0 <= c < b.stack.layers@[j].n implies {
        &&& table.cover@[c] == b.share(Share::Cover, j, c, b.n() as nat)
        &&& table.ice@[c] == b.share(Share::Ice, j, c, b.n() as nat)
        &&& table.edges@[c] == b.share(Share::Edges, j, c, b.n() as nat)
        &&& table.narrow@[c] == b.share(Share::Narrow, j, c, b.n() as nat)
        &&& table.wide@[c] == b.share(Share::Wide, j, c, b.n() as nat)
    } by {
        same_share(a, b, Share::Cover, j, c, a.n() as nat);
        same_share(a, b, Share::Ice, j, c, a.n() as nat);
        same_share(a, b, Share::Edges, j, c, a.n() as nat);
        same_share(a, b, Share::Narrow, j, c, a.n() as nat);
        same_share(a, b, Share::Wide, j, c, a.n() as nat);
    }
}

} // verus!
