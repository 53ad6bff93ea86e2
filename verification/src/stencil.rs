//! What the flux balance of a field cell reads: the neighbouring cells that
//! vapour can reach it from, on its own layer and the layers above and below,
//! and the ice faces it feeds.
//!
//! Field cells are addressed by layer and the layer's own coordinates.  The
//! stencil of a cell says where values come from; what they are worth is
//! physics.

use crate::automaton::Automaton;
use crate::hex;
use crate::lattice;
use crate::layers;
use crate::layers::{Layer, LayerStack};
use crate::number;
use vstd::prelude::*;

verus! {

/// Where one term of a flux balance comes from.
#[derive(Clone, Copy, PartialEq, Eq, Structural, Debug)]
pub enum Feed {
    /// Ice: no vapour passes.
    Closed,
    /// The field cell with this index.
    Cell(usize),
    /// Past the edge of its lattice: the far field at these coordinates of
    /// the layer that the term belongs to.
    Far(i32, i32),
}

/// What lies above a field cell.
#[derive(Clone, Copy, PartialEq, Eq, Structural, Debug)]
pub enum Above {
    /// The top boundary.
    Boundary,
    /// The cell of the next layer, at the same spacing.
    Same(usize),
    /// The two cells of the next layer, twice as coarse, that it straddles
    /// (one cell twice where that one is centred on it); half a share each.
    Pair(Feed, Feed),
}

/// What lies below a field cell.
#[derive(Clone, Copy, PartialEq, Eq, Structural, Debug)]
pub enum Below {
    /// The mirror plane.
    Mirror,
    /// The cell of the previous layer, at the same spacing.
    Same(Feed),
    /// Seven cells of the previous layer, half as coarse: the one under its
    /// centre with a whole share, and its six neighbours with half a share.
    Finer,
}

/// What lies beside a field cell in one direction.
#[derive(Clone, Copy, PartialEq, Eq, Structural, Debug)]
pub struct Beside {
    /// The neighbouring cell, unless ice cuts the link.
    pub link: Option<usize>,
    /// Whether an ice edge shows a face towards the cell.
    pub face: bool,
}

/// Offset of the m-th of the seven finer cells under a coarse cell.
pub open spec fn finer_offset(m: int) -> hex::Cell {
    if m == 0 {
        (0, 0)
    } else {
        hex::direction(m - 1)
    }
}

/// The two cells, at twice the spacing, that cell (q, r) straddles.
pub open spec fn straddled(q: int, r: int) -> (hex::Cell, hex::Cell) {
    if q % 2 == 0 && r % 2 == 0 {
        ((q / 2, r / 2), (q / 2, r / 2))
    } else if q % 2 == 1 && r % 2 == 0 {
        (((q - 1) / 2, r / 2), ((q + 1) / 2, r / 2))
    } else if q % 2 == 0 {
        ((q / 2, (r - 1) / 2), (q / 2, (r + 1) / 2))
    } else {
        (((q + 1) / 2, (r - 1) / 2), ((q - 1) / 2, (r + 1) / 2))
    }
}

/// Share, in halves, that a fine cell gives the coarse cell `c` above it.
pub open spec fn share_up(fine: hex::Cell, c: hex::Cell) -> int {
    let (a, b) = straddled(fine.0, fine.1);
    (if a == c {
        1int
    } else {
        0
    }) + (if b == c {
        1int
    } else {
        0
    })
}

/// Share, in halves, that coarse cell `c` gives the m-th finer cell below.
pub open spec fn share_down(m: int) -> int {
    if m == 0 {
        2
    } else {
        1
    }
}

/// The coupling of a coarse layer to the finer one below it is the same seen
/// from either side: a fine cell passes a coarse cell the share that the
/// coarse cell passes it, and cells that are not among its seven pass none.
pub proof fn vertical_coupling_is_symmetric(c: hex::Cell, fine: hex::Cell)
    ensures
        forall|m: int|
            0 <= m < 7 && (2 * c.0 + (#[trigger] finer_offset(m)).0, 2 * c.1 + finer_offset(m).1)
                == fine ==> share_up(fine, c) == share_down(m),
        (forall|m: int|
            0 <= m < 7 ==> (2 * c.0 + (#[trigger] finer_offset(m)).0, 2 * c.1 + finer_offset(m).1)
                != fine) ==> share_up(fine, c) == 0,
{
    let (a, b) = straddled(fine.0, fine.1);
    if a == c || b == c {
        assert(finer_offset(0) == (0int, 0int));
        assert(finer_offset(1) == (1int, 0int));
        assert(finer_offset(2) == (-1int, 0int));
        assert(finer_offset(3) == (0int, 1int));
        assert(finer_offset(4) == (0int, -1int));
        assert(finer_offset(5) == (1int, -1int));
        assert(finer_offset(6) == (-1int, 1int));
    }
}

/// Every fine cell passes on one whole share, and every coarse cell gathers
/// four.
pub proof fn vertical_shares_add_up(fine: hex::Cell)
    ensures
        ({
            let (a, b) = straddled(fine.0, fine.1);
            if a == b {
                share_up(fine, a) == 2
            } else {
                share_up(fine, a) + share_up(fine, b) == 2
            }
        }),
        share_down(0) + share_down(1) + share_down(2) + share_down(3) + share_down(4) + share_down(
            5,
        ) + share_down(6) == 8,
{
}

impl LayerStack {
    /// Whether cell (q, r) of layer `j` has a whole ring of neighbours.
    pub open spec fn interior(self, j: int, q: int, r: int) -> bool {
        &&& 0 <= j < self.layers@.len()
        &&& hex::dist(q, r) < self.layers@[j].radius
    }
}

impl Automaton {
    /// Whether the cell at index `c` of layer `j` is ice: on a layer at the
    /// lattice's spacing, where the crystal fills the layer; on a coarse one,
    /// where 999 thousandths of its lattice cells are ice.
    pub open spec fn frozen(self, j: int, c: int) -> bool {
        if self.stack.layers@[j].s == 1 {
            self.ice@[c] && self.top@[c] > j
        } else {
            let table = self.coarse@[j];
            table.cover@[c] > 0 && 1000 * table.ice@[c] >= 999 * table.cover@[c]
        }
    }

    /// The term of cell (q, r) of layer `j`, with ice left open.
    pub open spec fn source(self, j: int, q: int, r: int) -> Feed {
        if hex::dist(q, r) <= self.stack.layers@[j].radius {
            Feed::Cell(self.stack.field_index(j, q, r) as usize)
        } else {
            Feed::Far(q as i32, r as i32)
        }
    }

    /// The term of cell (q, r) of layer `j`, closed where it is ice.
    pub open spec fn vapour_source(self, j: int, q: int, r: int) -> Feed {
        let l = self.stack.layers@[j];
        if hex::dist(q, r) <= l.radius && self.frozen(j, lattice::flat(l.radius as int, q, r)) {
            Feed::Closed
        } else {
            self.source(j, q, r)
        }
    }

    /// What lies above cell (q, r) of layer `j`.
    pub open spec fn above_of(self, j: int, q: int, r: int) -> Above {
        if j + 1 >= self.stack.layers@.len() {
            Above::Boundary
        } else if self.stack.layers@[j + 1].s == self.stack.layers@[j].s {
            Above::Same(self.stack.field_index(j + 1, q, r) as usize)
        } else {
            let (a, b) = straddled(q, r);
            Above::Pair(self.source(j + 1, a.0, a.1), self.source(j + 1, b.0, b.1))
        }
    }

    /// What lies below cell (q, r) of layer `j`.
    pub open spec fn below_of(self, j: int, q: int, r: int) -> Below {
        if j == 0 {
            Below::Mirror
        } else if self.stack.layers@[j - 1].s == self.stack.layers@[j].s {
            Below::Same(self.vapour_source(j - 1, q, r))
        } else {
            Below::Finer
        }
    }

    /// The height that an edge must pass to show a face to the cell at index
    /// `c` of layer `j`: twice the layer's bottom, or the height of the
    /// cell's own ice if that is more.
    pub open spec fn face_from(self, j: int, c: int) -> int {
        let bottom = 2 * self.stack.layers@[j].z * number::single_unit();
        if self.ice@[c] {
            hex::max(bottom, number::single(self.h@[c]))
        } else {
            bottom
        }
    }

    /// What lies beside cell (q, r) of layer `j` in direction `k`.  On layers
    /// at the lattice's spacing a crystal neighbour whose edge rises into the
    /// layer shows a face, and cuts the link where it fills the layer.
    pub open spec fn beside_of(self, j: int, q: int, r: int, k: int) -> Beside {
        let l = self.stack.layers@[j];
        let d = hex::direction(k);
        let c = lattice::flat(l.radius as int, q, r);
        let b = lattice::flat(l.radius as int, q + d.0, r + d.1);
        Beside {
            link: if self.frozen(j, b) {
                None
            } else {
                Some((l.off + b) as usize)
            },
            face: l.s == 1 && self.ice@[b] && number::single(self.h@[b]) > self.face_from(j, c),
        }
    }

    /// Field cells whose mean is the value seen by lattice cell (q, r) at
    /// layer `j`, among its first `k` directions: the vapour cells around the
    /// layer's nearest cell.
    pub open spec fn vapour_around(self, j: int, q: int, r: int, k: nat) -> Seq<usize>
        decreases k,
    {
        if k == 0 {
            Seq::empty()
        } else {
            let d = hex::direction(k - 1);
            let fed = self.vapour_source(j, q + d.0, r + d.1);
            match fed {
                Feed::Cell(i) => self.vapour_around(j, q, r, (k - 1) as nat).push(i),
                _ => self.vapour_around(j, q, r, (k - 1) as nat),
            }
        }
    }

    /// Field cells whose mean is the value that lattice cell (q, r) sees at
    /// layer `j`: the layer's nearest cell, or, on a coarse layer where that
    /// one is ice, the vapour cells around it, if any.
    pub open spec fn value_sources_of(self, j: int, q: int, r: int) -> Seq<usize> {
        let l = self.stack.layers@[j];
        let c = layers::nearest_cell(l.s as int, q, r);
        let own = seq![self.stack.field_index(j, c.0, c.1) as usize];
        let around = self.vapour_around(j, c.0, c.1, 6);
        if l.s == 1 || !self.frozen(j, lattice::flat(l.radius as int, c.0, c.1)) || around.len()
            == 0 {
            own
        } else {
            around
        }
    }

    /// Whether the cell at index `c` of layer `j` is ice.
    pub fn ice_at(&self, j: usize, c: usize) -> (b: bool)
        requires
            self.sized(),
            j < self.stack.layers@.len(),
            c < self.stack.layers@[j as int].n,
        ensures
            b == self.frozen(j as int, c as int),
    {
        proof {
            assert(self.stack.layer_ok(j as int));
        }
        if self.stack.layers[j].s == 1 {
            self.ice[c] && self.top[c] as usize > j
        } else {
            let cover: usize = self.coarse[j].cover[c];
            let ice: usize = self.coarse[j].ice[c];
            cover > 0 && 1000 * ice as u128 >= 999 * cover as u128
        }
    }

    fn source_at(&self, j: usize, q: i32, r: i32) -> (feed: Feed)
        requires
            self.sized(),
            j < self.stack.layers@.len(),
            hex::in_range(q as int, r as int),
        ensures
            feed == self.source(j as int, q as int, r as int),
    {
        if hex::hex_distance(q, r) <= self.stack.layers[j].radius {
            Feed::Cell(self.stack.index(j, q, r))
        } else {
            Feed::Far(q, r)
        }
    }

    fn vapour_source_at(&self, j: usize, q: i32, r: i32) -> (feed: Feed)
        requires
            self.sized(),
            j < self.stack.layers@.len(),
            hex::in_range(q as int, r as int),
        ensures
            feed == self.vapour_source(j as int, q as int, r as int),
    {
        if hex::hex_distance(q, r) <= self.stack.layers[j].radius {
            let at: usize = self.stack.index(j, q, r);
            if self.ice_at(j, at - self.stack.layers[j].off) {
                Feed::Closed
            } else {
                Feed::Cell(at)
            }
        } else {
            Feed::Far(q, r)
        }
    }

    /// What lies above cell (q, r) of layer `j`: the next layer at the same
    /// spacing, or twice as coarse, or the top boundary.
    pub fn above(&self, j: usize, q: i32, r: i32) -> (above: Above)
        requires
            self.sized(),
            self.stack.interior(j as int, q as int, r as int),
        ensures
            above == self.above_of(j as int, q as int, r as int),
    {
        if j + 1 >= self.stack.layers.len() {
            return Above::Boundary;
        }
        proof {
            assert(self.stack.layer_ok(j as int));
            assert(self.stack.layer_ok(j + 1));
            layers::layer_radius_is_small(self.radius(), self.stack.layers@[j as int].s as int);
        }
        if self.stack.layers[j + 1].s == self.stack.layers[j].s {
            return Above::Same(self.stack.index(j + 1, q, r));
        }
        let (a, b): ((i32, i32), (i32, i32)) = straddle(q, r);
        Above::Pair(self.source_at(j + 1, a.0, a.1), self.source_at(j + 1, b.0, b.1))
    }

    /// What lies below cell (q, r) of layer `j`: the previous layer at the
    /// same spacing, or half as coarse, or the mirror plane.
    pub fn below(&self, j: usize, q: i32, r: i32) -> (below: Below)
        requires
            self.sized(),
            self.stack.interior(j as int, q as int, r as int),
        ensures
            below == self.below_of(j as int, q as int, r as int),
    {
        if j == 0 {
            return Below::Mirror;
        }
        proof {
            assert(self.stack.layer_ok(j as int));
            layers::layer_radius_is_small(self.radius(), self.stack.layers@[j as int].s as int);
        }
        if self.stack.layers[j - 1].s == self.stack.layers[j].s {
            Below::Same(self.vapour_source_at(j - 1, q, r))
        } else {
            Below::Finer
        }
    }

    /// The m-th of the seven finer cells below cell (q, r) of layer `j`.
    pub fn finer(&self, j: usize, q: i32, r: i32, m: usize) -> (feed: Feed)
        requires
            self.sized(),
            self.stack.interior(j as int, q as int, r as int),
            j > 0,
            m < 7,
        ensures
            feed == self.vapour_source(
                j - 1,
                2 * q + finer_offset(m as int).0,
                2 * r + finer_offset(m as int).1,
            ),
    {
        proof {
            assert(self.stack.layer_ok(j as int));
            layers::layer_radius_is_small(self.radius(), self.stack.layers@[j as int].s as int);
        }
        let d: (i32, i32) = if m == 0 {
            (0, 0)
        } else {
            hex::directions()[m - 1]
        };
        self.vapour_source_at(j - 1, 2 * q + d.0, 2 * r + d.1)
    }

    /// What lies beside cell (q, r) of layer `j` in direction `k`.
    pub fn beside(&self, j: usize, q: i32, r: i32, k: usize) -> (beside: Beside)
        requires
            self.sized(),
            self.stack.interior(j as int, q as int, r as int),
            k < 6,
        ensures
            beside == self.beside_of(j as int, q as int, r as int, k as int),
    {
        let l: Layer = self.stack.layers[j];
        let d: (i32, i32) = hex::directions()[k];
        proof {
            assert(self.stack.layer_ok(j as int));
            layers::layer_radius_is_small(self.radius(), l.s as int);
            lattice::inner_cells_have_all_neighbours(
                l.radius as int,
                q as int,
                r as int,
                k as int,
            );
            lattice::flat_is_inverted(l.radius as int, q as int, r as int);
            lattice::flat_is_inverted(l.radius as int, q + d.0, r + d.1);
        }
        let at: usize = self.stack.index(j, q + d.0, r + d.1);
        let b: usize = at - l.off;
        let link: Option<usize> = if self.ice_at(j, b) {
            None
        } else {
            Some(at)
        };
        let face: bool = if l.s == 1 && self.ice[b] {
            let c: usize = lattice::flat_index(l.radius, q, r);
            let bottom: u32 = number::whole((2 * l.z) as u32);
            proof {
                number::singles_are_ordered(bottom, self.h@[b as int]);
                number::singles_are_ordered(self.h@[c as int], self.h@[b as int]);
            }
            self.h[b] > bottom && (!self.ice[c] || self.h[b] > self.h[c])
        } else {
            false
        };
        Beside { link, face }
    }

    /// Field cells whose mean is the value that lattice cell (q, r) sees at
    /// layer `j`.
    pub fn value_sources(&self, j: usize, q: i32, r: i32) -> (cells: Vec<usize>)
        requires
            self.sized(),
            j < self.stack.layers@.len(),
            hex::dist(q as int, r as int) <= self.radius(),
        ensures
            cells@ == self.value_sources_of(j as int, q as int, r as int),
            cells@.len() >= 1,
    {
        let l: Layer = self.stack.layers[j];
        proof {
            assert(self.stack.layer_ok(j as int));
            layers::layer_radius_is_small(self.radius(), l.s as int);
        }
        let c: (i32, i32) = self.stack.nearest(j, q, r);
        let own: usize = self.stack.index(j, c.0, c.1);
        if l.s > 1 && self.ice_at(j, own - l.off) {
            let mut around: Vec<usize> = Vec::new();
            let ds: [(i32, i32); 6] = hex::directions();
            let mut k: usize = 0;
            while k < 6
                invariant
                    self.sized(),
                    j < self.stack.layers@.len(),
                    hex::dist(c.0 as int, c.1 as int) <= lattice::MAX_RADIUS,
                    k <= 6,
                    forall|m: int|
                        0 <= m < 6 ==> (#[trigger] ds[m]).0 == hex::direction(m).0 && ds[m].1
                            == hex::direction(m).1,
                    around@ == self.vapour_around(j as int, c.0 as int, c.1 as int, k as nat),
                decreases 6 - k,
            {
                let d: (i32, i32) = ds[k];
                match self.vapour_source_at(j, c.0 + d.0, c.1 + d.1) {
                    Feed::Cell(i) => {
                        around.push(i);
                    },
                    _ => {},
                }
                k = k + 1;
            }
            if around.len() > 0 {
                return around;
            }
        }
        let mut cells: Vec<usize> = Vec::new();
        cells.push(own);
        cells
    }

    /// Whether a basal face tops the ice under cell `i` of layer `j`.
    pub open spec fn topped_at(self, j: int, i: int) -> bool {
        j > 0 && self.ice@[i] && self.top@[i] == j
    }

    /// A basal face lies where ice ends: at the layer that the crystal does not fill
    /// while it fills the one below; so every crystal cell has exactly one, and
    /// vapour cells have none.
    pub proof fn basal_faces_lie_where_ice_ends(self, j: int, l: int, i: int)
        requires
            self.wf(),
            0 <= i < self.n(),
            j >= 0,
            l >= 0,
        ensures
            self.topped_at(j, i) <==> j > 0 && self.solid(i, j - 1) && !self.solid(i, j),
            self.topped_at(j, i) && self.topped_at(l, i) ==> j == l,
            self.ice@[i] ==> self.topped_at(self.top@[i] as int, i),
            !self.ice@[i] ==> !self.topped_at(j, i),
    {
        if self.ice@[i] {
            assert(self.stack.fills(self.h@[i], self.top@[i] as int));
        }
    }

    /// Whether a basal face tops the ice under cell `i` of layer `j` (a layer
    /// at the lattice's spacing): its ice ends there.
    pub fn basal_face(&self, j: usize, i: usize) -> (b: bool)
        requires
            self.sized(),
            i < self.n(),
        ensures
            b == (j > 0 && self.ice@[i as int] && self.top@[i as int] == j),
            b == self.topped_at(j as int, i as int),
    {
        j > 0 && self.ice[i] && self.top[i] as usize == j
    }
}

impl Automaton {
    /// Links within a layer are mutual: of two neighbouring vapour cells, each
    /// is linked to the other.
    pub proof fn lateral_links_are_mutual(self, j: int, q: int, r: int, k: int)
        requires
            self.sized(),
            self.stack.interior(j, q, r),
            0 <= k < 6,
            self.stack.interior(j, q + hex::direction(k).0, r + hex::direction(k).1),
            !self.frozen(j, lattice::flat(self.stack.layers@[j].radius as int, q, r)),
        ensures
            exists|l: int|
                0 <= l < 6 && (#[trigger] self.beside_of(
                    j,
                    q + hex::direction(k).0,
                    r + hex::direction(k).1,
                    l,
                )).link == Some(self.stack.field_index(j, q, r) as usize),
    {
        let d = hex::direction(k);
        let l: int = if k % 2 == 0 {
            k + 1
        } else {
            k - 1
        };
        let e = hex::direction(l);
        assert(d.0 + e.0 == 0 && d.1 + e.1 == 0);
        assert(self.beside_of(j, q + d.0, r + d.1, l).link == Some(
            self.stack.field_index(j, q, r) as usize,
        ));
    }
}

impl Automaton {
    /// Vertical links between layers of equal spacing are mutual and complete: a
    /// cell reads the one over it, at the same coordinates of the next layer, and
    /// that one reads it back unless it is ice.
    pub proof fn vertical_links_are_mutual(self, j: int, q: int, r: int)
        requires
            self.sized(),
            self.stack.interior(j, q, r),
            j + 1 < self.stack.layers@.len(),
            self.stack.layers@[j + 1].s == self.stack.layers@[j].s,
        ensures
            self.stack.interior(j + 1, q, r),
            ({
                let (l, up) = (self.stack.layers@[j], self.stack.layers@[j + 1]);
                let (c, over) = (
                    lattice::flat(l.radius as int, q, r),
                    lattice::flat(up.radius as int, q, r),
                );
                &&& self.above_of(j, q, r) == Above::Same((up.off + over) as usize)
                &&& self.below_of(j + 1, q, r) == Below::Same(
                    if self.frozen(j, c) {
                        Feed::Closed
                    } else {
                        Feed::Cell((l.off + c) as usize)
                    },
                )
            }),
    {
        assert(self.stack.layer_ok(j));
        assert(self.stack.layer_ok(j + 1));
    }

    /// The far boundary is read from the last layer only, and the mirror plane
    /// bounds the first layer only; between layers, a cell reads one cell above
    /// it where the spacing stays and a pair where it doubles, and the other way
    /// round below it.
    pub proof fn stacks_are_bounded_at_their_ends_only(self, j: int, q: int, r: int)
        requires
            self.sized(),
            self.stack.interior(j, q, r),
        ensures
            self.above_of(j, q, r) is Boundary <==> j == self.stack.layers@.len() - 1,
            self.below_of(j, q, r) is Mirror <==> j == 0,
            j + 1 < self.stack.layers@.len() ==> (self.above_of(j, q, r) is Same
                <==> self.below_of(j + 1, q, r) is Same) && (self.above_of(j, q, r) is Pair
                <==> self.stack.layers@[j + 1].s == 2 * self.stack.layers@[j].s) && (
            self.below_of(j + 1, q, r) is Finer <==> self.stack.layers@[j + 1].s == 2
                * self.stack.layers@[j].s),
    {
        assert(self.stack.layer_ok(j));
        if j + 1 < self.stack.layers@.len() {
            assert(self.stack.layer_ok(j + 1));
        }
    }

    /// The coarse layer above is linked to mutually too: each of the two coarse
    /// cells that a vapour cell reads, if it has a whole ring of neighbours,
    /// reads the cell back among the seven below it.
    pub proof fn coarse_links_are_mutual(self, j: int, q: int, r: int, c: hex::Cell)
        requires
            self.sized(),
            self.stack.interior(j, q, r),
            j + 1 < self.stack.layers@.len(),
            self.stack.layers@[j + 1].s == 2 * self.stack.layers@[j].s,
            !self.frozen(j, lattice::flat(self.stack.layers@[j].radius as int, q, r)),
            c == straddled(q, r).0 || c == straddled(q, r).1,
            self.stack.interior(j + 1, c.0, c.1),
        ensures
            ({
                let over = Feed::Cell(self.stack.field_index(j + 1, c.0, c.1) as usize);
                &&& self.above_of(j, q, r) matches Above::Pair(x, y) && (x == over || y == over)
                &&& self.below_of(j + 1, c.0, c.1) is Finer
            }),
            exists|m: int|
                0 <= m < 7 && self.vapour_source(
                    j,
                    2 * c.0 + (#[trigger] finer_offset(m)).0,
                    2 * c.1 + finer_offset(m).1,
                ) == Feed::Cell(self.stack.field_index(j, q, r) as usize),
    {
        assert(self.stack.layer_ok(j));
        assert(self.stack.layer_ok(j + 1));
        straddled_cells_lie_to_either_side(q, r);
        finer_cells_are_those_within_a_step((q - 2 * c.0, r - 2 * c.1));
        let m = choose|m: int|
            0 <= m < 7 && #[trigger] finer_offset(m) == (q - 2 * c.0, r - 2 * c.1);
        assert(self.vapour_source(
            j,
            2 * c.0 + finer_offset(m).0,
            2 * c.1 + finer_offset(m).1,
        ) == Feed::Cell(self.stack.field_index(j, q, r) as usize));
    }

    /// A term names a cell of its layer exactly where the layer's lattice holds
    /// the coordinates, different coordinates name different cells, and ice is
    /// closed.
    pub proof fn terms_name_cells_of_their_layer(self, j: int, a: hex::Cell, b: hex::Cell)
        requires
            self.sized(),
            0 <= j < self.stack.layers@.len(),
            hex::in_range(a.0, a.1),
            hex::in_range(b.0, b.1),
        ensures
            ({
                let l = self.stack.layers@[j];
                let held = hex::dist(a.0, a.1) <= l.radius;
                let c = lattice::flat(l.radius as int, a.0, a.1);
                &&& self.source(j, a.0, a.1) is Cell <==> held
                &&& self.source(j, a.0, a.1) matches Feed::Cell(i) ==> l.off <= i < l.off + l.n
                    && lattice::cell_of(l.radius as int, i - l.off) == a
                &&& self.source(j, a.0, a.1) matches Feed::Far(x, y) ==> (x as int, y as int) == a
                &&& !(self.source(j, a.0, a.1) is Closed)
                &&& self.vapour_source(j, a.0, a.1) is Closed <==> held && self.frozen(j, c)
                &&& !(self.vapour_source(j, a.0, a.1) is Closed) ==> self.vapour_source(
                    j,
                    a.0,
                    a.1,
                ) == self.source(j, a.0, a.1)
            }),
            self.source(j, a.0, a.1) == self.source(j, b.0, b.1) ==> a == b,
    {
        let l = self.stack.layers@[j];
        assert(self.stack.layer_ok(j));
        if hex::dist(a.0, a.1) <= l.radius {
            lattice::flat_is_inverted(l.radius as int, a.0, a.1);
        }
        if hex::dist(b.0, b.1) <= l.radius {
            lattice::flat_is_inverted(l.radius as int, b.0, b.1);
        }
    }

    /// Beside a cell, ice closes the link and vapour opens it to the neighbouring
    /// cell.  A face shows only on ice, at the lattice's spacing; towards a
    /// vapour cell wherever the ice rises above the layer's bottom, and towards
    /// an ice cell only where it is the taller of the two, so two cells never
    /// show a face to each other.
    pub proof fn faces_show_on_taller_ice(self, j: int, q: int, r: int, k: int)
        requires
            self.sized(),
            self.stack.interior(j, q, r),
            0 <= k < 6,
        ensures
            ({
                let l = self.stack.layers@[j];
                let d = hex::direction(k);
                let c = lattice::flat(l.radius as int, q, r);
                let b = lattice::flat(l.radius as int, q + d.0, r + d.1);
                let beside = self.beside_of(j, q, r, k);
                let rises = number::single(self.h@[b]) > 2 * l.z * number::single_unit();
                &&& beside.link is None <==> self.frozen(j, b)
                &&& beside.link matches Some(i) ==> l.off <= i < l.off + l.n && lattice::cell_of(
                    l.radius as int,
                    i - l.off,
                ) == (q + d.0, r + d.1)
                &&& beside.face ==> l.s == 1 && self.ice@[b] && rises
                &&& l.s == 1 && self.ice@[b] && rises && !self.ice@[c] ==> beside.face
                &&& l.s == 1 && self.ice@[c] && self.ice@[b] ==> (beside.face <==> rises
                    && self.h@[b] > self.h@[c])
                &&& forall|m: int|
                    0 <= m < 6 && hex::direction(m) == (-d.0, -d.1) && beside.face && self.ice@[c]
                        ==> !(#[trigger] self.beside_of(j, q + d.0, r + d.1, m)).face
            }),
    {
        let l = self.stack.layers@[j];
        let d = hex::direction(k);
        let c = lattice::flat(l.radius as int, q, r);
        let b = lattice::flat(l.radius as int, q + d.0, r + d.1);
        assert(self.stack.layer_ok(j));
        lattice::inner_cells_have_all_neighbours(l.radius as int, q, r, k);
        lattice::flat_is_inverted(l.radius as int, q, r);
        lattice::flat_is_inverted(l.radius as int, q + d.0, r + d.1);
        number::singles_are_ordered(self.h@[c], self.h@[b]);
    }

    /// A cell that is ice on a layer at the lattice's spacing is ice on the ones
    /// below; a coarse cell is ice where all that it gathers is, is not where
    /// none of it is, nor where a hundredth of it is vapour, and does not thaw by
    /// gathering more ice.
    pub proof fn ice_fills_from_below(self, other: Automaton, j: int, c: int)
        requires
            self.sized(),
            0 <= j < self.stack.layers@.len(),
            0 <= c < self.stack.layers@[j].n,
            self.stack.layers@[j].s > 1 ==> self.coarse@[j].ice@[c] <= self.coarse@[j].cover@[c],
            other.sized(),
            other.stack == self.stack,
            self.stack.layers@[j].s > 1 ==> other.coarse@[j].cover@[c] == self.coarse@[j].cover@[c]
                && other.coarse@[j].ice@[c] >= self.coarse@[j].ice@[c],
        ensures
            self.stack.layers@[j].s == 1 ==> (self.frozen(j, c) ==> self.ice@[c]) && (forall|i: int|
                0 <= i < j && self.stack.layers@[i].s == 1 && self.frozen(j, c)
                    ==> #[trigger] self.frozen(i, c)) && (j == 0 && self.ice@[c] && self.topped()
                ==> self.frozen(j, c)),
            self.stack.layers@[j].s > 1 ==> {
                let (all, ice) = (self.coarse@[j].cover@[c], self.coarse@[j].ice@[c]);
                &&& all > 0 && ice == all ==> self.frozen(j, c)
                &&& ice == 0 ==> !self.frozen(j, c)
                &&& 100 * ice <= 99 * all ==> !self.frozen(j, c)
                &&& 1000 * ice >= 999 * all && all > 0 ==> self.frozen(j, c)
                &&& self.frozen(j, c) ==> other.frozen(j, c)
            },
    {
        assert(self.stack.layer_ok(j));
        if self.stack.layers@[j].s == 1 && j == 0 && self.ice@[c] && self.topped() {
            assert(self.stack.fills(self.h@[c], self.top@[c] as int));
        }
    }

    /// What a lattice cell sees at a layer comes from the layer's nearest cell,
    /// or else from vapour cells around that one, and then from all of them; on a
    /// layer at the lattice's spacing, or where the nearest cell is vapour, from that
    /// cell alone.
    pub proof fn values_come_from_nearby(self, j: int, q: int, r: int)
        requires
            self.sized(),
            0 <= j < self.stack.layers@.len(),
            hex::dist(q, r) <= self.radius(),
        ensures
            ({
                let l = self.stack.layers@[j];
                let c = layers::nearest_cell(l.s as int, q, r);
                let own = self.stack.field_index(j, c.0, c.1) as usize;
                let cells = self.value_sources_of(j, q, r);
                &&& cells.len() >= 1
                &&& l.s == 1 ==> cells == seq![self.stack.field_index(j, q, r) as usize]
                &&& !self.frozen(j, lattice::flat(l.radius as int, c.0, c.1)) ==> cells == seq![own]
                &&& cells == seq![own] || forall|t: int|
                    0 <= t < cells.len() ==> self.is_vapour_beside(j, c, #[trigger] cells[t])
                &&& l.s > 1 && self.frozen(j, lattice::flat(l.radius as int, c.0, c.1))
                    ==> forall|i: usize| #[trigger]
                    self.is_vapour_beside(j, c, i) && hex::dist(
                        lattice::cell_of(l.radius as int, i - l.off).0,
                        lattice::cell_of(l.radius as int, i - l.off).1,
                    ) <= l.radius ==> cells.contains(i)
            }),
    {
        let l = self.stack.layers@[j];
        let c = layers::nearest_cell(l.s as int, q, r);
        assert(self.stack.layer_ok(j));
        layers::nearest_cell_is_on_its_layer(self.radius(), l.s as int, q, r);
        self.sources_around_are_vapour(j, c, 6);
        if l.s > 1 && self.frozen(j, lattice::flat(l.radius as int, c.0, c.1)) {
            assert forall|i: usize| #[trigger]
                self.is_vapour_beside(j, c, i) && hex::dist(
                    lattice::cell_of(l.radius as int, i - l.off).0,
                    lattice::cell_of(l.radius as int, i - l.off).1,
                ) <= l.radius implies self.value_sources_of(j, q, r).contains(i) by {
                let e = lattice::cell_of(l.radius as int, i - l.off);
                lattice::cell_is_inverted(l.radius as int, i - l.off);
                hex::directions_are_the_unit_cells(e.0 - c.0, e.1 - c.1);
                let k = choose|k: int|
                    0 <= k < 6 && #[trigger] hex::direction(k) == (e.0 - c.0, e.1 - c.1);
                self.vapour_around_is_complete(j, c, 6, k);
            }
        }
    }

    proof fn vapour_around_is_complete(self, j: int, c: hex::Cell, m: nat, k: int)
        requires
            0 <= k < m,
            self.vapour_source(j, c.0 + hex::direction(k).0, c.1 + hex::direction(k).1) is Cell,
        ensures
            self.vapour_around(j, c.0, c.1, m).contains(
                self.vapour_source(j, c.0 + hex::direction(k).0, c.1 + hex::direction(k).1)->Cell_0,
            ),
        decreases m,
    {
        let e = self.vapour_source(
            j,
            c.0 + hex::direction(k).0,
            c.1 + hex::direction(k).1,
        )->Cell_0;
        let before = self.vapour_around(j, c.0, c.1, (m - 1) as nat);
        let here = self.vapour_around(j, c.0, c.1, m);
        if k == m - 1 {
            assert(here[before.len() as int] == e);
        } else {
            self.vapour_around_is_complete(j, c, (m - 1) as nat, k);
            let t = choose|t: int| 0 <= t < before.len() && #[trigger] before[t] == e;
            assert(here[t] == e);
        }
    }

    /// Whether field cell `i` is a vapour cell of layer `j` beside cell `c`.
    pub open spec fn is_vapour_beside(self, j: int, c: hex::Cell, i: usize) -> bool {
        let l = self.stack.layers@[j];
        &&& l.off <= i < l.off + l.n
        &&& hex::adjacent(c, lattice::cell_of(l.radius as int, i - l.off))
        &&& !self.frozen(j, i - l.off)
    }

    proof fn sources_around_are_vapour(self, j: int, c: hex::Cell, k: nat)
        requires
            self.sized(),
            0 <= j < self.stack.layers@.len(),
            k <= 6,
        ensures
            forall|t: int|
                0 <= t < self.vapour_around(j, c.0, c.1, k).len() ==> self.is_vapour_beside(
                    j,
                    c,
                    #[trigger] self.vapour_around(j, c.0, c.1, k)[t],
                ),
        decreases k,
    {
        if k > 0 {
            let l = self.stack.layers@[j];
            let d = hex::direction(k - 1);
            let (x, y) = (c.0 + d.0, c.1 + d.1);
            let before = self.vapour_around(j, c.0, c.1, (k - 1) as nat);
            let here = self.vapour_around(j, c.0, c.1, k);
            self.sources_around_are_vapour(j, c, (k - 1) as nat);
            assert(self.stack.layer_ok(j));
            if hex::dist(x, y) <= l.radius {
                lattice::flat_is_inverted(l.radius as int, x, y);
            }
            assert forall|t: int| 0 <= t < here.len() implies self.is_vapour_beside(
                j,
                c,
                #[trigger] here[t],
            ) by {
                if t < before.len() {
                    assert(here[t] == before[t]);
                }
            }
        }
    }
}

/// The two coarse cells that a cell straddles lie to either side of it, or both
/// on it: twice their coordinates are at most a step away, and the cell is
/// halfway between.
pub proof fn straddled_cells_lie_to_either_side(q: int, r: int)
    ensures
        ({
            let (a, b) = straddled(q, r);
            &&& (a.0 + b.0, a.1 + b.1) == (q, r)
            &&& hex::dist(q - 2 * a.0, r - 2 * a.1) <= 1
            &&& hex::dist(q - 2 * b.0, r - 2 * b.1) <= 1
        }),
{
}

/// The seven finer cells under a coarse cell are those within a step of its
/// centre, each once.
pub proof fn finer_cells_are_those_within_a_step(d: hex::Cell)
    ensures
        hex::dist(d.0, d.1) <= 1 <==> exists|m: int|
            0 <= m < 7 && #[trigger] finer_offset(m) == d,
        forall|m: int, n: int|
            0 <= m < 7 && 0 <= n < 7 && #[trigger] finer_offset(m) == #[trigger] finer_offset(n)
                ==> m == n,
        finer_offset(0) == (0int, 0int),
{
    if hex::dist(d.0, d.1) <= 1 {
        assert(finer_offset(0) == d || finer_offset(1) == d || finer_offset(2) == d
            || finer_offset(3) == d || finer_offset(4) == d || finer_offset(5) == d
            || finer_offset(6) == d);
    }
}

/// Half of `x`, rounded down.
fn half(x: i32) -> (y: i32)
    ensures
        y == x as int / 2,
{
    ((x as i64 + 0x1_0000_0000) / 2 - 0x8000_0000) as i32
}

/// The two cells, at twice the spacing, that cell (q, r) straddles.
pub fn straddle(q: i32, r: i32) -> (pair: ((i32, i32), (i32, i32)))
    requires
        hex::dist(q as int, r as int) <= 2 * lattice::MAX_RADIUS,
    ensures
        straddled(q as int, r as int) == (
            (pair.0.0 as int, pair.0.1 as int),
            (pair.1.0 as int, pair.1.1 as int),
        ),
        hex::in_range(pair.0.0 as int, pair.0.1 as int),
        hex::in_range(pair.1.0 as int, pair.1.1 as int),
{
    let q_odd: bool = 2 * half(q) != q;
    let r_odd: bool = 2 * half(r) != r;
    if !q_odd && !r_odd {
        ((half(q), half(r)), (half(q), half(r)))
    } else if q_odd && !r_odd {
        ((half(q - 1), half(r)), (half(q + 1), half(r)))
    } else if !q_odd {
        ((half(q), half(r - 1)), (half(q), half(r + 1)))
    } else {
        ((half(q + 1), half(r - 1)), (half(q - 1), half(r + 1)))
    }
}

} // verus!
