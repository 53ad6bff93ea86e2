//! Outlines of regions of the lattice: closed walks along the edges of
//! flat-topped hexagons that part the cells of a region from the others.

use crate::hex;
use crate::lattice;
use crate::snapshot::Snapshot;
use std::collections::HashMap;
use vstd::prelude::*;

verus! {

/// A vertex of the honeycomb as (q, r, side).
pub type Corner = (int, int, int);

/// Vertex of the honeycomb: every vertex is the right (`side` 0) or left
/// (`side` 1) vertex of exactly one flat-topped cell.
#[derive(Clone, Copy, PartialEq, Eq, Structural, Hash, Debug)]
pub struct Vertex {
    pub q: i32,
    pub r: i32,
    pub side: u8,
}

/// Integer coordinates of a vertex: the cell centre is (3q, 4r + 2q), and the
/// vertices are two units to either side of it.
pub open spec fn coords_of(v: Corner) -> (int, int) {
    (3 * v.0 + if v.2 == 0 {
        2int
    } else {
        -2
    }, 4 * v.1 + 2 * v.0)
}

/// Whether a vertex belongs to a lattice that can be handled here.
pub open spec fn valid_corner(v: Corner) -> bool {
    &&& -lattice::MAX_RADIUS - 2 <= v.0 <= lattice::MAX_RADIUS + 2
    &&& -lattice::MAX_RADIUS - 2 <= v.1 <= lattice::MAX_RADIUS + 2
    &&& 0 <= v.2 <= 1
}

/// A vertex as one number.
spec fn id_of(v: Corner) -> int {
    ((v.0 + 0x200_0000) * 0x400_0000 + (v.1 + 0x200_0000)) * 2 + v.2
}

/// Whether a table of edges, by the vertex that they start at, has an edge
/// from `v`.
spec fn held(edges: Map<u64, Vertex>, v: Corner) -> bool {
    edges.contains_key(id_of(v) as u64)
}

/// Where the edge from `v` leads.
spec fn ahead(edges: Map<u64, Vertex>, v: Corner) -> Corner {
    edges[id_of(v) as u64].corner()
}

/// Vertices are told apart by their numbers.
proof fn ids_are_distinct(u: Corner, v: Corner)
    requires
        valid_corner(u),
        valid_corner(v),
    ensures
        id_of(u) as u64 == id_of(v) as u64 <==> u == v,
        0 <= id_of(u) <= u64::MAX,
{
}

impl Vertex {
    pub open spec fn corner(self) -> Corner {
        (self.q as int, self.r as int, self.side as int)
    }

    /// Whether the vertex belongs to a lattice that can be handled here.
    pub open spec fn valid(self) -> bool {
        valid_corner(self.corner())
    }

    /// Whether the vertex's coordinates fit a machine word.
    pub open spec fn fits(self) -> bool {
        &&& i32::MIN + 2 <= 3 * self.q <= i32::MAX - 2
        &&& i32::MIN <= 4 * self.r <= i32::MAX
        &&& i32::MIN <= 4 * self.r + 2 * self.q <= i32::MAX
    }

    /// Integer coordinates: x doubled, y stretched by 2/sqrt 3.
    pub fn coords(self) -> (xy: (i32, i32))
        requires
            self.fits(),
        ensures
            (xy.0 as int, xy.1 as int) == coords_of(self.corner()),
    {
        let x: i32 = 3 * self.q + if self.side == 0 {
            2
        } else {
            -2
        };
        (x, 4 * self.r + 2 * self.q)
    }

    fn key(self) -> (key: u64)
        requires
            self.valid(),
        ensures
            key == id_of(self.corner()),
    {
        ((self.q + 0x200_0000) as u64 * 0x400_0000 + (self.r + 0x200_0000) as u64) * 2
            + self.side as u64
    }
}

/// The k-th vertex of cell (q, r), clockwise on screen from the right.
pub open spec fn corner(q: int, r: int, k: int) -> Corner {
    if k == 0 {
        (q, r, 0)
    } else if k == 1 {
        (q + 1, r, 1)
    } else if k == 2 {
        (q - 1, r + 1, 0)
    } else if k == 3 {
        (q, r, 1)
    } else if k == 4 {
        (q - 1, r, 0)
    } else {
        (q + 1, r - 1, 1)
    }
}

/// Direction of the neighbour across the edge that starts at vertex k.
pub open spec fn across(k: int) -> hex::Cell {
    if k == 0 {
        (1, 0)
    } else if k == 1 {
        (0, 1)
    } else if k == 2 {
        (-1, 1)
    } else if k == 3 {
        (-1, 0)
    } else if k == 4 {
        (0, -1)
    } else {
        (1, -1)
    }
}

/// The neighbours across the edges of a cell, in the order of its vertices.
pub fn edge_neighbours() -> (ds: [(i32, i32); 6])
    ensures
        forall|k: int|
            0 <= k < 6 ==> (#[trigger] ds[k]).0 == across(k).0 && ds[k].1 == across(k).1,
{
    [(1, 0), (0, 1), (-1, 1), (-1, 0), (0, -1), (1, -1)]
}

/// The six vertices of cell (q, r), clockwise on screen.
pub fn cell_vertices(q: i32, r: i32) -> (vs: [Vertex; 6])
    requires
        i32::MIN < q < i32::MAX,
        i32::MIN < r < i32::MAX,
    ensures
        forall|k: int| 0 <= k < 6 ==> (#[trigger] vs[k]).corner() == corner(q as int, r as int, k),
{
    [
        Vertex { q, r, side: 0 },
        Vertex { q: q + 1, r, side: 1 },
        Vertex { q: q - 1, r: r + 1, side: 0 },
        Vertex { q, r, side: 1 },
        Vertex { q: q - 1, r, side: 0 },
        Vertex { q: q + 1, r: r - 1, side: 1 },
    ]
}

/// The edge of cell (q, r) that starts at vertex `k` is the edge that the
/// neighbour across it walks the other way, and moves by one of six vectors.
pub proof fn cells_share_edges(q: int, r: int, k: int)
    requires
        0 <= k < 6,
    ensures
        corner(q, r, k) == corner(q + across(k).0, r + across(k).1, (k + 4) % 6),
        corner(q, r, (k + 1) % 6) == corner(q + across(k).0, r + across(k).1, (k + 3) % 6),
        ({
            let (a, b) = (coords_of(corner(q, r, k)), coords_of(corner(q, r, (k + 1) % 6)));
            let (dx, dy) = (b.0 - a.0, b.1 - a.1);
            ||| (dx == -1 && dy == 2)
            ||| (dx == -2 && dy == 0)
            ||| (dx == -1 && dy == -2)
            ||| (dx == 1 && dy == -2)
            ||| (dx == 2 && dy == 0)
            ||| (dx == 1 && dy == 2)
        }),
{
}

/// The vertices of a cell lie around its centre, (3q, 4r + 2q), clockwise from the
/// right, and the neighbour across an edge is the cell whose centre lies as far on
/// its other side: the two ends of the edge are halfway between the centres.
pub proof fn vertices_surround_their_cell(q: int, r: int, k: int)
    requires
        0 <= k < 6,
    ensures
        coords_of(corner(q, r, 0)) == (3 * q + 2, 4 * r + 2 * q),
        coords_of(corner(q, r, 1)) == (3 * q + 1, 4 * r + 2 * q + 2),
        coords_of(corner(q, r, 2)) == (3 * q - 1, 4 * r + 2 * q + 2),
        coords_of(corner(q, r, 3)) == (3 * q - 2, 4 * r + 2 * q),
        coords_of(corner(q, r, 4)) == (3 * q - 1, 4 * r + 2 * q - 2),
        coords_of(corner(q, r, 5)) == (3 * q + 1, 4 * r + 2 * q - 2),
        ({
            let (a, b) = (coords_of(corner(q, r, k)), coords_of(corner(q, r, (k + 1) % 6)));
            let (x, y) = (q + across(k).0, r + across(k).1);
            &&& a.0 + b.0 == 3 * q + 3 * x
            &&& a.1 + b.1 == (4 * r + 2 * q) + (4 * y + 2 * x)
            &&& hex::adjacent((q, r), (x, y))
        }),
{
}

/// Different vertices have different coordinates.
pub proof fn coordinates_tell_vertices_apart(u: Corner, v: Corner)
    requires
        0 <= u.2 <= 1,
        0 <= v.2 <= 1,
    ensures
        coords_of(u) == coords_of(v) <==> u == v,
{
}

impl Snapshot {
    /// Whether cell (q, r) is crystal of mass at least `threshold`.
    pub open spec fn inside(self, threshold: u32, q: int, r: int) -> bool {
        self.mass_of(q, r) matches Some(m) && m >= threshold
    }

    /// Whether the edge of cell (q, r) that starts at its vertex `k` is part
    /// of the region's outline.
    pub open spec fn outlined(self, threshold: u32, q: int, r: int, k: int) -> bool {
        self.inside(threshold, q, r) && !self.inside(threshold, q + across(k).0, r + across(k).1)
    }

    /// Whether the region's outline runs from vertex `u` to vertex `v`.
    pub open spec fn runs(self, threshold: u32, u: Corner, v: Corner) -> bool {
        exists|q: int, r: int, k: int|
            0 <= k < 6 && #[trigger] self.outlined(threshold, q, r, k) && corner(q, r, k) == u
                && corner(q, r, (k + 1) % 6) == v
    }

    /// A cell is in the region exactly where it is crystal and its mass reaches the
    /// threshold: the region shrinks as the threshold rises, and at zero it is the
    /// whole crystal.
    pub proof fn regions_shrink_as_the_threshold_rises(self, low: u32, high: u32, q: int, r: int)
        requires
            low <= high,
        ensures
            self.inside(high, q, r) ==> self.inside(low, q, r),
            self.inside(0, q, r) <==> self.mass_of(q, r) is Some,
            self.mass_of(q, r) matches Some(m) ==> self.inside(m, q, r) && (self.inside(low, q, r)
                <==> low <= m),
    {
    }

    /// The outline parts the region from the rest: it runs along an edge of a cell
    /// exactly where the cell is in the region and its neighbour across the edge is
    /// not, so of two neighbours in the region, or out of it, neither is parted from
    /// the other.
    pub proof fn outlines_part_inside_from_outside(self, threshold: u32, q: int, r: int, k: int)
        requires
            0 <= k < 6,
        ensures
            self.runs(threshold, corner(q, r, k), corner(q, r, (k + 1) % 6)) <==> self.inside(
                threshold,
                q,
                r,
            ) && !self.inside(threshold, q + across(k).0, r + across(k).1),
    {
        let (u, v) = (corner(q, r, k), corner(q, r, (k + 1) % 6));
        if self.outlined(threshold, q, r, k) {
            assert(self.runs(threshold, u, v));
        }
        if self.runs(threshold, u, v) {
            let (x, y, l) = choose|x: int, y: int, l: int|
                0 <= l < 6 && #[trigger] self.outlined(threshold, x, y, l) && corner(x, y, l) == u
                    && corner(x, y, (l + 1) % 6) == v;
            assert((x, y, l) == (q, r, k));
        }
    }

    /// Where the outline runs from vertex `u`: of the three cells that meet
    /// there, one is inside while the next one round is not.
    #[verifier::opaque]
    pub open spec fn successor(self, threshold: u32, u: Corner) -> Option<Corner> {
        let (q, r) = (u.0, u.1);
        if u.2 == 0 {
            let a = self.inside(threshold, q, r);
            let b = self.inside(threshold, q + 1, r);
            let c = self.inside(threshold, q + 1, r - 1);
            if a && !b {
                Some(corner(q, r, 1))
            } else if b && !c {
                Some(corner(q + 1, r, 5))
            } else if c && !a {
                Some(corner(q + 1, r - 1, 3))
            } else {
                None
            }
        } else {
            let a = self.inside(threshold, q, r);
            let b = self.inside(threshold, q - 1, r);
            let c = self.inside(threshold, q - 1, r + 1);
            if a && !b {
                Some(corner(q, r, 4))
            } else if b && !c {
                Some(corner(q - 1, r, 2))
            } else if c && !a {
                Some(corner(q - 1, r + 1, 0))
            } else {
                None
            }
        }
    }

    /// Where the outline comes to vertex `u` from.
    #[verifier::opaque]
    pub open spec fn predecessor(self, threshold: u32, u: Corner) -> Option<Corner> {
        let (q, r) = (u.0, u.1);
        if u.2 == 0 {
            let a = self.inside(threshold, q, r);
            let b = self.inside(threshold, q + 1, r);
            let c = self.inside(threshold, q + 1, r - 1);
            if a && !c {
                Some(corner(q, r, 5))
            } else if b && !a {
                Some(corner(q + 1, r, 3))
            } else if c && !b {
                Some(corner(q + 1, r - 1, 1))
            } else {
                None
            }
        } else {
            let a = self.inside(threshold, q, r);
            let b = self.inside(threshold, q - 1, r);
            let c = self.inside(threshold, q - 1, r + 1);
            if a && !c {
                Some(corner(q, r, 2))
            } else if b && !a {
                Some(corner(q - 1, r, 0))
            } else if c && !b {
                Some(corner(q - 1, r + 1, 4))
            } else {
                None
            }
        }
    }

    /// At every vertex the outline arrives as often as it leaves: once or not
    /// at all.  So from a vertex on it there is one way on and one way back.
    pub proof fn outline_passes_once(self, threshold: u32, u: Corner, v: Corner)
        requires
            0 <= u.2 <= 1,
            0 <= v.2 <= 1,
        ensures
            self.runs(threshold, u, v) <==> self.successor(threshold, u) == Some(v),
            self.runs(threshold, u, v) <==> self.predecessor(threshold, v) == Some(u),
            self.successor(threshold, u) is Some <==> self.predecessor(threshold, u) is Some,
    {
        reveal(Snapshot::successor);
        reveal(Snapshot::predecessor);
        if self.runs(threshold, u, v) {
            let (q, r, k) = choose|q: int, r: int, k: int|
                0 <= k < 6 && #[trigger] self.outlined(threshold, q, r, k) && corner(q, r, k) == u
                    && corner(q, r, (k + 1) % 6) == v;
            self.edge_is_found(threshold, q, r, k);
        }
        if self.successor(threshold, u) == Some(v) {
            self.successor_is_an_edge(threshold, u, v);
        }
        if self.predecessor(threshold, v) == Some(u) {
            self.predecessor_is_an_edge(threshold, u, v);
        }
    }

    proof fn edge_is_found(self, threshold: u32, q: int, r: int, k: int)
        requires
            0 <= k < 6,
            self.outlined(threshold, q, r, k),
        ensures
            self.successor(threshold, corner(q, r, k)) == Some(corner(q, r, (k + 1) % 6)),
            self.predecessor(threshold, corner(q, r, (k + 1) % 6)) == Some(corner(q, r, k)),
    {
        reveal(Snapshot::successor);
        reveal(Snapshot::predecessor);
    }

    proof fn successor_is_an_edge(self, threshold: u32, u: Corner, v: Corner)
        requires
            0 <= u.2 <= 1,
            self.successor(threshold, u) == Some(v),
        ensures
            self.runs(threshold, u, v),
            0 <= v.2 <= 1,
    {
        reveal(Snapshot::successor);
        let (q, r) = (u.0, u.1);
        if u.2 == 0 {
            assert(self.outlined(threshold, q, r, 0) || self.outlined(threshold, q + 1, r, 4)
                || self.outlined(threshold, q + 1, r - 1, 2));
        } else {
            assert(self.outlined(threshold, q, r, 3) || self.outlined(threshold, q - 1, r, 1)
                || self.outlined(threshold, q - 1, r + 1, 5));
        }
    }

    proof fn predecessor_is_an_edge(self, threshold: u32, u: Corner, v: Corner)
        requires
            0 <= v.2 <= 1,
            self.predecessor(threshold, v) == Some(u),
        ensures
            self.runs(threshold, u, v),
            0 <= u.2 <= 1,
    {
        reveal(Snapshot::predecessor);
        let (q, r) = (v.0, v.1);
        if v.2 == 0 {
            assert(self.outlined(threshold, q, r, 5) || self.outlined(threshold, q + 1, r, 3)
                || self.outlined(threshold, q + 1, r - 1, 1));
        } else {
            assert(self.outlined(threshold, q, r, 2) || self.outlined(threshold, q - 1, r, 0)
                || self.outlined(threshold, q - 1, r + 1, 4));
        }
    }
}

/// Whether `v` is the corner of one of the vertices.
pub open spec fn listed(vertices: Seq<Vertex>, v: Corner) -> bool {
    exists|t: int| 0 <= t < vertices.len() && (#[trigger] vertices[t]).corner() == v
}

impl Snapshot {
    /// Whether the edges of a table are edges of the outline.
    spec fn sound(self, threshold: u32, edges: Map<u64, Vertex>) -> bool {
        forall|v: Corner|
            valid_corner(v) && #[trigger] held(edges, v) ==> self.successor(threshold, v) == Some(
                ahead(edges, v),
            ) && valid_corner(ahead(edges, v))
    }

    /// Whether the edges of a table close up, except for a walk under way from
    /// `start` to `cur`: at every other vertex one leaves if one arrives.
    spec fn balanced(
        self,
        threshold: u32,
        edges: Map<u64, Vertex>,
        start: Corner,
        cur: Corner,
    ) -> bool {
        forall|v: Corner|
            #![trigger self.predecessor(threshold, v)]
            valid_corner(v) && self.successor(threshold, v) is Some && (start == cur || (v != start
                && v != cur)) ==> (held(edges, v) <==> held(
                edges,
                self.predecessor(threshold, v).unwrap(),
            ))
    }

    /// Vertices of the outline are vertices of the lattice's cells.
    proof fn outline_is_on_the_lattice(self, threshold: u32, v: Corner)
        requires
            self.wf(),
            0 <= v.2 <= 1,
            self.successor(threshold, v) is Some,
        ensures
            valid_corner(v),
            valid_corner(self.successor(threshold, v).unwrap()),
            self.predecessor(threshold, v) is Some,
            valid_corner(self.predecessor(threshold, v).unwrap()),
            self.successor(threshold, self.predecessor(threshold, v).unwrap()) == Some(v),
            self.predecessor(threshold, self.successor(threshold, v).unwrap()) == Some(v),
            self.successor(threshold, self.successor(threshold, v).unwrap()) is Some,
            self.successor(threshold, v).unwrap() != v,
    {
        reveal(Snapshot::successor);
        reveal(Snapshot::predecessor);
        let u = self.successor(threshold, v).unwrap();
        self.outline_passes_once(threshold, v, u);
        self.outline_passes_once(threshold, u, v);
        let p = self.predecessor(threshold, v).unwrap();
        self.outline_passes_once(threshold, p, v);
    }
}

/// Collect the edges of a region's outline: the table from each edge's first
/// vertex to its second, and the first vertices.
fn outline_edges(snap: &Snapshot, threshold: u32) -> (found: (HashMap<u64, Vertex>, Vec<Vertex>))
    requires
        snap.wf(),
    ensures
        snap.sound(threshold, found.0@),
        forall|v: Corner|
            0 <= v.2 <= 1 && #[trigger] snap.successor(threshold, v) is Some ==> held(found.0@, v)
                && listed(found.1@, v),
        forall|t: int| 0 <= t < found.1@.len() ==> (#[trigger] found.1@[t]).valid(),
{
    broadcast use vstd::std_specs::hash::group_hash_axioms;

    let mut edges: HashMap<u64, Vertex> = HashMap::new();
    let mut starts: Vec<Vertex> = Vec::new();
    let ds: [(i32, i32); 6] = edge_neighbours();
    let n: usize = snap.mass.len();
    let mut i: usize = 0;
    while i < n
        invariant
            snap.wf(),
            n == snap.mass@.len(),
            i <= n,
            forall|k: int|
                0 <= k < 6 ==> (#[trigger] ds[k]).0 == across(k).0 && ds[k].1 == across(k).1,
            snap.sound(threshold, edges@),
            forall|q: int, r: int, k: int|
                0 <= k < 6 && #[trigger] snap.outlined(threshold, q, r, k) && lattice::flat(
                    snap.radius as int,
                    q,
                    r,
                ) < i ==> held(edges@, corner(q, r, k)) && listed(starts@, corner(q, r, k)),
            forall|t: int| 0 <= t < starts@.len() ==> (#[trigger] starts@[t]).valid(),
        decreases n - i,
    {
        broadcast use vstd::std_specs::hash::group_hash_axioms;

        let c: (i32, i32) = lattice::cell_at_index(snap.radius, i);
        let is_inside: bool = match snap.mass[i] {
            Some(m) => m >= threshold,
            None => false,
        };
        proof {
            assert(is_inside == snap.inside(threshold, c.0 as int, c.1 as int));
        }
        if is_inside {
            let vs: [Vertex; 6] = cell_vertices(c.0, c.1);
            let mut k: usize = 0;
            while k < 6
                invariant
                    snap.wf(),
                    n == snap.mass@.len(),
                    i < n,
                    k <= 6,
                    lattice::on_grid(snap.radius as int, c.0 as int, c.1 as int),
                    snap.inside(threshold, c.0 as int, c.1 as int),
                    forall|k: int|
                        0 <= k < 6 ==> (#[trigger] ds[k]).0 == across(k).0 && ds[k].1 == across(
                            k,
                        ).1,
                    forall|k: int|
                        0 <= k < 6 ==> (#[trigger] vs[k]).corner() == corner(
                            c.0 as int,
                            c.1 as int,
                            k,
                        ),
                    snap.sound(threshold, edges@),
                    forall|q: int, r: int, m: int|
                        0 <= m < 6 && #[trigger] snap.outlined(threshold, q, r, m) && lattice::flat(
                            snap.radius as int,
                            q,
                            r,
                        ) < i ==> held(edges@, corner(q, r, m)) && listed(
                            starts@,
                            corner(q, r, m),
                        ),
                    forall|m: int|
                        0 <= m < k && #[trigger] snap.outlined(
                            threshold,
                            c.0 as int,
                            c.1 as int,
                            m,
                        ) ==> held(edges@, corner(c.0 as int, c.1 as int, m)) && listed(
                            starts@,
                            corner(c.0 as int, c.1 as int, m),
                        ),
                    forall|t: int| 0 <= t < starts@.len() ==> (#[trigger] starts@[t]).valid(),
                decreases 6 - k,
            {
                broadcast use vstd::std_specs::hash::group_hash_axioms;

                let d: (i32, i32) = ds[k];
                let other: bool = match snap.mass_at(c.0 + d.0, c.1 + d.1) {
                    Some(m) => m >= threshold,
                    None => false,
                };
                if !other {
                    let from: Vertex = vs[k];
                    let to: Vertex = vs[(k + 1) % 6];
                    let ghost before = edges@;
                    let ghost prior = starts@;
                    proof {
                        assert(from.corner() == corner(c.0 as int, c.1 as int, k as int));
                        assert(to.corner() == corner(c.0 as int, c.1 as int, (k + 1) % 6));
                        assert(snap.outlined(threshold, c.0 as int, c.1 as int, k as int));
                        snap.edge_is_found(threshold, c.0 as int, c.1 as int, k as int);
                    }
                    edges.insert(from.key(), to);
                    starts.push(from);
                    proof {
                        inserting_keeps_edges(*snap, threshold, before, from, to);
                        assert forall|v: Corner| listed(prior, v) implies #[trigger] listed(
                            starts@,
                            v,
                        ) by {
                            let t = choose|t: int|
                                0 <= t < prior.len() && (#[trigger] prior[t]).corner() == v;
                            assert(starts@[t].corner() == v);
                        }
                        assert(starts@[prior.len() as int].corner() == from.corner());
                    }
                }
                k = k + 1;
            }
        }
        proof {
            assert forall|q: int, r: int, k: int|
                0 <= k < 6 && #[trigger] snap.outlined(threshold, q, r, k) && lattice::flat(
                    snap.radius as int,
                    q,
                    r,
                ) < i + 1 implies held(edges@, corner(q, r, k)) && listed(
                starts@,
                corner(q, r, k),
            ) by {
                if lattice::flat(snap.radius as int, q, r) == i {
                    lattice::flat_is_injective(
                        snap.radius as int,
                        (q, r),
                        (c.0 as int, c.1 as int),
                    );
                }
            }
        }
        i = i + 1;
    }
    proof {
        assert forall|v: Corner| 0 <= v.2 <= 1 && #[trigger] snap.successor(threshold, v) is Some implies held(
            edges@,
            v,
        ) && listed(starts@, v) by {
            let u = snap.successor(threshold, v).unwrap();
            snap.successor_is_an_edge(threshold, v, u);
            let (q, r, k) = choose|q: int, r: int, k: int|
                0 <= k < 6 && #[trigger] snap.outlined(threshold, q, r, k) && corner(q, r, k) == v
                    && corner(q, r, (k + 1) % 6) == u;
            lattice::flat_is_inverted(snap.radius as int, q, r);
        }
    }
    (edges, starts)
}

proof fn inserting_keeps_edges(
    snap: Snapshot,
    threshold: u32,
    edges: Map<u64, Vertex>,
    from: Vertex,
    to: Vertex,
)
    requires
        snap.sound(threshold, edges),
        from.valid(),
        to.valid(),
        snap.successor(threshold, from.corner()) == Some(to.corner()),
    ensures
        snap.sound(threshold, edges.insert(id_of(from.corner()) as u64, to)),
        forall|v: Corner|
            held(edges, v) ==> #[trigger] held(
                edges.insert(id_of(from.corner()) as u64, to),
                v,
            ),
        held(edges.insert(id_of(from.corner()) as u64, to), from.corner()),
{
    let after = edges.insert(id_of(from.corner()) as u64, to);
    assert forall|v: Corner| valid_corner(v) && #[trigger] held(after, v) implies snap.successor(
        threshold,
        v,
    ) == Some(ahead(after, v)) && valid_corner(ahead(after, v)) by {
        ids_are_distinct(v, from.corner());
        if v != from.corner() {
            assert(held(edges, v));
        }
    }
}

/// Whether `ring` is a closed walk along the outline.
pub open spec fn closed_walk(snap: Snapshot, threshold: u32, ring: Seq<Vertex>) -> bool {
    &&& ring.len() > 0
    &&& forall|i: int|
        0 <= i < ring.len() ==> (#[trigger] ring[i]).valid() && snap.successor(
            threshold,
            ring[i].corner(),
        ) == Some(ring[(i + 1) % ring.len() as int].corner())
}

/// Follow the outline from `start` until it closes, taking its edges out of
/// the table.
fn walk(snap: &Snapshot, threshold: u32, edges: &mut HashMap<u64, Vertex>, start: Vertex) -> (ring:
    Vec<Vertex>)
    requires
        snap.wf(),
        start.valid(),
        held(old(edges)@, start.corner()),
        snap.sound(threshold, old(edges)@),
        snap.balanced(threshold, old(edges)@, start.corner(), start.corner()),
    ensures
        closed_walk(*snap, threshold, ring@),
        forall|i: int| 0 <= i < ring@.len() ==> held(old(edges)@, (#[trigger] ring@[i]).corner()),
        forall|i: int, j: int|
            0 <= i < j < ring@.len() ==> (#[trigger] ring@[i]).corner() != (
            #[trigger] ring@[j]).corner(),
        snap.sound(threshold, final(edges)@),
        snap.balanced(threshold, final(edges)@, start.corner(), start.corner()),
        listed(ring@, start.corner()),
        forall|v: Corner|
            valid_corner(v) ==> (#[trigger] held(final(edges)@, v) <==> held(old(edges)@, v)
                && !listed(ring@, v)),
{
    broadcast use vstd::std_specs::hash::group_hash_axioms;

    let mut ring: Vec<Vertex> = Vec::new();
    ring.push(start);
    let mut cur: Vertex = start;
    let ghost before = edges@;
    loop
        invariant
            snap.wf(),
            start.valid(),
            cur.valid(),
            before == old(edges)@,
            snap.sound(threshold, before),
            snap.sound(threshold, edges@),
            snap.balanced(threshold, edges@, start.corner(), cur.corner()),
            held(edges@, cur.corner()),
            ring@.len() > 0,
            ring@[0] == start,
            ring@.last() == cur,
            cur == start ==> ring@.len() == 1,
            cur.corner() != start.corner() ==> !held(edges@, start.corner()) && !held(
                edges@,
                snap.predecessor(threshold, cur.corner()).unwrap(),
            ),
            forall|i: int|
                0 <= i < ring@.len() ==> (#[trigger] ring@[i]).valid() && held(
                    before,
                    ring@[i].corner(),
                ),
            forall|i: int|
                0 <= i < ring@.len() - 1 ==> !held(edges@, (#[trigger] ring@[i]).corner())
                    && snap.successor(threshold, ring@[i].corner()) == Some(ring@[i + 1].corner()),
            forall|i: int, j: int|
                0 <= i < j < ring@.len() ==> (#[trigger] ring@[i]).corner() != (
                #[trigger] ring@[j]).corner(),
            forall|v: Corner|
                valid_corner(v) ==> (#[trigger] held(edges@, v) <==> held(before, v) && (v
                    == cur.corner() || !listed(ring@, v))),
        decreases edges@.len(),
    {
        broadcast use vstd::std_specs::hash::group_hash_axioms;

        let ghost now = edges@;
        let ghost c = cur.corner();
        proof {
            snap.outline_is_on_the_lattice(threshold, c);
            assert(snap.successor(threshold, c) == Some(ahead(now, c)));
        }
        match edges.remove(&cur.key()) {
            None => {
                return ring;
            },
            Some(next) => {
                let ghost then = edges@;
                proof {
                    assert(next.corner() == ahead(now, c));
                    removing_keeps_edges(*snap, threshold, now, c, start.corner());
                    assert(now.remove(id_of(c) as u64).len() < now.len());
                }
                if next == start {
                    proof {
                        assert(ring@.last().corner() == c);
                        assert forall|i: int| 0 <= i < ring@.len() implies (
                        #[trigger] ring@[i]).valid() && snap.successor(
                            threshold,
                            ring@[i].corner(),
                        ) == Some(ring@[(i + 1) % ring@.len() as int].corner()) by {
                            next_round(i, ring@.len() as int);
                        }
                        assert(listed(ring@, start.corner())) by {
                            assert(ring@[0].corner() == start.corner());
                        }
                        assert forall|v: Corner| valid_corner(v) implies (#[trigger] held(then, v)
                            <==> held(before, v) && !listed(ring@, v)) by {
                            ids_are_distinct(v, c);
                            assert(held(now, v) <==> held(before, v) && (v == c || !listed(
                                ring@,
                                v,
                            )));
                            if v == c {
                                assert(ring@[ring@.len() - 1].corner() == c);
                            }
                        }
                    }
                    return ring;
                }
                let ghost prior = ring@;
                proof {
                    assert(next.valid());
                    corners_name_vertices(next, start);
                    assert forall|i: int| 0 <= i < prior.len() implies (
                    #[trigger] prior[i]).corner() != next.corner() by {
                        if i < prior.len() - 1 {
                            assert(!held(now, prior[i].corner()));
                        }
                    }
                }
                ring.push(next);
                cur = next;
                proof {
                    assert forall|v: Corner| valid_corner(v) implies (#[trigger] held(then, v)
                        <==> held(before, v) && (v == next.corner() || !listed(ring@, v))) by {
                        ids_are_distinct(v, c);
                        assert(held(now, v) <==> held(before, v) && (v == c || !listed(prior, v)));
                        if listed(prior, v) {
                            let t = choose|t: int|
                                0 <= t < prior.len() && (#[trigger] prior[t]).corner() == v;
                            assert(ring@[t].corner() == v);
                        }
                        if listed(ring@, v) && v != next.corner() {
                            let t = choose|t: int|
                                0 <= t < ring@.len() && (#[trigger] ring@[t]).corner() == v;
                            assert(prior[t].corner() == v);
                        }
                        if v == c {
                            assert(prior[prior.len() - 1].corner() == c);
                            assert(ring@[prior.len() - 1].corner() == c);
                        }
                    }
                }
            },
        }
    }
}

proof fn next_round(i: int, n: int)
    requires
        0 <= i < n,
    ensures
        (i + 1) % n == if i + 1 == n {
            0
        } else {
            i + 1
        },
{
    if i + 1 == n {
        vstd::arithmetic::div_mod::lemma_mod_self_0(n);
    } else {
        vstd::arithmetic::div_mod::lemma_small_mod((i + 1) as nat, n as nat);
    }
}

proof fn corners_name_vertices(u: Vertex, v: Vertex)
    ensures
        u.corner() == v.corner() <==> u == v,
{
}

/// Taking the edge from the current vertex of a walk out of the table leaves
/// it balanced for the walk's next vertex.
proof fn removing_keeps_edges(
    snap: Snapshot,
    threshold: u32,
    edges: Map<u64, Vertex>,
    cur: Corner,
    start: Corner,
)
    requires
        snap.wf(),
        valid_corner(cur),
        valid_corner(start),
        held(edges, cur),
        snap.sound(threshold, edges),
        snap.balanced(threshold, edges, start, cur),
        snap.successor(threshold, start) is Some,
        cur != start ==> !held(edges, start) && !held(
            edges,
            snap.predecessor(threshold, cur).unwrap(),
        ),
    ensures
        ({
            let after = edges.remove(id_of(cur) as u64);
            let next = ahead(edges, cur);
            &&& snap.sound(threshold, after)
            &&& forall|v: Corner|
                valid_corner(v) ==> (#[trigger] held(after, v) <==> held(edges, v) && v != cur)
            &&& next == start ==> snap.balanced(threshold, after, start, start)
            &&& next != start ==> {
                &&& snap.balanced(threshold, after, start, next)
                &&& held(after, next)
                &&& !held(after, start)
                &&& !held(after, snap.predecessor(threshold, next).unwrap())
            }
        }),
{
    let after = edges.remove(id_of(cur) as u64);
    let next = ahead(edges, cur);
    snap.outline_is_on_the_lattice(threshold, cur);
    snap.outline_is_on_the_lattice(threshold, start);
    assert forall|v: Corner| valid_corner(v) implies (#[trigger] held(after, v) <==> held(edges, v)
        && v != cur) by {
        ids_are_distinct(v, cur);
    }
    assert forall|v: Corner| valid_corner(v) && #[trigger] held(after, v) implies snap.successor(
        threshold,
        v,
    ) == Some(ahead(after, v)) && valid_corner(ahead(after, v)) by {
        assert(held(edges, v));
        ids_are_distinct(v, cur);
    }
    assert(snap.predecessor(threshold, next) == Some(cur));
    assert forall|v: Corner|
        #![trigger snap.predecessor(threshold, v)]
        valid_corner(v) && snap.successor(threshold, v) is Some && (start == next || (v != start && v
            != next)) implies (held(after, v) <==> held(
        after,
        snap.predecessor(threshold, v).unwrap(),
    )) by {
        snap.outline_is_on_the_lattice(threshold, v);
        let p = snap.predecessor(threshold, v).unwrap();
        if p == cur {
            assert(v == next);
        }
        assert(held(after, v) <==> held(edges, v) && v != cur);
        assert(held(after, p) <==> held(edges, p) && p != cur);
    }
    if next != start {
        assert(held(after, start) <==> held(edges, start) && start != cur);
        assert(held(after, next) <==> held(edges, next) && next != cur);
    }
}

/// Whether `loops` are the closed outlines of a region: each is a closed walk
/// along the outline, and every vertex of the outline is on exactly one of
/// them, once.
pub open spec fn are_outlines(snap: Snapshot, threshold: u32, loops: Seq<Vec<Vertex>>) -> bool {
    &&& forall|a: int|
        0 <= a < loops.len() ==> closed_walk(snap, threshold, #[trigger] loops[a]@)
    &&& forall|v: Corner|
        0 <= v.2 <= 1 && #[trigger] snap.successor(threshold, v) is Some ==> on_some(loops, v)
    &&& forall|a: int, i: int, b: int, j: int|
        0 <= a < loops.len() && 0 <= i < loops[a]@.len() && 0 <= b < loops.len() && 0 <= j
            < loops[b]@.len() && (#[trigger] loops[a]@[i]).corner() == (
        #[trigger] loops[b]@[j]).corner() ==> a == b && i == j
}

/// Whether one of the loops passes vertex `v`.
pub open spec fn on_some(loops: Seq<Vec<Vertex>>, v: Corner) -> bool {
    exists|a: int| 0 <= a < loops.len() && listed((#[trigger] loops[a])@, v)
}

/// Closed outlines (as vertex lists) of the set of crystal cells with mass
/// at least `threshold`.
#[verifier::spinoff_prover]
#[verifier::rlimit(60)]
pub fn trace_region(snap: &Snapshot, threshold: u32) -> (loops: Vec<Vec<Vertex>>)
    requires
        snap.wf(),
    ensures
        are_outlines(*snap, threshold, loops@),
{
    broadcast use vstd::std_specs::hash::group_hash_axioms;

    let (mut edges, starts): (HashMap<u64, Vertex>, Vec<Vertex>) = outline_edges(snap, threshold);
    let mut loops: Vec<Vec<Vertex>> = Vec::new();
    let mut s: usize = 0;
    proof {
        assert forall|v: Corner|
            #![trigger snap.predecessor(threshold, v)]
            valid_corner(v) && snap.successor(threshold, v) is Some implies (held(edges@, v)
            <==> held(edges@, snap.predecessor(threshold, v).unwrap())) by {
            snap.outline_is_on_the_lattice(threshold, v);
        }
    }
    while s < starts.len()
        invariant
            snap.wf(),
            s <= starts@.len(),
            forall|t: int| 0 <= t < starts@.len() ==> (#[trigger] starts@[t]).valid(),
            forall|v: Corner|
                0 <= v.2 <= 1 && #[trigger] snap.successor(threshold, v) is Some ==> listed(
                    starts@,
                    v,
                ),
            snap.sound(threshold, edges@),
            forall|c: Corner| snap.balanced(threshold, edges@, c, c),
            forall|t: int| 0 <= t < s ==> !held(edges@, (#[trigger] starts@[t]).corner()),
            forall|a: int|
                0 <= a < loops@.len() ==> closed_walk(*snap, threshold, #[trigger] loops@[a]@),
            forall|v: Corner|
                0 <= v.2 <= 1 && #[trigger] snap.successor(threshold, v) is Some ==> held(edges@, v)
                    || on_some(loops@, v),
            forall|a: int, i: int|
                0 <= a < loops@.len() && 0 <= i < loops@[a]@.len() ==> !held(
                    edges@,
                    (#[trigger] loops@[a]@[i]).corner(),
                ),
            forall|a: int, i: int, b: int, j: int|
                0 <= a < loops@.len() && 0 <= i < loops@[a]@.len() && 0 <= b < loops@.len() && 0
                    <= j < loops@[b]@.len() && (#[trigger] loops@[a]@[i]).corner() == (
                #[trigger] loops@[b]@[j]).corner() ==> a == b && i == j,
        decreases starts@.len() - s,
    {
        broadcast use vstd::std_specs::hash::group_hash_axioms;

        let start: Vertex = starts[s];
        if edges.contains_key(&start.key()) {
            let ghost before = edges@;
            let ghost prior = loops@;
            assert(snap.balanced(threshold, edges@, start.corner(), start.corner()));
            let ring: Vec<Vertex> = walk(snap, threshold, &mut edges, start);
            loops.push(ring);
            proof {
                assert forall|c: Corner| snap.balanced(threshold, edges@, c, c) by {
                    assert(snap.balanced(threshold, edges@, start.corner(), start.corner()));
                }
                assert forall|t: int| 0 <= t < s + 1 implies !held(
                    edges@,
                    (#[trigger] starts@[t]).corner(),
                ) by {
                    assert(starts@[t].valid());
                    if t < s {
                        assert(!held(before, starts@[t].corner()));
                    }
                }
                assert forall|v: Corner|
                    0 <= v.2 <= 1 && #[trigger] snap.successor(threshold, v) is Some implies held(
                    edges@,
                    v,
                ) || on_some(loops@, v) by {
                    snap.outline_is_on_the_lattice(threshold, v);
                    if on_some(prior, v) {
                        let a = choose|a: int| 0 <= a < prior.len() && listed((#[trigger] prior[a])@, v);
                        assert(listed(loops@[a]@, v));
                    } else if !held(edges@, v) {
                        assert(held(before, v));
                        assert(listed(loops@[prior.len() as int]@, v));
                    }
                }
                assert forall|a: int, i: int|
                    0 <= a < loops@.len() && 0 <= i < loops@[a]@.len() implies !held(
                    edges@,
                    (#[trigger] loops@[a]@[i]).corner(),
                ) by {
                    assert(closed_walk(*snap, threshold, loops@[a]@));
                    assert(loops@[a]@[i].valid());
                    if a < prior.len() {
                        assert(!held(before, prior[a]@[i].corner()));
                    } else {
                        assert(listed(ring@, loops@[a]@[i].corner()));
                    }
                }
                assert forall|a: int, i: int, b: int, j: int|
                    0 <= a < loops@.len() && 0 <= i < loops@[a]@.len() && 0 <= b < loops@.len() && 0
                        <= j < loops@[b]@.len() && (#[trigger] loops@[a]@[i]).corner() == (
                    #[trigger] loops@[b]@[j]).corner() implies a == b && i == j by {
                    if a < prior.len() && b == prior.len() {
                        assert(!held(before, prior[a]@[i].corner()));
                        assert(held(before, ring@[j].corner()));
                    } else if b < prior.len() && a == prior.len() {
                        assert(!held(before, prior[b]@[j].corner()));
                        assert(held(before, ring@[i].corner()));
                    } else if a < prior.len() {
                        assert(prior[a]@[i].corner() == prior[b]@[j].corner());
                    } else {
                        assert(ring@[i].corner() == ring@[j].corner());
                    }
                }
            }
        }
        s = s + 1;
    }
    proof {
        assert forall|v: Corner| 0 <= v.2 <= 1 && #[trigger] snap.successor(threshold, v) is Some implies on_some(
        loops@, v) by {
            let t = choose|t: int| 0 <= t < starts@.len() && (#[trigger] starts@[t]).corner() == v;
            assert(!held(edges@, starts@[t].corner()));
        }
    }
    loops
}

/// Every edge of the outline is walked by exactly one loop, once.
pub proof fn every_edge_is_walked_once(
    snap: Snapshot,
    threshold: u32,
    loops: Seq<Vec<Vertex>>,
    u: Corner,
    v: Corner,
)
    requires
        are_outlines(snap, threshold, loops),
        snap.runs(threshold, u, v),
        0 <= u.2 <= 1,
        0 <= v.2 <= 1,
    ensures
        exists|a: int, i: int|
            0 <= a < loops.len() && 0 <= i < loops[a]@.len() && (
            #[trigger] loops[a]@[i]).corner() == u && loops[a]@[(i + 1)
                % loops[a]@.len() as int].corner() == v,
        forall|a: int, i: int, b: int, j: int|
            0 <= a < loops.len() && 0 <= i < loops[a]@.len() && 0 <= b < loops.len() && 0 <= j
                < loops[b]@.len() && (#[trigger] loops[a]@[i]).corner() == u && (
            #[trigger] loops[b]@[j]).corner() == u ==> a == b && i == j,
{
    snap.outline_passes_once(threshold, u, v);
    assert(on_some(loops, u));
    let a = choose|a: int| 0 <= a < loops.len() && listed((#[trigger] loops[a])@, u);
    let i = choose|i: int| 0 <= i < loops[a]@.len() && (#[trigger] loops[a]@[i]).corner() == u;
    assert(closed_walk(snap, threshold, loops[a]@));
    assert(loops[a]@[i].corner() == u);
}

} // verus!
