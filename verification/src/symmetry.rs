//! The twelve-fold symmetry of a crystal: images of a cell on the lattice,
//! and why shared draws keep a symmetric crystal symmetric.

use crate::automaton::Automaton;
use crate::growth::Growth;
use crate::hex;
use crate::lattice;
use vstd::prelude::*;

verus! {

/// Whether a table over a lattice of radius `radius` has the same entry for
/// cell (q, r), its rotation and its mirror image.
pub open spec fn agrees<T>(table: Seq<T>, radius: int, q: int, r: int) -> bool {
    &&& table[lattice::flat(radius, -r, q + r)] == table[lattice::flat(radius, q, r)]
    &&& table[lattice::flat(radius, r, q)] == table[lattice::flat(radius, q, r)]
}

/// Whether a table is the same for all symmetric images of every cell of the
/// lattice.
pub open spec fn symmetric<T>(table: Seq<T>, radius: int) -> bool {
    forall|q: int, r: int| hex::dist(q, r) <= radius ==> #[trigger] agrees(table, radius, q, r)
}

/// Images of (q, r), among the first `m` of the pairs (rotation, its mirror
/// image), that are selected, as array entries.
pub open spec fn selected_images(
    selected: Seq<bool>,
    radius: int,
    q: int,
    r: int,
    m: nat,
) -> Seq<usize>
    decreases m,
{
    if m == 0 {
        Seq::empty()
    } else {
        let c = hex::rotated((q, r), (m - 1) as nat);
        let before = selected_images(selected, radius, q, r, (m - 1) as nat);
        let turned = with_selected(before, selected, radius, c.0, c.1);
        with_selected(turned, selected, radius, c.1, c.0)
    }
}

/// `before`, with the entry of (q, r) if that cell lies inside the outer ring
/// and is selected.
pub open spec fn with_selected(
    before: Seq<usize>,
    selected: Seq<bool>,
    radius: int,
    q: int,
    r: int,
) -> Seq<usize> {
    let i = lattice::flat(radius, q, r);
    if hex::dist(q, r) < radius && selected[i] {
        before.push(i as usize)
    } else {
        before
    }
}

fn push_selected(images: &mut Vec<usize>, selected: &Vec<bool>, radius: i32, q: i32, r: i32)
    requires
        0 <= radius <= lattice::MAX_RADIUS,
        selected@.len() == lattice::area(radius as int),
        lattice::area(radius as int) <= usize::MAX,
        hex::in_range(q as int, r as int),
    ensures
        final(images)@ == with_selected(
            old(images)@,
            selected@,
            radius as int,
            q as int,
            r as int,
        ),
{
    if hex::hex_distance(q, r) < radius {
        let i: usize = lattice::flat_index(radius, q, r);
        if selected[i] {
            images.push(i);
        }
    }
}

/// Array entries of the twelve images of cell (q, r) that lie inside the outer
/// ring and are selected, rotation by rotation, each with its mirror image.
pub fn images(selected: &Vec<bool>, radius: i32, q: i32, r: i32) -> (entries: Vec<usize>)
    requires
        0 <= radius <= lattice::MAX_RADIUS,
        selected@.len() == lattice::area(radius as int),
        lattice::area(radius as int) <= usize::MAX,
        lattice::on_grid(radius as int, q as int, r as int),
    ensures
        entries@ == selected_images(selected@, radius as int, q as int, r as int, 6),
{
    let mut entries: Vec<usize> = Vec::new();
    let mut x: i32 = q;
    let mut y: i32 = r;
    let mut k: usize = 0;
    while k < 6
        invariant
            0 <= radius <= lattice::MAX_RADIUS,
            selected@.len() == lattice::area(radius as int),
            lattice::area(radius as int) <= usize::MAX,
            k <= 6,
            (x as int, y as int) == hex::rotated((q as int, r as int), k as nat),
            hex::dist(x as int, y as int) <= 2 * lattice::MAX_RADIUS,
            entries@ == selected_images(
                selected@,
                radius as int,
                q as int,
                r as int,
                k as nat,
            ),
        decreases 6 - k,
    {
        push_selected(&mut entries, selected, radius, x, y);
        push_selected(&mut entries, selected, radius, y, x);
        let turned: (i32, i32) = (-y, x + y);
        x = turned.0;
        y = turned.1;
        k = k + 1;
    }
    entries
}

/// The selected ones of (q, r) and its mirror image.
pub open spec fn selected_pair(selected: Seq<bool>, radius: int, c: hex::Cell) -> Seq<usize> {
    with_selected(
        with_selected(Seq::empty(), selected, radius, c.0, c.1),
        selected,
        radius,
        c.1,
        c.0,
    )
}

proof fn images_are_pairs(selected: Seq<bool>, radius: int, c: hex::Cell, m: nat)
    ensures
        m > 0 ==> selected_images(selected, radius, c.0, c.1, m) == selected_images(
            selected,
            radius,
            c.0,
            c.1,
            (m - 1) as nat,
        ) + selected_pair(selected, radius, hex::rotated(c, (m - 1) as nat)),
{
    if m > 0 {
        assert(selected_images(selected, radius, c.0, c.1, m) =~= selected_images(
            selected,
            radius,
            c.0,
            c.1,
            (m - 1) as nat,
        ) + selected_pair(selected, radius, hex::rotated(c, (m - 1) as nat)));
    }
}

proof fn images_as_multiset(selected: Seq<bool>, radius: int, c: hex::Cell)
    ensures
        selected_images(selected, radius, c.0, c.1, 6).to_multiset() =~= selected_pair(
            selected,
            radius,
            hex::rotated(c, 0),
        ).to_multiset().add(
            selected_pair(selected, radius, hex::rotated(c, 1)).to_multiset(),
        ).add(selected_pair(selected, radius, hex::rotated(c, 2)).to_multiset()).add(
            selected_pair(selected, radius, hex::rotated(c, 3)).to_multiset(),
        ).add(selected_pair(selected, radius, hex::rotated(c, 4)).to_multiset()).add(
            selected_pair(selected, radius, hex::rotated(c, 5)).to_multiset(),
        ),
{
    images_are_pairs(selected, radius, c, 1);
    images_are_pairs(selected, radius, c, 2);
    images_are_pairs(selected, radius, c, 3);
    images_are_pairs(selected, radius, c, 4);
    images_are_pairs(selected, radius, c, 5);
    images_are_pairs(selected, radius, c, 6);
    let s = |m: nat| selected_images(selected, radius, c.0, c.1, m);
    let p = |m: nat| selected_pair(selected, radius, hex::rotated(c, m));
    assert(s(0) =~= Seq::<usize>::empty());
    assert(s(1) =~= p(0));
    vstd::seq_lib::lemma_multiset_commutative(s(1), p(1));
    vstd::seq_lib::lemma_multiset_commutative(s(2), p(2));
    vstd::seq_lib::lemma_multiset_commutative(s(3), p(3));
    vstd::seq_lib::lemma_multiset_commutative(s(4), p(4));
    vstd::seq_lib::lemma_multiset_commutative(s(5), p(5));
}

proof fn pairs_of_mirror_images(selected: Seq<bool>, radius: int, c: hex::Cell)
    ensures
        selected_pair(selected, radius, hex::mirror(c)).to_multiset() =~= selected_pair(
            selected,
            radius,
            c,
        ).to_multiset(),
{
    broadcast use vstd::seq_lib::group_to_multiset_ensures;
    broadcast use vstd::multiset::group_multiset_axioms;

    let none = Seq::<usize>::empty();
    let a = with_selected(none, selected, radius, c.0, c.1);
    let b = with_selected(none, selected, radius, c.1, c.0);
    assert(selected_pair(selected, radius, c) =~= a + b);
    assert(selected_pair(selected, radius, hex::mirror(c)) =~= b + a);
    vstd::seq_lib::lemma_multiset_commutative(a, b);
    vstd::seq_lib::lemma_multiset_commutative(b, a);
}

/// All images of a cell average over the same entries: the selected images of
/// a cell, of its rotation and of its mirror image are the same, each as
/// often.
pub proof fn images_are_shared(selected: Seq<bool>, radius: int, c: hex::Cell)
    ensures
        ({
            let own = selected_images(selected, radius, c.0, c.1, 6).to_multiset();
            let r = hex::rotate(c);
            let m = hex::mirror(c);
            &&& selected_images(selected, radius, r.0, r.1, 6).to_multiset() == own
            &&& selected_images(selected, radius, m.0, m.1, 6).to_multiset() == own
        }),
{
    let r = hex::rotate(c);
    let m = hex::mirror(c);
    images_as_multiset(selected, radius, c);
    images_as_multiset(selected, radius, r);
    images_as_multiset(selected, radius, m);
    hex::six_rotations_return(c);
    hex::six_rotations_return(r);
    hex::six_rotations_return(m);
    assert(hex::rotated(c, 0) == c && hex::rotated(r, 0) == r && hex::rotated(m, 0) == m);
    pairs_of_mirror_images(selected, radius, c);
    pairs_of_mirror_images(selected, radius, hex::rotated(c, 1));
    pairs_of_mirror_images(selected, radius, hex::rotated(c, 2));
    pairs_of_mirror_images(selected, radius, hex::rotated(c, 3));
    pairs_of_mirror_images(selected, radius, hex::rotated(c, 4));
    pairs_of_mirror_images(selected, radius, hex::rotated(c, 5));
    assert(hex::rotated(r, 1) == hex::rotated(c, 2));
    assert(hex::rotated(r, 2) == hex::rotated(c, 3));
    assert(hex::rotated(r, 3) == hex::rotated(c, 4));
    assert(hex::rotated(r, 4) == hex::rotated(c, 5));
    assert(hex::rotated(r, 5) == c);
    assert(hex::rotated(m, 1) == hex::mirror(hex::rotated(c, 5)));
    assert(hex::rotated(m, 2) == hex::mirror(hex::rotated(c, 4)));
    assert(hex::rotated(m, 3) == hex::mirror(hex::rotated(c, 3)));
    assert(hex::rotated(m, 4) == hex::mirror(hex::rotated(c, 2)));
    assert(hex::rotated(m, 5) == hex::mirror(hex::rotated(c, 1)));
    assert(selected_images(selected, radius, r.0, r.1, 6).to_multiset() =~= selected_images(
        selected,
        radius,
        c.0,
        c.1,
        6,
    ).to_multiset());
    assert(selected_images(selected, radius, m.0, m.1, 6).to_multiset() =~= selected_images(
        selected,
        radius,
        c.0,
        c.1,
        6,
    ).to_multiset());
}

proof fn image_entries(selected: Seq<bool>, radius: int, q: int, r: int, m: nat, e: int)
    requires
        0 <= radius,
        selected.len() == lattice::area(radius),
        lattice::area(radius) <= usize::MAX,
        0 <= e < selected.len(),
    ensures
        selected_images(selected, radius, q, r, m).contains(e as usize) <==> selected[e]
            && hex::dist(lattice::cell_of(radius, e).0, lattice::cell_of(radius, e).1) < radius
            && exists|k: nat|
            k < m && (#[trigger] hex::rotated((q, r), k) == lattice::cell_of(radius, e)
                || hex::mirror(hex::rotated((q, r), k)) == lattice::cell_of(radius, e)),
    decreases m,
{
    let at = lattice::cell_of(radius, e);
    lattice::cell_is_inverted(radius, e);
    if m > 0 {
        let l = (m - 1) as nat;
        image_entries(selected, radius, q, r, l, e);
        let c = hex::rotated((q, r), l);
        let before = selected_images(selected, radius, q, r, l);
        let turned = with_selected(before, selected, radius, c.0, c.1);
        let here = selected_images(selected, radius, q, r, m);
        pushed_entries(before, selected, radius, c.0, c.1, e);
        pushed_entries(turned, selected, radius, c.1, c.0, e);
        assert(hex::mirror(c) == (c.1, c.0));
        if selected[e] && hex::dist(at.0, at.1) < radius && (c == at || hex::mirror(c) == at) {
            assert(exists|k: nat|
                k < m && (#[trigger] hex::rotated((q, r), k) == at || hex::mirror(
                    hex::rotated((q, r), k),
                ) == at));
        }
        if exists|k: nat|
            k < m && (#[trigger] hex::rotated((q, r), k) == at || hex::mirror(
                hex::rotated((q, r), k),
            ) == at) {
            let k = choose|k: nat|
                k < m && (#[trigger] hex::rotated((q, r), k) == at || hex::mirror(
                    hex::rotated((q, r), k),
                ) == at);
            if k == l {
                assert(c == at || hex::mirror(c) == at);
            } else {
                assert(k < l);
            }
        }
        if before.contains(e as usize) {
            let k = choose|k: nat|
                k < l && (#[trigger] hex::rotated((q, r), k) == at || hex::mirror(
                    hex::rotated((q, r), k),
                ) == at);
            assert(k < m);
        }
    }
}

proof fn pushed_entries(
    before: Seq<usize>,
    selected: Seq<bool>,
    radius: int,
    q: int,
    r: int,
    e: int,
)
    requires
        0 <= radius,
        selected.len() == lattice::area(radius),
        lattice::area(radius) <= usize::MAX,
        0 <= e < selected.len(),
    ensures
        with_selected(before, selected, radius, q, r).contains(e as usize) <==> before.contains(
            e as usize,
        ) || ((q, r) == lattice::cell_of(radius, e) && hex::dist(q, r) < radius && selected[e]),
{
    let i = lattice::flat(radius, q, r);
    let after = with_selected(before, selected, radius, q, r);
    lattice::cell_is_inverted(radius, e);
    if hex::dist(q, r) < radius {
        lattice::flat_is_inverted(radius, q, r);
        if selected[i] {
            assert(after[before.len() as int] == i as usize);
        }
    }
    if before.contains(e as usize) {
        let t = choose|t: int| 0 <= t < before.len() && before[t] == e as usize;
        assert(after[t] == e as usize);
    }
    if after.contains(e as usize) && !before.contains(e as usize) {
        let t = choose|t: int| 0 <= t < after.len() && after[t] == e as usize;
        if t < before.len() {
            assert(before[t] == e as usize);
        }
    }
}

/// The images that a cell averages over are all its symmetric images that lie
/// inside the outer ring and are selected, itself among them, and nothing else.
pub proof fn images_are_the_selected_orbit(
    selected: Seq<bool>,
    radius: int,
    c: hex::Cell,
    e: int,
)
    requires
        0 <= radius,
        selected.len() == lattice::area(radius),
        lattice::area(radius) <= usize::MAX,
        0 <= e < selected.len(),
    ensures
        selected_images(selected, radius, c.0, c.1, 6).contains(e as usize) <==> selected[e]
            && hex::dist(lattice::cell_of(radius, e).0, lattice::cell_of(radius, e).1) < radius
            && hex::same_orbit(c, lattice::cell_of(radius, e)),
        hex::same_orbit(c, c),
{
    let at = lattice::cell_of(radius, e);
    image_entries(selected, radius, c.0, c.1, 6, e);
    assert(hex::image(c, 0) == c);
    if exists|k: nat|
        k < 6 && (#[trigger] hex::rotated((c.0, c.1), k) == at || hex::mirror(
            hex::rotated((c.0, c.1), k),
        ) == at) {
        let k = choose|k: nat|
            k < 6 && (#[trigger] hex::rotated((c.0, c.1), k) == at || hex::mirror(
                hex::rotated((c.0, c.1), k),
            ) == at);
        if hex::rotated(c, k) == at {
            assert(hex::image(c, k) == at);
        } else {
            assert(hex::image(c, k + 6) == at);
        }
    }
    if hex::same_orbit(c, at) {
        let k = choose|k: nat| k < 12 && #[trigger] hex::image(c, k) == at;
        let l = if k < 6 {
            k
        } else {
            (k - 6) as nat
        };
        assert(hex::rotated((c.0, c.1), l) == at || hex::mirror(hex::rotated((c.0, c.1), l)) == at);
    }
}

/// Index of a direction after a rotation by 60 degrees.
spec fn turned(k: int) -> int {
    if k == 0 {
        2
    } else if k == 2 {
        5
    } else if k == 5 {
        1
    } else if k == 1 {
        3
    } else if k == 3 {
        4
    } else {
        0
    }
}

/// Index of a direction after a reflection.
spec fn flipped(k: int) -> int {
    if k == 0 {
        2
    } else if k == 2 {
        0
    } else if k == 1 {
        3
    } else if k == 3 {
        1
    } else if k == 4 {
        5
    } else {
        4
    }
}

impl Automaton {
    proof fn ice_beside_images(self, q: int, r: int, k: int)
        requires
            self.sized(),
            symmetric(self.ice@, self.radius()),
            hex::dist(q, r) < self.radius(),
            0 <= k < 6,
        ensures
            ({
                let i = lattice::flat(self.radius(), q, r);
                let rotated = lattice::flat(self.radius(), -r, q + r);
                let mirrored = lattice::flat(self.radius(), r, q);
                &&& self.ice_beside(rotated, turned(k)) == self.ice_beside(i, k)
                &&& self.ice_beside(mirrored, flipped(k)) == self.ice_beside(i, k)
            }),
    {
        let big_r = self.radius();
        let d = hex::direction(k);
        lattice::inner_cells_have_all_neighbours(big_r, q, r, k);
        lattice::inner_cells_have_all_neighbours(big_r, -r, q + r, turned(k));
        lattice::inner_cells_have_all_neighbours(big_r, r, q, flipped(k));
        assert(agrees(self.ice@, big_r, q + d.0, r + d.1));
        assert(hex::direction(turned(k)) == (-d.1, d.0 + d.1));
        assert(hex::direction(flipped(k)) == (d.1, d.0));
        lattice::flat_is_inverted(big_r, q + d.0, r + d.1);
        lattice::flat_is_inverted(big_r, -r - d.1, q + r + d.0 + d.1);
        lattice::flat_is_inverted(big_r, r + d.1, q + d.0);
    }

    /// In a symmetric crystal the images of a cell have as many ice
    /// neighbours as the cell, and are boundary sites of the same kind.
    pub proof fn sites_are_symmetric(self, q: int, r: int)
        requires
            self.sized(),
            symmetric(self.ice@, self.radius()),
            hex::dist(q, r) <= self.radius(),
        ensures
            self.site_kind(lattice::flat(self.radius(), -r, q + r)) == self.site_kind(
                lattice::flat(self.radius(), q, r),
            ),
            self.site_kind(lattice::flat(self.radius(), r, q)) == self.site_kind(
                lattice::flat(self.radius(), q, r),
            ),
    {
        let big_r = self.radius();
        assert(agrees(self.ice@, big_r, q, r));
        lattice::flat_is_inverted(big_r, q, r);
        lattice::flat_is_inverted(big_r, -r, q + r);
        lattice::flat_is_inverted(big_r, r, q);
        hex::symmetries_keep_distance((q, r));
        if hex::dist(q, r) < big_r {
            reveal_with_fuel(Automaton::ice_among, 7);
            self.ice_beside_images(q, r, 0);
            self.ice_beside_images(q, r, 1);
            self.ice_beside_images(q, r, 2);
            self.ice_beside_images(q, r, 3);
            self.ice_beside_images(q, r, 4);
            self.ice_beside_images(q, r, 5);
        }
    }

    /// Sites of a symmetric crystal that are full alike and wait for the same
    /// draw join together with their images.
    pub proof fn joining_is_symmetric(self, growth: Growth, q: int, r: int)
        requires
            self.sized(),
            symmetric(self.ice@, self.radius()),
            growth.shares_draws(),
            growth.decides_alike(self.radius()),
            hex::dist(q, r) <= self.radius(),
        ensures
            self.joins(lattice::flat(self.radius(), -r, q + r), growth) == self.joins(
                lattice::flat(self.radius(), q, r),
                growth,
            ),
            self.joins(lattice::flat(self.radius(), r, q), growth) == self.joins(
                lattice::flat(self.radius(), q, r),
                growth,
            ),
    {
        let big_r = self.radius();
        self.sites_are_symmetric(q, r);
        assert(growth.agrees_on(big_r, q, r));
        lattice::flat_is_inverted(big_r, q, r);
        lattice::flat_is_inverted(big_r, -r, q + r);
        lattice::flat_is_inverted(big_r, r, q);
        hex::symmetries_keep_distance((q, r));
        hex::representative_is_invariant((q, r));
        assert(hex::rotate((q, r)) == (-r, q + r));
        assert(hex::mirror((q, r)) == (r, q));
    }
}

/// Shared draws keep the crystal symmetric: after a step whose draws are
/// shared between images (or off), a symmetric crystal is symmetric if
/// symmetric sites are full alike and have the same threshold; and so are its
/// heights if symmetric cells get the same height.
pub proof fn growth_keeps_symmetry(crystal: Automaton, grown: Automaton, growth: Growth)
    requires
        crystal.sized(),
        symmetric(crystal.ice@, crystal.radius()),
        grown.grown_from(crystal, growth),
        growth.shares_draws(),
        growth.decides_alike(crystal.radius()),
    ensures
        symmetric(grown.ice@, crystal.radius()),
        symmetric(crystal.h@, crystal.radius()) && symmetric(growth.heights, crystal.radius())
            ==> symmetric(grown.h@, crystal.radius()),
{
    let big_r = crystal.radius();
    assert forall|q: int, r: int| hex::dist(q, r) <= big_r implies #[trigger] agrees(
        grown.ice@,
        big_r,
        q,
        r,
    ) by {
        crystal.joining_is_symmetric(growth, q, r);
        assert(agrees(crystal.ice@, big_r, q, r));
        lattice::flat_is_inverted(big_r, q, r);
        lattice::flat_is_inverted(big_r, -r, q + r);
        lattice::flat_is_inverted(big_r, r, q);
    }
    if symmetric(crystal.h@, big_r) && symmetric(growth.heights, big_r) {
        assert forall|q: int, r: int| hex::dist(q, r) <= big_r implies #[trigger] agrees(
            grown.h@,
            big_r,
            q,
            r,
        ) by {
            assert(agrees(grown.ice@, big_r, q, r));
            assert(agrees(crystal.h@, big_r, q, r));
            assert(agrees(growth.heights, big_r, q, r));
            lattice::flat_is_inverted(big_r, q, r);
            lattice::flat_is_inverted(big_r, -r, q + r);
            lattice::flat_is_inverted(big_r, r, q);
        }
    }
}

/// A crystal that starts as a single cell or as that cell and a hexagonal
/// disc around it is symmetric.
pub proof fn seeds_are_symmetric(seeded: Automaton, rs: int)
    requires
        seeded.sized(),
        rs >= 0,
        forall|i: int| 0 <= i < seeded.n() ==> #[trigger] seeded.ice@[i] == (seeded.far(i) <= rs),
    ensures
        symmetric(seeded.ice@, seeded.radius()),
{
    let big_r = seeded.radius();
    assert forall|q: int, r: int| hex::dist(q, r) <= big_r implies #[trigger] agrees(
        seeded.ice@,
        big_r,
        q,
        r,
    ) by {
        lattice::flat_is_inverted(big_r, q, r);
        lattice::flat_is_inverted(big_r, -r, q + r);
        lattice::flat_is_inverted(big_r, r, q);
        hex::symmetries_keep_distance((q, r));
    }
}

/// New ice touches the crystal as it was: every site that is marked, and so
/// every cell that joins, has a crystal neighbour.
pub proof fn sites_touch_the_crystal(crystal: Automaton, i: int)
    requires
        crystal.sized(),
        0 <= i < crystal.n(),
        crystal.site_kind(i) != 0,
    ensures
        !crystal.ice@[i],
        exists|k: int| 0 <= k < 6 && #[trigger] crystal.ice_beside(i, k),
{
    reveal_with_fuel(Automaton::ice_among, 7);
    if !(exists|k: int| 0 <= k < 6 && #[trigger] crystal.ice_beside(i, k)) {
        assert(!crystal.ice_beside(i, 0) && !crystal.ice_beside(i, 1) && !crystal.ice_beside(i, 2)
            && !crystal.ice_beside(i, 3) && !crystal.ice_beside(i, 4) && !crystal.ice_beside(i, 5));
    }
}

/// The crystal only grows: attaching sites keeps every crystal cell, and
/// neither its number of cells nor its radius falls.
pub proof fn crystal_only_grows(crystal: Automaton, grown: Automaton, heights: Seq<u32>)
    requires
        crystal.wf(),
        grown.wf(),
        grown.attached_from(crystal, heights),
    ensures
        forall|i: int| 0 <= i < crystal.n() && #[trigger] crystal.ice@[i] ==> grown.ice@[i],
        grown.crystal_cells >= crystal.crystal_cells,
        grown.crystal_radius >= crystal.crystal_radius,
        (forall|i: int| 0 <= i < crystal.n() ==> #[trigger] crystal.attach@[i] == 0)
            ==> grown.crystal_cells == crystal.crystal_cells && grown.ice@ == crystal.ice@,
{
    assert forall|i: int| 0 <= i < crystal.n() && #[trigger] crystal.ice@[i] implies grown.ice@[i] by {}
    crate::automaton::count_is_monotone(crystal.ice@, grown.ice@);
    let f = choose|f: int|
        0 <= f < crystal.n() && #[trigger] crystal.ice@[f] && crystal.far(f)
            == crystal.crystal_radius;
    assert(grown.ice@[f]);
    assert(grown.far(f) == crystal.far(f));
    if forall|i: int| 0 <= i < crystal.n() ==> #[trigger] crystal.attach@[i] == 0 {
        assert(grown.ice@ =~= crystal.ice@);
    }
}

} // verus!
