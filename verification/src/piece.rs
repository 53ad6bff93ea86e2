//! The crystal is one piece: from each of its cells a chain of crystal cells,
//! each beside the next, leads to the centre.

use crate::automaton::Automaton;
use crate::hex;
use crate::lattice;
use crate::symmetry;
use vstd::prelude::*;

verus! {

impl Automaton {
    /// Whether a chain of at most `d` steps over crystal cells leads from
    /// crystal cell `i` to the centre.
    pub open spec fn joined_within(self, i: int, d: nat) -> bool
        decreases d,
    {
        self.ice@[i] && (self.cell(i) == (0int, 0int) || (d > 0 && exists|k: int|
            0 <= k < 6 && #[trigger] self.ice_beside(i, k) && self.joined_within(
                lattice::beside(self.n(), self.w(), i, k).unwrap(),
                (d - 1) as nat,
            )))
    }

    /// Whether all crystal cells hang together with the centre.
    pub open spec fn in_one_piece(self) -> bool {
        forall|i: int|
            0 <= i < self.n() && #[trigger] self.ice@[i] ==> exists|d: nat| #[trigger]
                self.joined_within(i, d)
    }
}

proof fn chains_last(crystal: Automaton, grown: Automaton, i: int, d: nat)
    requires
        crystal.sized(),
        grown.stack == crystal.stack,
        forall|j: int| 0 <= j < crystal.n() && #[trigger] crystal.ice@[j] ==> grown.ice@[j],
        0 <= i < crystal.n(),
        crystal.joined_within(i, d),
    ensures
        grown.joined_within(i, d),
    decreases d,
{
    if crystal.cell(i) != (0int, 0int) {
        let k = choose|k: int|
            0 <= k < 6 && #[trigger] crystal.ice_beside(i, k) && crystal.joined_within(
                lattice::beside(crystal.n(), crystal.w(), i, k).unwrap(),
                (d - 1) as nat,
            );
        let b = lattice::beside(crystal.n(), crystal.w(), i, k).unwrap();
        chains_last(crystal, grown, b, (d - 1) as nat);
        assert(grown.ice_beside(i, k));
    }
}

/// A crystal in one piece stays in one piece when boundary sites join it.
pub proof fn growth_keeps_one_piece(crystal: Automaton, grown: Automaton)
    requires
        crystal.sized(),
        crystal.in_one_piece(),
        grown.stack == crystal.stack,
        forall|i: int|
            0 <= i < crystal.n() ==> (#[trigger] grown.ice@[i] ==> crystal.ice@[i]
                || crystal.site_kind(i) != 0),
        forall|i: int| 0 <= i < crystal.n() && #[trigger] crystal.ice@[i] ==> grown.ice@[i],
    ensures
        grown.in_one_piece(),
{
    assert forall|i: int| 0 <= i < grown.n() && #[trigger] grown.ice@[i] implies exists|d: nat|
        #[trigger] grown.joined_within(i, d) by {
        if crystal.ice@[i] {
            let d = choose|d: nat| #[trigger] crystal.joined_within(i, d);
            chains_last(crystal, grown, i, d);
        } else {
            symmetry::sites_touch_the_crystal(crystal, i);
            let k = choose|k: int| 0 <= k < 6 && #[trigger] crystal.ice_beside(i, k);
            let b = lattice::beside(crystal.n(), crystal.w(), i, k).unwrap();
            let d = choose|d: nat| #[trigger] crystal.joined_within(b, d);
            chains_last(crystal, grown, b, d);
            assert(grown.ice_beside(i, k));
            assert(grown.joined_within(i, d + 1));
        }
    }
}

proof fn disc_chain(seeded: Automaton, rs: int, i: int, d: nat)
    requires
        seeded.sized(),
        rs <= seeded.radius(),
        forall|j: int| 0 <= j < seeded.n() ==> #[trigger] seeded.ice@[j] == (seeded.far(j) <= rs),
        0 <= i < seeded.n(),
        seeded.far(i) == d,
        d <= rs,
    ensures
        seeded.joined_within(i, d),
    decreases d,
{
    assert(seeded.ice@[i]);
    let c = seeded.cell(i);
    let big_r = seeded.radius();
    hex::symmetries_keep_distance(c);
    if c != (0int, 0int) {
        hex::some_neighbour_is_closer(c);
        let k = choose|k: int|
            0 <= k < 6 && hex::dist(c.0 + (#[trigger] hex::direction(k)).0, c.1 + hex::direction(k).1)
                == hex::dist(c.0, c.1) - 1;
        let e = (c.0 + hex::direction(k).0, c.1 + hex::direction(k).1);
        let b = lattice::flat(big_r, e.0, e.1);
        assert(seeded.stack.layer_ok(0));
        lattice::cell_is_inverted(big_r, i);
        lattice::flat_is_inverted(big_r, e.0, e.1);
        lattice::flat_of_neighbour(big_r, c.0, c.1, k);
        assert(lattice::beside(seeded.n(), seeded.w(), i, k) == Some(b));
        assert(seeded.far(b) == d - 1);
        disc_chain(seeded, rs, b, (d - 1) as nat);
        assert(seeded.ice_beside(i, k));
    }
}

/// A crystal that starts as a single cell or as a hexagonal disc is in one
/// piece.
pub proof fn seeds_are_in_one_piece(seeded: Automaton, rs: int)
    requires
        seeded.sized(),
        0 <= rs <= seeded.radius(),
        forall|i: int| 0 <= i < seeded.n() ==> #[trigger] seeded.ice@[i] == (seeded.far(i) <= rs),
    ensures
        seeded.in_one_piece(),
{
    assert forall|i: int| 0 <= i < seeded.n() && #[trigger] seeded.ice@[i] implies exists|d: nat|
        #[trigger] seeded.joined_within(i, d) by {
        hex::symmetries_keep_distance(seeded.cell(i));
        disc_chain(seeded, rs, i, seeded.far(i) as nat);
    }
}

} // verus!
