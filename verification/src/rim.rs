//! Distance of crystal cells from the crystal's rim, by multi-source
//! breadth-first search over crystal cells.

use crate::automaton::Automaton;
use crate::hex;
use crate::lattice;
use vstd::prelude::*;

verus! {

/// Distance from which cells are no longer told apart.
pub const RIM_MAX: u8 = 255;

/// Steps between refreshes of the rim-distance map.
pub const RIM_REFRESH: u64 = 16;

/// Sum of the entries of a table.
pub open spec fn total(s: Seq<u8>) -> nat
    decreases s.len(),
{
    if s.len() == 0 {
        0
    } else {
        total(s.drop_last()) + s.last() as nat
    }
}

proof fn total_after_lowering(s: Seq<u8>, i: int, v: u8)
    requires
        0 <= i < s.len(),
        v < s[i],
    ensures
        total(s.update(i, v)) < total(s),
    decreases s.len(),
{
    let t = s.update(i, v);
    if i == s.len() - 1 {
        assert(t.drop_last() =~= s.drop_last());
    } else {
        total_after_lowering(s.drop_last(), i, v);
        assert(t.drop_last() =~= s.drop_last().update(i, v));
    }
}

/// Neighbours are mutual.
pub proof fn beside_is_mutual(n: int, w: int, i: int, k: int) -> (l: int)
    requires
        0 <= k < 6,
        0 <= i < n,
        lattice::beside(n, w, i, k) is Some,
    ensures
        0 <= l < 6,
        lattice::beside(n, w, lattice::beside(n, w, i, k).unwrap(), l) == Some(i),
{
    let (d, x, y) = (hex::direction(k), i % w, i / w);
    let j = lattice::beside(n, w, i, k).unwrap();
    vstd::arithmetic::div_mod::lemma_fundamental_div_mod(i, w);
    assert(j == (y + d.1) * w + (x + d.0)) by (nonlinear_arith)
        requires
            i == w * y + x,
            j == i + (d.1 * w + d.0),
    ;
    vstd::arithmetic::div_mod::lemma_fundamental_div_mod_converse(j, w, y + d.1, x + d.0);
    assert(0 * w == 0 && 1 * w == w && -1 * w == -w) by (nonlinear_arith);
    if k % 2 == 0 {
        k + 1
    } else {
        k - 1
    }
}

impl Automaton {
    /// Whether the k-th neighbour of entry `i` is missing or vapour.
    pub open spec fn open_beside(self, i: int, k: int) -> bool {
        match lattice::beside(self.n(), self.w(), i, k) {
            Some(j) => !self.ice@[j],
            None => true,
        }
    }

    /// Whether crystal cell `i` is on the rim: it lacks a crystal neighbour.
    pub open spec fn on_rim(self, i: int) -> bool {
        exists|k: int| 0 <= k < 6 && #[trigger] self.open_beside(i, k)
    }

    /// Whether a walk of at most `d` steps over crystal cells leads from
    /// entry `i` to the rim.
    pub open spec fn rim_within(self, i: int, d: nat) -> bool
        decreases d,
    {
        if d == 0 {
            self.on_rim(i)
        } else {
            self.rim_within(i, (d - 1) as nat) || exists|k: int|
                0 <= k < 6 && #[trigger] self.ice_beside(i, k) && self.rim_within(
                    lattice::beside(self.n(), self.w(), i, k).unwrap(),
                    (d - 1) as nat,
                )
        }
    }

    /// Whether `d` is the distance of crystal cell `i` from the rim, cut off
    /// at [`RIM_MAX`].
    pub open spec fn is_rim_distance(self, i: int, d: u8) -> bool {
        forall|m: nat| m < RIM_MAX ==> (d <= m <==> #[trigger] self.rim_within(i, m))
    }

    /// Whether cell (q, r) is a crystal cell of the lattice.
    pub open spec fn crystal_at(self, q: int, r: int) -> bool {
        lattice::on_grid(self.radius(), q, r) && self.ice@[lattice::flat(self.radius(), q, r)]
    }

    /// The rim is where the crystal ends: a cell is on it exactly where one of the
    /// six cells around it is not crystal.
    pub proof fn rim_cells_lack_a_neighbour(self, i: int)
        requires
            self.sized(),
            0 <= i < self.n(),
        ensures
            self.on_rim(i) <==> exists|q: int, r: int|
                hex::adjacent(self.cell(i), (q, r)) && !#[trigger] self.crystal_at(q, r),
    {
        let (big_r, c) = (self.radius(), self.cell(i));
        assert(self.stack.layer_ok(0));
        lattice::cell_is_inverted(big_r, i);
        if self.on_rim(i) {
            let k = choose|k: int| 0 <= k < 6 && #[trigger] self.open_beside(i, k);
            lattice::neighbours_go_by_coordinates(big_r, c.0, c.1, k);
            let d = hex::direction(k);
            assert(!self.crystal_at(c.0 + d.0, c.1 + d.1));
            assert(hex::adjacent(c, (c.0 + d.0, c.1 + d.1)));
        }
        if exists|q: int, r: int|
            hex::adjacent(self.cell(i), (q, r)) && !#[trigger] self.crystal_at(q, r) {
            let (q, r) = choose|q: int, r: int|
                hex::adjacent(self.cell(i), (q, r)) && !#[trigger] self.crystal_at(q, r);
            hex::directions_are_the_unit_cells(q - c.0, r - c.1);
            let k = choose|k: int|
                0 <= k < 6 && #[trigger] hex::direction(k) == (q - c.0, r - c.1);
            lattice::neighbours_go_by_coordinates(big_r, c.0, c.1, k);
            assert(self.open_beside(i, k));
        }
    }

    /// Rim distances count steps from the rim: zero exactly on the rim, never more
    /// than one step apart between neighbouring crystal cells, and off the rim one
    /// more than at some neighbour, up to the largest that is told apart.
    pub proof fn rim_distance_counts_steps(self, i: int, d: u8, k: int, e: u8)
        requires
            self.sized(),
            0 <= i < self.n(),
            self.ice@[i],
            self.is_rim_distance(i, d),
            0 <= k < 6,
            self.ice_beside(i, k) ==> self.is_rim_distance(
                lattice::beside(self.n(), self.w(), i, k).unwrap(),
                e,
            ),
        ensures
            d == 0 <==> self.on_rim(i),
            self.ice_beside(i, k) ==> d <= e + 1 && e <= d + 1,
            0 < d < 255 ==> exists|l: int|
                0 <= l < 6 && #[trigger] self.ice_beside(i, l) && self.is_rim_distance(
                    lattice::beside(self.n(), self.w(), i, l).unwrap(),
                    (d - 1) as u8,
                ),
            d == 255 ==> forall|m: nat| m < 255 ==> !#[trigger] self.rim_within(i, m),
    {
        assert(d <= 0 <==> self.rim_within(i, 0));
        if self.ice_beside(i, k) {
            let j = lattice::beside(self.n(), self.w(), i, k).unwrap();
            let l = beside_is_mutual(self.n(), self.w(), i, k);
            if e < 254 {
                assert(self.rim_within(j, e as nat));
                assert(self.rim_within(i, (e + 1) as nat));
            }
            if d < 254 {
                assert(self.rim_within(i, d as nat));
                assert(self.ice_beside(j, l));
                assert(self.rim_within(j, (d + 1) as nat));
            }
        }
        if 0 < d < 255 {
            assert(self.rim_within(i, d as nat));
            assert(!self.rim_within(i, (d - 1) as nat));
            let l = choose|l: int|
                0 <= l < 6 && #[trigger] self.ice_beside(i, l) && self.rim_within(
                    lattice::beside(self.n(), self.w(), i, l).unwrap(),
                    (d - 1) as nat,
                );
            let j = lattice::beside(self.n(), self.w(), i, l).unwrap();
            assert forall|m: nat| m < RIM_MAX implies ((d - 1) as u8 <= m
                <==> #[trigger] self.rim_within(j, m)) by {
                if d - 1 <= m {
                    self.walk_extends(j, (d - 1) as nat, m);
                } else if self.rim_within(j, m) {
                    assert(self.rim_within(i, m + 1));
                }
            }
            assert(self.is_rim_distance(j, (d - 1) as u8));
        }
    }

    /// Whether the neighbours of crystal cell `i` are at most a step further
    /// from the rim than `i`, by the labels `rim`.
    spec fn relaxed(self, rim: Seq<u8>, i: int) -> bool {
        forall|k: int|
            0 <= k < 6 && #[trigger] self.ice_beside(i, k) ==> rim[lattice::beside(
                self.n(),
                self.w(),
                i,
                k,
            ).unwrap()] <= rim[i] + 1
    }

    /// What holds of the labels `rim` during the search: labels are reached
    /// by walks, and every cell not waiting in `queue` is relaxed.
    spec fn searching(self, rim: Seq<u8>, queue: Seq<usize>, head: int) -> bool {
        &&& rim.len() == self.n()
        &&& forall|i: int|
            0 <= i < self.n() && self.ice@[i] && #[trigger] rim[i] < RIM_MAX ==> self.rim_within(
                i,
                rim[i] as nat,
            )
        &&& forall|i: int|
            0 <= i < self.n() && self.ice@[i] && self.on_rim(i) ==> #[trigger] rim[i] == 0
        &&& forall|i: int|
            0 <= i < self.n() && self.ice@[i] && #[trigger] rim[i] < RIM_MAX ==> self.relaxed(rim, i)
                || waiting(queue, head, i)
        &&& forall|p: int|
            0 <= p < queue.len() ==> #[trigger] queue[p] < self.n() && self.ice@[queue[p] as int]
    }

    proof fn walk_extends(self, i: int, d: nat, e: nat)
        requires
            self.rim_within(i, d),
            d <= e,
        ensures
            self.rim_within(i, e),
        decreases e,
    {
        if d < e {
            self.walk_extends(i, d, (e - 1) as nat);
        }
    }

    proof fn relaxed_labels_are_complete(self, rim: Seq<u8>, i: int, d: nat)
        requires
            self.searching(rim, Seq::empty(), 0),
            self.sized(),
            0 <= i < self.n(),
            self.ice@[i],
            d < RIM_MAX,
            self.rim_within(i, d),
        ensures
            rim[i] <= d,
        decreases d,
    {
        if d > 0 {
            if self.rim_within(i, (d - 1) as nat) {
                self.relaxed_labels_are_complete(rim, i, (d - 1) as nat);
            } else {
                let k = choose|k: int|
                    0 <= k < 6 && #[trigger] self.ice_beside(i, k) && self.rim_within(
                        lattice::beside(self.n(), self.w(), i, k).unwrap(),
                        (d - 1) as nat,
                    );
                let j = lattice::beside(self.n(), self.w(), i, k).unwrap();
                self.relaxed_labels_are_complete(rim, j, (d - 1) as nat);
                let l = beside_is_mutual(self.n(), self.w(), i, k);
                assert(rim[j] < RIM_MAX);
                assert(self.relaxed(rim, j));
                assert(self.ice_beside(j, l));
            }
        }
    }

    /// Whether the rim-distance map is refreshed at this step.
    pub open spec fn rim_is_due(self) -> bool {
        self.step % RIM_REFRESH == 0
    }

    /// The rim-distance map is refreshed at the first step and then at every
    /// sixteenth: of two steps fewer than sixteen apart, at most one refreshes it,
    /// and sixteen steps after one that does, the next does.
    pub proof fn the_rim_is_refreshed_every_sixteenth_step(self, later: Automaton)
        requires
            self.rim_is_due(),
            self.step <= later.step,
        ensures
            self.step < later.step < self.step + 16 ==> !later.rim_is_due(),
            later.step == self.step + 16 ==> later.rim_is_due(),
    {
    }

    /// The first step refreshes the rim-distance map.
    pub proof fn the_rim_is_refreshed_at_first(self)
        requires
            self.step == 0,
        ensures
            self.rim_is_due(),
    {
    }

    /// Whether the rim-distance map is due for a refresh at this step.
    pub fn rim_refresh_due(&self) -> (due: bool)
        ensures
            due == (self.step % RIM_REFRESH == 0),
            due == self.rim_is_due(),
    {
        self.step % RIM_REFRESH == 0
    }

    fn is_on_rim(&self, i: usize) -> (rim: bool)
        requires
            self.sized(),
            i < self.n(),
        ensures
            rim == self.on_rim(i as int),
    {
        let n: usize = self.ice.len();
        proof {
            assert(self.stack.layer_ok(0));
        }
        let w: usize = self.stack.layers[0].w;
        let mut k: usize = 0;
        while k < 6
            invariant
                self.sized(),
                i < n,
                n == self.n(),
                w == self.w(),
                k <= 6,
                forall|m: int| 0 <= m < k ==> !#[trigger] self.open_beside(i as int, m),
            decreases 6 - k,
        {
            let open: bool = match lattice::neighbour(n, w, i, k) {
                Some(j) => !self.ice[j],
                None => true,
            };
            if open {
                assert(self.open_beside(i as int, k as int));
                return true;
            }
            k = k + 1;
        }
        false
    }

    /// Multi-source breadth-first distance from the rim over crystal cells.
    pub fn refresh_rim_distance(&mut self)
        requires
            old(self).wf(),
        ensures
            final(self).wf(),
            final(self).same_crystal(*old(self)),
            final(self).attach@ == old(self).attach@,
            final(self).coarse@ == old(self).coarse@,
            final(self).step == old(self).step,
            final(self).sweeps == old(self).sweeps,
            forall|i: int|
                0 <= i < old(self).n() ==> if old(self).ice@[i] {
                    old(self).is_rim_distance(i, #[trigger] final(self).rim@[i])
                } else {
                    final(self).rim@[i] == old(self).rim@[i]
                },
    {
        let n: usize = self.ice.len();
        let ghost before = *self;
        proof {
            assert(self.stack.layer_ok(0));
        }
        let w: usize = self.stack.layers[0].w;
        let mut queue: Vec<usize> = Vec::new();
        let mut i: usize = 0;
        while i < n
            invariant
                before.wf(),
                n == before.n(),
                i <= n,
                self.sized(),
                self.same_crystal(before),
                self.attach@ == before.attach@,
                self.coarse@ == before.coarse@,
                self.step == before.step,
                self.sweeps == before.sweeps,
                forall|k: int|
                    0 <= k < n ==> #[trigger] self.rim@[k] == if k < i && before.ice@[k] {
                        if before.on_rim(k) {
                            0u8
                        } else {
                            RIM_MAX
                        }
                    } else {
                        before.rim@[k]
                    },
                forall|k: int|
                    0 <= k < i && #[trigger] before.ice@[k] && before.on_rim(k) ==> waiting(
                        queue@,
                        0,
                        k,
                    ),
                forall|p: int|
                    0 <= p < queue@.len() ==> #[trigger] queue@[p] < n
                        && before.ice@[queue@[p] as int],
            decreases n - i,
        {
            if self.ice[i] {
                let ghost prior = queue@;
                let rim: bool = self.is_on_rim(i);
                proof {
                    same_rim(*self, before, i as int);
                }
                if rim {
                    self.rim[i] = 0;
                    queue.push(i);
                    proof {
                        assert(queue@[prior.len() as int] == i);
                        assert forall|k: int|
                            0 <= k < i + 1 && #[trigger] before.ice@[k] && before.on_rim(k) implies waiting(
                            queue@,
                            0,
                            k,
                        ) by {
                            if k < i {
                                let p = choose|p: int| 0 <= p < prior.len() && #[trigger] prior[p] == k;
                                assert(queue@[p] == k);
                            }
                        }
                    }
                } else {
                    self.rim[i] = RIM_MAX;
                }
            }
            i = i + 1;
        }
        let mut head: usize = 0;
        proof {
            assert forall|k: int| 0 <= k < n && before.ice@[k] && #[trigger] self.rim@[k]
                < RIM_MAX implies before.relaxed(self.rim@, k) || waiting(queue@, 0, k) by {
                assert(before.ice@[k]);
            }
            assert(before.searching(self.rim@, queue@, 0));
        }
        while head < queue.len()
            invariant
                before.wf(),
                n == before.n(),
                w == before.w(),
                head <= queue@.len(),
                self.sized(),
                self.same_crystal(before),
                self.attach@ == before.attach@,
                self.coarse@ == before.coarse@,
                self.step == before.step,
                self.sweeps == before.sweeps,
                before.searching(self.rim@, queue@, head as int),
                forall|k: int|
                    0 <= k < n && !before.ice@[k] ==> #[trigger] self.rim@[k] == before.rim@[k],
            decreases total(self.rim@), queue@.len() - head,
        {
            let at: usize = queue[head];
            let ghost labels = self.rim@;
            let ghost ahead = queue@;
            head = head + 1;
            let d: u8 = self.rim[at].saturating_add(1);
            let mut k: usize = 0;
            while k < 6
                invariant
                    before.wf(),
                    n == before.n(),
                    w == before.w(),
                    k <= 6,
                    at < n,
                    before.ice@[at as int],
                    0 < head <= queue@.len(),
                    self.sized(),
                    self.same_crystal(before),
                    self.attach@ == before.attach@,
                    self.coarse@ == before.coarse@,
                    self.step == before.step,
                    self.sweeps == before.sweeps,
                    self.rim@[at as int] == labels[at as int],
                    d == if labels[at as int] < RIM_MAX {
                        labels[at as int] + 1
                    } else {
                        RIM_MAX as int
                    },
                    before.searching_but(self.rim@, queue@, head as int, at as int),
                    forall|m: int|
                        0 <= m < k && #[trigger] before.ice_beside(at as int, m)
                            ==> self.rim@[lattice::beside(
                            before.n(),
                            before.w(),
                            at as int,
                            m,
                        ).unwrap()] <= d,
                    forall|m: int|
                        0 <= m < n && !before.ice@[m] ==> #[trigger] self.rim@[m] == before.rim@[m],
                    total(self.rim@) < total(labels) || (self.rim@ == labels && queue@.len()
                        == ahead.len()),
                decreases 6 - k,
            {
                match lattice::neighbour(n, w, at, k) {
                    Some(j) => {
                        if self.ice[j] && self.rim[j] > d {
                            let ghost prior = self.rim@;
                            let ghost waited = queue@;
                            proof {
                                total_after_lowering(self.rim@, j as int, d);
                            }
                            self.rim[j] = d;
                            queue.push(j);
                            proof {
                                let l = beside_is_mutual(
                                    before.n(),
                                    before.w(),
                                    at as int,
                                    k as int,
                                );
                                before.lowering_keeps_search(
                                    prior,
                                    self.rim@,
                                    waited,
                                    queue@,
                                    head as int,
                                    at as int,
                                    j as int,
                                    l,
                                );
                            }
                        }
                    },
                    None => {},
                }
                k = k + 1;
            }
            proof {
                assert(before.relaxed(self.rim@, at as int) || self.rim@[at as int] >= RIM_MAX);
            }
        }
        proof {
            assert forall|i: int| 0 <= i < n implies if before.ice@[i] {
                before.is_rim_distance(i, #[trigger] self.rim@[i])
            } else {
                self.rim@[i] == before.rim@[i]
            } by {
                if before.ice@[i] {
                    assert(before.searching(self.rim@, Seq::empty(), 0));
                    assert forall|m: nat| m < RIM_MAX implies (self.rim@[i] <= m
                        <==> #[trigger] before.rim_within(i, m)) by {
                        if self.rim@[i] <= m {
                            before.walk_extends(i, self.rim@[i] as nat, m);
                        }
                        if before.rim_within(i, m) {
                            before.relaxed_labels_are_complete(self.rim@, i, m);
                        }
                    }
                }
            }
        }
    }

    /// As [`Automaton::searching`], with cell `at` exempt from being relaxed.
    spec fn searching_but(self, rim: Seq<u8>, queue: Seq<usize>, head: int, at: int) -> bool {
        &&& rim.len() == self.n()
        &&& forall|i: int|
            0 <= i < self.n() && self.ice@[i] && #[trigger] rim[i] < RIM_MAX ==> self.rim_within(
                i,
                rim[i] as nat,
            )
        &&& forall|i: int|
            0 <= i < self.n() && self.ice@[i] && self.on_rim(i) ==> #[trigger] rim[i] == 0
        &&& forall|i: int|
            0 <= i < self.n() && self.ice@[i] && i != at && #[trigger] rim[i] < RIM_MAX
                ==> self.relaxed(rim, i) || waiting(queue, head, i)
        &&& forall|p: int|
            0 <= p < queue.len() ==> #[trigger] queue[p] < self.n() && self.ice@[queue[p] as int]
    }

    proof fn lowering_keeps_search(
        self,
        prior: Seq<u8>,
        rim: Seq<u8>,
        waited: Seq<usize>,
        queue: Seq<usize>,
        head: int,
        at: int,
        j: int,
        l: int,
    )
        requires
            self.sized(),
            self.searching_but(prior, waited, head, at),
            0 <= at < self.n(),
            0 <= j < self.n(),
            self.ice@[at],
            self.ice@[j],
            0 <= l < 6,
            0 <= head <= waited.len(),
            lattice::beside(self.n(), self.w(), j, l) == Some(at),
            prior[j] > prior[at] + 1,
            prior[at] < RIM_MAX,
            rim == prior.update(j, (prior[at] + 1) as u8),
            queue == waited.push(j as usize),
            self.n() <= usize::MAX,
        ensures
            self.searching_but(rim, queue, head, at),
    {
        assert(j != at);
        assert(self.ice_beside(j, l));
        assert(self.rim_within(at, prior[at] as nat));
        assert(self.rim_within(j, rim[j] as nat));
        assert(queue[waited.len() as int] == j);
        assert(waiting(queue, head, j));
        assert forall|i: int|
            0 <= i < self.n() && self.ice@[i] && i != at && #[trigger] rim[i] < RIM_MAX implies self.relaxed(
        rim, i) || waiting(queue, head, i) by {
            if i != j {
                assert(prior[i] == rim[i]);
                if waiting(waited, head, i) {
                    let p = choose|p: int| head <= p < waited.len() && #[trigger] waited[p] == i;
                    assert(queue[p] == i);
                } else {
                    assert(self.relaxed(prior, i));
                }
            }
        }
        assert forall|i: int|
            0 <= i < self.n() && self.ice@[i] && self.on_rim(i) implies #[trigger] rim[i] == 0 by {
            assert(prior[i] == 0);
        }
        assert forall|i: int|
            0 <= i < self.n() && self.ice@[i] && #[trigger] rim[i] < RIM_MAX implies self.rim_within(
        i, rim[i] as nat) by {
            if i != j {
                assert(prior[i] == rim[i]);
            }
        }
    }
}

/// Whether entry `i` is in `queue` at or after position `head`.
pub open spec fn waiting(queue: Seq<usize>, head: int, i: int) -> bool {
    exists|p: int| head <= p < queue.len() && #[trigger] queue[p] == i
}

proof fn same_rim(a: Automaton, b: Automaton, i: int)
    requires
        a.stack == b.stack,
        a.ice@ == b.ice@,
    ensures
        a.on_rim(i) == b.on_rim(i),
{
    if a.on_rim(i) {
        let k = choose|k: int| 0 <= k < 6 && #[trigger] a.open_beside(i, k);
        assert(b.open_beside(i, k));
    }
    if b.on_rim(i) {
        let k = choose|k: int| 0 <= k < 6 && #[trigger] b.open_beside(i, k);
        assert(a.open_beside(i, k));
    }
}

} // verus!
