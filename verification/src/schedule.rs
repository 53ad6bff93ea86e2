//! The order in which the vapour field is relaxed.
//!
//! A sweep runs in six passes: layers of one parity at a time (layers only
//! couple to their neighbours above and below), and within them a 3-colouring
//! of the hex lattice, which differs between every pair of in-plane
//! neighbours.  Each pass reads only cells of other passes, so its cells can
//! be updated in any order, in place, with the same outcome.

use crate::automaton::Automaton;
use crate::hex;
use crate::lattice;
use crate::layers;
use crate::layers::{Layer, LayerStack};
use crate::stencil;
use crate::stencil::{Above, Below, Feed};
use vstd::prelude::*;

verus! {

/// What a field cell starts a relaxation from.
#[derive(Clone, Copy, PartialEq, Eq, Structural, Debug)]
pub enum Start {
    /// Nothing: the cell is ice.
    Ice,
    /// The far field at these lattice coordinates: the cell lies on the outer
    /// ring of its layer, or past it.
    Far(i32, i32),
    /// The value it has.
    Keep,
}

/// One of the six passes of a sweep.
#[derive(Clone, Copy, PartialEq, Eq, Structural, Debug)]
pub struct Pass {
    /// Parity of the layers it updates.
    pub parity: usize,
    /// Colour of the cells it updates.
    pub colour: i32,
}

/// A stretch of rows of one layer, handled together.
#[derive(Clone, Copy, PartialEq, Eq, Structural, Debug)]
pub struct Task {
    pub layer: usize,
    pub first_row: i32,
}

impl Pass {
    pub open spec fn valid(self) -> bool {
        self.parity < 2 && 0 <= self.colour < 3
    }
}

impl Task {
    /// Whether the task, of `rows` rows, handles row `r` of layer `j`.
    pub open spec fn handles(self, rows: int, j: int, r: int) -> bool {
        self.layer == j && self.first_row <= r < self.first_row + rows
    }
}

/// Whether a pass of a sweep updates cell (q, r) of layer `j`.
pub open spec fn updates(stack: LayerStack, pass: Pass, j: int, q: int, r: int) -> bool {
    &&& stack.interior(j, q, r)
    &&& j % 2 == pass.parity
    &&& hex::colour(q, r) == pass.colour
}

/// The order of two tasks.
pub open spec fn before(a: Task, b: Task) -> bool {
    a.layer < b.layer || (a.layer == b.layer && a.first_row < b.first_row)
}

impl LayerStack {
    /// Whether `tasks`, of `rows` rows each, are in order and handle every
    /// row of the lowest `m` layers exactly once.
    pub open spec fn partitioned(self, tasks: Seq<Task>, rows: int, m: int) -> bool {
        &&& forall|t: int|
            0 <= t < tasks.len() ==> (#[trigger] tasks[t]).layer < m
                && -self.layers@[tasks[t].layer as int].radius <= tasks[t].first_row
                <= self.layers@[tasks[t].layer as int].radius
        &&& forall|s: int, t: int| 0 <= s < t < tasks.len() ==> before(tasks[s], tasks[t])
        &&& forall|j: int, r: int|
            0 <= j < m && -self.layers@[j].radius <= r <= self.layers@[j].radius ==> handled(
                tasks,
                rows,
                j,
                r,
            )
        &&& forall|s: int, t: int|
            0 <= s < t < tasks.len() && (#[trigger] tasks[s]).layer == (#[trigger] tasks[t]).layer
                ==> tasks[s].first_row + rows <= tasks[t].first_row
    }

    /// The tasks of a sweep, `rows` rows of a layer each.
    pub fn tasks(&self, rows: i32) -> (tasks: Vec<Task>)
        requires
            self.wf(),
            1 <= rows <= 0x4000_0000,
        ensures
            self.partitioned(tasks@, rows as int, self.layers@.len() as int),
    {
        let mut tasks: Vec<Task> = Vec::new();
        let mut j: usize = 0;
        while j < self.layers.len()
            invariant
                self.wf(),
                1 <= rows <= 0x4000_0000,
                j <= self.layers@.len(),
                self.partitioned(tasks@, rows as int, j as int),
            decreases self.layers@.len() - j,
        {
            let l: Layer = self.layers[j];
            proof {
                assert(self.layer_ok(j as int));
                layers::layer_radius_is_small(self.radius as int, l.s as int);
            }
            let ghost lower = tasks@;
            let mut r: i32 = -l.radius;
            while r <= l.radius
                invariant
                    self.wf(),
                    1 <= rows <= 0x4000_0000,
                    j < self.layers@.len(),
                    l == self.layers@[j as int],
                    0 <= l.radius <= lattice::MAX_RADIUS,
                    -l.radius <= r <= l.radius + rows,
                    self.partitioned(lower, rows as int, j as int),
                    lower.len() <= tasks@.len(),
                    tasks@.subrange(0, lower.len() as int) =~= lower,
                    forall|t: int|
                        lower.len() <= t < tasks@.len() ==> (#[trigger] tasks@[t]).layer == j
                            && -l.radius <= tasks@[t].first_row <= l.radius && tasks@[t].first_row
                            + rows <= r,
                    forall|s: int, t: int|
                        lower.len() <= s < t < tasks@.len() ==> (#[trigger] tasks@[s]).first_row
                            + rows <= (#[trigger] tasks@[t]).first_row,
                    forall|x: int|
                        -l.radius <= x <= l.radius && x < r ==> handled(
                            tasks@,
                            rows as int,
                            j as int,
                            x,
                        ),
                decreases l.radius + rows - r,
            {
                let ghost prior = tasks@;
                tasks.push(Task { layer: j, first_row: r });
                proof {
                    let last = prior.len() as int;
                    assert(tasks@[last].layer == j && tasks@[last].first_row == r);
                    assert forall|x: int| -l.radius <= x <= l.radius && x < r + rows implies handled(
                        tasks@,
                        rows as int,
                        j as int,
                        x,
                    ) by {
                        if x < r {
                            handled_after_push(prior, tasks@[last], rows as int, j as int, x);
                        } else {
                            assert(tasks@[last].handles(rows as int, j as int, x));
                        }
                    }
                }
                r = r + rows;
            }
            proof {
                self.partition_extends(lower, tasks@, rows as int, j as int);
            }
            j = j + 1;
        }
        tasks
    }

    proof fn partition_extends(self, lower: Seq<Task>, tasks: Seq<Task>, rows: int, j: int)
        requires
            self.partitioned(lower, rows, j),
            rows >= 1,
            0 <= j < self.layers@.len(),
            lower.len() <= tasks.len(),
            tasks.subrange(0, lower.len() as int) == lower,
            forall|t: int|
                lower.len() <= t < tasks.len() ==> (#[trigger] tasks[t]).layer == j
                    && -self.layers@[j].radius <= tasks[t].first_row <= self.layers@[j].radius,
            forall|s: int, t: int|
                lower.len() <= s < t < tasks.len() ==> (#[trigger] tasks[s]).first_row + rows <= (
                #[trigger] tasks[t]).first_row,
            forall|x: int|
                -self.layers@[j].radius <= x <= self.layers@[j].radius ==> handled(tasks, rows, j, x),
        ensures
            self.partitioned(tasks, rows, j + 1),
    {
        assert forall|t: int| 0 <= t < lower.len() implies #[trigger] tasks[t] == lower[t] by {
            assert(tasks.subrange(0, lower.len() as int)[t] == lower[t]);
        }
        assert forall|i: int, r: int|
            0 <= i < j + 1 && -self.layers@[i].radius <= r <= self.layers@[i].radius implies handled(
            tasks,
            rows,
            i,
            r,
        ) by {
            if i < j {
                assert(handled(lower, rows, i, r));
                let t = choose|t: int| 0 <= t < lower.len() && (#[trigger] lower[t]).handles(rows, i, r);
                assert(tasks[t].handles(rows, i, r));
            }
        }
        assert forall|s: int, t: int| 0 <= s < t < tasks.len() implies before(tasks[s], tasks[t]) by {
            if t < lower.len() {
                assert(before(lower[s], lower[t]));
            } else if s < lower.len() {
                assert(lower[s].layer < j);
            }
        }
        assert forall|s: int, t: int|
            0 <= s < t < tasks.len() && (#[trigger] tasks[s]).layer == (#[trigger] tasks[t]).layer implies tasks[s].first_row
            + rows <= tasks[t].first_row by {
            if t < lower.len() {
                assert(lower[s].layer == lower[t].layer);
            } else if s < lower.len() {
                assert(lower[s].layer < j);
            }
        }
    }

    /// Cells that a pass updates in row `r` of layer `j`: the first one and a
    /// bound; they are three columns apart, up to the bound.
    pub fn pass_row(&self, pass: Pass, j: usize, r: i32) -> (range: Option<(i32, i32)>)
        requires
            self.wf(),
            pass.valid(),
            j < self.layers@.len(),
            j as int % 2 == pass.parity,
            -self.layers@[j as int].radius <= r <= self.layers@[j as int].radius,
        ensures
            range is None ==> forall|q: int| !#[trigger] updates(*self, pass, j as int, q, r as int),
            range matches Some((first, last)) ==> first >= -lattice::MAX_RADIUS && last
                <= lattice::MAX_RADIUS && forall|q: int|
                #[trigger] updates(*self, pass, j as int, q, r as int) <==> first <= q <= last && (q
                    - first) % 3 == 0,
    {
        let l: Layer = self.layers[j];
        proof {
            assert(self.layer_ok(j as int));
            layers::layer_radius_is_small(self.radius as int, l.s as int);
        }
        match hex::inner_range(l.radius, r) {
            None => {
                proof {
                    assert forall|q: int| !#[trigger] updates(*self, pass, j as int, q, r as int) by {
                        assert(hex::dist(q, r as int) >= hex::abs(r as int));
                    }
                }
                None
            },
            Some((lo, hi)) => {
                proof {
                    assert(hex::dist(lo as int, r as int) < l.radius);
                    assert(hex::dist(hi as int, r as int) < l.radius);
                }
                let first: i32 = first_of_colour(lo, r, pass.colour);
                proof {
                    assert forall|q: int|
                        #[trigger] updates(*self, pass, j as int, q, r as int) <==> first <= q <= hi
                            && (q - first) % 3 == 0 by {
                        assert(lo <= q <= hi <==> hex::dist(q, r as int) < l.radius);
                    }
                }
                Some((first, hi))
            },
        }
    }

    /// Cells that a pass updates in a task of `rows` rows, row by row.
    pub fn task_cells(&self, pass: Pass, task: Task, rows: i32) -> (cells: Vec<(i32, i32)>)
        requires
            self.wf(),
            pass.valid(),
            1 <= rows <= 0x4000_0000,
            task.layer < self.layers@.len(),
            -self.layers@[task.layer as int].radius <= task.first_row,
            task.first_row <= self.layers@[task.layer as int].radius,
        ensures
            forall|q: i32, r: i32|
                #[trigger] cells@.contains((q, r)) <==> updates(
                    *self,
                    pass,
                    task.layer as int,
                    q as int,
                    r as int,
                ) && task.handles(rows as int, task.layer as int, r as int),
            forall|a: int, b: int|
                0 <= a < b < cells@.len() ==> hex::row_order(cells@[a], cells@[b]),
    {
        let j: usize = task.layer;
        let l: Layer = self.layers[j];
        let mut cells: Vec<(i32, i32)> = Vec::new();
        if j % 2 != pass.parity {
            return cells;
        }
        proof {
            assert(self.layer_ok(j as int));
            layers::layer_radius_is_small(self.radius as int, l.s as int);
        }
        let mut r: i32 = task.first_row;
        while r <= l.radius && r - task.first_row < rows
            invariant
                self.wf(),
                pass.valid(),
                1 <= rows <= 0x4000_0000,
                j == task.layer,
                j < self.layers@.len(),
                j as int % 2 == pass.parity,
                l == self.layers@[j as int],
                0 <= l.radius <= lattice::MAX_RADIUS,
                -l.radius <= task.first_row <= r <= l.radius + 1,
                r <= task.first_row + rows,
                forall|x: i32, y: i32|
                    #[trigger] cells@.contains((x, y)) <==> updates(
                        *self,
                        pass,
                        j as int,
                        x as int,
                        y as int,
                    ) && task.first_row <= y < r,
                forall|a: int| 0 <= a < cells@.len() ==> (#[trigger] cells@[a]).1 < r,
                forall|a: int, b: int|
                    0 <= a < b < cells@.len() ==> hex::row_order(cells@[a], cells@[b]),
            decreases l.radius + 1 - r,
        {
            match self.pass_row(pass, j, r) {
                None => {},
                Some((first, last)) => {
                    let mut q: i32 = first;
                    while q <= last
                        invariant
                            pass.valid(),
                            first <= q,
                            -lattice::MAX_RADIUS <= first,
                            last <= lattice::MAX_RADIUS,
                            (q - first) % 3 == 0,
                            j == task.layer,
                            task.first_row <= r,
                            forall|x: int|
                                #[trigger] updates(*self, pass, j as int, x, r as int) <==> first
                                    <= x <= last && (x - first) % 3 == 0,
                            forall|x: i32, y: i32|
                                #[trigger] cells@.contains((x, y)) <==> updates(
                                    *self,
                                    pass,
                                    j as int,
                                    x as int,
                                    y as int,
                                ) && task.first_row <= y && (y < r || (y == r && x < q)),
                            forall|a: int|
                                0 <= a < cells@.len() ==> (#[trigger] cells@[a]).1 < r || (
                                cells@[a].1 == r && cells@[a].0 < q),
                            forall|a: int, b: int|
                                0 <= a < b < cells@.len() ==> hex::row_order(cells@[a], cells@[b]),
                        decreases last + 3 - q,
                    {
                        let ghost prior = cells@;
                        cells.push((q, r));
                        proof {
                            assert(updates(*self, pass, j as int, q as int, r as int));
                            assert(cells@[prior.len() as int] == (q, r));
                            assert forall|x: i32, y: i32|
                                #[trigger] cells@.contains((x, y)) <==> updates(
                                    *self,
                                    pass,
                                    j as int,
                                    x as int,
                                    y as int,
                                ) && task.first_row <= y && (y < r || (y == r && x < q + 3)) by {
                                if prior.contains((x, y)) {
                                    let k = choose|k: int| 0 <= k < prior.len() && prior[k] == (x, y);
                                    assert(cells@[k] == (x, y));
                                }
                                if cells@.contains((x, y)) && (x, y) != (q, r) {
                                    let k = choose|k: int| 0 <= k < cells@.len() && cells@[k] == (x, y);
                                    assert(prior[k] == (x, y));
                                }
                            }
                        }
                        q = q + 3;
                    }
                },
            }
            r = r + 1;
        }
        proof {
            assert forall|x: i32, y: i32|
                #[trigger] cells@.contains((x, y)) <==> updates(
                    *self,
                    pass,
                    task.layer as int,
                    x as int,
                    y as int,
                ) && task.handles(rows as int, task.layer as int, y as int) by {
                if updates(*self, pass, j as int, x as int, y as int) {
                    assert(hex::abs(y as int) <= hex::dist(x as int, y as int));
                }
            }
        }
        cells
    }

    /// Every cell with a whole ring of neighbours is updated once per sweep:
    /// by one pass, in one task.
    pub proof fn every_cell_is_updated_once(
        self,
        tasks: Seq<Task>,
        rows: int,
        j: int,
        q: int,
        r: int,
    )
        requires
            self.wf(),
            self.partitioned(tasks, rows, self.layers@.len() as int),
            self.interior(j, q, r),
        ensures
            exists|pass: Pass| pass.valid() && #[trigger] updates(self, pass, j, q, r),
            forall|a: Pass, b: Pass|
                a.valid() && b.valid() && #[trigger] updates(self, a, j, q, r) && #[trigger] updates(
                    self,
                    b,
                    j,
                    q,
                    r,
                ) ==> a == b,
            handled(tasks, rows, j, r),
            forall|s: int, t: int|
                0 <= s < tasks.len() && 0 <= t < tasks.len() && (#[trigger] tasks[s]).handles(
                    rows,
                    j,
                    r,
                ) && (#[trigger] tasks[t]).handles(rows, j, r) ==> s == t,
    {
        let pass = Pass { parity: (j % 2) as usize, colour: hex::colour(q, r) as i32 };
        assert(pass.valid() && updates(self, pass, j, q, r));
    }
}

/// Whether one of `tasks` handles row `r` of layer `j`.
pub open spec fn handled(tasks: Seq<Task>, rows: int, j: int, r: int) -> bool {
    exists|t: int| 0 <= t < tasks.len() && (#[trigger] tasks[t]).handles(rows, j, r)
}

proof fn handled_after_push(tasks: Seq<Task>, task: Task, rows: int, j: int, r: int)
    requires
        handled(tasks, rows, j, r),
    ensures
        handled(tasks.push(task), rows, j, r),
{
    let t = choose|t: int| 0 <= t < tasks.len() && (#[trigger] tasks[t]).handles(rows, j, r);
    assert(tasks.push(task)[t].handles(rows, j, r));
}

impl LayerStack {
    /// Whether layer `j` and the layers that it exchanges vapour with are at
    /// the lattice's spacing, with one of them above it.
    pub open spec fn plain(self, j: int) -> bool {
        &&& self.layers@[j].s == 1
        &&& j + 1 < self.layers@.len()
        &&& self.layers@[j + 1].s == 1
        &&& j > 0 ==> self.layers@[j - 1].s == 1
    }

    /// Whether the update of a cell of layer `j` is damped.
    pub open spec fn damps(self, j: int, sees_ice: bool, takes_up: bool) -> bool {
        (self.plain(j) && sees_ice) || (!self.plain(j) && takes_up)
    }

    /// Away from ice no update is damped, and beside ice that takes up vapour every
    /// one is; they differ only for ice that takes up none, whose sight damps the
    /// update in plain layers alone.
    pub proof fn updates_are_damped_beside_ice(self, j: int, sees_ice: bool, takes_up: bool)
        ensures
            !sees_ice && !takes_up ==> !self.damps(j, sees_ice, takes_up),
            sees_ice && takes_up ==> self.damps(j, sees_ice, takes_up),
            sees_ice && !takes_up ==> (self.damps(j, sees_ice, takes_up) <==> self.plain(j)),
    {
    }

    /// Whether the update of a cell of layer `j` is damped rather than
    /// over-relaxed: in plain layers where the cell sees an ice face, in the
    /// others where its ice faces take up any vapour.
    pub fn is_damped(&self, j: usize, sees_ice: bool, takes_up: bool) -> (b: bool)
        requires
            self.wf(),
            j < self.layers@.len(),
        ensures
            b == if self.plain(j as int) {
                sees_ice
            } else {
                takes_up
            },
            b == self.damps(j as int, sees_ice, takes_up),
    {
        let plain: bool = self.layers[j].s == 1 && j + 1 < self.layers.len() && self.layers[j + 1].s
            == 1 && (j == 0 || self.layers[j - 1].s == 1);
        if plain {
            sees_ice
        } else {
            takes_up
        }
    }
}

/// Rows handled by one task: a sixty-fourth of the lattice, at least one.
pub fn rows_per_task(w: usize) -> (rows: usize)
    ensures
        rows == hex::max(w as int / 64, 1),
{
    if w / 64 < 1 {
        1
    } else {
        w / 64
    }
}

/// First column from `lo` on whose cell in row `r` has the given colour.
pub fn first_of_colour(lo: i32, r: i32, colour: i32) -> (q: i32)
    requires
        -0x1000_0000 <= lo <= 0x1000_0000,
        -0x1000_0000 <= r <= 0x1000_0000,
        0 <= colour < 3,
    ensures
        lo <= q < lo + 3,
        hex::colour(q as int, r as int) == colour,
{
    let shifted: i32 = (lo - r) + 0x3fff_ffff;
    let here: i32 = shifted % 3;
    proof {
        assert(0x3fff_ffffint % 3 == 0);
        assert(here == (lo - r) % 3);
    }
    let ahead: i32 = if colour >= here {
        colour - here
    } else {
        colour + 3 - here
    };
    lo + ahead
}

/// Whether the residual of the equations is to be checked after a sweep: the
/// largest change was small, and it is every fourth sweep or the last.
pub fn residual_due(small_change: bool, sweep: usize, max_sweeps: usize) -> (due: bool)
    requires
        sweep < max_sweeps,
    ensures
        due <==> small_change && (sweep as int % 4 == 1 || sweep + 1 == max_sweeps),
{
    small_change && (sweep % 4 == 1 || sweep + 1 == max_sweeps)
}

impl Automaton {
    /// What the cell at index `c` of layer `j` starts a relaxation from.
    pub open spec fn start_of(self, j: int, c: int) -> Start {
        let l = self.stack.layers@[j];
        let (q, r) = lattice::cell_of(l.radius as int, c);
        if self.frozen(j, c) {
            Start::Ice
        } else if hex::dist(q, r) >= l.radius {
            Start::Far((q * l.s) as i32, (r * l.s) as i32)
        } else {
            Start::Keep
        }
    }

    /// Ice starts from nothing, vapour on or past the outer ring of its layer from
    /// the far field at its own place on the lattice, and all other vapour from the
    /// value it has.
    pub proof fn only_the_outer_ring_takes_the_far_field(self, j: int, q: int, r: int)
        requires
            self.sized(),
            0 <= j < self.stack.layers@.len(),
            lattice::on_grid(self.stack.layers@[j].radius as int, q, r),
        ensures
            ({
                let l = self.stack.layers@[j];
                let c = lattice::flat(l.radius as int, q, r);
                let start = self.start_of(j, c);
                &&& start is Ice <==> self.frozen(j, c)
                &&& start is Keep <==> !self.frozen(j, c) && self.stack.interior(j, q, r)
                &&& start is Far <==> !self.frozen(j, c) && !self.stack.interior(j, q, r)
                &&& start matches Start::Far(x, y) ==> x == q * l.s && y == r * l.s
            }),
    {
        let l = self.stack.layers@[j];
        assert(self.stack.layer_ok(j));
        lattice::flat_is_inverted(l.radius as int, q, r);
        layer_reach_is_small(self.radius(), l.s as int, q);
        layer_reach_is_small(self.radius(), l.s as int, r);
    }

    /// What the cell at index `c` of layer `j` starts a relaxation from: ice
    /// holds nothing, the outer ring carries the far field, and the rest keeps
    /// its value.
    pub fn start_value(&self, j: usize, c: usize) -> (start: Start)
        requires
            self.sized(),
            j < self.stack.layers@.len(),
            c < self.stack.layers@[j as int].n,
        ensures
            start == self.start_of(j as int, c as int),
            start matches Start::Far(x, y) ==> x == lattice::cell_of(
                self.stack.layers@[j as int].radius as int,
                c as int,
            ).0 * self.stack.layers@[j as int].s && y == lattice::cell_of(
                self.stack.layers@[j as int].radius as int,
                c as int,
            ).1 * self.stack.layers@[j as int].s,
    {
        let l: Layer = self.stack.layers[j];
        proof {
            assert(self.stack.layer_ok(j as int));
            layers::layer_radius_is_small(self.radius(), l.s as int);
        }
        if self.ice_at(j, c) {
            return Start::Ice;
        }
        let at: (i32, i32) = lattice::cell_at_index(l.radius, c);
        if hex::hex_distance(at.0, at.1) >= l.radius {
            proof {
                layer_reach_is_small(self.radius(), l.s as int, at.0 as int);
                layer_reach_is_small(self.radius(), l.s as int, at.1 as int);
            }
            Start::Far(at.0 * l.s, at.1 * l.s)
        } else {
            Start::Keep
        }
    }

    /// Plain layers exchange vapour cell by cell: a layer at the lattice's spacing is
    /// plain exactly where its cells read a single cell above, and a single cell or
    /// the mirror plane below.
    pub proof fn plain_layers_exchange_cell_by_cell(self, j: int, q: int, r: int)
        requires
            self.sized(),
            self.stack.interior(j, q, r),
            self.stack.layers@[j].s == 1,
        ensures
            self.stack.plain(j) <==> self.above_of(j, q, r) is Same && !(self.below_of(
                j,
                q,
                r,
            ) is Finer),
    {
        assert(self.stack.layer_ok(j));
        if j > 0 {
            assert(self.stack.layer_ok(j - 1));
        }
    }

    /// Whether the flux balance of cell (q, r) of layer `j` reads field cell
    /// `i` besides its own.
    pub open spec fn reads(self, j: int, q: int, r: int, i: usize) -> bool {
        self.reads_beside(j, q, r, i) || self.reads_vertically(j, q, r, i)
    }

    /// Whether it reads field cell `i` on its own layer.
    pub open spec fn reads_beside(self, j: int, q: int, r: int, i: usize) -> bool {
        exists|k: int| 0 <= k < 6 && (#[trigger] self.beside_of(j, q, r, k)).link == Some(i)
    }

    /// Whether it reads field cell `i` on the layer above or below.
    pub open spec fn reads_vertically(self, j: int, q: int, r: int, i: usize) -> bool {
        ||| self.above_of(j, q, r) == Above::Same(i)
        ||| self.above_of(j, q, r) matches Above::Pair(a, b) && (a == Feed::Cell(i) || b
            == Feed::Cell(i))
        ||| self.below_of(j, q, r) == Below::Same(Feed::Cell(i))
        ||| self.below_of(j, q, r) == Below::Finer && exists|m: int|
            0 <= m < 7 && self.vapour_source(
                j - 1,
                2 * q + (#[trigger] stencil::finer_offset(m)).0,
                2 * r + stencil::finer_offset(m).1,
            ) == Feed::Cell(i)
    }

    proof fn source_stays_on_its_layer(self, j: int, q: int, r: int, i: usize)
        requires
            self.sized(),
            0 <= j < self.stack.layers@.len(),
            self.source(j, q, r) == Feed::Cell(i),
        ensures
            self.stack.layers@[j].off <= i < self.stack.layers@[j].off + self.stack.layers@[j].n,
    {
        let l = self.stack.layers@[j];
        assert(self.stack.layer_ok(j));
        lattice::flat_is_inverted(l.radius as int, q, r);
    }

    proof fn same_place_stays_on_its_layer(self, j: int, q: int, r: int)
        requires
            self.sized(),
            0 <= j < self.stack.layers@.len(),
            hex::dist(q, r) <= self.stack.layers@[j].radius,
        ensures
            self.stack.layers@[j].off <= self.stack.field_index(j, q, r) < self.stack.layers@[j].off
                + self.stack.layers@[j].n,
            self.stack.field_index(j, q, r) <= usize::MAX,
    {
        assert(self.stack.layer_ok(j));
        lattice::flat_is_inverted(self.stack.layers@[j].radius as int, q, r);
    }

    /// Reads of other layers go to the layer above or below.
    proof fn vertical_reads_change_layer(self, j: int, q: int, r: int, i: usize) -> (m: int)
        requires
            self.sized(),
            self.stack.interior(j, q, r),
            self.reads_vertically(j, q, r, i),
        ensures
            m == j + 1 || m == j - 1,
            0 <= m < self.stack.layers@.len(),
            self.stack.layers@[m].off <= i < self.stack.layers@[m].off + self.stack.layers@[m].n,
    {
        assert(self.stack.layer_ok(j));
        if self.above_of(j, q, r) == Above::Same(i) {
            assert(self.stack.layer_ok(j + 1));
            self.same_place_stays_on_its_layer(j + 1, q, r);
            j + 1
        } else if self.above_of(j, q, r) is Pair && (self.above_of(j, q, r)->Pair_0 == Feed::Cell(i)
            || self.above_of(j, q, r)->Pair_1 == Feed::Cell(i)) {
            let (a, b) = stencil::straddled(q, r);
            if self.source(j + 1, a.0, a.1) == Feed::Cell(i) {
                self.source_stays_on_its_layer(j + 1, a.0, a.1, i);
            } else {
                self.source_stays_on_its_layer(j + 1, b.0, b.1, i);
            }
            j + 1
        } else if self.below_of(j, q, r) == Below::Same(Feed::Cell(i)) {
            self.source_stays_on_its_layer(j - 1, q, r, i);
            j - 1
        } else {
            let m = choose|m: int|
                0 <= m < 7 && self.vapour_source(
                    j - 1,
                    2 * q + (#[trigger] stencil::finer_offset(m)).0,
                    2 * r + stencil::finer_offset(m).1,
                ) == Feed::Cell(i);
            let d = stencil::finer_offset(m);
            self.source_stays_on_its_layer(j - 1, 2 * q + d.0, 2 * r + d.1, i);
            j - 1
        }
    }

    /// Each pass reads only cells of other passes: the flux balance of a cell
    /// reads no other cell that the same pass updates.
    pub proof fn passes_do_not_interfere(
        self,
        pass: Pass,
        j: int,
        q: int,
        r: int,
        j2: int,
        q2: int,
        r2: int,
    )
        requires
            self.sized(),
            pass.valid(),
            updates(self.stack, pass, j, q, r),
            updates(self.stack, pass, j2, q2, r2),
        ensures
            !self.reads(j, q, r, self.stack.field_index(j2, q2, r2) as usize),
    {
        let i = self.stack.field_index(j2, q2, r2) as usize;
        self.same_place_stays_on_its_layer(j2, q2, r2);
        if self.reads_beside(j, q, r, i) {
            let k = choose|k: int|
                0 <= k < 6 && (#[trigger] self.beside_of(j, q, r, k)).link == Some(i);
            self.neighbours_are_of_other_passes(pass, j, q, r, k, j2, q2, r2);
        }
        if self.reads_vertically(j, q, r, i) {
            let m = self.vertical_reads_change_layer(j, q, r, i);
            if m < j2 {
                self.stack.layers_are_disjoint(m, j2);
            } else if j2 < m {
                self.stack.layers_are_disjoint(j2, m);
            }
        }
    }

    proof fn neighbours_are_of_other_passes(
        self,
        pass: Pass,
        j: int,
        q: int,
        r: int,
        k: int,
        j2: int,
        q2: int,
        r2: int,
    )
        requires
            self.sized(),
            pass.valid(),
            0 <= k < 6,
            updates(self.stack, pass, j, q, r),
            updates(self.stack, pass, j2, q2, r2),
        ensures
            self.stack.field_index(j, q + hex::direction(k).0, r + hex::direction(k).1)
                != self.stack.field_index(j2, q2, r2),
            0 <= self.stack.field_index(j, q + hex::direction(k).0, r + hex::direction(k).1)
                <= usize::MAX,
    {
        let d = hex::direction(k);
        let rad = self.stack.layers@[j].radius as int;
        self.same_place_stays_on_its_layer(j2, q2, r2);
        lattice::inner_cells_have_all_neighbours(rad, q, r, k);
        self.same_place_stays_on_its_layer(j, q + d.0, r + d.1);
        if j < j2 {
            self.stack.layers_are_disjoint(j, j2);
        } else if j2 < j {
            self.stack.layers_are_disjoint(j2, j);
        } else {
            lattice::flat_is_injective(rad, (q + d.0, r + d.1), (q2, r2));
            assert(hex::colour(q, r) != hex::colour(q + d.0, r + d.1));
        }
    }
}

/// A layer reaches at most two of its spacings past the lattice.
pub proof fn layer_reach_is_small(radius: int, s: int, q: int)
    requires
        0 <= radius < lattice::MAX_RADIUS,
        1 <= s <= layers::MAX_HEIGHT,
        hex::abs(q) <= layers::layer_radius(radius, s),
    ensures
        hex::abs(q * s) <= radius + 2 * s,
{
    if s > 1 {
        let m = (radius + s - 1) / s;
        vstd::arithmetic::div_mod::lemma_fundamental_div_mod(radius + s - 1, s);
        vstd::arithmetic::div_mod::lemma_mod_bound(radius + s - 1, s);
        assert(hex::abs(q * s) <= s * m + s) by (nonlinear_arith)
            requires
                hex::abs(q) <= m + 1,
                s > 1,
                m >= 0,
        ;
    } else {
        assert(q * s == q);
    }
}

} // verus!
