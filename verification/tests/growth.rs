use flakesim::automaton::Automaton;
use flakesim::curvature;
use flakesim::draw;
use flakesim::hex::{canonical, hex_distance};
use flakesim::lattice::{cell_at_index, flat_index};
use flakesim::layers;
use flakesim::relax::{self, Relaxation, Stage};
use flakesim::schedule::{self, Pass, Start};
use flakesim::session::{self, Frames, Outcome, Run};
use flakesim::sites::{FACET, FULL, KINK};
use flakesim::stencil::{Above, Below, Feed};
use flakesim::symmetry;

fn one() -> u32 {
    1.0f32.to_bits()
}

/// A crystal of all cells within `rs` of the centre, `h` tall.
fn disc_crystal(radius: usize, rs: i32, h: f32) -> Automaton {
    let mut auto = Automaton::new(radius, 1);
    auto.seed_hexagon(rs, h.to_bits());
    auto
}

#[test]
fn a_new_lattice_holds_one_cell() {
    let auto = Automaton::new(10, 3);
    assert_eq!(auto.crystal_cells(), 1);
    assert_eq!(auto.crystal_radius(), 0);
    assert_eq!(auto.step_count(), 0);
    assert_eq!(auto.sweep_count(), 0);
    let centre = auto.index(0, 0);
    assert_eq!(centre, 10 * 21 + 10);
    assert_eq!(auto.ice.iter().filter(|&&a| a).count(), 1);
    assert!(auto.ice[centre]);
    assert_eq!(auto.h[centre], one());
    assert_eq!(auto.top[centre], 1);
    assert_eq!(auto.stack.layers.len(), layers::layers_for(10).len());
    assert!(layers::can_stack(3000));
    assert!(!layers::can_stack(20_000_000));
}

#[test]
fn a_new_lattice_has_gathered_nothing() {
    for (radius, has_coarse) in [(10, false), (100, true)] {
        let auto = Automaton::new(radius, 3);
        assert_eq!(auto.coarse.len(), auto.stack.layers.len());
        // Only layers coarser than the lattice gather.
        for (l, table) in auto.stack.layers.iter().zip(&auto.coarse) {
            let cells = if l.s > 1 { l.n } else { 0 };
            for counts in [&table.cover, &table.ice, &table.edges, &table.narrow, &table.wide] {
                assert_eq!(counts, &vec![0; cells]);
            }
        }
        let gathers = auto.coarse.iter().any(|table| !table.cover.is_empty());
        assert_eq!(gathers, has_coarse);
    }
}

#[test]
fn the_seed_is_a_hexagonal_disc() {
    let auto = disc_crystal(10, 3, 5.0);
    // A hexagon of radius n holds 3n(n + 1) + 1 cells.
    assert_eq!(auto.crystal_cells(), 37);
    assert_eq!(auto.crystal_radius(), 3);
    for i in 0..auto.ice.len() {
        let (q, r) = cell_at_index(10, i);
        let inside = hex_distance(q, r) <= 3;
        assert_eq!(auto.ice[i], inside);
        // Five cells tall: past the centres of the first two layers (0.5 and
        // 1.5), not of the third (3.0).
        assert_eq!(auto.top[i], if inside { 2 } else { 0 });
    }
}

#[test]
fn boundary_sites_are_told_apart_by_their_neighbours() {
    let mut auto = disc_crystal(10, 2, 1.0);
    auto.mark_sites();
    for i in 0..auto.ice.len() {
        let (q, r) = cell_at_index(10, i);
        let around = [(1, 0), (-1, 0), (0, 1), (0, -1), (1, -1), (-1, 1)]
            .iter()
            .filter(|d| hex_distance(q + d.0, r + d.1) <= 2)
            .count();
        let expected = if hex_distance(q, r) != 3 {
            0
        } else if around >= 3 {
            KINK
        } else {
            FACET
        };
        assert_eq!(auto.attach[i], expected, "({q}, {r})");
    }
    // Corners touch one cell, the rest of a straight edge two.
    assert_eq!(auto.ice_neighbours(auto.index(3, 0)), 1);
    assert_eq!(auto.ice_neighbours(auto.index(2, 1)), 2);
    assert_eq!(auto.marked_sites().len(), 18);
    assert_eq!(
        auto.crystal_around(auto.index(2, 1)),
        vec![auto.index(1, 1), auto.index(2, 0)]
    );
    assert!(auto.crystal_around(auto.index(9, 0)).is_empty());
}

#[test]
fn full_kinks_join_and_facets_wait_for_their_draw() {
    assert_eq!(FULL, (1.0f32 - 1e-4).to_bits());
    let mut auto = disc_crystal(10, 2, 1.0);
    // A bump on the facet makes kinks beside it.
    auto.mark_sites();
    let bump = auto.index(2, 1);
    let n = auto.ice.len();
    let mut fill = vec![0u32; n];
    fill[bump] = one();
    auto.settle_sites(&fill, &vec![0; n], false, true);
    assert_eq!(auto.marked_sites(), vec![bump]);
    let cleared = auto.apply_attachment(&vec![one(); n]);
    assert_eq!(cleared, vec![bump]);
    assert_eq!(auto.crystal_cells(), 20);
    assert_eq!(auto.crystal_radius(), 3);
    assert!(auto.ice[bump] && auto.attach.iter().all(|&a| a == 0));

    auto.mark_sites();
    let kinks: Vec<usize> = (0..n).filter(|&i| auto.attach[i] == KINK).collect();
    // The corner beside the bump still touches two cells only.
    assert_eq!(kinks, vec![auto.index(1, 2)]);
    assert_eq!(auto.ice_neighbours(auto.index(3, 0)), 2);
    // With a threshold of zero no facet site joins, with the full range all do.
    let full = vec![one(); n];
    let marked = auto.marked_sites();
    let mut none = disc_crystal(10, 2, 1.0);
    none.mark_sites();
    none.settle_sites(&full, &vec![0; n], true, true);
    assert!(none.marked_sites().is_empty());
    auto.settle_sites(&full, &vec![0; n], true, true);
    assert_eq!(auto.marked_sites(), kinks);
    auto.mark_sites();
    auto.settle_sites(&full, &vec![draw::LEVELS; n], true, true);
    assert_eq!(auto.marked_sites(), marked);
    // A site just short of full waits.
    auto.mark_sites();
    auto.settle_sites(&vec![FULL - 1; n], &vec![draw::LEVELS; n], true, true);
    assert!(auto.marked_sites().is_empty());
}

#[test]
fn joining_follows_the_draws() {
    let mut auto = disc_crystal(10, 2, 1.0);
    auto.mark_sites();
    let sites = auto.marked_sites();
    let n = auto.ice.len();
    let half = draw::LEVELS / 2;
    auto.settle_sites(&vec![one(); n], &vec![half; n], true, false);
    let expected: Vec<usize> = sites
        .into_iter()
        .filter(|&i| {
            let (q, r) = cell_at_index(10, i);
            draw::draw_level(1, 0, q, r, false) < half
        })
        .collect();
    assert!(!expected.is_empty() && expected.len() < 18);
    assert_eq!(auto.marked_sites(), expected);
}

#[test]
fn shared_draws_keep_the_crystal_symmetric() {
    let mut auto = disc_crystal(20, 1, 1.0);
    let n = auto.ice.len();
    for _ in 0..25 {
        auto.mark_sites();
        auto.settle_sites(&vec![one(); n], &vec![draw::LEVELS / 4; n], true, true);
        auto.apply_attachment(&vec![one(); n]);
        auto.finish_step();
        if auto.crystal_radius() >= 18 {
            break;
        }
    }
    assert!(auto.crystal_cells() > 50);
    for i in 0..n {
        let (q, r) = cell_at_index(20, i);
        if hex_distance(q, r) > 20 {
            continue;
        }
        assert_eq!(auto.ice[i], auto.ice[flat_index(20, -r, q + r)]);
        assert_eq!(auto.ice[i], auto.ice[flat_index(20, r, q)]);
    }
    assert_eq!(auto.crystal_cells(), auto.ice.iter().filter(|&&a| a).count());
    let furthest = (0..n)
        .filter(|&i| auto.ice[i])
        .map(|i| {
            let (q, r) = cell_at_index(20, i);
            hex_distance(q, r)
        })
        .max();
    assert_eq!(furthest, Some(auto.crystal_radius()));
}

#[test]
fn rim_distance_counts_cells_from_the_edge() {
    let mut auto = disc_crystal(12, 7, 1.0);
    auto.refresh_rim_distance();
    for i in 0..auto.ice.len() {
        let (q, r) = cell_at_index(12, i);
        let d = hex_distance(q, r);
        if d <= 7 {
            assert_eq!(auto.rim[i] as i32, 7 - d);
        } else {
            assert_eq!(auto.rim[i], 0);
        }
    }
    assert!(auto.rim_refresh_due());
    auto.finish_step();
    assert!(!auto.rim_refresh_due());
    auto.count_sweeps(5);
    assert_eq!((auto.step_count(), auto.sweep_count()), (1, 5));
}

#[test]
fn heights_grow_and_fill_layers() {
    let mut auto = disc_crystal(40, 1, 1.0);
    let n = auto.ice.len();
    auto.grow_heights(&vec![30.0f32.to_bits(); n]);
    let centre = auto.index(0, 0);
    assert_eq!(auto.h[centre], 30.0f32.to_bits());
    assert_eq!(auto.h[0], 0);
    // Half-height 15: past the centres 1.5, 3, 6 and 12 of the layers.
    assert_eq!(auto.top[centre], 5);
    assert_eq!(auto.top[0], 0);
}

#[test]
fn edges_span_the_layers_they_reach() {
    let mut auto = disc_crystal(40, 2, 5.0);
    let i = auto.index(3, 0);
    // Layer bottoms at 0, 1, 2, 4: an edge five cells tall reaches 2.5 up.
    assert_eq!(auto.edge_neighbours(i, 0), 1);
    assert_eq!(auto.edge_neighbours(i, 2), 1);
    assert_eq!(auto.edge_neighbours(i, 3), 0);
    assert_eq!(auto.edge_layers(i, 5.0f32.to_bits()), 3);
    assert_eq!(auto.edge_layers(i, 1.5f32.to_bits()), 1);
    assert_eq!(auto.edge_layers(auto.index(9, 0), 5.0f32.to_bits()), 0);
    // A step up to a taller neighbour shows above the cell's own top.
    let n = auto.ice.len();
    let mut heights = vec![5.0f32.to_bits(); n];
    let (centre, beside) = (auto.index(0, 0), auto.index(1, 0));
    heights[centre] = 9.0f32.to_bits();
    auto.grow_heights(&heights);
    assert_eq!(auto.step_faces(beside, 2), vec![centre]);
    assert_eq!(auto.step_faces(beside, 3), vec![centre]);
    assert_eq!(auto.step_faces(beside, 1), Vec::<usize>::new());
    assert_eq!(auto.step_faces(centre, 3), Vec::<usize>::new());
}

#[test]
fn coarse_layers_gather_the_height_map() {
    let mut auto = disc_crystal(40, 12, 40.0);
    auto.refresh_rim_distance();
    auto.refresh_coarse();
    let (j, l) = (4, auto.stack.layers[4]);
    assert_eq!(l.s, 2);
    let t = &auto.coarse[j];
    let inner = (0..auto.ice.len())
        .filter(|&i| {
            let (q, r) = cell_at_index(40, i);
            hex_distance(q, r) < 40
        })
        .count();
    assert_eq!(t.cover.iter().sum::<usize>(), inner);
    // Height 40 is past the centre (12) of the layer: all of the disc counts.
    assert_eq!(t.ice.iter().sum::<usize>(), auto.crystal_cells());
    // The rim of vapour around a hexagon of radius 12 has 6 * 13 cells.
    assert_eq!(t.edges.iter().sum::<usize>(), 78);
    let top = auto.top[auto.index(0, 0)] as usize;
    assert_eq!(top, 5);
    let capped = &auto.coarse[5];
    assert_eq!(capped.ice.iter().sum::<usize>(), 0);
    let (narrow, wide): (usize, usize) = (capped.narrow.iter().sum(), capped.wide.iter().sum());
    // Rows of the hexagon at distance 12 and 11 from the centre are narrow.
    assert_eq!(narrow, 72 + 66);
    assert_eq!(narrow + wide, auto.crystal_cells());
    // Lattice cells are counted as ice where their nearest coarse cell is.
    let gathered: Vec<usize> = (0..auto.ice.len()).filter_map(|i| auto.ice_gatherer(i, j)).collect();
    assert_eq!(gathered.len(), auto.crystal_cells());
    assert_eq!(
        auto.ice_gatherer(auto.index(4, -2), j),
        Some(flat_index(l.radius, 2, -1))
    );
    assert_eq!(auto.ice_gatherer(auto.index(13, 0), j), None);
    // The coarse cell at the centre is ice, one far away is not.
    assert!(auto.ice_at(j, flat_index(l.radius, 0, 0)));
    assert!(!auto.ice_at(j, flat_index(l.radius, 15, 0)));
}

#[test]
fn stencils_link_layers_of_different_spacing() {
    let auto = disc_crystal(40, 2, 1.0);
    let off: Vec<usize> = auto.stack.layers.iter().map(|l| l.off).collect();
    let fine = |q: i32, r: i32| flat_index(40, q, r);
    let coarse = |q: i32, r: i32| flat_index(21, q, r);
    assert_eq!(auto.above(0, 7, -2), Above::Same(off[1] + fine(7, -2)));
    assert_eq!(
        auto.above(3, 6, -2),
        Above::Pair(Feed::Cell(off[4] + coarse(3, -1)), Feed::Cell(off[4] + coarse(3, -1)))
    );
    assert_eq!(
        auto.above(3, -7, -2),
        Above::Pair(Feed::Cell(off[4] + coarse(-4, -1)), Feed::Cell(off[4] + coarse(-3, -1)))
    );
    assert_eq!(
        auto.above(3, -7, 3),
        Above::Pair(Feed::Cell(off[4] + coarse(-3, 1)), Feed::Cell(off[4] + coarse(-4, 2)))
    );
    assert_eq!(auto.above(5, 0, 0), Above::Boundary);
    assert_eq!(auto.below(0, 5, 5), Below::Mirror);
    assert_eq!(auto.below(1, 0, 0), Below::Same(Feed::Closed));
    assert_eq!(auto.below(1, 5, 0), Below::Same(Feed::Cell(fine(5, 0))));
    assert_eq!(auto.below(4, 3, 3), Below::Finer);
    assert_eq!(auto.finer(4, 3, -1, 0), Feed::Cell(off[3] + fine(6, -2)));
    assert_eq!(auto.finer(4, 3, -1, 5), Feed::Cell(off[3] + fine(7, -3)));
    assert_eq!(auto.finer(4, 20, 0, 1), Feed::Far(41, 0));
}

#[test]
fn vertical_coupling_is_the_same_from_both_sides() {
    let auto = Automaton::new(40, 1);
    // In halves: what a fine cell passes up equals what the coarse cell
    // passes down.
    for cq in -6..=6 {
        for cr in -6..=6 {
            let at = auto.stack.index(4, cq, cr);
            let mut gathered = 0;
            for m in 0..7 {
                let below = auto.finer(4, cq, cr, m);
                let Feed::Cell(i) = below else { panic!("{below:?}") };
                let (q, r) = cell_at_index(40, i - auto.stack.layers[3].off);
                let Above::Pair(a, b) = auto.above(3, q, r) else { panic!() };
                let up = [a, b].iter().filter(|&&f| f == Feed::Cell(at)).count();
                assert_eq!(up, if m == 0 { 2 } else { 1 });
                gathered += up;
            }
            assert_eq!(gathered, 8);
        }
    }
}

#[test]
fn ice_cuts_links_and_shows_faces() {
    let auto = disc_crystal(40, 2, 3.0);
    // Beside the crystal on the first layer: a face, and no link.
    let s = auto.beside(0, 3, 0, 1);
    assert_eq!((s.link, s.face), (None, true));
    // On the second layer (bottom 1) the edge, 1.5 up, shows a face but does
    // not pass the centre.
    let s = auto.beside(1, 3, 0, 1);
    assert_eq!(s.link, Some(auto.stack.layers[1].off + auto.index(2, 0)));
    assert!(s.face);
    let s = auto.beside(2, 3, 0, 1);
    assert!(s.link.is_some() && !s.face);
    assert!(auto.ice_at(0, auto.index(1, 1)) && !auto.ice_at(1, auto.index(1, 1)));
    assert!(auto.basal_face(1, auto.index(1, 1)) && !auto.basal_face(0, auto.index(9, 9)));
}

#[test]
fn values_come_from_vapour_around_coarse_ice() {
    let mut auto = disc_crystal(40, 12, 40.0);
    auto.refresh_coarse();
    let l = auto.stack.layers[4];
    assert_eq!(auto.value_sources(0, 20, 0), vec![auto.index(20, 0)]);
    assert_eq!(auto.value_sources(4, 30, 0), vec![auto.stack.index(4, 15, 0)]);
    // Deep inside, every coarse cell around is ice: the cell itself.
    assert_eq!(auto.value_sources(4, 0, 0), vec![l.off + flat_index(l.radius, 0, 0)]);
    // At the edge, the vapour cells around.
    let mut edges = 0;
    for q in -14..=14 {
        for r in -14..=14 {
            let (cq, cr) = auto.stack.nearest(4, q, r);
            let own = auto.stack.index(4, cq, cr);
            let around: Vec<usize> = [(1, 0), (-1, 0), (0, 1), (0, -1), (1, -1), (-1, 1)]
                .iter()
                .map(|d| auto.stack.index(4, cq + d.0, cr + d.1))
                .filter(|&i| !auto.ice_at(4, i - l.off))
                .collect();
            let expected = if !auto.ice_at(4, own - l.off) || around.is_empty() {
                vec![own]
            } else {
                edges += 1;
                around
            };
            assert_eq!(auto.value_sources(4, q, r), expected);
        }
    }
    assert!(edges > 0);
}

#[test]
fn relaxation_starts_from_the_far_field() {
    let auto = disc_crystal(40, 2, 1.0);
    assert_eq!(auto.start_value(0, auto.index(1, 0)), Start::Ice);
    assert_eq!(auto.start_value(0, auto.index(5, 0)), Start::Keep);
    assert_eq!(auto.start_value(0, auto.index(40, 0)), Start::Far(40, 0));
    assert_eq!(auto.start_value(0, auto.index(30, 30)), Start::Far(30, 30));
    let l = auto.stack.layers[4];
    assert_eq!(auto.start_value(4, flat_index(l.radius, -21, 3)), Start::Far(-42, 6));
    assert_eq!(auto.start_value(4, flat_index(l.radius, -20, 3)), Start::Keep);
}

#[test]
fn every_inner_cell_is_updated_once_per_sweep() {
    let auto = Automaton::new(40, 1);
    let stack = &auto.stack;
    let rows = schedule::rows_per_task(81) as i32;
    assert_eq!(rows, 1);
    assert_eq!(schedule::rows_per_task(1000), 15);
    for rows in [1, 5, 200] {
        let mut seen = vec![0u32; stack.layers.iter().map(|l| l.n).sum()];
        for task in stack.tasks(rows) {
            for k in 0..6 {
                let pass = relax::pass_number(k);
                for (q, r) in stack.task_cells(pass, task, rows) {
                    seen[stack.index(task.layer, q, r)] += 1;
                    assert_eq!(task.layer % 2, pass.parity);
                    assert_eq!((q - r).rem_euclid(3), pass.colour);
                }
            }
        }
        for (j, l) in stack.layers.iter().enumerate() {
            for c in 0..l.n {
                let (q, r) = cell_at_index(l.radius, c);
                let inner = hex_distance(q, r) < l.radius;
                assert_eq!(seen[l.off + c], inner as u32, "layer {j} cell ({q}, {r})");
            }
        }
    }
}

#[test]
fn colours_start_where_they_should() {
    for lo in -7..=7 {
        for r in -7..=7 {
            for colour in 0..3 {
                let q = schedule::first_of_colour(lo, r, colour);
                assert!(lo <= q && q < lo + 3 && (q - r).rem_euclid(3) == colour);
            }
        }
    }
    assert_eq!(relax::pass_number(4), Pass { parity: 1, colour: 1 });
}

#[test]
fn relaxation_ends_when_converged_or_used_up() {
    let drive = |max: usize, small: bool, converged_at: usize| {
        let mut run = Relaxation::new(max);
        let mut checks = Vec::new();
        loop {
            match run.stage {
                Stage::Pass(_) => run.finish_pass(small),
                Stage::Residual => {
                    checks.push(run.used);
                    let converged = run.used >= converged_at;
                    run.finish_check(converged);
                }
                Stage::Done => return (run.used, checks),
            }
        }
    };
    // Never small: all sweeps, no check.
    assert_eq!(drive(9, false, 0), (9, vec![]));
    // Always small: checked after sweeps 2, 6, 10 and the last.
    assert_eq!(drive(12, true, 100), (12, vec![2, 6, 10, 12]));
    assert_eq!(drive(12, true, 5), (6, vec![2, 6]));
    assert_eq!(drive(0, true, 0), (0, vec![]));
    assert!(relax::converges_again(true, false, 11));
    assert!(!relax::converges_again(true, false, 12));
    assert!(!relax::converges_again(true, true, 1));
    assert!(!relax::converges_again(false, false, 1));
}

#[test]
fn images_of_a_cell_share_their_sources() {
    let radius = 6;
    let selected: Vec<bool> = (0..169)
        .map(|i| {
            let (q, r) = cell_at_index(radius, i);
            (q * 5 + r * 3).rem_euclid(4) != 0
        })
        .collect();
    for (q, r) in [(2, 1), (3, 0), (2, 2), (0, 0), (5, -2)] {
        let sorted = |q: i32, r: i32| {
            let mut v = symmetry::images(&selected, radius, q, r);
            v.sort();
            v
        };
        let own = sorted(q, r);
        assert_eq!(sorted(-r, q + r), own);
        assert_eq!(sorted(r, q), own);
        for i in own {
            let (x, y) = cell_at_index(radius, i);
            assert_eq!(canonical(x, y), canonical(q, r));
            assert!(selected[i] && hex_distance(x, y) < radius);
        }
    }
    assert_eq!(symmetry::images(&vec![true; 169], radius, 2, 1).len(), 12);
    assert_eq!(symmetry::images(&vec![true; 169], radius, 6, 0).len(), 0);
}

/// Curvature at every cell of a lattice, from the library's ice counts.
fn curvatures(ice: &Vec<bool>, radius: i32, rc: i32, scale: f32) -> Vec<f32> {
    let disc = curvature::disc(rc);
    let n = ice.len();
    let mut raw = vec![0.0f32; n];
    let mut known = vec![false; n];
    for i in 0..n {
        let (q, r) = cell_at_index(radius, i);
        if let Some(s) = curvature::sample(ice, radius, &disc, rc, q, r) {
            let part = |c: usize| c as f32 / disc.len() as f32;
            let around = s.around.iter().map(|&c| part(c)).sum::<f32>() / s.around.len() as f32;
            let f = 0.5 * (part(s.own) + around);
            raw[i] = (0.5 - f) * scale;
            known[i] = true;
        }
    }
    (0..n)
        .map(|i| {
            let (q, r) = cell_at_index(radius, i);
            match curvature::smoothing_sources(&known, radius, &disc, rc, q, r) {
                Some(from) => from.iter().map(|&j| raw[j]).sum::<f32>() / from.len() as f32,
                None => 0.0,
            }
        })
        .collect()
}

fn calibrated_scale(rc: i32, dx: f32) -> f32 {
    let rho = curvature::calibration_radius(rc);
    let radius = curvature::calibration_lattice(rc);
    let ice = curvature::round_disc(radius, rho);
    let w = (2 * radius + 1) as usize;
    let curv = curvatures(&ice, radius, rc, 1.0);
    let boundary: Vec<f64> = (0..ice.len())
        .filter(|&i| !ice[i] && curvature::curv_is_boundary(&ice, w, i))
        .map(|i| curv[i] as f64)
        .collect();
    let mean = boundary.iter().sum::<f64>() / boundary.len() as f64;
    (1.0 / (rho as f64 * dx as f64) / mean) as f32
}

#[test]
fn curvature_of_a_disc_is_its_inverse_radius() {
    for (dx, rho) in [(0.5f32, 40.0f32), (1.0, 40.0), (0.25, 60.0)] {
        let radius = 100usize;
        let rc = ((2.0 / dx).round() as i32).max(3);
        let scale = calibrated_scale(rc, dx);
        let w = 2 * radius + 1;
        let ice: Vec<bool> = (0..w * w)
            .map(|i| {
                let (q, r) = cell_at_index(radius as i32, i);
                let (x, y) = (q as f32 + 0.5 * r as f32, r as f32 * 0.866_025_4);
                (x * x + y * y).sqrt() <= rho
            })
            .collect();
        let curv = curvatures(&ice, radius as i32, rc, scale);
        let boundary: Vec<f32> = (0..ice.len())
            .filter(|&i| !ice[i] && curvature::curv_is_boundary(&ice, w, i))
            .map(|i| curv[i])
            .collect();
        let mean = boundary.iter().sum::<f32>() / boundary.len() as f32;
        let expected = 1.0 / (rho * dx);
        assert!(
            (mean / expected - 1.0).abs() < 0.25,
            "dx={dx}: {mean} vs {expected}"
        );
    }
    // A flat facet reads as (nearly) flat.
    let radius = 60usize;
    let w = 2 * radius + 1;
    let ice: Vec<bool> = (0..w * w).map(|i| cell_at_index(60, i).1 <= 0).collect();
    let rc = 4;
    let curv = curvatures(&ice, 60, rc, calibrated_scale(rc, 0.5));
    let c = curv[flat_index(60, 0, 1)];
    assert!(c.abs() < 0.05, "flat facet curvature {c}");
}

#[test]
fn discs_are_complete() {
    for rc in 0..6 {
        assert_eq!(curvature::disc(rc).len() as i32, 3 * rc * (rc + 1) + 1);
    }
    assert_eq!(
        curvature::disc(1),
        vec![(0, -1), (1, -1), (-1, 0), (0, 0), (1, 0), (-1, 1), (0, 1)]
    );
    assert_eq!(curvature::calibration_radius(4), 48);
    assert_eq!(curvature::calibration_lattice(4), (48f32 * 1.16) as i32 + 10);
    let round = curvature::round_disc(8, 5);
    for i in 0..round.len() {
        let (q, r) = cell_at_index(8, i);
        assert_eq!(round[i], q * q + q * r + r * r <= 25);
    }
}

#[test]
fn runs_take_their_frames_and_stop() {
    assert_eq!(session::stop_radius(40), 34);
    assert_eq!(session::stop_radius(600), 563);
    let code = |t: f64| t.to_bits() as i64;
    let mut run = Run::new(40, Some(1e5f64.to_bits()), vec![code(0.0), code(1.0), code(2.0)]);
    assert_eq!(run.before_step(code(0.0), true, 0), 1);
    assert!(!run.over);
    assert_eq!(run.after_step(10, 5e4f64.to_bits(), 1), Outcome::Growing);
    // Two frames fall due at once.
    assert_eq!(run.before_step(code(2.5), true, 1), 2);
    assert_eq!(run.before_step(code(3.0), true, 1), 0);
    assert!(!run.frames.closing_due(1));
    assert!(run.frames.closing_due(2));
    assert_eq!(run.after_step(10, 1e5f64.to_bits(), 2), Outcome::Molecules);
    assert!(run.over && !run.frames.closing_due(2));
    let mut edge = Run::new(40, None, vec![]);
    assert_eq!(edge.after_step(34, 0, 7), Outcome::Edge);
    assert!(edge.over);
    let mut late = Run::new(40, None, vec![code(9.0)]);
    late.before_step(code(1.0), false, 0);
    assert!(late.over && late.frames.closing_due(0));
    assert!(session::goes_on(true, 1_999_999));
    assert!(!session::goes_on(true, 2_000_000));
    let mut frames = Frames::new(vec![1, 2, 3]);
    assert_eq!((frames.take_due(2, 4), frames.next), (2, 2));
}

#[test]
fn snapshots_freeze_the_crystal() {
    let mut auto = disc_crystal(10, 2, 4.0);
    auto.finish_step();
    let n = auto.ice.len();
    let mass: Vec<u32> = (0..n).map(|i| (i as f32).to_bits()).collect();
    let snap = auto.snapshot(&mass, 77);
    assert_eq!((snap.radius, snap.width, snap.step, snap.molecules), (10, 21, 1, 77));
    assert_eq!((snap.crystal_cells, snap.crystal_radius), (19, 2));
    assert_eq!(snap.cells().len(), 19);
    let i = auto.index(1, -1);
    assert_eq!(snap.mass_at(1, -1), Some((i as f32).to_bits()));
    assert_eq!(snap.mass_at(3, 0), None);
    assert_eq!(snap.max_height(), 4.0f32.to_bits());
}

#[test]
fn the_crystal_stays_in_one_piece() {
    let mut auto = disc_crystal(20, 1, 1.0);
    let n = auto.ice.len();
    for _ in 0..40 {
        auto.mark_sites();
        auto.settle_sites(&vec![one(); n], &vec![draw::LEVELS / 8; n], true, false);
        auto.apply_attachment(&vec![one(); n]);
        auto.finish_step();
        if auto.crystal_radius() >= 18 {
            break;
        }
    }
    let centre = auto.index(0, 0);
    let mut reached = vec![false; n];
    reached[centre] = true;
    let mut queue = vec![centre];
    while let Some(i) = queue.pop() {
        let (q, r) = cell_at_index(20, i);
        for (dq, dr) in [(1, 0), (-1, 0), (0, 1), (0, -1), (1, -1), (-1, 1)] {
            let j = flat_index(20, q + dq, r + dr);
            if auto.ice[j] && !reached[j] {
                reached[j] = true;
                queue.push(j);
            }
        }
    }
    assert!(auto.crystal_cells() > 50);
    assert_eq!(reached, auto.ice);
}

#[test]
fn only_plain_layers_damp_by_sight() {
    let auto = Automaton::new(40, 1);
    // Layers 0 to 3 are at the lattice's spacing; the fifth one is coarse.
    for (j, plain) in [(0, true), (1, true), (2, true), (3, false), (4, false), (5, false)] {
        assert_eq!(auto.stack.is_damped(j, true, false), plain, "layer {j}");
        assert_eq!(auto.stack.is_damped(j, false, true), !plain, "layer {j}");
        assert!(auto.stack.is_damped(j, true, true) && !auto.stack.is_damped(j, false, false));
    }
}

#[test]
fn ice_at_a_row_end_touches_its_own_neighbours_only() {
    // Ice at (-1, 0): it touches (-1, -1), (0, -1), (0, 0) and (-1, 1) of the
    // square array, not (1, -1) or (1, 0).
    let mut ice = vec![false; 9];
    ice[3] = true;
    let touching: Vec<usize> = (0..9).filter(|&i| curvature::curv_is_boundary(&ice, 3, i)).collect();
    assert_eq!(touching, vec![0, 1, 4, 6]);
    // A seed as wide as the lattice: its edge is the rim.
    let mut auto = disc_crystal(3, 3, 1.0);
    auto.refresh_rim_distance();
    for i in 0..auto.ice.len() {
        let (q, r) = cell_at_index(3, i);
        let d = hex_distance(q, r);
        assert_eq!(auto.rim[i] as i32, if d <= 3 { 3 - d } else { 0 });
        let around = [(1, 0), (-1, 0), (0, 1), (0, -1), (1, -1), (-1, 1)]
            .iter()
            .filter(|e| hex_distance(q + e.0, r + e.1) <= 3)
            .count();
        assert_eq!(auto.ice_neighbours(i) as usize, around, "({q}, {r})");
    }
}

#[test]
fn runs_take_no_more_frames_than_planned() {
    let code = |t: f64| t.to_bits() as i64;
    // Time step, growth in radius per step, frames planned, frames taken.
    let cases = [(0.5, 0, 5, 5), (3.0, 0, 5, 5), (0.5, 4, 5, 3), (20.0, 0, 2, 2), (0.25, 9, 2, 2)];
    for (dt, growth, n, expected) in cases {
        let end = 10.0;
        let times: Vec<i64> = (0..n).map(|k| code(end * k as f64 / (n - 1) as f64)).collect();
        let mut run = Run::new(40, None, times);
        let (mut t, mut steps, mut radius, mut taken) = (0.0f64, 0u64, 0, 0);
        loop {
            taken += run.before_step(code(t), t < end, steps);
            if run.over {
                break;
            }
            t = (t + dt).min(end);
            steps += 1;
            radius += growth;
            if run.after_step(radius, 0, steps) != Outcome::Growing {
                taken += 1;
                break;
            }
        }
        if run.frames.closing_due(steps) {
            taken += 1;
        }
        assert_eq!(taken, expected);
        assert!(taken <= n);
    }
}

#[test]
fn runs_cut_short_by_the_step_cap_end_with_a_closing_frame() {
    let code = |t: f64| t.to_bits() as i64;
    let mut run = Run::new(40, None, vec![code(0.0), code(5.0), code(10.0)]);
    assert_eq!(run.before_step(code(0.0), true, 0), 1);
    assert_eq!(run.after_step(0, 0, 2_000_000), Outcome::Growing);
    assert_eq!(run.before_step(code(1.0), true, 2_000_000), 0);
    assert!(run.over);
    assert!(run.frames.closing_due(2_000_000));
}

#[test]
fn a_step_widens_the_crystal_by_at_most_one_cell() {
    let mut auto = disc_crystal(8, 2, 1.0);
    let n = auto.ice.len();
    for step in 0..12u64 {
        let (ice, radius, cells) = (auto.ice.clone(), auto.crystal_radius(), auto.crystal_cells());
        auto.refresh_coarse();
        auto.mark_sites();
        auto.settle_sites(&vec![one(); n], &vec![draw::LEVELS; n], true, false);
        auto.apply_attachment(&vec![one(); n]);
        auto.refresh_rim_distance();
        auto.grow_heights(&vec![2.0f32.to_bits(); n]);
        auto.finish_step();
        assert_eq!(auto.step_count(), step + 1);
        // Every site joins: one ring per step, up to the outer ring.
        assert_eq!(auto.crystal_radius(), (radius + 1).min(7));
        assert!(auto.crystal_cells() >= cells);
        assert_eq!(auto.crystal_cells(), auto.ice.iter().filter(|&&a| a).count());
        for i in 0..n {
            let (q, r) = cell_at_index(8, i);
            assert!(!ice[i] || auto.ice[i]);
            assert_eq!(auto.h[i], if auto.ice[i] { 2.0f32.to_bits() } else { 0 });
            if auto.ice[i] && !ice[i] {
                assert!(hex_distance(q, r) < 8);
                let touches = (0..n).any(|j| {
                    let (x, y) = cell_at_index(8, j);
                    ice[j] && hex_distance(x - q, y - r) == 1
                });
                assert!(touches, "({q}, {r})");
            }
        }
    }
    assert_eq!(auto.crystal_cells(), 3 * 7 * 8 + 1);
}

#[test]
fn curvature_is_bounded_by_its_scale_and_absent_from_uniform_lattices() {
    let (radius, rc) = (20, 3);
    let n = 41 * 41;
    for uniform in [false, true] {
        assert!(curvatures(&vec![uniform; n], radius, rc, 5.0).iter().all(|&c| c == 0.0));
    }
    // A single cell, and a lattice with a single hole.
    for hole in [false, true] {
        let mut ice = vec![hole; n];
        ice[flat_index(radius, 0, 0)] = !hole;
        let disc = curvature::disc(rc);
        let curv = curvatures(&ice, radius, rc, 5.0);
        for i in 0..n {
            let (q, r) = cell_at_index(radius, i);
            let sample = curvature::sample(&ice, radius, &disc, rc, q, r);
            let on_edge = hex_distance(q, r) == if hole { 0 } else { 1 };
            assert_eq!(sample.is_some(), on_edge);
            assert_eq!(curv[i] != 0.0, on_edge);
            assert!(curv[i].abs() <= 2.5);
            if let Some(s) = sample {
                let (size, around) = (disc.len() as i64, s.around.len() as i64);
                let sum: i64 = s.around.iter().map(|&c| c as i64).sum();
                let bracket = around * size - around * s.own as i64 - sum;
                assert!(bracket.abs() <= around * size);
                // Of 37 cells, all but one are alike in every disc.
                assert_eq!(bracket, if hole { -6 * 35 } else { 35 });
            }
        }
    }
}
