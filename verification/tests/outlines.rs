use flakesim::outline::{cell_vertices, edge_neighbours, trace_region};
use flakesim::snapshot::{bands, MassScale, Snapshot};
use flakesim::svg::{document, path_data, trace_bands, Palette};
use flakesim::text::escape;

fn snapshot_with(cells: &[(i32, i32)]) -> Snapshot {
    let radius = 5;
    let width = 2 * radius as usize + 1;
    let mut mass = vec![None; width * width];
    for &(q, r) in cells {
        mass[(r + radius) as usize * width + (q + radius) as usize] = Some(1.0f32.to_bits());
    }
    Snapshot {
        radius,
        width,
        mass,
        height: vec![0; width * width],
        molecules: 0,
        crystal_radius: 2,
        crystal_cells: cells.len(),
        step: 0,
    }
}

#[test]
fn single_cell_traces_one_hexagon() {
    let snap = snapshot_with(&[(0, 0)]);
    let loops = trace_region(&snap, 0);
    assert_eq!(loops.len(), 1);
    assert_eq!(loops[0].len(), 6);
    let d = path_data(&loops);
    assert!(d.starts_with('M') && d.ends_with('z'));
    assert_eq!(d, "M2 0l-1 2l-2 0l-1 -2l1 -2l2 0z");
}

#[test]
fn ring_of_cells_has_outer_and_inner_outline() {
    // The six neighbours of the origin, without the origin: an annulus.
    let ring: Vec<(i32, i32)> = edge_neighbours().to_vec();
    let snap = snapshot_with(&ring);
    let loops = trace_region(&snap, 0);
    assert_eq!(loops.len(), 2);
    let mut lens: Vec<usize> = loops.iter().map(Vec::len).collect();
    lens.sort();
    assert_eq!(lens, vec![6, 18]);
}

#[test]
fn shared_vertices_agree_between_cells() {
    // The vertex at 60° of (0,0) is the same as the vertex at 180° of (1,0).
    let a = cell_vertices(0, 0);
    let b = cell_vertices(1, 0);
    assert_eq!(a[1], b[3]);
    assert_eq!(a[1].coords(), b[3].coords());
    // Every edge vector is one of the six unit moves.
    for k in 0..6 {
        let (x0, y0) = a[k].coords();
        let (x1, y1) = a[(k + 1) % 6].coords();
        let dx = x1 - x0;
        let dy = y1 - y0;
        assert!(
            matches!((dx, dy), (-1, 2) | (-2, 0) | (-1, -2) | (1, -2) | (2, 0) | (1, 2)),
            "{:?}",
            (dx, dy)
        );
    }
}

#[test]
fn every_outline_edge_is_walked_once() {
    let cells = [(0, 0), (1, 0), (2, 0), (-1, 2), (0, 2), (3, -3), (5, 0), (-5, 0), (1, 1)];
    let snap = snapshot_with(&cells);
    let inside = |q: i32, r: i32| cells.contains(&(q, r));
    let mut expected = Vec::new();
    for &(q, r) in &cells {
        let vs = cell_vertices(q, r);
        for (k, d) in edge_neighbours().iter().enumerate() {
            if !inside(q + d.0, r + d.1) {
                expected.push((vs[k].coords(), vs[(k + 1) % 6].coords()));
            }
        }
    }
    let mut walked = Vec::new();
    for ring in trace_region(&snap, 0) {
        for i in 0..ring.len() {
            walked.push((ring[i].coords(), ring[(i + 1) % ring.len()].coords()));
        }
    }
    expected.sort();
    walked.sort();
    assert_eq!(walked, expected);
}

#[test]
fn thresholds_select_the_region() {
    let mut snap = snapshot_with(&[(0, 0), (1, 0)]);
    let at = 5 * 11 + 6;
    snap.mass[at] = Some(0.5f32.to_bits());
    assert_eq!(trace_region(&snap, 0).len(), 1);
    assert_eq!(trace_region(&snap, 0)[0].len(), 10);
    assert_eq!(trace_region(&snap, 0.75f32.to_bits())[0].len(), 6);
    assert!(trace_region(&snap, 2.0f32.to_bits()).is_empty());
}

#[test]
fn colours_are_written_in_hexadecimal() {
    assert_eq!(Palette::hex([6, 12, 34]), "#060c22");
    assert_eq!(Palette::hex([255, 160, 9]), "#ffa009");
    assert_eq!(Palette::background(), [6, 12, 34]);
}

#[test]
fn markup_is_escaped() {
    assert_eq!(
        escape("a<b> & \"c\" &amp; µ"),
        "a&lt;b&gt; &amp; \"c\" &amp;amp; µ"
    );
    assert_eq!(escape(""), "");
}

#[test]
fn drawing_holds_bands_from_thin_to_thick() {
    let mut snap = snapshot_with(&[(0, 0), (1, 0), (0, 1)]);
    snap.mass[5 * 11 + 5] = Some(3.0f32.to_bits());
    let thresholds = bands(&snap);
    assert_eq!(thresholds, vec![1.0f32.to_bits()]);
    let outlines = trace_bands(&snap, &thresholds);
    let svg = document(64, "32.000", "0.5", "0.25", "a & b", &vec![[1, 2, 3]], &outlines);
    let head = "<svg xmlns=\"http://www.w3.org/2000/svg\" width=\"64\" height=\"64\" \
viewBox=\"0 0 64 64\">\n<title>flakesim snow crystal</title>\n<desc>a &amp; b</desc>\n\
<rect width=\"100%\" height=\"100%\" fill=\"#060c22\"/>\n\
<g transform=\"translate(32.000 32.000) scale(0.5 0.25)\">\n\
<path fill=\"#010203\" fill-rule=\"evenodd\" d=\"M";
    assert!(svg.starts_with(head), "{svg}");
    assert!(svg.ends_with("z\"/>\n</g>\n</svg>\n"));
    // A band without cells is left out.
    let none = trace_bands(&snap, &vec![9.0f32.to_bits()]);
    let empty = document(64, "0", "1", "1", "", &vec![[1, 2, 3]], &none);
    assert!(!empty.contains("<path"));
}

#[test]
fn bands_begin_at_the_percentiles() {
    let cells: Vec<(i32, i32)> = (-5..=5).flat_map(|q| (-4..=4).map(move |r| (q, r))).collect();
    let mut snap = snapshot_with(&cells);
    let mut k = 0u32;
    for m in snap.mass.iter_mut() {
        if m.is_some() {
            // Masses 98, 97, .., 0: the sorting has work to do.
            *m = Some((98.0f32 - k as f32).to_bits());
            k += 1;
        }
    }
    assert_eq!(k, 99);
    let expected: Vec<u32> = [0.0f64, 0.15, 0.3, 0.45, 0.6, 0.73, 0.84, 0.92, 0.97]
        .iter()
        .map(|p| ((98.0 * p) as usize as f32).to_bits())
        .collect();
    assert_eq!(bands(&snap), expected);
    assert_eq!(MassScale::from_snapshot(&snap).reference, 95.0f32.to_bits());
}

#[test]
fn mass_scale_has_a_floor_and_a_default() {
    let none = snapshot_with(&[]);
    assert_eq!(MassScale::from_snapshot(&none).reference, 1.0f32.to_bits());
    let mut thin = snapshot_with(&[(0, 0)]);
    thin.mass[5 * 11 + 5] = Some(1e-9f32.to_bits());
    assert_eq!(MassScale::from_snapshot(&thin).reference, 1e-6f32.to_bits());
}

#[test]
fn snapshots_look_up_cells() {
    let mut snap = snapshot_with(&[(0, 0), (1, 0), (-3, 2)]);
    snap.height[5 * 11 + 6] = 7.5f32.to_bits();
    assert_eq!(snap.mass_at(0, 0), Some(1.0f32.to_bits()));
    assert_eq!(snap.mass_at(2, 0), None);
    assert_eq!(snap.mass_at(6, 0), None);
    assert_eq!(snap.mass_at(0, -6), None);
    assert_eq!(snap.height_at(1, 0), 7.5f32.to_bits());
    assert_eq!(snap.height_at(9, 9), 0);
    assert_eq!(snap.max_height(), 7.5f32.to_bits());
    let one = 1.0f32.to_bits();
    assert_eq!(snap.cells(), vec![(0, 0, one), (1, 0, one), (-3, 2, one)]);
    assert_eq!(snap.smoothing_sources(5 * 11 + 5), Some(vec![60, 61]));
    assert_eq!(snap.smoothing_sources(0), None);
}

#[test]
fn bands_are_nested_and_the_first_is_the_crystal() {
    let cells: Vec<(i32, i32)> = (-3..=3).flat_map(|q| (-2..=2).map(move |r| (q, r))).collect();
    let mut snap = snapshot_with(&cells);
    for (k, m) in snap.mass.iter_mut().flatten().enumerate() {
        *m = ((k * 7 % 23) as f32 + 1.0).to_bits();
    }
    let thresholds = bands(&snap);
    let region = |th: u32| -> Vec<(i32, i32)> {
        snap.cells()
            .into_iter()
            .filter(|c| c.2 >= th)
            .map(|c| (c.0, c.1))
            .collect()
    };
    assert_eq!(region(thresholds[0]).len(), cells.len());
    for pair in thresholds.windows(2) {
        let (outer, inner) = (region(pair[0]), region(pair[1]));
        assert!(inner.len() < outer.len() && inner.iter().all(|c| outer.contains(c)));
    }
}

#[test]
fn smoothing_does_not_wrap_round_row_ends() {
    // Crystal at (1, -1), the end of a row, and (-1, 0), the start of the next.
    let (one, five) = (1.0f32.to_bits(), 5.0f32.to_bits());
    let mut mass = vec![None; 9];
    mass[2] = Some(one);
    mass[3] = Some(five);
    let mut snap = Snapshot {
        radius: 1,
        width: 3,
        mass,
        height: vec![0; 9],
        molecules: 0,
        crystal_radius: 1,
        crystal_cells: 2,
        step: 0,
    };
    assert_eq!(snap.smoothing_sources(2), Some(vec![2]));
    assert_eq!(snap.smoothing_sources(3), Some(vec![3]));
    // With crystal at (0, 0), beside both, each is averaged with that.
    snap.mass[4] = Some(one);
    assert_eq!(snap.smoothing_sources(2), Some(vec![2, 4]));
    assert_eq!(snap.smoothing_sources(3), Some(vec![3, 4]));
    assert_eq!(snap.smoothing_sources(4), Some(vec![4, 3, 2]));
}
