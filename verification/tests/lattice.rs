use flakesim::draw::{draw_key, draw_level, hash64, step_seed, LEVELS};
use flakesim::hex::{canonical, directions, hex_distance, inner_range};
use flakesim::lattice::{cell_at_index, flat_index, neighbour};
use flakesim::layers::{hex_round, layers_for, LayerStack};
use flakesim::number;

#[test]
fn canonical_is_invariant_under_the_symmetry_group() {
    for q in -5..=5 {
        for r in -5..=5 {
            let c = canonical(q, r);
            assert_eq!(canonical(-r, q + r), c);
            assert_eq!(canonical(r, q), c);
        }
    }
    assert_eq!(canonical(0, 0), (0, 0));
}

#[test]
fn canonical_is_the_least_image() {
    assert_eq!(canonical(1, 0), (-1, 0));
    assert_eq!(canonical(2, 1), (-3, 1));
    assert_eq!(canonical(5, -3), (-5, 2));
    // Cells of different orbits have different representatives.
    assert_ne!(canonical(2, 0), canonical(1, 1));
}

#[test]
fn hex_distance_counts_steps() {
    assert_eq!(hex_distance(0, 0), 0);
    assert_eq!(hex_distance(3, 0), 3);
    assert_eq!(hex_distance(-2, 5), 5);
    assert_eq!(hex_distance(4, 3), 7);
    assert_eq!(hex_distance(-4, -3), 7);
    for d in directions() {
        assert_eq!(hex_distance(d.0, d.1), 1);
    }
}

#[test]
fn inner_range_is_the_inside_of_the_hexagon() {
    for radius in 1..8 {
        for r in -9..=9 {
            let inside: Vec<i32> = (-20..=20).filter(|&q| hex_distance(q, r) < radius).collect();
            match inner_range(radius, r) {
                None => assert!(inside.is_empty()),
                Some((lo, hi)) => assert_eq!(inside, (lo..=hi).collect::<Vec<i32>>()),
            }
        }
    }
    assert_eq!(inner_range(0, 0), None);
}

#[test]
fn neighbouring_cells_differ_in_colour() {
    for q in -6..=6i32 {
        for r in -6..=6i32 {
            for d in directions() {
                assert_ne!(
                    (q - r).rem_euclid(3),
                    (q + d.0 - r - d.1).rem_euclid(3)
                );
            }
        }
    }
}

#[test]
fn array_indices_lead_back_to_their_cells() {
    let radius = 4;
    let w = 9usize;
    for i in 0..w * w {
        let (q, r) = cell_at_index(radius, i);
        assert_eq!(flat_index(radius, q, r), i);
    }
    assert_eq!(flat_index(radius, 0, 0), 40);
    // Neighbours of the centre, in the order of the directions.
    let around: Vec<Option<usize>> = (0..6).map(|k| neighbour(81, w, 40, k)).collect();
    assert_eq!(
        around,
        vec![Some(41), Some(39), Some(49), Some(31), Some(32), Some(48)]
    );
    assert_eq!(neighbour(81, w, 0, 1), None);
    assert_eq!(neighbour(81, w, 80, 0), None);
}

#[test]
fn neighbours_do_not_wrap_round_row_ends() {
    for radius in 0..4 {
        let w = (2 * radius + 1) as usize;
        for i in 0..w * w {
            let (q, r) = cell_at_index(radius, i);
            for (k, d) in directions().iter().enumerate() {
                let (x, y) = (q + d.0, r + d.1);
                let held = x.abs() <= radius && y.abs() <= radius;
                let expected = if held { Some(flat_index(radius, x, y)) } else { None };
                assert_eq!(neighbour(w * w, w, i, k), expected, "({q}, {r}) direction {k}");
            }
        }
    }
    assert_eq!(neighbour(9, 0, 4, 0), None);
}

#[test]
fn hash_matches_splitmix64() {
    // First outputs of the splitmix64 generator seeded with zero.
    assert_eq!(hash64(0), 0xE220_A839_7B1D_CDAF);
    assert_eq!(hash64(0x9E37_79B9_7F4A_7C15), 0x6E78_9E6A_A1B9_65F4);
}

#[test]
fn draws_are_reproducible_uniform_levels() {
    assert_eq!(draw_key(1, -1), 0x0000_0001_FFFF_FFFF);
    assert_eq!(step_seed(5, 0), 5);
    assert_eq!(step_seed(0, 1), 0x9E37_79B9_7F4A_7C15);
    let mut sum = 0.0f64;
    let mut n = 0.0f64;
    for q in -20..=20 {
        for r in -20..=20 {
            let level = draw_level(7, 3, q, r, false);
            assert!(level < LEVELS);
            assert_eq!(level, draw_level(7, 3, q, r, false));
            sum += level as f64 / LEVELS as f64;
            n += 1.0;
        }
    }
    assert!((sum / n - 0.5).abs() < 0.03);
    assert_ne!(draw_level(7, 3, 1, 2, false), draw_level(8, 3, 1, 2, false));
    assert_ne!(draw_level(7, 3, 1, 2, false), draw_level(7, 4, 1, 2, false));
    let h = hash64(step_seed(7, 3) ^ draw_key(1, 2));
    assert_eq!(draw_level(7, 3, 1, 2, false), (h >> 40) as u32);
}

#[test]
fn shared_draws_agree_on_all_images() {
    for q in -6..=6 {
        for r in -6..=6 {
            let level = draw_level(11, 2, q, r, true);
            assert_eq!(draw_level(11, 2, -r, q + r, true), level);
            assert_eq!(draw_level(11, 2, r, q, true), level);
        }
    }
    assert_ne!(draw_level(11, 2, 3, 1, false), draw_level(11, 2, 1, 3, false));
}

#[test]
fn layer_stacks_double_up_to_the_lattice_height() {
    assert_eq!(layers_for(0), vec![1, 1]);
    assert_eq!(layers_for(2), vec![1, 1]);
    assert_eq!(layers_for(10), vec![1, 1, 2, 4]);
    assert_eq!(layers_for(40), vec![1, 1, 2, 4, 8, 16]);
    let dz = layers_for(600);
    let reference = {
        let mut dz = vec![1.0f32, 1.0];
        let (mut z, mut next) = (2.0f32, 2.0f32);
        while z < 0.7 * 600f32 {
            dz.push(next);
            z += next;
            next = (next * 2.0).min(32.0);
        }
        dz
    };
    assert_eq!(dz.iter().map(|&d| d as f32).collect::<Vec<f32>>(), reference);
}

#[test]
fn layers_are_laid_end_to_end() {
    let stack = LayerStack::new(40, &layers_for(40), true);
    let s: Vec<i32> = stack.layers.iter().map(|l| l.s).collect();
    let radius: Vec<i32> = stack.layers.iter().map(|l| l.radius).collect();
    let z: Vec<i32> = stack.layers.iter().map(|l| l.z).collect();
    assert_eq!(s, vec![1, 1, 1, 1, 2, 4]);
    assert_eq!(radius, vec![40, 40, 40, 40, 21, 11]);
    assert_eq!(z, vec![0, 1, 2, 4, 8, 16]);
    let mut off = 0;
    for l in &stack.layers {
        assert_eq!(l.off, off);
        assert_eq!(l.n, l.w * l.w);
        off += l.n;
    }
    assert_eq!(stack.index(4, 0, 0), stack.layers[4].off + 21 * 43 + 21);
    let flat = LayerStack::new(40, &vec![1; 4], false);
    assert!(flat.layers.iter().all(|l| l.s == 1 && l.radius == 40));
}

#[test]
fn nearest_cells_match_floating_point_rounding() {
    for s in [2i32, 4, 8] {
        for q in -40..=40 {
            for r in -40..=40 {
                let (x, y) = (q as f32 / s as f32, r as f32 / s as f32);
                let w = -x - y;
                let (mut a, mut b, c) = (x.round(), y.round(), w.round());
                let (da, db, dc) = ((a - x).abs(), (b - y).abs(), (c - w).abs());
                if da > db && da > dc {
                    a = -b - c;
                } else if db > dc {
                    b = -a - c;
                }
                assert_eq!(hex_round(s, q, r), (a as i32, b as i32), "{s} {q} {r}");
            }
        }
    }
}

#[test]
fn heights_fill_the_layers_they_reach() {
    let stack = LayerStack::new(40, &layers_for(40), true);
    let zc = [0.5f32, 1.5, 3.0, 6.0, 12.0, 24.0];
    for h in [0.25f32, 1.0, 3.0, 3.001, 6.0, 6.5, 11.99, 12.0, 12.1, 24.5, 47.9, 48.5, 1e6] {
        let expected = 1 + zc[1..].iter().take_while(|&&z| z < 0.5 * h).count() as u8;
        assert_eq!(stack.layers_of(h.to_bits()), expected, "height {h}");
    }
}

#[test]
fn whole_numbers_have_the_patterns_of_singles() {
    for n in (0..70_000u32).chain([0xff_ffff, 0x100_0000]) {
        assert_eq!(number::whole(n), (n as f32).to_bits());
    }
}

#[test]
fn order_codes_order_doubles() {
    let xs = [
        f64::NEG_INFINITY,
        -1e300,
        -80.0,
        -3.5,
        -1e-300,
        0.0,
        5e-324,
        0.04,
        1.0,
        1013.25,
        f64::INFINITY,
    ];
    for a in xs {
        for b in xs {
            let (ca, cb) = (
                number::order_code(a.to_bits()).unwrap(),
                number::order_code(b.to_bits()).unwrap(),
            );
            assert_eq!(a < b, ca < cb);
            assert_eq!(a == b, ca == cb);
        }
    }
    assert_eq!(number::order_code((-0.0f64).to_bits()), Some(0));
    assert_eq!(number::order_code(f64::NAN.to_bits()), None);
    assert_eq!(number::order_code((-f64::NAN).to_bits()), None);
}

#[test]
fn half_numbers_have_the_patterns_of_doubles() {
    for n in -5000..5000 {
        let expected = n as f64 / 2.0;
        assert_eq!(f64::from_bits(number::halves(n)), expected);
    }
    assert_eq!(f64::from_bits(number::halves(i32::MIN)), i32::MIN as f64 / 2.0);
    assert!(number::is_at_least_halves((-3.5f64).to_bits(), -7));
    assert!(!number::is_at_least_halves((-3.500001f64).to_bits(), -7));
    assert!(number::is_at_most_halves((-3.5f64).to_bits(), -7));
    assert!(!number::is_at_most_halves(f64::NAN.to_bits(), -7));
}
