use flakesim::config::{
    d_cell_size, d_frame_delay, d_frames, d_growth, d_image_size, d_nucleation, d_quantum, d_radius,
    d_smoothing, d_true, output_path, validate, ConfigError, GifView, OutputCfg, SimulationCfg,
};
use flakesim::config::{FIVE, MINUS_EIGHTY, NINETY, ONE, P_STANDARD, TEN, TWO_THOUSAND};
use flakesim::history::{Conditions, History, HistoryError, Keyframe, KeyframeError, Moment, Vapour};
use flakesim::number::{order_code, pattern_of};
use flakesim::physics::{
    look_up, Entry, Morphology, Table, C_0_04, C_0_10, C_0_11, C_0_17, C_0_22, C_0_32,
};

fn kf(time: f64, temperature: f64, s: f64) -> Keyframe {
    Keyframe {
        time: time.to_bits(),
        temperature: temperature.to_bits(),
        supersaturation: Some(s.to_bits()),
        humidity: None,
        pressure: None,
    }
}

fn history(keyframes: &[Keyframe]) -> Result<History, HistoryError> {
    History::from_keyframes(&keyframes.to_vec(), &vec![0; keyframes.len()])
}

/// Conditions at time `t` as (temperature, supersaturation), interpolated
/// linearly within the segment that the history finds.
fn at(h: &History, t: f64) -> (f64, f64) {
    let of = |c: Conditions| (f64::from_bits(c.temperature), f64::from_bits(c.supersaturation));
    match h.at(order_code(t.to_bits()).unwrap()) {
        Moment::At(i) => of(h.conditions[i]),
        Moment::Before(i) => {
            let (t0, t1) = (
                f64::from_bits(pattern_of(h.times[i - 1])),
                f64::from_bits(pattern_of(h.times[i])),
            );
            let f = (t - t0) / (t1 - t0);
            let (a, b) = (of(h.conditions[i - 1]), of(h.conditions[i]));
            (a.0 + (b.0 - a.0) * f, a.1 + (b.1 - a.1) * f)
        }
    }
}

#[test]
fn interpolates_between_keyframes() {
    let h = history(&[kf(0.0, -10.0, 0.1), kf(100.0, -20.0, 0.3)]).unwrap();
    let c = at(&h, 50.0);
    assert!((c.0 + 15.0).abs() < 1e-12);
    assert!((c.1 - 0.2).abs() < 1e-12);
    assert_eq!(at(&h, -5.0), at(&h, 0.0));
    assert_eq!(at(&h, 500.0), at(&h, 100.0));
}

#[test]
fn step_changes_via_duplicate_times() {
    let h = history(&[
        kf(0.0, -15.0, 0.3),
        kf(60.0, -15.0, 0.3),
        kf(60.0, -2.0, 0.05),
        kf(120.0, -2.0, 0.05),
    ])
    .unwrap();
    assert!((at(&h, 59.999).0 + 15.0).abs() < 1e-9);
    assert!((at(&h, 60.0).0 + 2.0).abs() < 1e-9);
}

#[test]
fn missing_sections_get_defaults() {
    let file: toml::Table = "[[history]]\ntime=0\ntemperature=-15\nsupersaturation=0.2\n\
         [[history]]\ntime=10\ntemperature=-15\nsupersaturation=0.2\n"
        .parse()
        .unwrap();
    assert!(!file.contains_key("output") && !file.contains_key("simulation"));
    let (output, simulation) = (OutputCfg::default(), SimulationCfg::default());
    assert_eq!(output.image_size, d_image_size());
    assert_eq!(output.frames, d_frames());
    assert_eq!(simulation.radius, d_radius());
}

#[test]
fn rejects_unsorted_and_short_histories() {
    assert!(history(&[kf(0.0, -15.0, 0.3)]).is_err());
    assert!(history(&[kf(10.0, -15.0, 0.3), kf(0.0, -15.0, 0.3)]).is_err());
}

#[test]
fn each_fault_of_a_history_has_its_error() {
    let ok = kf(0.0, -15.0, 0.3);
    let err = |k: &[Keyframe]| history(k).err();
    assert_eq!(err(&[]), Some(HistoryError::TooFew));
    assert_eq!(err(&[ok]), Some(HistoryError::TooFew));
    assert_eq!(err(&[ok, ok]), Some(HistoryError::ZeroDuration));
    assert_eq!(
        err(&[kf(10.0, -15.0, 0.3), kf(0.0, -15.0, 0.3)]),
        Some(HistoryError::Unsorted(1))
    );
    for t in [-1.0, f64::NAN, f64::INFINITY] {
        assert_eq!(err(&[ok, kf(t, -15.0, 0.3)]), Some(HistoryError::InvalidTime(1)));
    }
    assert!(err(&[kf(-0.0, -15.0, 0.3), kf(1.0, -15.0, 0.3)]).is_none());
    for t in [-80.0, 5.0, f64::NAN] {
        assert_eq!(
            err(&[ok, kf(1.0, t, 0.3)]),
            Some(HistoryError::Keyframe(1, KeyframeError::Temperature))
        );
    }
    let mut k = kf(1.0, -15.0, 0.3);
    k.pressure = Some(10.0f64.to_bits());
    assert_eq!(
        err(&[ok, k]),
        Some(HistoryError::Keyframe(1, KeyframeError::Pressure))
    );
    k.pressure = Some(10.5f64.to_bits());
    assert!(err(&[ok, k]).is_none());
    k.humidity = Some(100.0f64.to_bits());
    assert_eq!(
        err(&[ok, k]),
        Some(HistoryError::Keyframe(1, KeyframeError::TwoVapours))
    );
    k.supersaturation = None;
    k.humidity = None;
    assert_eq!(
        err(&[ok, k]),
        Some(HistoryError::Keyframe(1, KeyframeError::NoVapour))
    );
}

#[test]
fn humidity_and_dry_air_are_resolved() {
    let mut humid = kf(5.0, -10.0, 0.0);
    humid.supersaturation = None;
    humid.humidity = Some(101.0f64.to_bits());
    assert_eq!(humid.vapour(), Ok(Vapour::Humidity(101.0f64.to_bits())));
    let keyframes = vec![kf(0.0, -15.0, -0.1), humid];
    let h = History::from_keyframes(&keyframes, &vec![0, 0.25f64.to_bits()]).unwrap();
    assert_eq!(h.dry, vec![0]);
    assert_eq!(h.conditions[0].supersaturation, 0);
    assert_eq!(h.conditions[1].supersaturation, 0.25f64.to_bits());
    assert_eq!(h.conditions[1].pressure, 1013.25f64.to_bits());
    assert_eq!(h.start(), 0);
    assert_eq!(h.end(), 5.0f64.to_bits() as i64);
    assert_eq!(h.keyframes()[1], (h.end(), h.conditions[1]));
}

#[test]
fn moments_are_found_in_long_histories() {
    let keyframes: Vec<Keyframe> = (0..50).map(|i| kf((i * i) as f64, -15.0, 0.1)).collect();
    let h = history(&keyframes).unwrap();
    for t in 0..2402 {
        let code = (t as f64).to_bits() as i64;
        let expected = if t == 0 {
            Moment::At(0)
        } else if t >= 2401 {
            Moment::At(49)
        } else {
            Moment::Before(h.times.partition_point(|&k| k <= code))
        };
        assert_eq!(h.at(code), expected);
    }
}

#[test]
fn constants_are_what_they_say() {
    let code = |x: f64| order_code(x.to_bits()).unwrap();
    for (c, x) in [
        (ONE, 1.0),
        (FIVE, 5.0),
        (TEN, 10.0),
        (NINETY, 90.0),
        (MINUS_EIGHTY, -80.0),
        (TWO_THOUSAND, 2000.0),
        (C_0_04, 0.04),
        (C_0_10, 0.10),
        (C_0_11, 0.11),
        (C_0_17, 0.17),
        (C_0_22, 0.22),
        (C_0_32, 0.32),
    ] {
        assert_eq!(c, code(x));
    }
    assert_eq!(P_STANDARD, 1013.25f64.to_bits());
}

#[test]
fn defaults_are_what_they_say() {
    let s = SimulationCfg::default();
    assert_eq!((s.radius, s.seed, s.symmetric, s.stop_molecules), (600, 0, true, None));
    assert_eq!(f64::from_bits(s.cell_size_um), 0.5);
    assert_eq!(f64::from_bits(s.nucleation_rate), 2.0);
    assert_eq!(f64::from_bits(s.rate_quantum), 0.05);
    assert_eq!(s.growth, "poisson");
    assert_eq!(s.quantum(), 0);
    assert_eq!(d_cell_size(), 0.5f64.to_bits());
    assert_eq!(d_nucleation(), 2.0f64.to_bits());
    assert_eq!(d_quantum(), 0.05f64.to_bits());
    assert_eq!(d_growth(), "poisson");
    assert!(d_true());
    let o = OutputCfg::default();
    assert_eq!((o.frames, o.image_size), (80, 800));
    assert_eq!((o.frame_delay_ms, o.smoothing), (d_frame_delay(), d_smoothing()));
    assert_eq!((o.frame_delay_ms, o.smoothing), (60, 2));
    assert_eq!(f64::from_bits(o.iso_elevation), 35.0);
    assert_eq!(f64::from_bits(o.iso_azimuth), 20.0);
    assert_eq!(f64::from_bits(o.iso_height_scale), 1.0);
    assert_eq!((o.gif_view, GifView::default()), (GifView::Top, GifView::Top));
    assert!(o.svg.is_none() && o.gif.is_none() && o.png.is_none() && o.iso.is_none());
    let q = SimulationCfg {
        growth: "quantised".to_string(),
        ..SimulationCfg::default()
    };
    assert_eq!(q.quantum(), 0.05f64.to_bits());
}

#[test]
fn each_fault_of_the_settings_has_its_error() {
    let ok = || (SimulationCfg::default(), OutputCfg::default());
    let (s, o) = ok();
    assert_eq!(validate(&s, &o), Ok(()));
    let check = |change: &dyn Fn(&mut SimulationCfg, &mut OutputCfg)| {
        let (mut s, mut o) = ok();
        change(&mut s, &mut o);
        validate(&s, &o).err()
    };
    assert_eq!(check(&|s, _| s.radius = 19), Some(ConfigError::RadiusTooSmall));
    assert_eq!(check(&|s, _| s.radius = 20), None);
    assert_eq!(check(&|s, _| s.radius = 3001), Some(ConfigError::RadiusTooLarge));
    for rate in [0.0f64, -1.0, f64::NAN] {
        assert_eq!(
            check(&|s, _| s.nucleation_rate = rate.to_bits()),
            Some(ConfigError::NucleationRate)
        );
    }
    assert_eq!(check(&|s, _| s.nucleation_rate = f64::INFINITY.to_bits()), None);
    assert_eq!(
        check(&|s, _| s.growth = "Poisson".to_string()),
        Some(ConfigError::Growth)
    );
    assert_eq!(check(&|s, _| s.growth = "quantised".to_string()), None);
    for quantum in [0.0f64, 1.0001, f64::NAN] {
        assert_eq!(
            check(&|s, _| s.rate_quantum = quantum.to_bits()),
            Some(ConfigError::RateQuantum)
        );
    }
    assert_eq!(check(&|s, _| s.rate_quantum = 1.0f64.to_bits()), None);
    assert_eq!(check(&|_, o| o.image_size = 63), Some(ConfigError::ImageSize));
    assert_eq!(check(&|_, o| o.frames = 1), Some(ConfigError::Frames));
    for elevation in [5.0f64, 90.5, f64::NAN] {
        assert_eq!(
            check(&|_, o| o.iso_elevation = elevation.to_bits()),
            Some(ConfigError::IsoElevation)
        );
    }
    assert_eq!(check(&|_, o| o.iso_elevation = 90.0f64.to_bits()), None);
    assert_eq!(
        check(&|_, o| o.iso_height_scale = 0.0f64.to_bits()),
        Some(ConfigError::IsoHeightScale)
    );
    // The first fault is the one reported.
    assert_eq!(
        check(&|s, o| {
            s.radius = 5;
            o.frames = 0;
        }),
        Some(ConfigError::RadiusTooSmall)
    );
    assert_eq!(
        ConfigError::Growth.message(),
        "simulation.growth must be \"poisson\" or \"quantised\""
    );
}

#[test]
fn output_paths_follow_their_precedence() {
    let p = |s: &str| Some(s.to_string());
    assert_eq!(output_path(p("a"), p("b"), p("c")), p("a"));
    assert_eq!(output_path(None, p("b"), p("c")), p("b"));
    assert_eq!(output_path(None, None, p("c")), p("c"));
    assert_eq!(output_path(None, None, None), None);
    assert_eq!(output_path(p("-"), p("b"), p("c")), None);
    assert_eq!(output_path(None, p("-"), p("c")), None);
    assert_eq!(output_path(p("--"), None, None), p("--"));
}

/// A table's value at `t`, interpolated linearly between knots.
fn value(table: Table, t: f64) -> f64 {
    let y = |k: (i32, i32)| k.1 as f64 / 10_000.0;
    match look_up(&table.knots(), t.to_bits()) {
        Entry::Flat(k) => y(k),
        Entry::Between(a, b) => {
            let (x0, x1) = (a.0 as f64 / 2.0, b.0 as f64 / 2.0);
            y(a) + (y(b) - y(a)) * ((x0 - t) / (x0 - x1))
        }
    }
}

fn classify(t: f64, s: f64) -> Morphology {
    let e = s * 0.25 / value(Table::Branching, t);
    Morphology::classify(t.to_bits(), s.to_bits(), e.to_bits())
}

#[test]
fn morphology_follows_the_diagram() {
    assert_eq!(classify(-15.0, 0.03), Morphology::SolidPrism);
    assert_eq!(classify(-15.0, 0.10), Morphology::ThinPlate);
    assert_eq!(classify(-15.0, 0.14), Morphology::SectoredPlate);
    assert_eq!(classify(-15.0, 0.19), Morphology::StellarPlate);
    assert_eq!(classify(-15.0, 0.28), Morphology::StellarDendrite);
    assert_eq!(classify(-15.0, 0.40), Morphology::FernlikeDendrite);
    assert_eq!(classify(-2.0, 0.05), Morphology::ThinPlate);
    assert_eq!(classify(-2.0, 0.17), Morphology::StellarDendrite);
    assert_eq!(classify(-5.0, 0.20), Morphology::Needle);
    assert_eq!(classify(-6.0, 0.12), Morphology::HollowColumn);
    assert_eq!(classify(-27.0, 0.06), Morphology::ColdPlate);
    assert_eq!(classify(-30.0, 0.15), Morphology::ColdColumn);
    assert_eq!(classify(-5.0, 0.05), Morphology::SolidColumn);
    assert_eq!(Morphology::FernlikeDendrite.label(), "fernlike stellar dendrite");
    assert_eq!(Morphology::ColdPlate.label(), "plate (cold regime)");
}

#[test]
fn branching_starts_earlier_near_minus_two() {
    let effective = |t: f64, s: f64| s * 0.25 / value(Table::Branching, t);
    assert!(value(Table::Branching, -2.0) < value(Table::Branching, -15.0));
    assert!((effective(-15.0, 0.2) - 0.2).abs() < 1e-12);
    assert!(effective(-2.0, 0.15) > 0.24);
}

#[test]
fn tables_favour_plates_at_minus_15_and_columns_at_minus_5() {
    let near = |x: f64, y: f64| (x - y).abs() < 1e-12;
    // Widths of the terraces whose barrier drops.
    let (prism, basal) = (value(Table::PrismWidth, -15.0), value(Table::BasalWidth, -15.0));
    assert!(near(prism, 6.5) && near(basal, 0.36));
    assert!(prism > basal * 5.0);
    let (prism, basal) = (value(Table::PrismWidth, -5.0), value(Table::BasalWidth, -5.0));
    assert!(near(prism, 1.1) && near(basal, 6.5));
    assert!(basal > prism * 5.0);
    // Large facets at -5: prism grows more readily than basal.
    let (prism, basal) = (value(Table::PrismBarrier, -5.0), value(Table::BasalBarrier, -5.0));
    assert!(near(prism, 0.018) && near(basal, 0.03));
    assert!(prism < basal);
    assert!(near(value(Table::PrismBarrier, -15.0), 0.024));
    assert!(near(value(Table::BasalBarrier, -15.0), 0.022));
}

#[test]
fn tables_hold_their_knots_and_clamp() {
    assert_eq!(value(Table::BasalBarrier, 10.0), 0.036);
    assert_eq!(value(Table::BasalBarrier, -15.0), 0.022);
    assert_eq!(value(Table::BasalBarrier, -70.0), 0.05);
    assert_eq!(value(Table::PrismBarrier, -2.0), 0.012);
    assert_eq!(value(Table::PrismPrefactor, -5.0), 0.01);
    assert_eq!(value(Table::BasalPrefactor, -3.5), 1.0);
    assert_eq!(value(Table::PrismWidth, -14.0), 8.0);
    assert_eq!(value(Table::BasalWidth, -4.0), 8.0);
    assert!((value(Table::BasalWidth, -5.0) - 6.5).abs() < 1e-12);
    // At a knot, the warmer segment is the one found.
    assert!(matches!(
        look_up(&Table::Branching.knots(), (-5.0f64).to_bits()),
        Entry::Between((-4, 1500), (-10, 2000))
    ));
    assert!(matches!(
        look_up(&Table::Branching.knots(), f64::NAN.to_bits()),
        Entry::Flat((-120, 2500))
    ));
}

#[test]
fn the_plate_ladder_rises_with_supersaturation() {
    let rung = |m: Morphology| match m {
        Morphology::SolidPrism => 0,
        Morphology::ThinPlate => 1,
        Morphology::SectoredPlate => 2,
        Morphology::StellarPlate => 3,
        Morphology::StellarDendrite => 4,
        Morphology::FernlikeDendrite => 5,
        _ => panic!("not a plate"),
    };
    for t in [-2.0, -12.0, -15.0, -20.0] {
        let rungs: Vec<i32> = (0..60).map(|k| rung(classify(t, k as f64 * 0.01))).collect();
        assert!(rungs.windows(2).all(|w| w[0] <= w[1]));
        assert_eq!((rungs[0], rungs[59]), (0, 5));
    }
}

#[test]
fn order_codes_lead_back_to_their_numbers() {
    for x in [0.0, 1.5, -1.5, 1e300, -1e-310, f64::INFINITY, f64::NEG_INFINITY] {
        let code = order_code(x.to_bits()).unwrap();
        assert_eq!(f64::from_bits(pattern_of(code)), x);
    }
    assert_eq!(order_code((-0.0f64).to_bits()), Some(0));
    assert_eq!(order_code(f64::NAN.to_bits()), None);
}
