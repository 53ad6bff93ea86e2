//! The environmental history: simulation settings, output settings and a list
//! of keyframes that is interpolated linearly in time.
//!
//! Numbers with a fraction are patterns of doubles (see [`crate::number`]).

use crate::number;
use vstd::arithmetic::power2;
use vstd::prelude::*;

verus! {

/// Which view the animation uses.
#[derive(Clone, Copy, PartialEq, Eq, Structural, Debug)]
pub enum GifView {
    Top,
    Iso,
}

impl Default for GifView {
    fn default() -> (view: GifView)
        ensures
            view == GifView::Top,
    {
        GifView::Top
    }
}

pub struct SimulationCfg {
    /// Hex-cell radius of the simulation domain.
    pub radius: usize,
    /// Physical size of a lattice cell, micrometres.
    pub cell_size_um: u64,
    /// Stop once the crystal holds this many water molecules.
    pub stop_molecules: Option<u64>,
    /// Seed of the random draws.
    pub seed: u64,
    /// Rate at which full facet sites nucleate, in units of their fill rate.
    pub nucleation_rate: u64,
    /// Growth model: "poisson" or "quantised".
    pub growth: String,
    /// Rate quantum of the quantised model.
    pub rate_quantum: u64,
    /// Use the same random draw for all twelve symmetric images of a cell.
    pub symmetric: bool,
}

pub struct OutputCfg {
    pub svg: Option<String>,
    pub gif: Option<String>,
    pub png: Option<String>,
    /// Elevated relief view of the final crystal (PNG).
    pub iso: Option<String>,
    /// Which view the animation uses.
    pub gif_view: GifView,
    /// Camera elevation of the relief view, degrees above the basal plane.
    pub iso_elevation: u64,
    /// In-plane rotation of the crystal in the relief view, degrees.
    pub iso_azimuth: u64,
    /// Multiplier on the physical c-axis heights in the relief view.
    pub iso_height_scale: u64,
    /// Pixel size of raster outputs (square).
    pub image_size: u32,
    /// Number of animation frames spread over the run.
    pub frames: usize,
    /// Delay between animation frames, milliseconds.
    pub frame_delay_ms: u32,
    /// Smoothing passes applied to the thickness map before rendering.
    pub smoothing: usize,
}

/// Order code and pattern of one.
pub const ONE: i64 = 0x3ff0_0000_0000_0000;

/// Order code of five.
pub const FIVE: i64 = 0x4014_0000_0000_0000;

/// Order code of ten.
pub const TEN: i64 = 0x4024_0000_0000_0000;

/// Order code of ninety.
pub const NINETY: i64 = 0x4056_8000_0000_0000;

/// Order code of minus eighty.
pub const MINUS_EIGHTY: i64 = -0x4054_0000_0000_0000;

/// Order code of two thousand.
pub const TWO_THOUSAND: i64 = 0x409f_4000_0000_0000;

/// Pattern of the standard atmosphere, 1013.25 hPa.
pub const P_STANDARD: u64 = 0x408f_aa00_0000_0000;

pub fn d_true() -> (b: bool)
    ensures
        b,
{
    true
}

/// Nucleation rate: 2.
pub fn d_nucleation() -> (bits: u64)
    ensures
        bits == 0x4000_0000_0000_0000,
{
    0x4000_0000_0000_0000
}

pub fn d_growth() -> (growth: String)
    ensures
        growth@ == "poisson"@,
{
    "poisson".to_owned()
}

/// Rate quantum: 0.05.
pub fn d_quantum() -> (bits: u64)
    ensures
        bits == 0x3fa9_9999_9999_999a,
{
    0x3fa9_9999_9999_999a
}

pub fn d_radius() -> (radius: usize)
    ensures
        radius == 600,
{
    600
}

/// Cell size: 0.5.
pub fn d_cell_size() -> (bits: u64)
    ensures
        bits == 0x3fe0_0000_0000_0000,
{
    0x3fe0_0000_0000_0000
}

pub fn d_smoothing() -> (passes: usize)
    ensures
        passes == 2,
{
    2
}

/// Camera elevation: 35.
pub fn d_iso_elevation() -> (bits: u64)
    ensures
        bits == 0x4041_8000_0000_0000,
{
    0x4041_8000_0000_0000
}

/// Rotation: 20.
pub fn d_iso_azimuth() -> (bits: u64)
    ensures
        bits == 0x4034_0000_0000_0000,
{
    0x4034_0000_0000_0000
}

/// Height scale: 1.
pub fn d_iso_height_scale() -> (bits: u64)
    ensures
        bits == ONE,
{
    0x3ff0_0000_0000_0000
}

pub fn d_image_size() -> (size: u32)
    ensures
        size == 800,
{
    800
}

pub fn d_frames() -> (frames: usize)
    ensures
        frames == 80,
{
    80
}

pub fn d_frame_delay() -> (ms: u32)
    ensures
        ms == 60,
{
    60
}

impl Default for SimulationCfg {
    fn default() -> (cfg: SimulationCfg)
        ensures
            cfg.radius == 600,
            cfg.cell_size_um == 0x3fe0_0000_0000_0000,
            cfg.stop_molecules is None,
            cfg.seed == 0,
            cfg.nucleation_rate == 0x4000_0000_0000_0000,
            cfg.growth@ == "poisson"@,
            cfg.rate_quantum == 0x3fa9_9999_9999_999a,
            cfg.symmetric,
    {
        SimulationCfg {
            radius: d_radius(),
            cell_size_um: d_cell_size(),
            stop_molecules: None,
            seed: 0,
            nucleation_rate: d_nucleation(),
            growth: d_growth(),
            rate_quantum: d_quantum(),
            symmetric: d_true(),
        }
    }
}

impl Default for OutputCfg {
    fn default() -> (cfg: OutputCfg)
        ensures
            cfg.svg is None,
            cfg.gif is None,
            cfg.png is None,
            cfg.iso is None,
            cfg.gif_view == GifView::Top,
            cfg.iso_elevation == 0x4041_8000_0000_0000,
            cfg.iso_azimuth == 0x4034_0000_0000_0000,
            cfg.iso_height_scale == ONE,
            cfg.image_size == 800,
            cfg.frames == 80,
            cfg.frame_delay_ms == 60,
            cfg.smoothing == 2,
    {
        OutputCfg {
            svg: None,
            gif: None,
            png: None,
            iso: None,
            gif_view: GifView::Top,
            iso_elevation: d_iso_elevation(),
            iso_azimuth: d_iso_azimuth(),
            iso_height_scale: d_iso_height_scale(),
            image_size: d_image_size(),
            frames: d_frames(),
            frame_delay_ms: d_frame_delay(),
            smoothing: d_smoothing(),
        }
    }
}

impl SimulationCfg {
    /// Whether the quantised-rate model is in force.
    pub open spec fn is_quantised(self) -> bool {
        self.growth@ == "quantised"@
    }

    /// Whether the quantised-rate model is in force.
    pub fn quantised(&self) -> (b: bool)
        ensures
            b == self.is_quantised(),
    {
        self.growth == "quantised".to_owned()
    }

    /// Rate quantum in force: the configured one for the quantised model,
    /// zero for the Poisson model.
    pub fn quantum(&self) -> (bits: u64)
        ensures
            bits == if self.is_quantised() {
                self.rate_quantum
            } else {
                0
            },
    {
        if self.quantised() {
            self.rate_quantum
        } else {
            0
        }
    }
}

/// Why settings are refused.
#[derive(Clone, Copy, PartialEq, Eq, Structural, Debug)]
pub enum ConfigError {
    RadiusTooSmall,
    RadiusTooLarge,
    NucleationRate,
    Growth,
    RateQuantum,
    ImageSize,
    Frames,
    IsoElevation,
    IsoHeightScale,
}

/// The first fault of the settings, if any.
pub open spec fn fault_of(sim: SimulationCfg, out: OutputCfg) -> Option<ConfigError> {
    if sim.radius < 20 {
        Some(ConfigError::RadiusTooSmall)
    } else if sim.radius > 3000 {
        Some(ConfigError::RadiusTooLarge)
    } else if !number::above(sim.nucleation_rate, 0) {
        Some(ConfigError::NucleationRate)
    } else if sim.growth@ != "poisson"@ && sim.growth@ != "quantised"@ {
        Some(ConfigError::Growth)
    } else if !(number::above(sim.rate_quantum, 0) && !number::above(sim.rate_quantum, ONE)) {
        Some(ConfigError::RateQuantum)
    } else if out.image_size < 64 {
        Some(ConfigError::ImageSize)
    } else if out.frames < 2 {
        Some(ConfigError::Frames)
    } else if !(number::above(out.iso_elevation, FIVE) && !number::above(out.iso_elevation, NINETY)) {
        Some(ConfigError::IsoElevation)
    } else if !number::above(out.iso_height_scale, 0) {
        Some(ConfigError::IsoHeightScale)
    } else {
        None
    }
}

/// Check the settings of a history file.
pub fn validate(sim: &SimulationCfg, out: &OutputCfg) -> (checked: Result<(), ConfigError>)
    ensures
        match checked {
            Ok(_) => fault_of(*sim, *out) is None,
            Err(e) => fault_of(*sim, *out) == Some(e),
        },
{
    if sim.radius < 20 {
        return Err(ConfigError::RadiusTooSmall);
    }
    if sim.radius > 3000 {
        return Err(ConfigError::RadiusTooLarge);
    }
    if !number::is_above(sim.nucleation_rate, 0) {
        return Err(ConfigError::NucleationRate);
    }
    if !(sim.growth == "poisson".to_owned()) && !sim.quantised() {
        return Err(ConfigError::Growth);
    }
    if !number::is_above(sim.rate_quantum, 0) || number::is_above(sim.rate_quantum, ONE) {
        return Err(ConfigError::RateQuantum);
    }
    if out.image_size < 64 {
        return Err(ConfigError::ImageSize);
    }
    if out.frames < 2 {
        return Err(ConfigError::Frames);
    }
    if !number::is_above(out.iso_elevation, FIVE) || number::is_above(out.iso_elevation, NINETY) {
        return Err(ConfigError::IsoElevation);
    }
    if !number::is_above(out.iso_height_scale, 0) {
        return Err(ConfigError::IsoHeightScale);
    }
    Ok(())
}

/// The bounds of the settings are the numbers that they are named after.
pub proof fn bounds_are_their_numbers()
    ensures
        number::double(ONE as u64) == 2 * number::double_half(),
        number::double(FIVE as u64) == 10 * number::double_half(),
        number::double(TEN as u64) == 20 * number::double_half(),
        number::double(NINETY as u64) == 180 * number::double_half(),
        number::double(TWO_THOUSAND as u64) == 4000 * number::double_half(),
        number::double(0xc054_0000_0000_0000u64) == -160 * number::double_half(),
        number::code_of(0xc054_0000_0000_0000u64) == MINUS_EIGHTY,
        2 * number::double(P_STANDARD) == 4053 * number::double_half(),
        number::double(0) == 0,
{
    power2::lemma2_to64();
    power2::lemma2_to64_rest();
    let one = power2::pow2(1022) as int;
    power2::lemma_pow2_adds(51, 1022);
    assert(0x3ff0_0000_0000_0000int / 0x10_0000_0000_0000 == 1023);
    assert(number::double(ONE as u64) == 0x10_0000_0000_0000 * one);
    let five = power2::pow2(1024) as int;
    power2::lemma_pow2_adds(49, 1024);
    assert(0x4014_0000_0000_0000int / 0x10_0000_0000_0000 == 1025);
    assert(number::double(FIVE as u64) == 0x14_0000_0000_0000 * five);
    let ten = power2::pow2(1025) as int;
    power2::lemma_pow2_adds(48, 1025);
    assert(0x4024_0000_0000_0000int / 0x10_0000_0000_0000 == 1026);
    assert(number::double(TEN as u64) == 0x14_0000_0000_0000 * ten);
    let ninety = power2::pow2(1028) as int;
    power2::lemma_pow2_adds(45, 1028);
    assert(0x4056_8000_0000_0000int / 0x10_0000_0000_0000 == 1029);
    assert(number::double(NINETY as u64) == 0x16_8000_0000_0000 * ninety);
    assert(0x4054_0000_0000_0000int / 0x10_0000_0000_0000 == 1029);
    assert(number::double(0xc054_0000_0000_0000u64) == -(0x14_0000_0000_0000 * ninety));
    let thousands = power2::pow2(1032) as int;
    power2::lemma_pow2_adds(41, 1032);
    assert(0x409f_4000_0000_0000int / 0x10_0000_0000_0000 == 1033);
    assert(number::double(TWO_THOUSAND as u64) == 0x1f_4000_0000_0000 * thousands);
    let hundreds = power2::pow2(1031) as int;
    power2::lemma_pow2_adds(42, 1031);
    assert(0x408f_aa00_0000_0000int / 0x10_0000_0000_0000 == 1032);
    assert(number::double(P_STANDARD) == 0x1f_aa00_0000_0000 * hundreds);
}

/// Settings are accepted exactly in their ranges: a lattice of 20 to 3000 cells,
/// a positive nucleation rate, one of the two growth models, a rate quantum
/// above 0 and up to 1, images of 64 pixels or more, at least two frames, a
/// camera above 5 and up to 90 degrees, and a positive height scale.
pub proof fn settings_are_accepted_in_their_ranges(sim: SimulationCfg, out: OutputCfg)
    ensures
        fault_of(sim, out) is None <==> {
            let h = number::double_half();
            &&& 20 <= sim.radius <= 3000
            &&& !number::is_nan(sim.nucleation_rate) && number::double(sim.nucleation_rate) > 0
            &&& sim.growth@ == "poisson"@ || sim.growth@ == "quantised"@
            &&& !number::is_nan(sim.rate_quantum) && 0 < number::double(sim.rate_quantum) <= 2 * h
            &&& out.image_size >= 64
            &&& out.frames >= 2
            &&& !number::is_nan(out.iso_elevation) && 10 * h < number::double(out.iso_elevation)
                <= 180 * h
            &&& !number::is_nan(out.iso_height_scale) && number::double(out.iso_height_scale) > 0
        },
{
    bounds_are_their_numbers();
    number::codes_are_ordered(sim.nucleation_rate, 0);
    number::codes_are_ordered(sim.rate_quantum, 0);
    number::codes_are_ordered(sim.rate_quantum, ONE as u64);
    number::codes_are_ordered(out.iso_elevation, FIVE as u64);
    number::codes_are_ordered(out.iso_elevation, NINETY as u64);
    number::codes_are_ordered(out.iso_height_scale, 0);
}

/// A fault is named after the setting that is out of its range.
pub proof fn faults_name_their_setting(sim: SimulationCfg, out: OutputCfg)
    ensures
        match fault_of(sim, out) {
            Some(ConfigError::RadiusTooSmall) => sim.radius < 20,
            Some(ConfigError::RadiusTooLarge) => sim.radius > 3000,
            Some(ConfigError::NucleationRate) => number::is_nan(sim.nucleation_rate)
                || number::double(sim.nucleation_rate) <= 0,
            Some(ConfigError::Growth) => sim.growth@ != "poisson"@ && sim.growth@ != "quantised"@,
            Some(ConfigError::RateQuantum) => number::is_nan(sim.rate_quantum) || number::double(
                sim.rate_quantum,
            ) <= 0 || number::double(sim.rate_quantum) > 2 * number::double_half(),
            Some(ConfigError::ImageSize) => out.image_size < 64,
            Some(ConfigError::Frames) => out.frames < 2,
            Some(ConfigError::IsoElevation) => number::is_nan(out.iso_elevation) || number::double(
                out.iso_elevation,
            ) <= 10 * number::double_half() || number::double(out.iso_elevation) > 180
                * number::double_half(),
            Some(ConfigError::IsoHeightScale) => number::is_nan(out.iso_height_scale)
                || number::double(out.iso_height_scale) <= 0,
            None => true,
        },
{
    bounds_are_their_numbers();
    number::codes_are_ordered(sim.nucleation_rate, 0);
    number::codes_are_ordered(sim.rate_quantum, 0);
    number::codes_are_ordered(sim.rate_quantum, ONE as u64);
    number::codes_are_ordered(out.iso_elevation, FIVE as u64);
    number::codes_are_ordered(out.iso_elevation, NINETY as u64);
    number::codes_are_ordered(out.iso_height_scale, 0);
}

impl ConfigError {
    pub open spec fn text(self) -> Seq<char> {
        match self {
            ConfigError::RadiusTooSmall => "simulation.radius must be at least 20"@,
            ConfigError::RadiusTooLarge => "simulation.radius above 3000 is impractical"@,
            ConfigError::NucleationRate =>
                "simulation.nucleation_rate must be positive (use inf for deterministic)"@,
            ConfigError::Growth =>
                "simulation.growth must be \"poisson\" or \"quantised\""@,
            ConfigError::RateQuantum => "simulation.rate_quantum must be in (0, 1]"@,
            ConfigError::ImageSize => "output.image_size must be at least 64"@,
            ConfigError::Frames => "output.frames must be at least 2"@,
            ConfigError::IsoElevation => "output.iso_elevation must be between 5 and 90 degrees"@,
            ConfigError::IsoHeightScale => "output.iso_height_scale must be positive"@,
        }
    }

    /// What to tell the user.
    pub fn message(&self) -> (s: String)
        ensures
            s@ == self.text(),
    {
        match self {
            ConfigError::RadiusTooSmall => "simulation.radius must be at least 20".to_owned(),
            ConfigError::RadiusTooLarge => "simulation.radius above 3000 is impractical".to_owned(),
            ConfigError::NucleationRate =>
                "simulation.nucleation_rate must be positive (use inf for deterministic)".to_owned(),
            ConfigError::Growth =>
                "simulation.growth must be \"poisson\" or \"quantised\"".to_owned(),
            ConfigError::RateQuantum => "simulation.rate_quantum must be in (0, 1]".to_owned(),
            ConfigError::ImageSize => "output.image_size must be at least 64".to_owned(),
            ConfigError::Frames => "output.frames must be at least 2".to_owned(),
            ConfigError::IsoElevation =>
                "output.iso_elevation must be between 5 and 90 degrees".to_owned(),
            ConfigError::IsoHeightScale => "output.iso_height_scale must be positive".to_owned(),
        }
    }
}

/// Resolve an output path: command-line flag beats file setting beats default;
/// "-" disables the output.
pub fn output_path(flag: Option<String>, cfg: Option<String>, default: Option<String>) -> (path:
    Option<String>)
    ensures
        ({
            let chosen = if flag is Some {
                flag
            } else if cfg is Some {
                cfg
            } else {
                default
            };
            path == if chosen is Some && chosen.unwrap()@ != "-"@ {
                chosen
            } else {
                None
            }
        }),
{
    let chosen: Option<String> = if flag.is_some() {
        flag
    } else if cfg.is_some() {
        cfg
    } else {
        default
    };
    match chosen {
        Some(p) => {
            if p == "-".to_owned() {
                None
            } else {
                Some(p)
            }
        },
        None => None,
    }
}

} // verus!
