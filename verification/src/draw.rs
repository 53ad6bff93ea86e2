//! Reproducible random draws: one number per lattice cell and growth step,
//! shared between the twelve symmetric images of a cell when asked for.

use crate::hex;
use vstd::prelude::*;

verus! {

/// Multiplier that spreads step numbers over the seed.
pub const GOLDEN: u64 = 0x9E37_79B9_7F4A_7C15;

/// Number of levels of a draw.
pub const LEVELS: u32 = 0x100_0000;

/// The splitmix64 finaliser.
pub open spec fn mixed(x: u64) -> u64 {
    let z0 = x.wrapping_add(GOLDEN);
    let z1 = (z0 ^ (z0 >> 30u64)).wrapping_mul(0xBF58_476D_1CE4_E5B9);
    let z2 = (z1 ^ (z1 >> 27u64)).wrapping_mul(0x94D0_49BB_1331_11EB);
    z2 ^ (z2 >> 31u64)
}

/// splitmix64 finaliser: a cheap, well-mixed hash for per-cell randomness.
pub fn hash64(z: u64) -> (h: u64)
    ensures
        h == mixed(z),
{
    let z0: u64 = z.wrapping_add(GOLDEN);
    let z1: u64 = (z0 ^ (z0 >> 30u64)).wrapping_mul(0xBF58_476D_1CE4_E5B9);
    let z2: u64 = (z1 ^ (z1 >> 27u64)).wrapping_mul(0x94D0_49BB_1331_11EB);
    z2 ^ (z2 >> 31u64)
}

/// Key of a cell: its two coordinates side by side.
pub open spec fn key_of(q: i32, r: i32) -> u64 {
    ((q as u32 as u64) << 32u64) | (r as u32 as u64)
}

/// The two coordinates of a cell in one word.
pub fn draw_key(q: i32, r: i32) -> (key: u64)
    ensures
        key == key_of(q, r),
{
    (((#[verifier::truncate] (q as u32)) as u64) << 32u64) | ((#[verifier::truncate] (r as u32)) as u64)
}

/// Different cells have different keys.
pub proof fn keys_are_distinct(q: i32, r: i32, x: i32, y: i32)
    ensures
        key_of(q, r) == key_of(x, y) <==> q == x && r == y,
{
    assert(((q as u32 as u64) << 32u64) | (r as u32 as u64) == ((x as u32 as u64) << 32u64) | (
    y as u32 as u64) <==> q == x && r == y) by (bit_vector);
}

/// Seed of the draws of one growth step.
pub fn step_seed(seed: u64, step: u64) -> (s: u64)
    ensures
        s == seed ^ step.wrapping_mul(GOLDEN),
{
    seed ^ step.wrapping_mul(GOLDEN)
}

/// The cell whose draw (q, r) uses.
pub open spec fn drawing_cell(q: int, r: int, symmetric: bool) -> hex::Cell {
    if symmetric {
        hex::representative((q, r))
    } else {
        (q, r)
    }
}

/// The number that the draw of cell `c` in a step is made of.
pub open spec fn draw_source(seed: u64, step: u64, c: hex::Cell) -> u64 {
    (seed ^ step.wrapping_mul(GOLDEN)) ^ key_of(c.0 as i32, c.1 as i32)
}

/// Level drawn for cell `c` in a step.
pub open spec fn level_of(seed: u64, step: u64, c: hex::Cell) -> u32 {
    (mixed(draw_source(seed, step, c)) >> 40u64) as u32
}

/// Uniform level in 0..LEVELS for cell (q, r) in a growth step; `symmetric`
/// gives all twelve images of a cell the same one.
pub fn draw_level(seed: u64, step: u64, q: i32, r: i32, symmetric: bool) -> (level: u32)
    requires
        hex::in_range(q as int, r as int),
    ensures
        level == level_of(seed, step, drawing_cell(q as int, r as int, symmetric)),
        level < LEVELS,
{
    let cell: (i32, i32) = if symmetric {
        hex::canonical(q, r)
    } else {
        (q, r)
    };
    let h: u64 = hash64(step_seed(seed, step) ^ draw_key(cell.0, cell.1));
    proof {
        assert((h >> 40u64) < 0x100_0000) by (bit_vector);
    }
    (h >> 40u64) as u32
}

proof fn spread_steps_are_distinct(a: u64, b: u64)
    ensures
        a.wrapping_mul(GOLDEN) == b.wrapping_mul(GOLDEN) ==> a == b,
{
    let (x, y) = (a * GOLDEN, b * GOLDEN);
    vstd::arithmetic::div_mod::lemma_fundamental_div_mod(x, 0x1_0000_0000_0000_0000);
    vstd::arithmetic::div_mod::lemma_fundamental_div_mod(y, 0x1_0000_0000_0000_0000);
    if a.wrapping_mul(GOLDEN) == b.wrapping_mul(GOLDEN) {
        let d = a - b;
        let t = x / 0x1_0000_0000_0000_0000 - y / 0x1_0000_0000_0000_0000;
        assert(d * GOLDEN == t * 0x1_0000_0000_0000_0000);
        // The multiplier times this number is one more than a multiple of 2^64.
        let u = t * 0xf1de83e19937733d - d * 0x957bbf35006ed677;
        assert(d == 0x1_0000_0000_0000_0000 * u);
    }
}

/// No two draws are made of the same number where only the seed, only the step or
/// only the cell differs, and a level is the top of the number, mixed.
pub proof fn draws_go_by_seed_step_and_cell(
    seed: u64,
    step: u64,
    c: (i32, i32),
    other_seed: u64,
    other_step: u64,
    other_c: (i32, i32),
)
    ensures
        ({
            let cell = (c.0 as int, c.1 as int);
            let other = (other_c.0 as int, other_c.1 as int);
            &&& draw_source(seed, step, cell) == draw_source(other_seed, step, cell) <==> seed
                == other_seed
            &&& draw_source(seed, step, cell) == draw_source(seed, other_step, cell) <==> step
                == other_step
            &&& draw_source(seed, step, cell) == draw_source(seed, step, other) <==> c == other_c
            &&& level_of(seed, step, cell) == mixed(draw_source(seed, step, cell)) / 0x100_0000_0000
        }),
{
    let (s, t) = (step.wrapping_mul(GOLDEN), other_step.wrapping_mul(GOLDEN));
    let (k, l) = (key_of(c.0, c.1), key_of(other_c.0, other_c.1));
    spread_steps_are_distinct(step, other_step);
    keys_are_distinct(c.0, c.1, other_c.0, other_c.1);
    assert((seed ^ s) ^ k == (other_seed ^ s) ^ k <==> seed == other_seed) by (bit_vector);
    assert((seed ^ s) ^ k == (seed ^ t) ^ k <==> s == t) by (bit_vector);
    assert((seed ^ s) ^ k == (seed ^ s) ^ l <==> k == l) by (bit_vector);
    let h = mixed(draw_source(seed, step, (c.0 as int, c.1 as int)));
    assert(h >> 40u64 == h / 0x100_0000_0000 && h >> 40u64 < 0x100_0000) by (bit_vector);
}

/// Without shared draws every cell draws by itself: two cells draw from the same
/// number in a step only if they are the same.
pub proof fn unshared_draws_are_a_cells_own(c: (i32, i32), d: (i32, i32))
    ensures
        ({
            let (a, b) = (
                drawing_cell(c.0 as int, c.1 as int, false),
                drawing_cell(d.0 as int, d.1 as int, false),
            );
            key_of(a.0 as i32, a.1 as i32) == key_of(b.0 as i32, b.1 as i32) <==> c == d
        }),
{
    keys_are_distinct(c.0, c.1, d.0, d.1);
}

/// With shared draws, every image of a cell draws the same level.
pub proof fn shared_draws_are_symmetric(seed: u64, step: u64, c: hex::Cell, d: hex::Cell)
    requires
        hex::same_orbit(c, d),
    ensures
        level_of(seed, step, drawing_cell(c.0, c.1, true)) == level_of(
            seed,
            step,
            drawing_cell(d.0, d.1, true),
        ),
{
    hex::representatives_agree_on_orbits(c, d);
}

} // verus!
