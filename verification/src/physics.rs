//! The habit names of the morphology diagram, and the lookup of tables that
//! are interpolated between knots.
//!
//! Temperatures and supersaturations are patterns of doubles, compared by
//! their order codes (see [`crate::number`]).

use crate::number;
use vstd::prelude::*;

verus! {

/// Crystal habit expected for given conditions, following the morphology
/// diagram.
#[derive(Clone, Copy, PartialEq, Eq, Structural, Debug)]
pub enum Morphology {
    SolidPrism,
    ThinPlate,
    SolidColumn,
    HollowColumn,
    Needle,
    SectoredPlate,
    StellarPlate,
    StellarDendrite,
    FernlikeDendrite,
    ColdPlate,
    ColdColumn,
}

/// Order code of 0.04.
pub const C_0_04: i64 = 0x3fa4_7ae1_47ae_147b;

/// Order code of 0.10.
pub const C_0_10: i64 = 0x3fb9_9999_9999_999a;

/// Order code of 0.11.
pub const C_0_11: i64 = 0x3fbc_28f5_c28f_5c29;

/// Order code of 0.17.
pub const C_0_17: i64 = 0x3fc5_c28f_5c28_f5c3;

/// Order code of 0.22.
pub const C_0_22: i64 = 0x3fcc_28f5_c28f_5c29;

/// Order code of 0.32.
pub const C_0_32: i64 = 0x3fd4_7ae1_47ae_147b;

/// Whether a double is a number no less than the one with order code `bound`.
pub open spec fn at_least(bits: u64, bound: i64) -> bool {
    !number::is_nan(bits) && number::code_of(bits) >= bound
}

/// Whether a temperature is a number greater than `n` half degrees.
pub open spec fn warmer(t: u64, n: int) -> bool {
    !number::is_nan(t) && !number::at_most_halves(t, n)
}

/// Whether a temperature is a number less than `n` half degrees.
pub open spec fn colder(t: u64, n: int) -> bool {
    !number::is_nan(t) && !number::at_least_halves(t, n)
}

/// Habit in the plate regimes: the branching ladder, at supersaturation `e` on
/// the scale of the local branching threshold.
pub open spec fn plate_habit(e: u64) -> Morphology {
    if number::below(e, C_0_11) {
        Morphology::ThinPlate
    } else if number::below(e, C_0_17) {
        Morphology::SectoredPlate
    } else if number::below(e, C_0_22) {
        Morphology::StellarPlate
    } else if number::below(e, C_0_32) {
        Morphology::StellarDendrite
    } else {
        Morphology::FernlikeDendrite
    }
}

/// Habit at temperature `t` and supersaturation `s`, which is `e` on the scale
/// of the local branching threshold.
pub open spec fn habit(t: u64, s: u64, e: u64) -> Morphology {
    if number::below(s, C_0_04) {
        Morphology::SolidPrism
    } else if warmer(t, -7) || (number::at_most_halves(t, -20) && warmer(t, -44)) {
        plate_habit(e)
    } else if warmer(t, -20) {
        if number::below(s, C_0_10) {
            Morphology::SolidColumn
        } else if at_least(s, C_0_17) && colder(t, -8) && warmer(t, -16) {
            Morphology::Needle
        } else {
            Morphology::HollowColumn
        }
    } else if number::below(s, C_0_10) {
        Morphology::ColdPlate
    } else {
        Morphology::ColdColumn
    }
}

fn is_at_least(bits: u64, bound: i64) -> (b: bool)
    ensures
        b == at_least(bits, bound),
{
    match number::order_code(bits) {
        Some(c) => c >= bound,
        None => false,
    }
}

fn is_warmer(t: u64, n: i32) -> (b: bool)
    ensures
        b == warmer(t, n as int),
{
    match number::order_code(t) {
        Some(_) => !number::is_at_most_halves(t, n),
        None => false,
    }
}

fn is_colder(t: u64, n: i32) -> (b: bool)
    ensures
        b == colder(t, n as int),
{
    match number::order_code(t) {
        Some(_) => !number::is_at_least_halves(t, n),
        None => false,
    }
}

impl Morphology {
    /// Habit at temperature `t` (degrees Celsius) and supersaturation `s`
    /// (grams per cubic metre), where `e` is the supersaturation rescaled so
    /// that the branching ladder sits at the same values as at -15 degrees.
    pub fn classify(t: u64, s: u64, e: u64) -> (m: Morphology)
        ensures
            m == habit(t, s, e),
    {
        // Growth is barely diffusion-limited below 0.04 g/m3: simple prisms.
        if number::is_below(s, C_0_04) {
            return Morphology::SolidPrism;
        }
        if is_warmer(t, -7) || (number::is_at_most_halves(t, -20) && is_warmer(t, -44)) {
            // Plate regimes.
            if number::is_below(e, C_0_11) {
                Morphology::ThinPlate
            } else if number::is_below(e, C_0_17) {
                Morphology::SectoredPlate
            } else if number::is_below(e, C_0_22) {
                Morphology::StellarPlate
            } else if number::is_below(e, C_0_32) {
                Morphology::StellarDendrite
            } else {
                Morphology::FernlikeDendrite
            }
        } else if is_warmer(t, -20) {
            // Column regime around -5 degrees.
            if number::is_below(s, C_0_10) {
                Morphology::SolidColumn
            } else if is_at_least(s, C_0_17) && is_colder(t, -8) && is_warmer(t, -16) {
                Morphology::Needle
            } else {
                Morphology::HollowColumn
            }
        } else if number::is_below(s, C_0_10) {
            // Cold regime: plates below water saturation ...
            Morphology::ColdPlate
        } else {
            // ... columns (and bullet rosettes) above it.
            Morphology::ColdColumn
        }
    }

    pub open spec fn text(self) -> Seq<char> {
        match self {
            Morphology::SolidPrism => "solid prism"@,
            Morphology::ThinPlate => "thin plate"@,
            Morphology::SolidColumn => "solid column"@,
            Morphology::HollowColumn => "hollow column"@,
            Morphology::Needle => "needle"@,
            Morphology::SectoredPlate => "sectored plate"@,
            Morphology::StellarPlate => "stellar plate"@,
            Morphology::StellarDendrite => "stellar dendrite"@,
            Morphology::FernlikeDendrite => "fernlike stellar dendrite"@,
            Morphology::ColdPlate => "plate (cold regime)"@,
            Morphology::ColdColumn => "column (cold regime)"@,
        }
    }

    /// Name of the habit.
    pub fn label(&self) -> (s: String)
        ensures
            s@ == self.text(),
    {
        match self {
            Morphology::SolidPrism => "solid prism".to_owned(),
            Morphology::ThinPlate => "thin plate".to_owned(),
            Morphology::SolidColumn => "solid column".to_owned(),
            Morphology::HollowColumn => "hollow column".to_owned(),
            Morphology::Needle => "needle".to_owned(),
            Morphology::SectoredPlate => "sectored plate".to_owned(),
            Morphology::StellarPlate => "stellar plate".to_owned(),
            Morphology::StellarDendrite => "stellar dendrite".to_owned(),
            Morphology::FernlikeDendrite => "fernlike stellar dendrite".to_owned(),
            Morphology::ColdPlate => "plate (cold regime)".to_owned(),
            Morphology::ColdColumn => "column (cold regime)".to_owned(),
        }
    }
}

/// At a given temperature more vapour never leads down the branching ladder of
/// the plate regimes: each habit's range of supersaturations lies above the
/// one before.
pub proof fn plate_ladder_rises(d: u64, e: u64)
    requires
        !number::is_nan(d),
        !number::is_nan(e),
        number::code_of(d) <= number::code_of(e),
    ensures
        rung(plate_habit(d)) <= rung(plate_habit(e)),
{
}

/// The diagram's regimes, for numbers: barely supersaturated air (under 0.04)
/// makes prisms at any temperature; above that, columns grow from -3.5 down to,
/// not including, -10 degrees, the cold habits from -22 degrees down, and plates
/// at all other temperatures.
pub proof fn habits_follow_the_regimes(t: u64, s: u64, e: u64)
    requires
        !number::is_nan(t),
        !number::is_nan(s),
        !number::is_nan(e),
    ensures
        ({
            let m = habit(t, s, e);
            let (v, h) = (number::double(t), number::double_half());
            let dry = number::code_of(s) < 0x3fa4_7ae1_47ae_147b;
            &&& m is SolidPrism <==> dry
            &&& is_column(m) <==> !dry && -20 * h < v <= -7 * h
            &&& is_cold(m) <==> !dry && v <= -44 * h
            &&& is_plate(m) <==> !dry && (v > -7 * h || -44 * h < v <= -20 * h)
        }),
{
}

/// Whether a habit is one of the columns that grow around -5 degrees.
pub open spec fn is_column(m: Morphology) -> bool {
    m is SolidColumn || m is HollowColumn || m is Needle
}

/// Whether a habit is one of those of the coldest air.
pub open spec fn is_cold(m: Morphology) -> bool {
    m is ColdPlate || m is ColdColumn
}

/// Whether a habit is on the branching ladder of the plates.
pub open spec fn is_plate(m: Morphology) -> bool {
    m is ThinPlate || m is SectoredPlate || m is StellarPlate || m is StellarDendrite
        || m is FernlikeDendrite
}

/// Among the columns, the solid ones are those under 0.10, the needles those from
/// 0.17 on between -8 and -4 degrees, and the rest are hollow; among the cold
/// habits, the plates are those under 0.10.
pub proof fn columns_hollow_out_with_vapour(t: u64, s: u64, e: u64)
    requires
        !number::is_nan(t),
        !number::is_nan(s),
        !number::is_nan(e),
    ensures
        ({
            let m = habit(t, s, e);
            let (v, h, c) = (number::double(t), number::double_half(), number::code_of(s));
            &&& is_column(m) ==> (m is SolidColumn <==> c < 0x3fb9_9999_9999_999a)
            &&& is_column(m) ==> (m is Needle <==> c >= 0x3fc5_c28f_5c28_f5c3 && -16 * h < v < -8
                * h)
            &&& is_cold(m) ==> (m is ColdPlate <==> c < 0x3fb9_9999_9999_999a)
        }),
{
}

/// Among the plates, the rescaled supersaturation picks the rung: 0.11, 0.17,
/// 0.22 and 0.32 part the thin, the sectored and the stellar plates, the
/// dendrites and the fernlike ones.
pub proof fn plates_branch_with_vapour(t: u64, s: u64, e: u64)
    requires
        !number::is_nan(t),
        !number::is_nan(s),
        !number::is_nan(e),
        is_plate(habit(t, s, e)),
    ensures
        ({
            let (m, c) = (habit(t, s, e), number::code_of(e));
            &&& m is ThinPlate <==> c < 0x3fbc_28f5_c28f_5c29
            &&& m is SectoredPlate <==> 0x3fbc_28f5_c28f_5c29 <= c < 0x3fc5_c28f_5c28_f5c3
            &&& m is StellarPlate <==> 0x3fc5_c28f_5c28_f5c3 <= c < 0x3fcc_28f5_c28f_5c29
            &&& m is StellarDendrite <==> 0x3fcc_28f5_c28f_5c29 <= c < 0x3fd4_7ae1_47ae_147b
            &&& m is FernlikeDendrite <==> c >= 0x3fd4_7ae1_47ae_147b
        }),
{
}

/// No two habits have the same name.
pub proof fn habits_have_different_names(a: Morphology, b: Morphology)
    ensures
        a.text() == b.text() <==> a == b,
        a.text().len() > 0,
{
    reveal_strlit("solid prism");
    reveal_strlit("thin plate");
    reveal_strlit("solid column");
    reveal_strlit("hollow column");
    reveal_strlit("needle");
    reveal_strlit("sectored plate");
    reveal_strlit("stellar plate");
    reveal_strlit("stellar dendrite");
    reveal_strlit("fernlike stellar dendrite");
    reveal_strlit("plate (cold regime)");
    reveal_strlit("column (cold regime)");
    if a != b && a.text() == b.text() {
        assert(a.text().len() == b.text().len());
        assert(a.text()[0] == b.text()[0]);
        assert(a.text()[1] == b.text()[1]);
        assert(a.text()[2] == b.text()[2]);
        assert(a.text()[8] == b.text()[8]);
    }
}

/// Whether a text begins with another.
pub open spec fn begins(s: Seq<char>, word: Seq<char>) -> bool {
    s.len() >= word.len() && s.take(word.len() as int) == word
}

/// Whether a text ends with another.
pub open spec fn ends(s: Seq<char>, word: Seq<char>) -> bool {
    s.len() >= word.len() && s.skip(s.len() - word.len()) == word
}

/// The name of a habit says its form: the warmer columns end in "column" or are
/// needles, the unbranched plates end in "plate" and the others in "dendrite", and
/// the cold habits end in "(cold regime)".
pub proof fn names_say_the_form(m: Morphology)
    ensures
        is_column(m) ==> ends(m.text(), "column"@) || m.text() == "needle"@,
        m is ThinPlate || m is SectoredPlate || m is StellarPlate ==> ends(m.text(), "plate"@),
        m is StellarDendrite || m is FernlikeDendrite ==> ends(m.text(), "stellar dendrite"@),
        is_cold(m) ==> ends(m.text(), "(cold regime)"@),
        m is SolidPrism ==> ends(m.text(), "prism"@),
        m is SolidPrism || m is SolidColumn <==> begins(m.text(), "solid"@),
        m is HollowColumn <==> begins(m.text(), "hollow"@),
        m is ThinPlate <==> begins(m.text(), "thin"@),
        m is SectoredPlate <==> begins(m.text(), "sectored"@),
        m is StellarPlate || m is StellarDendrite <==> begins(m.text(), "stellar"@),
        m is FernlikeDendrite <==> begins(m.text(), "fernlike"@),
        m is ColdPlate <==> begins(m.text(), "plate"@),
        m is ColdColumn <==> begins(m.text(), "column"@),
        m is Needle <==> begins(m.text(), "needle"@),
{
    reveal_strlit("solid prism");
    reveal_strlit("thin plate");
    reveal_strlit("solid column");
    reveal_strlit("hollow column");
    reveal_strlit("needle");
    reveal_strlit("sectored plate");
    reveal_strlit("stellar plate");
    reveal_strlit("stellar dendrite");
    reveal_strlit("fernlike stellar dendrite");
    reveal_strlit("plate (cold regime)");
    reveal_strlit("column (cold regime)");
    reveal_strlit("column");
    reveal_strlit("plate");
    reveal_strlit("(cold regime)");
    reveal_strlit("prism");
    reveal_strlit("solid");
    reveal_strlit("hollow");
    reveal_strlit("thin");
    reveal_strlit("sectored");
    reveal_strlit("stellar");
    reveal_strlit("fernlike");
    let s = m.text();
    match m {
        Morphology::SolidPrism => {
            assert(s.take(5) =~= "solid"@);
            assert(s.skip(s.len() - 5) =~= "prism"@);
        },
        Morphology::SolidColumn => {
            assert(s.take(5) =~= "solid"@);
            assert(s.skip(s.len() - 6) =~= "column"@);
        },
        Morphology::HollowColumn => {
            assert(s.take(6) =~= "hollow"@);
            assert(s.skip(s.len() - 6) =~= "column"@);
        },
        Morphology::Needle => {
            assert(s.take(6) =~= "needle"@);
        },
        Morphology::ThinPlate => {
            assert(s.take(4) =~= "thin"@);
            assert(s.skip(s.len() - 5) =~= "plate"@);
        },
        Morphology::SectoredPlate => {
            assert(s.take(8) =~= "sectored"@);
            assert(s.skip(s.len() - 5) =~= "plate"@);
        },
        Morphology::StellarPlate => {
            assert(s.take(7) =~= "stellar"@);
            assert(s.skip(s.len() - 5) =~= "plate"@);
        },
        Morphology::StellarDendrite => {
            assert(s.take(7) =~= "stellar"@);
            assert(s.skip(0) =~= "stellar dendrite"@);
        },
        Morphology::FernlikeDendrite => {
            assert(s.take(8) =~= "fernlike"@);
            assert(s.skip(s.len() - 16) =~= "stellar dendrite"@);
        },
        Morphology::ColdPlate => {
            assert(s.take(5) =~= "plate"@);
            assert(s.skip(s.len() - 13) =~= "(cold regime)"@);
        },
        Morphology::ColdColumn => {
            assert(s.take(6) =~= "column"@);
            assert(s.skip(s.len() - 13) =~= "(cold regime)"@);
        },
    }
    beginnings_show(s, "solid"@, 1);
    beginnings_show(s, "hollow"@, 0);
    beginnings_show(s, "thin"@, 0);
    beginnings_show(s, "sectored"@, 1);
    beginnings_show(s, "stellar"@, 1);
    beginnings_show(s, "fernlike"@, 0);
    beginnings_show(s, "plate"@, 0);
    beginnings_show(s, "column"@, 0);
    beginnings_show(s, "needle"@, 0);
}

proof fn beginnings_show(s: Seq<char>, word: Seq<char>, i: int)
    requires
        0 <= i < word.len(),
    ensures
        begins(s, word) ==> s[0] == word[0] && s[i] == word[i],
{
    if begins(s, word) {
        assert(s.take(word.len() as int)[0] == word[0]);
        assert(s.take(word.len() as int)[i] == word[i]);
    }
}

/// Place of a habit on the branching ladder.
pub open spec fn rung(m: Morphology) -> int {
    match m {
        Morphology::ThinPlate => 0,
        Morphology::SectoredPlate => 1,
        Morphology::StellarPlate => 2,
        Morphology::StellarDendrite => 3,
        _ => 4,
    }
}

/// A quantity of the attachment kinetics that is tabulated over temperature.
#[derive(Clone, Copy, PartialEq, Eq, Structural, Debug)]
pub enum Table {
    /// Nucleation barrier of large basal facets, a fraction.
    BasalBarrier,
    /// Nucleation barrier of large prism facets, a fraction.
    PrismBarrier,
    /// Prefactor of the prism facets in air.
    PrismPrefactor,
    /// Prefactor of the basal facets in air.
    BasalPrefactor,
    /// Width below which prism facets have a lower barrier, micrometres.
    PrismWidth,
    /// Width below which basal facets have a lower barrier, micrometres.
    BasalWidth,
    /// Supersaturation at which branching takes over, grams per cubic metre.
    Branching,
}

/// A knot of a table: the temperature in half degrees Celsius, and the value
/// in ten-thousandths.
pub type Knot = (i32, i32);

/// The knots of a table, from warm to cold.
pub open spec fn knots_of(table: Table) -> Seq<(int, int)> {
    match table {
        Table::BasalBarrier => seq![
            (4int, 360int),
            (-10, 300),
            (-20, 250),
            (-30, 220),
            (-40, 240),
            (-60, 340),
            (-120, 500),
        ],
        Table::PrismBarrier => seq![
            (4int, 80int),
            (-4, 120),
            (-10, 180),
            (-20, 240),
            (-30, 240),
            (-40, 260),
            (-60, 340),
            (-120, 500),
        ],
        Table::PrismPrefactor => seq![
            (4int, 500int),
            (0, 500),
            (-4, 1000),
            (-8, 100),
            (-12, 100),
            (-16, 500),
            (-20, 5000),
            (-24, 10000),
            (-120, 10000),
        ],
        Table::BasalPrefactor => seq![
            (4int, 5int),
            (-4, 5),
            (-7, 10000),
            (-16, 10000),
            (-20, 300),
            (-24, 20),
            (-36, 20),
            (-42, 300),
            (-48, 10000),
            (-120, 10000),
        ],
        Table::PrismWidth => seq![
            (4int, 20000int),
            (-4, 50000),
            (-8, 15000),
            (-14, 3000),
            (-20, 15000),
            (-24, 40000),
            (-28, 80000),
            (-32, 50000),
            (-36, 30000),
            (-42, 10000),
            (-60, 3000),
            (-120, 3000),
        ],
        Table::BasalWidth => seq![
            (4int, 3000int),
            (-4, 4000),
            (-6, 20000),
            (-8, 80000),
            (-12, 50000),
            (-16, 15000),
            (-24, 3000),
            (-44, 5000),
            (-56, 30000),
            (-70, 40000),
            (-120, 40000),
        ],
        Table::Branching => seq![
            (4int, 1400int),
            (-4, 1500),
            (-10, 2000),
            (-20, 2400),
            (-30, 2500),
            (-120, 2500),
        ],
    }
}

/// Knots as numbers.
pub open spec fn as_numbers(knots: Seq<Knot>) -> Seq<(int, int)> {
    knots.map(|i: int, k: Knot| (k.0 as int, k.1 as int))
}

impl Table {
    /// The knots of the table, from warm to cold.
    pub fn knots(&self) -> (knots: Vec<Knot>)
        ensures
            as_numbers(knots@) == knots_of(*self),
    {
        let knots: Vec<Knot> = match self {
            Table::BasalBarrier => vec![
                (4, 360),
                (-10, 300),
                (-20, 250),
                (-30, 220),
                (-40, 240),
                (-60, 340),
                (-120, 500),
            ],
            Table::PrismBarrier => vec![
                (4, 80),
                (-4, 120),
                (-10, 180),
                (-20, 240),
                (-30, 240),
                (-40, 260),
                (-60, 340),
                (-120, 500),
            ],
            Table::PrismPrefactor => vec![
                (4, 500),
                (0, 500),
                (-4, 1000),
                (-8, 100),
                (-12, 100),
                (-16, 500),
                (-20, 5000),
                (-24, 10000),
                (-120, 10000),
            ],
            Table::BasalPrefactor => vec![
                (4, 5),
                (-4, 5),
                (-7, 10000),
                (-16, 10000),
                (-20, 300),
                (-24, 20),
                (-36, 20),
                (-42, 300),
                (-48, 10000),
                (-120, 10000),
            ],
            Table::PrismWidth => vec![
                (4, 20000),
                (-4, 50000),
                (-8, 15000),
                (-14, 3000),
                (-20, 15000),
                (-24, 40000),
                (-28, 80000),
                (-32, 50000),
                (-36, 30000),
                (-42, 10000),
                (-60, 3000),
                (-120, 3000),
            ],
            Table::BasalWidth => vec![
                (4, 3000),
                (-4, 4000),
                (-6, 20000),
                (-8, 80000),
                (-12, 50000),
                (-16, 15000),
                (-24, 3000),
                (-44, 5000),
                (-56, 30000),
                (-70, 40000),
                (-120, 40000),
            ],
            Table::Branching => vec![
                (4, 1400),
                (-4, 1500),
                (-10, 2000),
                (-20, 2400),
                (-30, 2500),
                (-120, 2500),
            ],
        };
        proof {
            assert(as_numbers(knots@) =~= knots_of(*self));
        }
        knots
    }
}

/// The tables run from 2 to -60 degrees, strictly downward in temperature, and
/// every value is positive.
pub proof fn tables_are_in_order(table: Table)
    ensures
        knots_of(table).len() >= 2,
        knots_of(table)[0].0 == 4,
        knots_of(table).last().0 == -120,
        forall|i: int, j: int|
            0 <= i < j < knots_of(table).len() ==> (#[trigger] knots_of(table)[i]).0 > (
            #[trigger] knots_of(table)[j]).0,
        forall|i: int| 0 <= i < knots_of(table).len() ==> (#[trigger] knots_of(table)[i]).1 > 0,
{
}

/// The dips that part plates from columns: the prism width is largest at -14
/// degrees, with a second peak at -2, and the basal width at -4, each falling off
/// to both sides; the basal barrier is lowest at -15 degrees; the prism barrier
/// and the branching threshold never fall as it gets colder, the prism barrier
/// stays below the basal one down to -10 degrees, and from -30 degrees on the two
/// are the same.
pub proof fn tables_dip_where_plates_and_columns_part()
    ensures
        ({
            let t = knots_of(Table::PrismWidth);
            &&& t[6].0 == -28 && t[1].0 == -4
            &&& forall|i: int| 0 <= i < t.len() && i != 6 ==> (#[trigger] t[i]).1 < t[6].1
            &&& t[0].1 < t[1].1 && t[1].1 > t[2].1 > t[3].1 && t[3].1 < t[4].1 < t[5].1 < t[6].1
            &&& forall|i: int| 6 <= i < t.len() - 1 ==> (#[trigger] t[i]).1 >= t[i + 1].1
        }),
        ({
            let t = knots_of(Table::BasalWidth);
            &&& t[3].0 == -8
            &&& forall|i: int| 0 <= i < t.len() && i != 3 ==> (#[trigger] t[i]).1 < t[3].1
            &&& t[0].1 < t[1].1 < t[2].1 < t[3].1 && t[3].1 > t[4].1 > t[5].1 > t[6].1
            &&& forall|i: int| 6 <= i < t.len() - 1 ==> (#[trigger] t[i]).1 <= t[i + 1].1
        }),
        ({
            let t = knots_of(Table::BasalBarrier);
            &&& t[3].0 == -30
            &&& forall|i: int| 0 <= i < 3 ==> (#[trigger] t[i]).1 > t[i + 1].1
            &&& forall|i: int| 3 <= i < t.len() - 1 ==> (#[trigger] t[i]).1 < t[i + 1].1
        }),
        ({
            let t = knots_of(Table::PrismBarrier);
            let b = knots_of(Table::BasalBarrier);
            &&& forall|i: int| 0 <= i < t.len() - 1 ==> (#[trigger] t[i]).1 <= t[i + 1].1
            &&& t[0].0 == b[0].0 && t[2].0 == b[1].0 && t[3].0 == b[2].0
            &&& t[0].1 < b[0].1 && t[2].1 < b[1].1 && t[3].1 < b[2].1
            &&& t[6] == b[5] && t[6].0 == -60 && t[7] == b[6]
        }),
        ({
            let t = knots_of(Table::Branching);
            forall|i: int| 0 <= i < t.len() - 1 ==> (#[trigger] t[i]).1 <= t[i + 1].1
        }),
{
}

/// The prefactors in air: never more than one; the prism one is least from -4 to
/// -6 degrees and whole from -12 degrees on, and the basal one is whole from -3.5
/// to -8 degrees and from -24 degrees on, and at most a five-hundredth at -2 and
/// from -12 to -18 degrees.
pub proof fn prefactors_keep_needles_and_plates_thin()
    ensures
        ({
            let t = knots_of(Table::PrismPrefactor);
            &&& forall|i: int| 0 <= i < t.len() ==> (#[trigger] t[i]).1 <= 10_000
            &&& t[3].0 == -8 && t[4].0 == -12 && t[3].1 == t[4].1
            &&& forall|i: int| 0 <= i < t.len() ==> (#[trigger] t[i]).1 >= t[3].1
            &&& forall|i: int| 0 <= i < t.len() ==> ((#[trigger] t[i]).1 == 10_000 <==> t[i].0 <= -24)
        }),
        ({
            let t = knots_of(Table::BasalPrefactor);
            &&& forall|i: int| 0 <= i < t.len() ==> (#[trigger] t[i]).1 <= 10_000
            &&& forall|i: int|
                0 <= i < t.len() ==> ((#[trigger] t[i]).1 == 10_000 <==> -16 <= t[i].0 <= -7
                    || t[i].0 <= -48)
            &&& forall|i: int|
                0 <= i < t.len() && ((#[trigger] t[i]).0 >= -4 || -36 <= t[i].0 <= -24) ==> t[i].1
                    <= 20
        }),
{
}

/// What a table says at some temperature.
#[derive(Clone, Copy, Debug)]
pub enum Entry {
    /// The value of this knot.
    Flat(Knot),
    /// A value between those of these two knots, the warmer one first.
    Between(Knot, Knot),
}

/// Whether temperature `t` lies between knot `i` and the next.
pub open spec fn in_segment(knots: Seq<Knot>, t: u64, i: int) -> bool {
    number::at_most_halves(t, knots[i].0 as int) && number::at_least_halves(t, knots[i + 1].0 as int)
}

/// What knots from warm to cold say at temperature `t`: the first one's value
/// at or above it, else between the first two that enclose it, else the last
/// one's value.
pub open spec fn is_entry(knots: Seq<Knot>, t: u64, entry: Entry) -> bool {
    let last = knots.len() - 1;
    if number::at_least_halves(t, knots[0].0 as int) {
        entry == Entry::Flat(knots[0])
    } else {
        match entry {
            Entry::Flat(k) => k == knots[last] && forall|i: int|
                0 <= i < last ==> !#[trigger] in_segment(knots, t, i),
            Entry::Between(a, b) => exists|i: int|
                0 <= i < last && #[trigger] in_segment(knots, t, i) && a == knots[i] && b == knots[i
                    + 1] && forall|k: int| 0 <= k < i ==> !#[trigger] in_segment(knots, t, k),
        }
    }
}

/// What knots from warm to cold say at temperature `t`.
pub fn look_up(knots: &Vec<Knot>, t: u64) -> (entry: Entry)
    requires
        knots@.len() >= 1,
    ensures
        is_entry(knots@, t, entry),
{
    if number::is_at_least_halves(t, knots[0].0) {
        return Entry::Flat(knots[0]);
    }
    let mut i: usize = 0;
    while i < knots.len() - 1
        invariant
            knots@.len() >= 1,
            !number::at_least_halves(t, knots@[0].0 as int),
            i < knots@.len(),
            forall|k: int| 0 <= k < i ==> !#[trigger] in_segment(knots@, t, k),
        decreases knots@.len() - i,
    {
        if number::is_at_most_halves(t, knots[i].0) && number::is_at_least_halves(t, knots[i + 1].0) {
            assert(in_segment(knots@, t, i as int));
            return Entry::Between(knots[i], knots[i + 1]);
        }
        i = i + 1;
    }
    Entry::Flat(knots[knots.len() - 1])
}

/// A table has a value between knots exactly from its last knot up to its
/// first, and there the two knots enclose the temperature.
pub proof fn tables_interpolate_within_their_range(
    table: Table,
    knots: Seq<Knot>,
    t: u64,
    entry: Entry,
)
    requires
        as_numbers(knots) == knots_of(table),
        !number::is_nan(t),
        is_entry(knots, t, entry),
    ensures
        entry is Between <==> number::double(t) < 4 * number::double_half() && number::double(t)
            >= -120 * number::double_half(),
        entry matches Entry::Between(a, b) ==> b.0 * number::double_half() <= number::double(t)
            <= a.0 * number::double_half() && a.0 > b.0,
        entry matches Entry::Between(a, b) ==> exists|i: int|
            0 <= i < knots.len() - 1 && #[trigger] knots[i] == a && knots[i + 1] == b,
        entry matches Entry::Flat(k) ==> k == if number::double(t) >= 4 * number::double_half() {
            knots[0]
        } else {
            knots[knots.len() - 1]
        },
{
    tables_are_in_order(table);
    assert forall|i: int| 0 <= i < knots.len() implies (#[trigger] knots[i]).0 == knots_of(
        table,
    )[i].0 by {
        assert(as_numbers(knots)[i] == knots_of(table)[i]);
    }
    if !number::at_least_halves(t, knots[0].0 as int) && number::at_least_halves(t, knots.last().0 as int) {
        every_temperature_has_a_segment(knots, t, knots.len() - 1);
    }
    if let Entry::Between(a, b) = entry {
        let i = choose|i: int|
            0 <= i < knots.len() - 1 && #[trigger] in_segment(knots, t, i) && a == knots[i] && b
                == knots[i + 1] && forall|k: int|
                0 <= k < i ==> !#[trigger] in_segment(knots, t, k);
        let h = number::double_half();
        vstd::arithmetic::power2::lemma_pow2_pos(1073);
        let (low, last) = (knots[i + 1].0 as int, -120int);
        assert(low == knots_of(table)[i + 1].0);
        assert(knots_of(table)[i].0 > knots_of(table)[i + 1].0);
        assert(low * h >= last * h) by (nonlinear_arith)
            requires
                low >= last,
                h >= 0,
        ;
    }
}

proof fn every_temperature_has_a_segment(knots: Seq<Knot>, t: u64, m: int)
    requires
        0 <= m < knots.len(),
        !number::at_least_halves(t, knots[0].0 as int),
        number::at_least_halves(t, knots[m].0 as int),
    ensures
        exists|k: int| 0 <= k < m && #[trigger] in_segment(knots, t, k),
    decreases m,
{
    if m > 0 {
        if number::at_least_halves(t, knots[m - 1].0 as int) {
            every_temperature_has_a_segment(knots, t, m - 1);
        } else {
            assert(in_segment(knots, t, m - 1));
        }
    }
}

} // verus!
