//! Directions and angles. Cosines and sines come from a table of whole
//! degrees, carried on by the angle-addition formulas and a short power
//! series for the part of a degree; the arc tangent goes the same way back.
use vstd::prelude::*;
use crate::fixed::{magnitude, modulo, ONE};
use crate::vector::{lemma_norm_sq_zero, lemma_shrunk_to, Vec2, Vector};

verus! {

/// A full turn: 360 degrees as a fixed-point scalar.
pub const FULL_TURN: i64 = 360_000_000;

/// A half turn: 180 degrees as a fixed-point scalar.
pub const HALF_TURN: i64 = 180_000_000;

/// A quarter turn: 90 degrees as a fixed-point scalar.
pub const QUARTER_TURN: i64 = 90_000_000;

/// The scale of the table and of the values worked with on the way to a
/// cosine or an angle: nine decimal places, a thousand times finer than a
/// fixed-point scalar.
pub const FINE: i64 = 1_000_000_000;

/// The radians in one degree, in units of `1 / (1000 * FINE)`.
pub const RADIANS_PER_DEGREE: i64 = 17_453_292_520;

/// The degrees in one radian, at the scale `FINE`.
pub const DEGREES_PER_RADIAN: i64 = 57_295_779_513;

/// The tangent of one degree at the scale `FINE`, rounded up.
pub const TAN_ONE_DEGREE: i64 = 17_455_065;

/// The cosines of 0, 1, ..., 90 degrees at the scale `FINE`, each rounded
/// down, so that a cosine and the matching sine never exceed unit length.
pub const QUARTER_COSINES: [i64; 91] = [
    1000000000, 999847695, 999390827, 998629534, 997564050,
    996194698, 994521895, 992546151, 990268068, 987688340,
    984807753, 981627183, 978147600, 974370064, 970295726,
    965925826, 961261695, 956304755, 951056516, 945518575,
    939692620, 933580426, 927183854, 920504853, 913545457,
    906307787, 898794046, 891006524, 882947592, 874619707,
    866025403, 857167300, 848048096, 838670567, 829037572,
    819152044, 809016994, 798635510, 788010753, 777145961,
    766044443, 754709580, 743144825, 731353701, 719339800,
    707106781, 694658370, 681998360, 669130606, 656059028,
    642787609, 629320391, 615661475, 601815023, 587785252,
    573576436, 559192903, 544639035, 529919264, 515038074,
    500000000, 484809620, 469471562, 453990499, 438371146,
    422618261, 406736643, 390731128, 374606593, 358367949,
    342020143, 325568154, 309016994, 292371704, 275637355,
    258819045, 241921895, 224951054, 207911690, 190808995,
    173648177, 156434465, 139173100, 121869343, 104528463,
    87155742, 69756473, 52335956, 34899496, 17452406,
    0,
];

/// The tabulated cosine of `k` degrees, for `k` from 0 to 90.
#[verifier::opaque]
pub open spec fn quarter_cos(k: int) -> int {
    QUARTER_COSINES[k] as int
}

/// The cosine of `d` whole degrees at the scale `FINE`, for `d` from 0 to
/// 359, by the symmetries of the cosine about 90 and 180 degrees.
pub open spec fn cos_deg(d: int) -> int {
    if d <= 90 {
        quarter_cos(d)
    } else if d <= 180 {
        -quarter_cos(180 - d)
    } else if d <= 270 {
        -quarter_cos(d - 180)
    } else {
        quarter_cos(360 - d)
    }
}

/// The sine of `d` whole degrees at the scale `FINE`, for `d` from 0 to 359:
/// the cosine a quarter turn earlier.
pub open spec fn sin_deg(d: int) -> int {
    cos_deg((d + 270) % 360)
}

/// An angle brought into the range from zero up to a full turn.
pub open spec fn wrap_angle(angle: int) -> int {
    angle % (FULL_TURN as int)
}

/// The whole degrees of an angle, from 0 to 359, once it is brought into one
/// turn.
pub open spec fn whole_degrees(angle: int) -> int {
    wrap_angle(angle) / (ONE as int)
}

/// What an angle brought into one turn has beyond its whole degrees, in
/// millionths of a degree.
pub open spec fn part_degree(angle: int) -> int {
    wrap_angle(angle) % (ONE as int)
}

/// A part of a degree, given in millionths, in radians at the scale `FINE`.
pub open spec fn small_radians(part: int) -> int {
    (part * RADIANS_PER_DEGREE) / (FINE as int)
}

/// The sine of a small angle `r`, both at the scale `FINE`: the first two
/// terms of its power series.
pub open spec fn small_sin(r: int) -> int {
    r - (r * r * r) / (6 * (FINE * FINE))
}

/// The cosine of a small angle `r`, both at the scale `FINE`: the first
/// three terms of its power series.
pub open spec fn small_cos(r: int) -> int {
    FINE - (r * r) / (2 * FINE) + (r * r * r * r) / (24 * (FINE * FINE * FINE))
}

/// The cosine and sine of `angle` at the scale `FINE * FINE`, by the
/// angle-addition formulas: the table gives those of its whole degrees, the
/// power series those of the rest.
pub open spec fn raw_heading(angle: int) -> Vector {
    let ca = cos_deg(whole_degrees(angle));
    let sa = sin_deg(whole_degrees(angle));
    let cb = small_cos(small_radians(part_degree(angle)));
    let sb = small_sin(small_radians(part_degree(angle)));
    Vector { x: ca * cb - sa * sb, y: sa * cb + ca * sb }
}

/// The unit vector that points along `angle`: its cosine and its sine as
/// fixed-point scalars, each rounded toward zero.
pub open spec fn heading(angle: int) -> Vector {
    raw_heading(angle).normalised()
}

/// What the table holds: every entry lies between zero and one, the first is
/// one and the last is zero, and a cosine with its matching sine has length
/// between `FINE - 2` and `FINE`.
pub proof fn lemma_quarter_cosines(k: int)
    requires
        0 <= k <= 90,
    ensures
        0 <= quarter_cos(k) <= FINE,
        quarter_cos(0) == FINE,
        quarter_cos(90) == 0,
        k < 90 ==> quarter_cos(k) > 0,
        (FINE - 2) * (FINE - 2) <= quarter_cos(k) * quarter_cos(k) + quarter_cos(90 - k)
            * quarter_cos(90 - k) <= FINE * FINE,
{
    reveal(quarter_cos);
    let c = quarter_cos(k);
    let s = quarter_cos(90 - k);
    if k == 0 {
        assert((FINE - 2) * (FINE - 2) <= c * c + s * s <= FINE * FINE) by (nonlinear_arith)
            requires
                c == 1000000000,
                s == 0,
                FINE == 1_000_000_000,
        ;
    } else if k == 1 {
        assert((FINE - 2) * (FINE - 2) <= c * c + s * s <= FINE * FINE) by (nonlinear_arith)
            requires
                c == 999847695,
                s == 17452406,
                FINE == 1_000_000_000,
        ;
    } else if k == 2 {
        assert((FINE - 2) * (FINE - 2) <= c * c + s * s <= FINE * FINE) by (nonlinear_arith)
            requires
                c == 999390827,
                s == 34899496,
                FINE == 1_000_000_000,
        ;
    } else if k == 3 {
        assert((FINE - 2) * (FINE - 2) <= c * c + s * s <= FINE * FINE) by (nonlinear_arith)
            requires
                c == 998629534,
                s == 52335956,
                FINE == 1_000_000_000,
        ;
    } else if k == 4 {
        assert((FINE - 2) * (FINE - 2) <= c * c + s * s <= FINE * FINE) by (nonlinear_arith)
            requires
                c == 997564050,
                s == 69756473,
                FINE == 1_000_000_000,
        ;
    } else if k == 5 {
        assert((FINE - 2) * (FINE - 2) <= c * c + s * s <= FINE * FINE) by (nonlinear_arith)
            requires
                c == 996194698,
                s == 87155742,
                FINE == 1_000_000_000,
        ;
    } else if k == 6 {
        assert((FINE - 2) * (FINE - 2) <= c * c + s * s <= FINE * FINE) by (nonlinear_arith)
            requires
                c == 994521895,
                s == 104528463,
                FINE == 1_000_000_000,
        ;
    } else if k == 7 {
        assert((FINE - 2) * (FINE - 2) <= c * c + s * s <= FINE * FINE) by (nonlinear_arith)
            requires
                c == 992546151,
                s == 121869343,
                FINE == 1_000_000_000,
        ;
    } else if k == 8 {
        assert((FINE - 2) * (FINE - 2) <= c * c + s * s <= FINE * FINE) by (nonlinear_arith)
            requires
                c == 990268068,
                s == 139173100,
                FINE == 1_000_000_000,
        ;
    } else if k == 9 {
        assert((FINE - 2) * (FINE - 2) <= c * c + s * s <= FINE * FINE) by (nonlinear_arith)
            requires
                c == 987688340,
                s == 156434465,
                FINE == 1_000_000_000,
        ;
    } else if k == 10 {
        assert((FINE - 2) * (FINE - 2) <= c * c + s * s <= FINE * FINE) by (nonlinear_arith)
            requires
                c == 984807753,
                s == 173648177,
                FINE == 1_000_000_000,
        ;
    } else if k == 11 {
        assert((FINE - 2) * (FINE - 2) <= c * c + s * s <= FINE * FINE) by (nonlinear_arith)
            requires
                c == 981627183,
                s == 190808995,
                FINE == 1_000_000_000,
        ;
    } else if k == 12 {
        assert((FINE - 2) * (FINE - 2) <= c * c + s * s <= FINE * FINE) by (nonlinear_arith)
            requires
                c == 978147600,
                s == 207911690,
                FINE == 1_000_000_000,
        ;
    } else if k == 13 {
        assert((FINE - 2) * (FINE - 2) <= c * c + s * s <= FINE * FINE) by (nonlinear_arith)
            requires
                c == 974370064,
                s == 224951054,
                FINE == 1_000_000_000,
        ;
    } else if k == 14 {
        assert((FINE - 2) * (FINE - 2) <= c * c + s * s <= FINE * FINE) by (nonlinear_arith)
            requires
                c == 970295726,
                s == 241921895,
                FINE == 1_000_000_000,
        ;
    } else if k == 15 {
        assert((FINE - 2) * (FINE - 2) <= c * c + s * s <= FINE * FINE) by (nonlinear_arith)
            requires
                c == 965925826,
                s == 258819045,
                FINE == 1_000_000_000,
        ;
    } else if k == 16 {
        assert((FINE - 2) * (FINE - 2) <= c * c + s * s <= FINE * FINE) by (nonlinear_arith)
            requires
                c == 961261695,
                s == 275637355,
                FINE == 1_000_000_000,
        ;
    } else if k == 17 {
        assert((FINE - 2) * (FINE - 2) <= c * c + s * s <= FINE * FINE) by (nonlinear_arith)
            requires
                c == 956304755,
                s == 292371704,
                FINE == 1_000_000_000,
        ;
    } else if k == 18 {
        assert((FINE - 2) * (FINE - 2) <= c * c + s * s <= FINE * FINE) by (nonlinear_arith)
            requires
                c == 951056516,
                s == 309016994,
                FINE == 1_000_000_000,
        ;
    } else if k == 19 {
        assert((FINE - 2) * (FINE - 2) <= c * c + s * s <= FINE * FINE) by (nonlinear_arith)
            requires
                c == 945518575,
                s == 325568154,
                FINE == 1_000_000_000,
        ;
    } else if k == 20 {
        assert((FINE - 2) * (FINE - 2) <= c * c + s * s <= FINE * FINE) by (nonlinear_arith)
            requires
                c == 939692620,
                s == 342020143,
                FINE == 1_000_000_000,
        ;
    } else if k == 21 {
        assert((FINE - 2) * (FINE - 2) <= c * c + s * s <= FINE * FINE) by (nonlinear_arith)
            requires
                c == 933580426,
                s == 358367949,
                FINE == 1_000_000_000,
        ;
    } else if k == 22 {
        assert((FINE - 2) * (FINE - 2) <= c * c + s * s <= FINE * FINE) by (nonlinear_arith)
            requires
                c == 927183854,
                s == 374606593,
                FINE == 1_000_000_000,
        ;
    } else if k == 23 {
        assert((FINE - 2) * (FINE - 2) <= c * c + s * s <= FINE * FINE) by (nonlinear_arith)
            requires
                c == 920504853,
                s == 390731128,
                FINE == 1_000_000_000,
        ;
    } else if k == 24 {
        assert((FINE - 2) * (FINE - 2) <= c * c + s * s <= FINE * FINE) by (nonlinear_arith)
            requires
                c == 913545457,
                s == 406736643,
                FINE == 1_000_000_000,
        ;
    } else if k == 25 {
        assert((FINE - 2) * (FINE - 2) <= c * c + s * s <= FINE * FINE) by (nonlinear_arith)
            requires
                c == 906307787,
                s == 422618261,
                FINE == 1_000_000_000,
        ;
    } else if k == 26 {
        assert((FINE - 2) * (FINE - 2) <= c * c + s * s <= FINE * FINE) by (nonlinear_arith)
            requires
                c == 898794046,
                s == 438371146,
                FINE == 1_000_000_000,
        ;
    } else if k == 27 {
        assert((FINE - 2) * (FINE - 2) <= c * c + s * s <= FINE * FINE) by (nonlinear_arith)
            requires
                c == 891006524,
                s == 453990499,
                FINE == 1_000_000_000,
        ;
    } else if k == 28 {
        assert((FINE - 2) * (FINE - 2) <= c * c + s * s <= FINE * FINE) by (nonlinear_arith)
            requires
                c == 882947592,
                s == 469471562,
                FINE == 1_000_000_000,
        ;
    } else if k == 29 {
        assert((FINE - 2) * (FINE - 2) <= c * c + s * s <= FINE * FINE) by (nonlinear_arith)
            requires
                c == 874619707,
                s == 484809620,
                FINE == 1_000_000_000,
        ;
    } else if k == 30 {
        assert((FINE - 2) * (FINE - 2) <= c * c + s * s <= FINE * FINE) by (nonlinear_arith)
            requires
                c == 866025403,
                s == 500000000,
                FINE == 1_000_000_000,
        ;
    } else if k == 31 {
        assert((FINE - 2) * (FINE - 2) <= c * c + s * s <= FINE * FINE) by (nonlinear_arith)
            requires
                c == 857167300,
                s == 515038074,
                FINE == 1_000_000_000,
        ;
    } else if k == 32 {
        assert((FINE - 2) * (FINE - 2) <= c * c + s * s <= FINE * FINE) by (nonlinear_arith)
            requires
                c == 848048096,
                s == 529919264,
                FINE == 1_000_000_000,
        ;
    } else if k == 33 {
        assert((FINE - 2) * (FINE - 2) <= c * c + s * s <= FINE * FINE) by (nonlinear_arith)
            requires
                c == 838670567,
                s == 544639035,
                FINE == 1_000_000_000,
        ;
    } else if k == 34 {
        assert((FINE - 2) * (FINE - 2) <= c * c + s * s <= FINE * FINE) by (nonlinear_arith)
            requires
                c == 829037572,
                s == 559192903,
                FINE == 1_000_000_000,
        ;
    } else if k == 35 {
        assert((FINE - 2) * (FINE - 2) <= c * c + s * s <= FINE * FINE) by (nonlinear_arith)
            requires
                c == 819152044,
                s == 573576436,
                FINE == 1_000_000_000,
        ;
    } else if k == 36 {
        assert((FINE - 2) * (FINE - 2) <= c * c + s * s <= FINE * FINE) by (nonlinear_arith)
            requires
                c == 809016994,
                s == 587785252,
                FINE == 1_000_000_000,
        ;
    } else if k == 37 {
        assert((FINE - 2) * (FINE - 2) <= c * c + s * s <= FINE * FINE) by (nonlinear_arith)
            requires
                c == 798635510,
                s == 601815023,
                FINE == 1_000_000_000,
        ;
    } else if k == 38 {
        assert((FINE - 2) * (FINE - 2) <= c * c + s * s <= FINE * FINE) by (nonlinear_arith)
            requires
                c == 788010753,
                s == 615661475,
                FINE == 1_000_000_000,
        ;
    } else if k == 39 {
        assert((FINE - 2) * (FINE - 2) <= c * c + s * s <= FINE * FINE) by (nonlinear_arith)
            requires
                c == 777145961,
                s == 629320391,
                FINE == 1_000_000_000,
        ;
    } else if k == 40 {
        assert((FINE - 2) * (FINE - 2) <= c * c + s * s <= FINE * FINE) by (nonlinear_arith)
            requires
                c == 766044443,
                s == 642787609,
                FINE == 1_000_000_000,
        ;
    } else if k == 41 {
        assert((FINE - 2) * (FINE - 2) <= c * c + s * s <= FINE * FINE) by (nonlinear_arith)
            requires
                c == 754709580,
                s == 656059028,
                FINE == 1_000_000_000,
        ;
    } else if k == 42 {
        assert((FINE - 2) * (FINE - 2) <= c * c + s * s <= FINE * FINE) by (nonlinear_arith)
            requires
                c == 743144825,
                s == 669130606,
                FINE == 1_000_000_000,
        ;
    } else if k == 43 {
        assert((FINE - 2) * (FINE - 2) <= c * c + s * s <= FINE * FINE) by (nonlinear_arith)
            requires
                c == 731353701,
                s == 681998360,
                FINE == 1_000_000_000,
        ;
    } else if k == 44 {
        assert((FINE - 2) * (FINE - 2) <= c * c + s * s <= FINE * FINE) by (nonlinear_arith)
            requires
                c == 719339800,
                s == 694658370,
                FINE == 1_000_000_000,
        ;
    } else if k == 45 {
        assert((FINE - 2) * (FINE - 2) <= c * c + s * s <= FINE * FINE) by (nonlinear_arith)
            requires
                c == 707106781,
                s == 707106781,
                FINE == 1_000_000_000,
        ;
    } else if k == 46 {
        assert((FINE - 2) * (FINE - 2) <= c * c + s * s <= FINE * FINE) by (nonlinear_arith)
            requires
                c == 694658370,
                s == 719339800,
                FINE == 1_000_000_000,
        ;
    } else if k == 47 {
        assert((FINE - 2) * (FINE - 2) <= c * c + s * s <= FINE * FINE) by (nonlinear_arith)
            requires
                c == 681998360,
                s == 731353701,
                FINE == 1_000_000_000,
        ;
    } else if k == 48 {
        assert((FINE - 2) * (FINE - 2) <= c * c + s * s <= FINE * FINE) by (nonlinear_arith)
            requires
                c == 669130606,
                s == 743144825,
                FINE == 1_000_000_000,
        ;
    } else if k == 49 {
        assert((FINE - 2) * (FINE - 2) <= c * c + s * s <= FINE * FINE) by (nonlinear_arith)
            requires
                c == 656059028,
                s == 754709580,
                FINE == 1_000_000_000,
        ;
    } else if k == 50 {
        assert((FINE - 2) * (FINE - 2) <= c * c + s * s <= FINE * FINE) by (nonlinear_arith)
            requires
                c == 642787609,
                s == 766044443,
                FINE == 1_000_000_000,
        ;
    } else if k == 51 {
        assert((FINE - 2) * (FINE - 2) <= c * c + s * s <= FINE * FINE) by (nonlinear_arith)
            requires
                c == 629320391,
                s == 777145961,
                FINE == 1_000_000_000,
        ;
    } else if k == 52 {
        assert((FINE - 2) * (FINE - 2) <= c * c + s * s <= FINE * FINE) by (nonlinear_arith)
            requires
                c == 615661475,
                s == 788010753,
                FINE == 1_000_000_000,
        ;
    } else if k == 53 {
        assert((FINE - 2) * (FINE - 2) <= c * c + s * s <= FINE * FINE) by (nonlinear_arith)
            requires
                c == 601815023,
                s == 798635510,
                FINE == 1_000_000_000,
        ;
    } else if k == 54 {
        assert((FINE - 2) * (FINE - 2) <= c * c + s * s <= FINE * FINE) by (nonlinear_arith)
            requires
                c == 587785252,
                s == 809016994,
                FINE == 1_000_000_000,
        ;
    } else if k == 55 {
        assert((FINE - 2) * (FINE - 2) <= c * c + s * s <= FINE * FINE) by (nonlinear_arith)
            requires
                c == 573576436,
                s == 819152044,
                FINE == 1_000_000_000,
        ;
    } else if k == 56 {
        assert((FINE - 2) * (FINE - 2) <= c * c + s * s <= FINE * FINE) by (nonlinear_arith)
            requires
                c == 559192903,
                s == 829037572,
                FINE == 1_000_000_000,
        ;
    } else if k == 57 {
        assert((FINE - 2) * (FINE - 2) <= c * c + s * s <= FINE * FINE) by (nonlinear_arith)
            requires
                c == 544639035,
                s == 838670567,
                FINE == 1_000_000_000,
        ;
    } else if k == 58 {
        assert((FINE - 2) * (FINE - 2) <= c * c + s * s <= FINE * FINE) by (nonlinear_arith)
            requires
                c == 529919264,
                s == 848048096,
                FINE == 1_000_000_000,
        ;
    } else if k == 59 {
        assert((FINE - 2) * (FINE - 2) <= c * c + s * s <= FINE * FINE) by (nonlinear_arith)
            requires
                c == 515038074,
                s == 857167300,
                FINE == 1_000_000_000,
        ;
    } else if k == 60 {
        assert((FINE - 2) * (FINE - 2) <= c * c + s * s <= FINE * FINE) by (nonlinear_arith)
            requires
                c == 500000000,
                s == 866025403,
                FINE == 1_000_000_000,
        ;
    } else if k == 61 {
        assert((FINE - 2) * (FINE - 2) <= c * c + s * s <= FINE * FINE) by (nonlinear_arith)
            requires
                c == 484809620,
                s == 874619707,
                FINE == 1_000_000_000,
        ;
    } else if k == 62 {
        assert((FINE - 2) * (FINE - 2) <= c * c + s * s <= FINE * FINE) by (nonlinear_arith)
            requires
                c == 469471562,
                s == 882947592,
                FINE == 1_000_000_000,
        ;
    } else if k == 63 {
        assert((FINE - 2) * (FINE - 2) <= c * c + s * s <= FINE * FINE) by (nonlinear_arith)
            requires
                c == 453990499,
                s == 891006524,
                FINE == 1_000_000_000,
        ;
    } else if k == 64 {
        assert((FINE - 2) * (FINE - 2) <= c * c + s * s <= FINE * FINE) by (nonlinear_arith)
            requires
                c == 438371146,
                s == 898794046,
                FINE == 1_000_000_000,
        ;
    } else if k == 65 {
        assert((FINE - 2) * (FINE - 2) <= c * c + s * s <= FINE * FINE) by (nonlinear_arith)
            requires
                c == 422618261,
                s == 906307787,
                FINE == 1_000_000_000,
        ;
    } else if k == 66 {
        assert((FINE - 2) * (FINE - 2) <= c * c + s * s <= FINE * FINE) by (nonlinear_arith)
            requires
                c == 406736643,
                s == 913545457,
                FINE == 1_000_000_000,
        ;
    } else if k == 67 {
        assert((FINE - 2) * (FINE - 2) <= c * c + s * s <= FINE * FINE) by (nonlinear_arith)
            requires
                c == 390731128,
                s == 920504853,
                FINE == 1_000_000_000,
        ;
    } else if k == 68 {
        assert((FINE - 2) * (FINE - 2) <= c * c + s * s <= FINE * FINE) by (nonlinear_arith)
            requires
                c == 374606593,
                s == 927183854,
                FINE == 1_000_000_000,
        ;
    } else if k == 69 {
        assert((FINE - 2) * (FINE - 2) <= c * c + s * s <= FINE * FINE) by (nonlinear_arith)
            requires
                c == 358367949,
                s == 933580426,
                FINE == 1_000_000_000,
        ;
    } else if k == 70 {
        assert((FINE - 2) * (FINE - 2) <= c * c + s * s <= FINE * FINE) by (nonlinear_arith)
            requires
                c == 342020143,
                s == 939692620,
                FINE == 1_000_000_000,
        ;
    } else if k == 71 {
        assert((FINE - 2) * (FINE - 2) <= c * c + s * s <= FINE * FINE) by (nonlinear_arith)
            requires
                c == 325568154,
                s == 945518575,
                FINE == 1_000_000_000,
        ;
    } else if k == 72 {
        assert((FINE - 2) * (FINE - 2) <= c * c + s * s <= FINE * FINE) by (nonlinear_arith)
            requires
                c == 309016994,
                s == 951056516,
                FINE == 1_000_000_000,
        ;
    } else if k == 73 {
        assert((FINE - 2) * (FINE - 2) <= c * c + s * s <= FINE * FINE) by (nonlinear_arith)
            requires
                c == 292371704,
                s == 956304755,
                FINE == 1_000_000_000,
        ;
    } else if k == 74 {
        assert((FINE - 2) * (FINE - 2) <= c * c + s * s <= FINE * FINE) by (nonlinear_arith)
            requires
                c == 275637355,
                s == 961261695,
                FINE == 1_000_000_000,
        ;
    } else if k == 75 {
        assert((FINE - 2) * (FINE - 2) <= c * c + s * s <= FINE * FINE) by (nonlinear_arith)
            requires
                c == 258819045,
                s == 965925826,
                FINE == 1_000_000_000,
        ;
    } else if k == 76 {
        assert((FINE - 2) * (FINE - 2) <= c * c + s * s <= FINE * FINE) by (nonlinear_arith)
            requires
                c == 241921895,
                s == 970295726,
                FINE == 1_000_000_000,
        ;
    } else if k == 77 {
        assert((FINE - 2) * (FINE - 2) <= c * c + s * s <= FINE * FINE) by (nonlinear_arith)
            requires
                c == 224951054,
                s == 974370064,
                FINE == 1_000_000_000,
        ;
    } else if k == 78 {
        assert((FINE - 2) * (FINE - 2) <= c * c + s * s <= FINE * FINE) by (nonlinear_arith)
            requires
                c == 207911690,
                s == 978147600,
                FINE == 1_000_000_000,
        ;
    } else if k == 79 {
        assert((FINE - 2) * (FINE - 2) <= c * c + s * s <= FINE * FINE) by (nonlinear_arith)
            requires
                c == 190808995,
                s == 981627183,
                FINE == 1_000_000_000,
        ;
    } else if k == 80 {
        assert((FINE - 2) * (FINE - 2) <= c * c + s * s <= FINE * FINE) by (nonlinear_arith)
            requires
                c == 173648177,
                s == 984807753,
                FINE == 1_000_000_000,
        ;
    } else if k == 81 {
        assert((FINE - 2) * (FINE - 2) <= c * c + s * s <= FINE * FINE) by (nonlinear_arith)
            requires
                c == 156434465,
                s == 987688340,
                FINE == 1_000_000_000,
        ;
    } else if k == 82 {
        assert((FINE - 2) * (FINE - 2) <= c * c + s * s <= FINE * FINE) by (nonlinear_arith)
            requires
                c == 139173100,
                s == 990268068,
                FINE == 1_000_000_000,
        ;
    } else if k == 83 {
        assert((FINE - 2) * (FINE - 2) <= c * c + s * s <= FINE * FINE) by (nonlinear_arith)
            requires
                c == 121869343,
                s == 992546151,
                FINE == 1_000_000_000,
        ;
    } else if k == 84 {
        assert((FINE - 2) * (FINE - 2) <= c * c + s * s <= FINE * FINE) by (nonlinear_arith)
            requires
                c == 104528463,
                s == 994521895,
                FINE == 1_000_000_000,
        ;
    } else if k == 85 {
        assert((FINE - 2) * (FINE - 2) <= c * c + s * s <= FINE * FINE) by (nonlinear_arith)
            requires
                c == 87155742,
                s == 996194698,
                FINE == 1_000_000_000,
        ;
    } else if k == 86 {
        assert((FINE - 2) * (FINE - 2) <= c * c + s * s <= FINE * FINE) by (nonlinear_arith)
            requires
                c == 69756473,
                s == 997564050,
                FINE == 1_000_000_000,
        ;
    } else if k == 87 {
        assert((FINE - 2) * (FINE - 2) <= c * c + s * s <= FINE * FINE) by (nonlinear_arith)
            requires
                c == 52335956,
                s == 998629534,
                FINE == 1_000_000_000,
        ;
    } else if k == 88 {
        assert((FINE - 2) * (FINE - 2) <= c * c + s * s <= FINE * FINE) by (nonlinear_arith)
            requires
                c == 34899496,
                s == 999390827,
                FINE == 1_000_000_000,
        ;
    } else if k == 89 {
        assert((FINE - 2) * (FINE - 2) <= c * c + s * s <= FINE * FINE) by (nonlinear_arith)
            requires
                c == 17452406,
                s == 999847695,
                FINE == 1_000_000_000,
        ;
    } else if k == 90 {
        assert((FINE - 2) * (FINE - 2) <= c * c + s * s <= FINE * FINE) by (nonlinear_arith)
            requires
                c == 0,
                s == 1000000000,
                FINE == 1_000_000_000,
        ;
    }
}

/// The cosine and sine of whole degrees are a tabulated cosine and the
/// matching sine, each with a sign.
pub proof fn lemma_whole_degree(d: int)
    requires
        0 <= d < 360,
    ensures
        magnitude(cos_deg(d)) <= FINE,
        magnitude(sin_deg(d)) <= FINE,
        (FINE - 2) * (FINE - 2) <= cos_deg(d) * cos_deg(d) + sin_deg(d) * sin_deg(d) <= FINE
            * FINE,
{
    let k = if d <= 90 {
        d
    } else if d <= 180 {
        180 - d
    } else if d <= 270 {
        d - 180
    } else {
        360 - d
    };
    lemma_quarter_cosines(k);
    lemma_quarter_cosines(90 - k);
    let c = quarter_cos(k);
    let s = quarter_cos(90 - k);
    assert((d + 270) % 360 == if d < 90 {
        d + 270
    } else {
        d - 90
    });
    assert(magnitude(cos_deg(d)) == c);
    assert(magnitude(sin_deg(d)) == s);
    assert(cos_deg(d) * cos_deg(d) == c * c && sin_deg(d) * sin_deg(d) == s * s)
        by (nonlinear_arith)
        requires
            magnitude(cos_deg(d)) == c,
            magnitude(sin_deg(d)) == s,
    ;
}

/// The cosine and sine of a part of a degree: the sine lies between zero
/// and the angle, the cosine between one less a little and one and a little.
pub proof fn lemma_small_angle(part: int)
    requires
        0 <= part < ONE,
    ensures
        0 <= small_radians(part) <= 17_453_293,
        0 <= small_sin(small_radians(part)) <= 17_453_293,
        FINE - 200_000 <= small_cos(small_radians(part)) <= FINE + 4,
{
    let r = small_radians(part);
    assert(0 <= part * RADIANS_PER_DEGREE <= 17_453_292_520_000_000) by (nonlinear_arith)
        requires
            0 <= part < 1_000_000,
            RADIANS_PER_DEGREE == 17_453_292_520,
    ;
    assert(0 <= r * r <= 17_453_293 * 17_453_293 && 0 <= r * r * r <= 17_453_293 * 17_453_293
        * 17_453_293 && 0 <= r * r * r * r <= 17_453_293 * 17_453_293 * 17_453_293 * 17_453_293
        && r * r * r <= r * 6_000_000_000_000_000_000) by (nonlinear_arith)
        requires
            0 <= r <= 17_453_293,
    ;
    assert(FINE * FINE == 1_000_000_000_000_000_000);
    assert(FINE * FINE * FINE == 1_000_000_000_000_000_000_000_000_000);
    assert(17_453_293 * 17_453_293 == 304_617_436_543_849);
    assert((r * r) / (2 * FINE) <= 152_309);
    assert(17_453_293 * 17_453_293 * 17_453_293 * 17_453_293
        == 92_791_782_646_545_872_198_099_734_801);
    assert((r * r * r * r) / (24 * (FINE * FINE * FINE)) <= 4);
}

/// The raw heading is never zero and fits well in 64 bits.
pub proof fn lemma_raw_heading(angle: int)
    ensures
        raw_heading(angle).norm_sq() > 0,
        magnitude(raw_heading(angle).x) <= 1_020_000_000 * FINE,
        magnitude(raw_heading(angle).y) <= 1_020_000_000 * FINE,
        0 <= whole_degrees(angle) < 360,
        0 <= part_degree(angle) < ONE,
{
    let d = whole_degrees(angle);
    let part = part_degree(angle);
    lemma_whole_degree(d);
    lemma_small_angle(part);
    let ca = cos_deg(d);
    let sa = sin_deg(d);
    let cb = small_cos(small_radians(part));
    let sb = small_sin(small_radians(part));
    let raw = raw_heading(angle);
    assert(magnitude(ca) >= 1 || magnitude(sa) >= 1) by (nonlinear_arith)
        requires
            ca * ca + sa * sa >= (FINE - 2) * (FINE - 2),
            FINE == 1_000_000_000,
    ;
    if magnitude(ca) >= magnitude(sa) {
        assert(ca * cb - sa * sb != 0) by (nonlinear_arith)
            requires
                magnitude(ca) >= magnitude(sa),
                magnitude(ca) >= 1,
                cb > sb,
                sb >= 0,
        ;
    } else {
        assert(sa * cb + ca * sb != 0) by (nonlinear_arith)
            requires
                magnitude(sa) > magnitude(ca),
                cb > sb,
                sb >= 0,
        ;
    }
    lemma_norm_sq_zero(raw);
    assert(magnitude(ca * cb - sa * sb) <= 1_020_000_000 * FINE && magnitude(sa * cb + ca * sb)
        <= 1_020_000_000 * FINE) by (nonlinear_arith)
        requires
            magnitude(ca) <= FINE,
            magnitude(sa) <= FINE,
            0 <= cb <= FINE + 4,
            0 <= sb <= 17_453_293,
            FINE == 1_000_000_000,
    ;
}

/// A heading is a direction: not zero, no longer than one, and at least
/// half of one along its larger component.
pub proof fn lemma_heading(angle: int)
    ensures
        0 < heading(angle).norm_sq() <= ONE * ONE,
        magnitude(heading(angle).x) <= ONE,
        magnitude(heading(angle).y) <= ONE,
        heading(angle).reach() >= 500_000,
{
    lemma_raw_heading(angle);
    lemma_shrunk_to(raw_heading(angle), ONE as int);
    lemma_norm_sq_zero(heading(angle));
    let r = heading(angle).reach();
    assert(r * r >= 500_000 * 500_000) by (nonlinear_arith)
        requires
            r >= 500_000,
    ;
}

/// Angles a whole number of turns apart have the same heading.
pub proof fn lemma_heading_wrapped(angle: int)
    ensures
        heading(wrap_angle(angle)) == heading(angle),
        0 <= wrap_angle(angle) < FULL_TURN,
{
    vstd::arithmetic::div_mod::lemma_mod_twice(angle, FULL_TURN as int);
}

/// The cosine of `d` whole degrees at the scale `FINE`.
pub fn cos_whole(d: u32) -> (r: i64)
    requires
        d < 360,
    ensures
        r == cos_deg(d as int),
{
    proof {
        reveal(quarter_cos);
    }
    if d <= 90 {
        QUARTER_COSINES[d as usize]
    } else if d <= 180 {
        proof {
            lemma_quarter_cosines(180 - d);
        }
        -QUARTER_COSINES[(180 - d) as usize]
    } else if d <= 270 {
        proof {
            lemma_quarter_cosines(d - 180);
        }
        -QUARTER_COSINES[(d - 180) as usize]
    } else {
        QUARTER_COSINES[(360 - d) as usize]
    }
}

/// The sine of `d` whole degrees at the scale `FINE`.
pub fn sin_whole(d: u32) -> (r: i64)
    requires
        d < 360,
    ensures
        r == sin_deg(d as int),
{
    cos_whole((d + 270) % 360)
}

/// An angle brought into the range from zero up to a full turn.
pub fn wrapped(angle: i128) -> (r: i64)
    requires
        angle > i128::MIN,
    ensures
        r == wrap_angle(angle as int),
        0 <= r < FULL_TURN,
{
    modulo(angle, FULL_TURN as i128) as i64
}

/// The unit vector that points along `angle`.
pub fn heading_of(angle: i64) -> (r: Vec2)
    ensures
        r@ == heading(angle as int),
{
    proof {
        lemma_raw_heading(angle as int);
        lemma_small_angle(part_degree(angle as int));
        lemma_whole_degree(whole_degrees(angle as int));
    }
    let turn: i64 = wrapped(angle as i128);
    let d: u32 = (turn / ONE) as u32;
    let part: i128 = (turn % ONE) as i128;
    let fine: i128 = FINE as i128;
    let r: i128 = (part * (RADIANS_PER_DEGREE as i128)) / fine;
    assert(0 <= r * r <= 17_453_293 * 17_453_293 && 0 <= r * r * r <= 17_453_293 * 17_453_293
        * 17_453_293 && 0 <= r * r * r * r <= 17_453_293 * 17_453_293 * 17_453_293 * 17_453_293)
        by (nonlinear_arith)
        requires
            0 <= r <= 17_453_293,
    ;
    let sb: i128 = r - (r * r * r) / (6 * (fine * fine));
    let cb: i128 = fine - (r * r) / (2 * fine) + (r * r * r * r) / (24 * (fine * fine * fine));
    let ca: i128 = cos_whole(d) as i128;
    let sa: i128 = sin_whole(d) as i128;
    assert(magnitude(ca * cb) <= 1_000_000_004 * FINE && magnitude(sa * sb) <= 17_453_293 * FINE
        && magnitude(sa * cb) <= 1_000_000_004 * FINE && magnitude(ca * sb) <= 17_453_293 * FINE)
        by (nonlinear_arith)
        requires
            magnitude(ca as int) <= FINE,
            magnitude(sa as int) <= FINE,
            0 <= cb <= FINE + 4,
            0 <= sb <= 17_453_293,
            FINE == 1_000_000_000,
    ;
    let raw = Vec2 { x: (ca * cb - sa * sb) as i64, y: (sa * cb + ca * sb) as i64 };
    raw.normalised()
}

/// Whether the tabulated direction at `k` degrees lies along or clockwise of
/// the direction `(a, b)` of the first quarter.
pub open spec fn reaches(k: int, a: int, b: int) -> bool {
    quarter_cos(k) * b >= quarter_cos(90 - k) * a
}

/// The largest `j` from 0 to `k` whose tabulated direction reaches `(a, b)`.
pub open spec fn sector_from(a: int, b: int, k: int) -> int
    decreases k,
{
    if k <= 0 {
        0
    } else if reaches(k, a, b) {
        k
    } else {
        sector_from(a, b, k - 1)
    }
}

/// The whole degrees, from 0 to 89, of a direction `(a, b)` with `a > 0` and
/// `b >= 0`: the last tabulated direction that it has passed.
pub open spec fn sector(a: int, b: int) -> int {
    sector_from(a, b, 89)
}

/// How far the direction `(a, b)` lies beyond the tabulated direction at `k`
/// degrees, in millionths of a degree and less than one degree. The
/// direction is turned back by `k` degrees; the tangent of what is left, no
/// more than that of one degree, gives the angle by the first two terms of
/// the power series of the arc tangent.
pub open spec fn beyond(a: int, b: int, k: int) -> int {
    let along = quarter_cos(k) * a + quarter_cos(90 - k) * b;
    let across = quarter_cos(k) * b - quarter_cos(90 - k) * a;
    let steep = (across * FINE) / along;
    let t = if steep > TAN_ONE_DEGREE {
        TAN_ONE_DEGREE as int
    } else {
        steep
    };
    let r = t - (t * t * t) / (3 * (FINE * FINE));
    let part = (r * DEGREES_PER_RADIAN) / (1000 * FINE);
    if part >= ONE {
        ONE - 1
    } else {
        part
    }
}

/// The angle of a direction `(a, b)` with `a > 0` and `b >= 0`, from zero up
/// to a quarter turn.
pub open spec fn first_quarter(a: int, b: int) -> int {
    sector(a, b) * ONE + beyond(a, b, sector(a, b))
}

/// The angle of the direction `(x, y)` for `y >= 0`, from zero to a half
/// turn; zero for the zero vector. The second quarter of the plane is turned
/// onto the first and looked up there.
pub open spec fn upper_bearing(x: int, y: int) -> int {
    if x > 0 {
        first_quarter(x, y)
    } else if y > 0 {
        QUARTER_TURN + first_quarter(y, -x)
    } else if x < 0 {
        HALF_TURN as int
    } else {
        0
    }
}

/// The angle of the direction `(x, y)`, rounded toward zero, from above
/// minus a half turn to a half turn; zero for the zero vector. A direction
/// below the horizontal axis is the mirror image of one above it.
pub open spec fn bearing(x: int, y: int) -> int {
    if y < 0 {
        -upper_bearing(x, -y)
    } else {
        upper_bearing(x, y)
    }
}

/// The angle by which `from` must turn counter-clockwise to point along
/// `to`, rounded toward zero, from above minus a half turn to a half turn.
pub open spec fn signed_angle(from: Vector, to: Vector) -> int {
    bearing(from.dot(to), from.cross(to))
}

/// A sector is a whole number of degrees from 0 to the bound it was sought
/// under, and its tabulated direction reaches the direction looked up.
pub proof fn lemma_sector(a: int, b: int, k: int)
    requires
        0 <= k <= 89,
        0 < a,
        0 <= b,
    ensures
        0 <= sector_from(a, b, k) <= k,
        reaches(sector_from(a, b, k), a, b),
    decreases k,
{
    if k > 0 && !reaches(k, a, b) {
        lemma_sector(a, b, k - 1);
    }
    if k == 0 {
        lemma_quarter_cosines(0);
        assert(quarter_cos(0) * b >= 0 && quarter_cos(90) * a == 0) by (nonlinear_arith)
            requires
                quarter_cos(0) == FINE,
                quarter_cos(90) == 0,
                b >= 0,
        ;
    }
}

/// What lies beyond a tabulated direction that reaches `(a, b)` is an angle
/// from zero up to one degree, and every step on the way to it is bounded.
pub proof fn lemma_beyond(a: int, b: int, k: int)
    requires
        0 <= k <= 89,
        0 < a <= 0x8000_0000_0000_0000,
        0 <= b <= 0x8000_0000_0000_0000,
        reaches(k, a, b),
    ensures
        0 <= beyond(a, b, k) < ONE,
        0 < quarter_cos(k) * a + quarter_cos(90 - k) * b <= 2 * (FINE * 0x8000_0000_0000_0000),
        0 <= quarter_cos(k) * b - quarter_cos(90 - k) * a <= FINE * 0x8000_0000_0000_0000,
        0 <= ((quarter_cos(k) * b - quarter_cos(90 - k) * a) * FINE) / (quarter_cos(k) * a
            + quarter_cos(90 - k) * b),
{
    lemma_quarter_cosines(k);
    lemma_quarter_cosines(90 - k);
    let c = quarter_cos(k);
    let s = quarter_cos(90 - k);
    let top: int = 0x8000_0000_0000_0000;
    assert(0 < c * a <= FINE * top && 0 <= s * b <= FINE * top && 0 <= c * b <= FINE * top && 0
        <= s * a) by (nonlinear_arith)
        requires
            0 < c <= FINE,
            0 <= s <= FINE,
            0 < a <= top,
            0 <= b <= top,
    ;
    let along = c * a + s * b;
    let across = c * b - s * a;
    assert(across * FINE >= 0) by (nonlinear_arith)
        requires
            across >= 0,
            FINE == 1_000_000_000,
    ;
    vstd::arithmetic::div_mod::lemma_div_pos_is_pos(across * FINE, along);
    let steep = (across * FINE) / along;
    let t = if steep > TAN_ONE_DEGREE {
        TAN_ONE_DEGREE as int
    } else {
        steep
    };
    lemma_arc(t);
}

/// The angle of a small tangent `t`, on the way from the tangent to
/// millionths of a degree: every step is bounded and none is negative.
proof fn lemma_arc(t: int)
    requires
        0 <= t <= TAN_ONE_DEGREE,
    ensures
        0 <= t * t <= 17_455_065 * 17_455_065,
        0 <= t * t * t <= 17_455_065 * 17_455_065 * 17_455_065,
        0 <= (t * t * t) / (3 * (FINE * FINE)) <= t,
        0 <= (t - (t * t * t) / (3 * (FINE * FINE))) * DEGREES_PER_RADIAN <= 17_455_065
            * 57_295_779_513,
        0 <= ((t - (t * t * t) / (3 * (FINE * FINE))) * DEGREES_PER_RADIAN) / (1000 * FINE),
{
    let k2: int = FINE * FINE;
    assert(k2 == 1_000_000_000_000_000_000);
    assert(0 <= t * t <= 17_455_065 * 17_455_065 && 0 <= t * t * t <= 17_455_065 * 17_455_065
        * 17_455_065 && t * t * t <= t * (3 * k2)) by (nonlinear_arith)
        requires
            0 <= t <= 17_455_065,
            k2 == 1_000_000_000_000_000_000,
    ;
    vstd::arithmetic::div_mod::lemma_div_pos_is_pos(t * t * t, 3 * k2);
    vstd::arithmetic::div_mod::lemma_div_is_ordered(t * t * t, t * (3 * k2), 3 * k2);
    assert(t * (3 * k2) == (3 * k2) * t) by (nonlinear_arith);
    vstd::arithmetic::div_mod::lemma_div_multiples_vanish(t, 3 * k2);
    let r = t - (t * t * t) / (3 * k2);
    assert(0 <= r * DEGREES_PER_RADIAN <= 17_455_065 * 57_295_779_513) by (nonlinear_arith)
        requires
            0 <= r <= 17_455_065,
            DEGREES_PER_RADIAN == 57_295_779_513,
    ;
    vstd::arithmetic::div_mod::lemma_div_pos_is_pos(r * DEGREES_PER_RADIAN, 1000 * FINE);
}

/// The angle of a direction of the first quarter lies from zero up to a
/// quarter turn.
pub proof fn lemma_first_quarter(a: int, b: int)
    requires
        0 < a <= 0x8000_0000_0000_0000,
        0 <= b <= 0x8000_0000_0000_0000,
    ensures
        0 <= first_quarter(a, b) < QUARTER_TURN,
{
    lemma_sector(a, b, 89);
    lemma_beyond(a, b, sector(a, b));
}

/// A bearing of a vector that 64 bits hold lies above minus a half turn and
/// no higher than a half turn.
pub proof fn lemma_bearing_range(x: int, y: int)
    requires
        magnitude(x) <= 0x8000_0000_0000_0000,
        magnitude(y) <= 0x8000_0000_0000_0000,
    ensures
        -HALF_TURN < bearing(x, y) <= HALF_TURN,
{
    if x > 0 {
        lemma_first_quarter(x, magnitude(y));
    } else if y != 0 {
        lemma_first_quarter(magnitude(y), -x);
    }
}

/// A vector that points along the horizontal axis has bearing zero, and so
/// the signed angle from a vector that is not zero to itself is zero.
pub proof fn lemma_no_turn(v: Vector)
    requires
        0 < v.norm_sq() <= 0x8000_0000_0000_0000,
    ensures
        signed_angle(v, v) == 0,
        bearing(v.norm_sq(), 0) == 0,
{
    let x = v.norm_sq();
    assert(v.dot(v) == x && v.cross(v) == 0) by (nonlinear_arith)
        requires
            x == v.x * v.x + v.y * v.y,
            v.dot(v) == v.x * v.x + v.y * v.y,
            v.cross(v) == v.x * v.y - v.y * v.x,
    ;
    lemma_level_sector(x, 89);
    lemma_quarter_cosines(0);
    let along = quarter_cos(0) * x + quarter_cos(90) * 0;
    let across = quarter_cos(0) * 0 - quarter_cos(90) * x;
    assert(across == 0 && along == FINE * x && along > 0) by (nonlinear_arith)
        requires
            quarter_cos(0) == FINE,
            quarter_cos(90) == 0,
            along == quarter_cos(0) * x + quarter_cos(90) * 0,
            across == quarter_cos(0) * 0 - quarter_cos(90) * x,
            x > 0,
            FINE == 1_000_000_000,
    ;
    assert(across * FINE == 0);
    assert(0int / along == 0) by (nonlinear_arith)
        requires
            along > 0,
    ;
    assert(0int * 0int * 0int == 0);
    assert(beyond(x, 0, 0) == 0);
}

/// A direction along the horizontal axis lies in the first sector.
proof fn lemma_level_sector(x: int, k: int)
    requires
        0 < x,
        0 <= k <= 89,
    ensures
        sector_from(x, 0, k) == 0,
    decreases k,
{
    if k > 0 {
        lemma_quarter_cosines(90 - k);
        lemma_quarter_cosines(k);
        assert(quarter_cos(k) * 0 == 0 && quarter_cos(90 - k) * x > 0) by (nonlinear_arith)
            requires
                quarter_cos(90 - k) > 0,
                x > 0,
        ;
        lemma_level_sector(x, k - 1);
    }
}

/// The whole degrees of a direction of the first quarter.
fn sector_of(a: i128, b: i128) -> (r: usize)
    requires
        0 < a <= 0x8000_0000_0000_0000,
        0 <= b <= 0x8000_0000_0000_0000,
    ensures
        r == sector(a as int, b as int),
        0 <= r <= 89,
        reaches(r as int, a as int, b as int),
{
    proof {
        lemma_sector(a as int, b as int, 89);
    }
    let mut k: usize = 89;
    while k > 0
        invariant
            0 <= k <= 89,
            0 < a <= 0x8000_0000_0000_0000,
            0 <= b <= 0x8000_0000_0000_0000,
            sector(a as int, b as int) == sector_from(a as int, b as int, k as int),
        decreases k,
    {
        let c: i128 = QUARTER_COSINES[k] as i128;
        let s: i128 = QUARTER_COSINES[90 - k] as i128;
        proof {
            reveal(quarter_cos);
            lemma_quarter_cosines(k as int);
            lemma_quarter_cosines(90 - k);
            assert(0 <= c * b <= 1_000_000_000 * 0x8000_0000_0000_0000) by (nonlinear_arith)
                requires
                    0 <= c <= 1_000_000_000,
                    0 <= b <= 0x8000_0000_0000_0000,
            ;
            assert(0 <= s * a <= 1_000_000_000 * 0x8000_0000_0000_0000) by (nonlinear_arith)
                requires
                    0 <= s <= 1_000_000_000,
                    0 <= a <= 0x8000_0000_0000_0000,
            ;
        }
        if c * b >= s * a {
            return k;
        }
        k -= 1;
    }
    0
}

/// The angle of a direction of the first quarter.
fn first_quarter_of(a: i128, b: i128) -> (r: i64)
    requires
        0 < a <= 0x8000_0000_0000_0000,
        0 <= b <= 0x8000_0000_0000_0000,
    ensures
        r == first_quarter(a as int, b as int),
        0 <= r < QUARTER_TURN,
{
    let k: usize = sector_of(a, b);
    let c: i128 = QUARTER_COSINES[k] as i128;
    let s: i128 = QUARTER_COSINES[90 - k] as i128;
    let fine: i128 = FINE as i128;
    proof {
        reveal(quarter_cos);
        lemma_beyond(a as int, b as int, k as int);
        lemma_quarter_cosines(k as int);
        lemma_quarter_cosines(90 - k);
        let top: int = 0x8000_0000_0000_0000;
        assert(0 < c * a <= FINE * top && 0 <= s * b <= FINE * top && 0 <= c * b <= FINE * top
            && 0 <= s * a <= FINE * top) by (nonlinear_arith)
            requires
                0 < c <= FINE,
                0 <= s <= FINE,
                0 < a <= top,
                0 <= b <= top,
        ;
    }
    let along: i128 = c * a + s * b;
    let across: i128 = c * b - s * a;
    assert(0 <= across * fine <= (FINE * 0x8000_0000_0000_0000) * FINE) by (nonlinear_arith)
        requires
            0 <= across <= FINE * 0x8000_0000_0000_0000,
            fine == FINE,
            FINE == 1_000_000_000,
    ;
    let steep: i128 = (across * fine) / along;
    let t: i128 = if steep > TAN_ONE_DEGREE as i128 {
        TAN_ONE_DEGREE as i128
    } else {
        steep
    };
    proof {
        lemma_arc(t as int);
    }
    let r: i128 = t - (t * t * t) / (3 * (fine * fine));
    let part: i128 = (r * (DEGREES_PER_RADIAN as i128)) / (1000 * fine);
    let rest: i128 = if part >= ONE as i128 {
        (ONE - 1) as i128
    } else {
        part
    };
    ((k as i128) * (ONE as i128) + rest) as i64
}

/// The angle of the direction `(x, y)` for `y >= 0`.
fn upper_bearing_of(x: i128, y: i128) -> (r: i64)
    requires
        -0x8000_0000_0000_0000 <= x <= 0x8000_0000_0000_0000,
        0 <= y <= 0x8000_0000_0000_0000,
    ensures
        r == upper_bearing(x as int, y as int),
        0 <= r <= HALF_TURN,
{
    if x > 0 {
        first_quarter_of(x, y)
    } else if y > 0 {
        QUARTER_TURN + first_quarter_of(y, -x)
    } else if x < 0 {
        HALF_TURN
    } else {
        0
    }
}

/// The angle of the direction `(x, y)`, rounded toward zero.
pub fn bearing_of(x: i64, y: i64) -> (r: i64)
    ensures
        r == bearing(x as int, y as int),
        -HALF_TURN < r <= HALF_TURN,
{
    let wx: i128 = x as i128;
    let wy: i128 = y as i128;
    proof {
        lemma_bearing_range(x as int, y as int);
    }
    if y < 0 {
        -upper_bearing_of(wx, -wy)
    } else {
        upper_bearing_of(wx, wy)
    }
}

} // verus!
