//! Normalized equatorial coordinates and coordinate averaging.
//!
//! A coordinate holds a right ascension and a declination in
//! micro-arcseconds. Construction routes through [`EquatorialCoordinate::new`],
//! which reduces the right ascension modulo one full turn with a truncating
//! remainder (the sign of a negative input is kept, mirroring the host
//! remainder operator on the decimal representation) and saturates the
//! declination at the poles.

use vstd::prelude::*;
use vstd::arithmetic::div_mod::{
    lemma_div_multiples_vanish, lemma_mod_division_less_than_divisor, lemma_small_mod,
};

verus! {

/// Micro-arcseconds in one full turn (360 degrees).
pub const FULL_TURN_UAS: i64 = 1_296_000_000_000;

/// Micro-arcseconds in a quarter turn (90 degrees).
pub const QUARTER_TURN_UAS: i64 = 324_000_000_000;

/// Remainder that truncates toward zero: the result carries the sign of the
/// dividend. Defined for positive divisors.
pub open spec fn trunc_mod(a: int, b: int) -> int {
    if a >= 0 {
        a % b
    } else {
        -((-a) % b)
    }
}

/// Division that truncates toward zero: the quotient carries the sign of the
/// dividend. Defined for positive divisors.
pub open spec fn trunc_div(a: int, b: int) -> int {
    if a >= 0 {
        a / b
    } else {
        -((-a) / b)
    }
}

/// Declination saturated to the closed interval from the south to the north
/// pole.
pub open spec fn clamp_declination(dec: int) -> int {
    if dec < -(QUARTER_TURN_UAS as int) {
        -(QUARTER_TURN_UAS as int)
    } else if dec > QUARTER_TURN_UAS {
        QUARTER_TURN_UAS as int
    } else {
        dec
    }
}

/// A right ascension / declination pair in micro-arcseconds.
#[derive(Clone, Copy, Debug, PartialEq, Eq, Structural)]
pub struct EquatorialCoordinate {
    pub right_ascension: i64,
    pub declination: i64,
}

impl EquatorialCoordinate {
    /// What `new` establishes: the right ascension is a truncating remainder
    /// of a full turn (so its magnitude is below one turn, and it is negative
    /// only when the input was), and the declination lies between the poles.
    pub open spec fn is_normalized(self) -> bool {
        &&& -FULL_TURN_UAS < self.right_ascension < FULL_TURN_UAS
        &&& -QUARTER_TURN_UAS <= self.declination <= QUARTER_TURN_UAS
    }

    /// The coordinate that `new(right_ascension, declination)` returns.
    pub open spec fn spec_new(right_ascension: int, declination: int) -> EquatorialCoordinate {
        EquatorialCoordinate {
            right_ascension: trunc_mod(right_ascension, FULL_TURN_UAS as int) as i64,
            declination: clamp_declination(declination) as i64,
        }
    }

    /// The sole normalization entry point: reduces the right ascension into
    /// the open interval of magnitudes below one turn by a truncating
    /// remainder, and clamps the declination to the poles by saturating.
    pub fn new(right_ascension: i64, declination: i64) -> (r: Self)
        ensures
            r == Self::spec_new(right_ascension as int, declination as int),
            r.right_ascension == trunc_mod(right_ascension as int, FULL_TURN_UAS as int),
            r.declination == clamp_declination(declination as int),
            declination > QUARTER_TURN_UAS ==> r.declination == QUARTER_TURN_UAS,
            declination < -QUARTER_TURN_UAS ==> r.declination == -QUARTER_TURN_UAS,
            r.is_normalized(),
    {
        let turn: u64 = FULL_TURN_UAS as u64;
        let ra: i64 = if right_ascension >= 0 {
            proof {
                lemma_mod_division_less_than_divisor(right_ascension as int, FULL_TURN_UAS as int);
            }
            (right_ascension as u64 % turn) as i64
        } else {
            let magnitude: u64 = (-(right_ascension as i128)) as u64;
            proof {
                lemma_mod_division_less_than_divisor(magnitude as int, FULL_TURN_UAS as int);
            }
            -((magnitude % turn) as i64)
        };
        let dec: i64 = if declination < -QUARTER_TURN_UAS {
            -QUARTER_TURN_UAS
        } else if declination > QUARTER_TURN_UAS {
            QUARTER_TURN_UAS
        } else {
            declination
        };
        EquatorialCoordinate { right_ascension: ra, declination: dec }
    }

    /// Builds a coordinate from an hour-angle right ascension (converted to
    /// micro-arcseconds) and a declination already in micro-arcseconds.
    pub fn from_hour_angle(hour_angle: crate::angle::HourAngle, declination: i64) -> (r: Self)
        ensures
            r == Self::spec_new(hour_angle.spec_uas(), declination as int),
    {
        Self::new(hour_angle.to_degrees(), declination)
    }
}

/// Sum of the right ascensions of a sequence of coordinates.
pub open spec fn sum_right_ascension(s: Seq<EquatorialCoordinate>) -> int
    decreases s.len(),
{
    if s.len() == 0 {
        0
    } else {
        sum_right_ascension(s.drop_last()) + s.last().right_ascension
    }
}

/// Sum of the declinations of a sequence of coordinates.
pub open spec fn sum_declination(s: Seq<EquatorialCoordinate>) -> int
    decreases s.len(),
{
    if s.len() == 0 {
        0
    } else {
        sum_declination(s.drop_last()) + s.last().declination
    }
}

/// The coordinate that averaging a non-empty sequence of readings yields:
/// the independent arithmetic means of right ascension and declination
/// (fractions truncated toward zero), renormalized. The mean is linear, not
/// circular: readings near the 0/full-turn seam are averaged across the seam
/// numerically, a documented constraint on valid input.
pub open spec fn spec_average(s: Seq<EquatorialCoordinate>) -> EquatorialCoordinate {
    EquatorialCoordinate::spec_new(
        trunc_div(sum_right_ascension(s), s.len() as int),
        trunc_div(sum_declination(s), s.len() as int),
    )
}

proof fn lemma_sum_bounds(s: Seq<EquatorialCoordinate>)
    requires
        forall|i: int| 0 <= i < s.len() ==> (#[trigger] s[i]).is_normalized(),
    ensures
        -(s.len() as int) * (FULL_TURN_UAS as int) <= sum_right_ascension(s) <= (s.len() as int)
            * (FULL_TURN_UAS as int),
        -(s.len() as int) * (FULL_TURN_UAS as int) <= sum_declination(s) <= (s.len() as int)
            * (FULL_TURN_UAS as int),
    decreases s.len(),
{
    if s.len() > 0 {
        assert(forall|i: int|
            0 <= i < s.drop_last().len() ==> (#[trigger] s.drop_last()[i]).is_normalized());
        lemma_sum_bounds(s.drop_last());
        assert(s.last().is_normalized());
        assert((s.len() as int) * (FULL_TURN_UAS as int) == (s.len() - 1) * (FULL_TURN_UAS as int)
            + FULL_TURN_UAS) by (nonlinear_arith);
    }
}

/// Reduces a non-empty collection of readings of one star to a single
/// best-estimate coordinate: the arithmetic mean of the right ascensions and
/// of the declinations, each truncated toward zero, then renormalized
/// through `EquatorialCoordinate::new`.
pub fn average_coord(coords: &Vec<EquatorialCoordinate>) -> (r: EquatorialCoordinate)
    requires
        coords@.len() > 0,
        forall|i: int| 0 <= i < coords@.len() ==> (#[trigger] coords@[i]).is_normalized(),
    ensures
        r == spec_average(coords@),
{
    let n = coords.len();
    let mut ra_sum: i128 = 0;
    let mut dec_sum: i128 = 0;
    let mut i: usize = 0;
    while i < n
        invariant
            n == coords@.len(),
            0 <= i <= n,
            forall|k: int| 0 <= k < coords@.len() ==> (#[trigger] coords@[k]).is_normalized(),
            ra_sum == sum_right_ascension(coords@.subrange(0, i as int)),
            dec_sum == sum_declination(coords@.subrange(0, i as int)),
        decreases n - i,
    {
        proof {
            let pre = coords@.subrange(0, i as int);
            let post = coords@.subrange(0, i + 1);
            assert(post.drop_last() =~= pre);
            assert(post.last() == coords@[i as int]);
            assert(forall|k: int| 0 <= k < pre.len() ==> (#[trigger] pre[k]).is_normalized());
            lemma_sum_bounds(pre);
            assert((i as int) * (FULL_TURN_UAS as int) < 0x7fff_ffff_ffff_ffff_ffff_ffff_ffff_ffff)
                by (nonlinear_arith)
                requires 0 <= i < 0x1_0000_0000_0000_0000;
        }
        ra_sum = ra_sum + coords[i].right_ascension as i128;
        dec_sum = dec_sum + coords[i].declination as i128;
        i = i + 1;
    }
    proof {
        assert(coords@.subrange(0, n as int) =~= coords@);
        lemma_sum_bounds(coords@);
        lemma_sum_quotient_in_turn(sum_right_ascension(coords@), n as int);
        lemma_sum_quotient_in_turn(sum_declination(coords@), n as int);
    }
    let count = n as u128;
    let ra_avg: i64 = if ra_sum >= 0 {
        ((ra_sum as u128) / count) as i64
    } else {
        -((((-ra_sum) as u128) / count) as i64)
    };
    let dec_avg: i64 = if dec_sum >= 0 {
        ((dec_sum as u128) / count) as i64
    } else {
        -((((-dec_sum) as u128) / count) as i64)
    };
    EquatorialCoordinate::new(ra_avg, dec_avg)
}

/// A sum bounded in magnitude by `n` full turns has a truncated quotient by
/// `n` bounded by one full turn.
proof fn lemma_sum_quotient_in_turn(sum: int, n: int)
    requires
        n > 0,
        -n * (FULL_TURN_UAS as int) <= sum <= n * (FULL_TURN_UAS as int),
    ensures
        -(FULL_TURN_UAS as int) <= trunc_div(sum, n) <= FULL_TURN_UAS as int,
        sum >= 0 ==> sum / n <= FULL_TURN_UAS as int,
        sum < 0 ==> (-sum) / n <= FULL_TURN_UAS as int,
{
    if sum >= 0 {
        assert(sum / n <= FULL_TURN_UAS as int) by (nonlinear_arith)
            requires n > 0, 0 <= sum <= n * (FULL_TURN_UAS as int);
    } else {
        assert((-sum) / n <= FULL_TURN_UAS as int) by (nonlinear_arith)
            requires n > 0, 0 < -sum <= n * (FULL_TURN_UAS as int);
    }
}

/// Normalization is idempotent: feeding the fields of a normalized
/// coordinate back through normalization returns the same coordinate.
pub proof fn lemma_normalize_idempotent(right_ascension: int, declination: int)
    ensures
        EquatorialCoordinate::spec_new(
            EquatorialCoordinate::spec_new(right_ascension, declination).right_ascension as int,
            EquatorialCoordinate::spec_new(right_ascension, declination).declination as int,
        ) == EquatorialCoordinate::spec_new(right_ascension, declination),
{
    let c = EquatorialCoordinate::spec_new(right_ascension, declination);
    lemma_trunc_mod_identity_in_range(right_ascension);
    lemma_trunc_mod_identity_in_range(c.right_ascension as int);
    assert(clamp_declination(c.declination as int) == c.declination);
}

/// A value whose magnitude is below one full turn is its own truncating
/// remainder; applied to any remainder, this gives idempotence.
proof fn lemma_trunc_mod_identity_in_range(a: int)
    ensures
        -(FULL_TURN_UAS as int) < trunc_mod(a, FULL_TURN_UAS as int) < FULL_TURN_UAS as int,
        -(FULL_TURN_UAS as int) < a < FULL_TURN_UAS as int ==> trunc_mod(a, FULL_TURN_UAS as int)
            == a,
{
    let t = FULL_TURN_UAS as int;
    if a >= 0 {
        lemma_mod_division_less_than_divisor(a, t);
        if a < t {
            lemma_small_mod(a as nat, t as nat);
        }
    } else {
        lemma_mod_division_less_than_divisor(-a, t);
        if -a < t {
            lemma_small_mod((-a) as nat, t as nat);
        }
    }
}

/// Averaging agrees with the readings when they agree with one another: the
/// mean of any non-empty sequence of copies of one normalized coordinate is
/// that coordinate, exactly. In general the mean is arithmetic on each
/// component, not circular.
pub proof fn lemma_average_of_equal_readings(s: Seq<EquatorialCoordinate>, c: EquatorialCoordinate)
    requires
        s.len() > 0,
        c.is_normalized(),
        forall|i: int| 0 <= i < s.len() ==> s[i] == c,
    ensures
        spec_average(s) == c,
{
    let n = s.len() as int;
    lemma_sum_of_equal_readings(s, c);
    lemma_div_multiples_vanish(c.right_ascension as int, n);
    lemma_div_multiples_vanish(-(c.right_ascension as int), n);
    assert(n * (c.right_ascension as int) == (c.right_ascension as int) * n) by (nonlinear_arith);
    assert(-(n * (c.right_ascension as int)) == n * (-(c.right_ascension as int)))
        by (nonlinear_arith);
    lemma_div_multiples_vanish(c.declination as int, n);
    lemma_div_multiples_vanish(-(c.declination as int), n);
    assert(-(n * (c.declination as int)) == n * (-(c.declination as int))) by (nonlinear_arith);
    assert(trunc_div(sum_right_ascension(s), n) == c.right_ascension);
    assert(trunc_div(sum_declination(s), n) == c.declination);
    lemma_trunc_mod_identity_in_range(c.right_ascension as int);
    assert(clamp_declination(c.declination as int) == c.declination);
}

proof fn lemma_sum_of_equal_readings(s: Seq<EquatorialCoordinate>, c: EquatorialCoordinate)
    requires
        forall|i: int| 0 <= i < s.len() ==> s[i] == c,
    ensures
        sum_right_ascension(s) == (s.len() as int) * (c.right_ascension as int),
        sum_declination(s) == (s.len() as int) * (c.declination as int),
    decreases s.len(),
{
    if s.len() == 0 {
    } else {
        assert(forall|i: int| 0 <= i < s.drop_last().len() ==> s.drop_last()[i] == c);
        lemma_sum_of_equal_readings(s.drop_last(), c);
        assert((s.len() as int) * (c.right_ascension as int) == (s.len() - 1) * (
        c.right_ascension as int) + c.right_ascension) by (nonlinear_arith);
        assert((s.len() as int) * (c.declination as int) == (s.len() - 1) * (c.declination as int)
            + c.declination) by (nonlinear_arith);
    }
}

} // verus!
