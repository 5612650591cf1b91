//! Sexagesimal coordinate-string parsing.
//!
//! A coordinate column holds whitespace-separated tokens. The six-token
//! dialect gives right-ascension hours, minutes and seconds, then a signed
//! declination-degree token, arcminutes and arcseconds. The two-token
//! dialect gives right ascension and declination directly in decimal
//! degrees. Numeric tokens are plain decimals, digits with an optional
//! fractional part; fractional digits beyond those the fixed-point
//! representation keeps are truncated, and integer parts too large for it
//! make the token unparsable.
//!
//! All contracts are stated over the UTF-8 bytes of the input string.

use vstd::prelude::*;
use vstd::slice::slice_subrange;
use vstd::string::*;

verus! {

use crate::angle::{Degree, HourAngle};
use crate::coord::EquatorialCoordinate;

/// ASCII whitespace: space, tab, line feed, carriage return.
pub open spec fn is_space(b: u8) -> bool {
    b == 32 || b == 9 || b == 10 || b == 13
}

/// ASCII decimal digit.
pub open spec fn is_digit(b: u8) -> bool {
    48 <= b <= 57
}

/// Tokens completed over a byte prefix, with the partial token still open
/// at its end: the accumulator of a left-to-right whitespace split.
pub open spec fn split_state(s: Seq<u8>) -> (Seq<Seq<u8>>, Seq<u8>)
    decreases s.len(),
{
    if s.len() == 0 {
        (Seq::empty(), Seq::empty())
    } else {
        let p = split_state(s.drop_last());
        if is_space(s.last()) {
            if p.1.len() == 0 {
                (p.0, Seq::empty())
            } else {
                (p.0.push(p.1), Seq::empty())
            }
        } else {
            (p.0, p.1.push(s.last()))
        }
    }
}

/// The maximal whitespace-free runs of a byte sequence, in order.
pub open spec fn spec_tokens(s: Seq<u8>) -> Seq<Seq<u8>> {
    let p = split_state(s);
    if p.1.len() == 0 {
        p.0
    } else {
        p.0.push(p.1)
    }
}

proof fn lemma_split_state_tokens_nonempty(s: Seq<u8>)
    ensures
        forall|i: int|
            0 <= i < split_state(s).0.len() ==> (#[trigger] split_state(s).0[i]).len() > 0,
    decreases s.len(),
{
    if s.len() > 0 {
        lemma_split_state_tokens_nonempty(s.drop_last());
        let p = split_state(s.drop_last());
        assert forall|i: int|
            0 <= i < split_state(s).0.len() implies (#[trigger] split_state(s).0[i]).len()
            > 0 by {
            if is_space(s.last()) && p.1.len() != 0 {
                if i < p.0.len() {
                    assert(split_state(s).0[i] == p.0[i]);
                } else {
                    assert(split_state(s).0[i] == p.1);
                }
            } else {
                assert(split_state(s).0[i] == p.0[i]);
            }
        }
    }
}

/// Every token of a whitespace split is non-empty.
pub proof fn lemma_tokens_nonempty(s: Seq<u8>)
    ensures
        forall|i: int| 0 <= i < spec_tokens(s).len() ==> (#[trigger] spec_tokens(s)[i]).len() > 0,
{
    lemma_split_state_tokens_nonempty(s);
}

fn byte_is_space(b: u8) -> (r: bool)
    ensures
        r == is_space(b),
{
    b == 32 || b == 9 || b == 10 || b == 13
}

/// Splits a byte string into its maximal whitespace-free runs.
pub fn tokenize(s: &[u8]) -> (tokens: Vec<Vec<u8>>)
    ensures
        tokens@.map_values(|t: Vec<u8>| t@) == spec_tokens(s@),
{
    let ghost all = s@;
    let mut tokens: Vec<Vec<u8>> = Vec::new();
    let mut current: Vec<u8> = Vec::new();
    let mut i: usize = 0;
    while i < s.len()
        invariant
            0 <= i <= all.len(),
            s@ == all,
            tokens@.map_values(|t: Vec<u8>| t@) == split_state(all.subrange(0, i as int)).0,
            current@ == split_state(all.subrange(0, i as int)).1,
        decreases all.len() - i,
    {
        proof {
            assert(all.subrange(0, i + 1).drop_last() =~= all.subrange(0, i as int));
            assert(all.subrange(0, i + 1).last() == all[i as int]);
        }
        let b = s[i];
        if byte_is_space(b) {
            if current.len() > 0 {
                let ghost old_tokens = tokens@;
                tokens.push(current);
                current = Vec::new();
                proof {
                    assert(tokens@.map_values(|t: Vec<u8>| t@) =~= old_tokens.map_values(
                        |t: Vec<u8>| t@,
                    ).push(split_state(all.subrange(0, i as int)).1));
                }
            }
        } else {
            current.push(b);
        }
        i = i + 1;
    }
    proof {
        assert(all.subrange(0, all.len() as int) =~= all);
    }
    if current.len() > 0 {
        let ghost old_tokens = tokens@;
        tokens.push(current);
        proof {
            assert(tokens@.map_values(|t: Vec<u8>| t@) =~= old_tokens.map_values(
                |t: Vec<u8>| t@,
            ).push(split_state(all).1));
        }
    }
    tokens
}

/// Whether every byte of a token is a decimal digit.
pub open spec fn all_digits(t: Seq<u8>) -> bool {
    forall|i: int| 0 <= i < t.len() ==> is_digit(#[trigger] t[i])
}

/// The number a digit string denotes, most significant digit first.
pub open spec fn digits_val(t: Seq<u8>) -> int
    decreases t.len(),
{
    if t.len() == 0 {
        0
    } else {
        digits_val(t.drop_last()) * 10 + (t.last() - 48)
    }
}

proof fn lemma_digits_val_push(t: Seq<u8>, b: u8)
    ensures
        digits_val(t.push(b)) == digits_val(t) * 10 + (b - 48),
{
    assert(t.push(b).drop_last() =~= t);
    assert(t.push(b).last() == b);
}

proof fn lemma_digits_val_nonneg(t: Seq<u8>)
    requires
        all_digits(t),
    ensures
        digits_val(t) >= 0,
    decreases t.len(),
{
    if t.len() > 0 {
        assert(all_digits(t.drop_last()));
        lemma_digits_val_nonneg(t.drop_last());
    }
}

/// A digit string of length `n` denotes a value below ten to the `n`.
proof fn lemma_digits_val_bound(t: Seq<u8>)
    requires
        all_digits(t),
    ensures
        0 <= digits_val(t) < spec_pow10(t.len()),
    decreases t.len(),
{
    if t.len() > 0 {
        assert(all_digits(t.drop_last()));
        lemma_digits_val_bound(t.drop_last());
    }
}

/// The unsigned integer a token denotes: defined when the token is a
/// non-empty digit string whose value is at most `cap`.
pub open spec fn spec_parse_uint(t: Seq<u8>, cap: int) -> Option<int> {
    if t.len() > 0 && all_digits(t) && digits_val(t) <= cap {
        Some(digits_val(t))
    } else {
        None
    }
}

/// Parses a non-empty all-digit token into its value, rejecting values
/// above `cap`, without overflow whatever the token's length.
pub fn parse_uint(t: &[u8], cap: u64) -> (r: Option<u64>)
    requires
        cap <= 1_000_000_000_000_000_000,
    ensures
        r is Some <==> spec_parse_uint(t@, cap as int) is Some,
        r matches Some(v) ==> spec_parse_uint(t@, cap as int) == Some(v as int),
{
    if t.len() == 0 {
        return None;
    }
    let mut acc: u64 = 0;
    let mut i: usize = 0;
    while i < t.len()
        invariant
            cap <= 1_000_000_000_000_000_000,
            0 <= i <= t@.len(),
            all_digits(t@.subrange(0, i as int)),
            digits_val(t@.subrange(0, i as int)) <= cap ==> acc == digits_val(
                t@.subrange(0, i as int),
            ),
            digits_val(t@.subrange(0, i as int)) > cap ==> acc == cap + 1,
        decreases t@.len() - i,
    {
        let b = t[i];
        if b < 48 || b > 57 {
            assert(!is_digit(t@[i as int]));
            return None;
        }
        proof {
            let pre = t@.subrange(0, i as int);
            assert(t@.subrange(0, i + 1) =~= pre.push(t@[i as int]));
            lemma_digits_val_push(pre, t@[i as int]);
            lemma_digits_val_nonneg(pre);
        }
        let d = (b - 48) as u64;
        acc = if acc > cap {
            acc
        } else {
            let widened: u64 = acc * 10 + d;
            if widened > cap {
                cap + 1
            } else {
                widened
            }
        };
        i = i + 1;
    }
    proof {
        assert(t@.subrange(0, t@.len() as int) =~= t@);
    }
    if acc > cap {
        None
    } else {
        Some(acc)
    }
}

/// Ten to the `n`.
pub open spec fn spec_pow10(n: nat) -> int
    decreases n,
{
    if n == 0 {
        1
    } else {
        10 * spec_pow10((n - 1) as nat)
    }
}

proof fn lemma_pow10_le_million(n: nat)
    requires
        n <= 6,
    ensures
        1 <= spec_pow10(n) <= 1_000_000,
{
    assert(spec_pow10(0) == 1);
    assert(spec_pow10(1) == 10);
    assert(spec_pow10(2) == 100);
    assert(spec_pow10(3) == 1000);
    assert(spec_pow10(4) == 10000);
    assert(spec_pow10(5) == 100000);
    assert(spec_pow10(6) == 1000000);
}

/// The integer part and, when a dot is present, the fraction part of a
/// token, split at the first dot.
pub open spec fn split_dot(t: Seq<u8>) -> (Seq<u8>, Option<Seq<u8>>)
    decreases t.len(),
{
    if t.len() == 0 {
        (Seq::empty(), None)
    } else if t[0] == 46 {
        (Seq::empty(), Some(t.drop_first()))
    } else {
        let p = split_dot(t.drop_first());
        (seq![t[0]] + p.0, p.1)
    }
}

proof fn lemma_split_dot_at(t: Seq<u8>, i: int)
    requires
        0 <= i < t.len(),
        t[i] == 46,
        forall|j: int| 0 <= j < i ==> t[j] != 46,
    ensures
        split_dot(t).0 == t.subrange(0, i),
        split_dot(t).1 == Some(t.subrange(i + 1, t.len() as int)),
    decreases i,
{
    if i == 0 {
        assert(t.drop_first() =~= t.subrange(1, t.len() as int));
        assert(split_dot(t).0 =~= t.subrange(0, 0));
    } else {
        let rest = t.drop_first();
        assert(forall|j: int| 0 <= j < i - 1 ==> rest[j] != 46);
        lemma_split_dot_at(rest, i - 1);
        assert(seq![t[0]] + rest.subrange(0, i - 1) =~= t.subrange(0, i));
        assert(rest.subrange(i, rest.len() as int) =~= t.subrange(i + 1, t.len() as int));
    }
}

proof fn lemma_split_dot_none(t: Seq<u8>)
    requires
        forall|j: int| 0 <= j < t.len() ==> t[j] != 46,
    ensures
        split_dot(t).0 == t,
        split_dot(t).1 is None,
    decreases t.len(),
{
    if t.len() > 0 {
        lemma_split_dot_none(t.drop_first());
        assert(seq![t[0]] + t.drop_first() =~= t);
    }
}

/// The fraction digits padded or truncated to exactly `kept` places.
pub open spec fn pad_fraction(frac: Seq<u8>, kept: nat) -> Seq<u8> {
    Seq::new(
        kept,
        |j: int|
            if j < frac.len() {
                frac[j]
            } else {
                48u8
            },
    )
}

/// The fraction part of a token: the bytes after the first dot, or nothing
/// when there is no dot.
pub open spec fn fraction_part(t: Seq<u8>) -> Seq<u8> {
    match split_dot(t).1 {
        Some(f) => f,
        None => Seq::<u8>::empty(),
    }
}

/// The value of a fixed-point decimal token, scaled by ten to the `kept`:
/// digits, an optional dot, and further digits. The integer part must be
/// non-empty and denote at most `cap`; fraction digits beyond `kept` places
/// are truncated.
pub open spec fn spec_parse_fixed(t: Seq<u8>, kept: nat, cap: int) -> Option<int> {
    let ip = split_dot(t).0;
    let fp = fraction_part(t);
    if ip.len() > 0 && all_digits(ip) && digits_val(ip) <= cap && all_digits(fp) {
        Some(digits_val(ip) * spec_pow10(kept) + digits_val(pad_fraction(fp, kept)))
    } else {
        None
    }
}

fn find_dot(t: &[u8]) -> (r: Option<usize>)
    ensures
        r matches Some(i) ==> 0 <= i < t@.len() && t@[i as int] == 46 && forall|j: int|
            0 <= j < i ==> t@[j] != 46,
        r is None ==> forall|j: int| 0 <= j < t@.len() ==> t@[j] != 46,
{
    let mut i: usize = 0;
    while i < t.len()
        invariant
            0 <= i <= t@.len(),
            forall|j: int| 0 <= j < i ==> t@[j] != 46,
        decreases t@.len() - i,
    {
        if t[i] == 46 {
            return Some(i);
        }
        i = i + 1;
    }
    None
}

/// Parses a fixed-point decimal token into its value scaled by ten to the
/// `kept`, rejecting integer parts above `cap`.
pub fn parse_fixed(t: &[u8], kept: usize, cap: u64) -> (r: Option<u64>)
    requires
        1 <= kept <= 6,
        cap <= 1_000_000_000_000,
    ensures
        r is Some <==> spec_parse_fixed(t@, kept as nat, cap as int) is Some,
        r matches Some(v) ==> spec_parse_fixed(t@, kept as nat, cap as int) == Some(v as int),
        r matches Some(v) ==> 0 <= v as int <= cap as int * spec_pow10(kept as nat) + spec_pow10(
            kept as nat,
        ) - 1,
{
    let ghost spec_ip = split_dot(t@).0;
    let ghost spec_fp = fraction_part(t@);
    let n = t.len();
    let (ip, frac): (&[u8], &[u8]) = match find_dot(t) {
        None => {
            proof {
                lemma_split_dot_none(t@);
            }
            (t, slice_subrange(t, n, n))
        },
        Some(i) => {
            proof {
                lemma_split_dot_at(t@, i as int);
            }
            (slice_subrange(t, 0, i), slice_subrange(t, i + 1, n))
        },
    };
    assert(ip@ =~= spec_ip);
    assert(frac@ =~= spec_fp);
    let int_val: u64 = match parse_uint(ip, cap) {
        Some(v) => v,
        None => {
            return None;
        },
    };
    let mut j: usize = 0;
    while j < frac.len()
        invariant
            0 <= j <= frac@.len(),
            frac@ == fraction_part(t@),
            ip@ == split_dot(t@).0,
            all_digits(frac@.subrange(0, j as int)),
        decreases frac@.len() - j,
    {
        let b = frac[j];
        if b < 48 || b > 57 {
            assert(!is_digit(fraction_part(t@)[j as int]));
            assert(!all_digits(fraction_part(t@)));
            return None;
        }
        proof {
            assert(frac@.subrange(0, j + 1) =~= frac@.subrange(0, j as int).push(frac@[j as int]));
        }
        j = j + 1;
    }
    proof {
        assert(frac@.subrange(0, frac@.len() as int) =~= frac@);
    }
    let mut padded: Vec<u8> = Vec::new();
    let mut k: usize = 0;
    while k < kept
        invariant
            0 <= k <= kept <= 6,
            frac@ == fraction_part(t@),
            all_digits(fraction_part(t@)),
            padded@ == pad_fraction(fraction_part(t@), k as nat),
        decreases kept - k,
    {
        let b: u8 = if k < frac.len() {
            frac[k]
        } else {
            48
        };
        padded.push(b);
        proof {
            assert(padded@ =~= pad_fraction(fraction_part(t@), (k + 1) as nat));
        }
        k = k + 1;
    }
    proof {
        assert(all_digits(padded@));
        lemma_digits_val_bound(padded@);
        assert(spec_pow10(0) == 1);
        assert(spec_pow10(1) == 10);
        assert(spec_pow10(2) == 100);
        assert(spec_pow10(3) == 1000);
        assert(spec_pow10(4) == 10000);
        assert(spec_pow10(5) == 100000);
        assert(spec_pow10(6) == 1000000);
    }
    let frac_val: u64 = match parse_uint(padded.as_slice(), 1_000_000_000_000_000_000) {
        Some(v) => v,
        None => {
            assert(false);
            return None;
        },
    };
    let pow: u64 = if kept == 1 {
        10
    } else if kept == 2 {
        100
    } else if kept == 3 {
        1_000
    } else if kept == 4 {
        10_000
    } else if kept == 5 {
        100_000
    } else {
        1_000_000
    };
    assert(pow == spec_pow10(kept as nat));
    assert(int_val * pow <= 1_000_000_000_000_000_000) by (nonlinear_arith)
        requires
            0 <= int_val <= 1_000_000_000_000,
            0 <= pow <= 1_000_000,
    ;
    assert(int_val * pow <= cap * pow) by (nonlinear_arith)
        requires
            0 <= int_val <= cap,
            0 <= pow,
    ;
    assert(frac_val < pow);
    Some(int_val * pow + frac_val)
}

/// Largest integer part accepted for a seconds or arcseconds token; with
/// three fractional places kept, anything below it fits the fixed-point
/// seconds fields.
pub const SECONDS_INT_CAP: u64 = 4_000_000;

/// Largest integer part accepted for a decimal-degree token; with six
/// fractional places kept and the micro-arcsecond scale, anything below it
/// fits a 64-bit angle.
pub const DEGREES_INT_CAP: u64 = 1_000_000_000;

/// The coordinate a six-token sexagesimal column denotes, if any: hours,
/// minutes and seconds of right ascension, then the signed declination
/// degree token (its first byte is the sign; the remaining bytes are the
/// degree magnitude), arcminutes and arcseconds. The declination is
/// negative exactly when the sign byte is a minus. Extra tokens are
/// ignored; fewer than six, or any unparsable numeric token, yields
/// nothing.
pub open spec fn spec_parse_coord(bytes: Seq<u8>) -> Option<EquatorialCoordinate> {
    let toks = spec_tokens(bytes);
    if toks.len() < 6 {
        None
    } else {
        let hours = spec_parse_uint(toks[0], 255);
        let minutes = spec_parse_uint(toks[1], 255);
        let seconds = spec_parse_fixed(toks[2], 3, SECONDS_INT_CAP as int);
        let base = spec_parse_uint(toks[3].drop_first(), 32767);
        let arc_mins = spec_parse_uint(toks[4], 255);
        let arc_secs = spec_parse_fixed(toks[5], 3, SECONDS_INT_CAP as int);
        if hours is Some && minutes is Some && seconds is Some && base is Some && arc_mins is Some
            && arc_secs is Some {
            let hour_angle = HourAngle {
                hours: hours.unwrap() as u8,
                minutes: minutes.unwrap() as u8,
                seconds_milli: seconds.unwrap() as u32,
            };
            let degree = Degree {
                base: base.unwrap() as i16,
                arc_mins: arc_mins.unwrap() as u8,
                arc_secs_milli: arc_secs.unwrap() as u32,
            };
            let declination = if toks[3][0] == 45 {
                -degree.spec_uas()
            } else {
                degree.spec_uas()
            };
            Some(EquatorialCoordinate::spec_new(hour_angle.spec_uas(), declination))
        } else {
            None
        }
    }
}

/// Sign handling of the sexagesimal dialect: whenever a coordinate string
/// parses, a minus as the first byte of the declination-degree token gives
/// a declination at or below zero, and any other first byte gives one at or
/// above zero — the magnitude read from the token's remaining bytes is
/// never negative.
pub proof fn lemma_parse_coord_sign(bytes: Seq<u8>)
    ensures
        spec_parse_coord(bytes) matches Some(c) ==> ((spec_tokens(bytes)[3][0] == 45
            ==> c.declination <= 0) && (spec_tokens(bytes)[3][0] != 45 ==> c.declination >= 0)),
{
    if spec_parse_coord(bytes) is Some {
        let toks = spec_tokens(bytes);
        let base = spec_parse_uint(toks[3].drop_first(), 32767);
        let arc_mins = spec_parse_uint(toks[4], 255);
        let arc_secs = spec_parse_fixed(toks[5], 3, SECONDS_INT_CAP as int);
        lemma_digits_val_nonneg(toks[3].drop_first());
        lemma_digits_val_nonneg(toks[4]);
        lemma_parse_fixed_value_range(toks[5], 3, SECONDS_INT_CAP as int);
        assert(spec_pow10(0) == 1);
        assert(spec_pow10(1) == 10);
        assert(spec_pow10(2) == 100);
        assert(spec_pow10(3) == 1000);
        let degree = Degree {
            base: base.unwrap() as i16,
            arc_mins: arc_mins.unwrap() as u8,
            arc_secs_milli: arc_secs.unwrap() as u32,
        };
        assert(degree.spec_uas() >= 0);
    }
}

/// Whenever a fixed-point token parses, its scaled value lies between zero
/// and just under `cap + 1` scale units.
proof fn lemma_parse_fixed_value_range(t: Seq<u8>, kept: nat, cap: int)
    requires
        cap >= 0,
    ensures
        spec_parse_fixed(t, kept, cap) matches Some(v) ==> 0 <= v <= cap * spec_pow10(kept)
            + spec_pow10(kept) - 1,
{
    if spec_parse_fixed(t, kept, cap) is Some {
        let ip = split_dot(t).0;
        let fp = fraction_part(t);
        let padded = pad_fraction(fp, kept);
        assert forall|j: int| 0 <= j < padded.len() implies is_digit(#[trigger] padded[j]) by {
            if j < fp.len() {
                assert(padded[j] == fp[j]);
            } else {
                assert(padded[j] == 48u8);
            }
        }
        lemma_digits_val_nonneg(ip);
        lemma_digits_val_bound(padded);
        assert(digits_val(ip) * spec_pow10(kept) <= cap * spec_pow10(kept)) by (nonlinear_arith)
            requires
                0 <= digits_val(ip) <= cap,
                spec_pow10(kept) >= 0,
        ;
        assert(digits_val(ip) * spec_pow10(kept) >= 0) by (nonlinear_arith)
            requires
                digits_val(ip) >= 0,
                spec_pow10(kept) >= 0,
        ;
        lemma_pow10_nonneg(kept);
    }
}

proof fn lemma_pow10_nonneg(n: nat)
    ensures
        spec_pow10(n) >= 1,
    decreases n,
{
    if n > 0 {
        lemma_pow10_nonneg((n - 1) as nat);
    }
}

/// Parses a six-token sexagesimal coordinate column.
pub fn parse_coord(input: &str) -> (r: Option<EquatorialCoordinate>)
    ensures
        r == spec_parse_coord(vstd::utf8::encode_utf8(input@)),
        r matches Some(c) ==> c.is_normalized(),
{
    let bytes = input.as_bytes();
    assert(bytes@ == vstd::utf8::encode_utf8(input@));
    let tokens = tokenize(bytes);
    let ghost toks = spec_tokens(bytes@);
    if tokens.len() < 6 {
        return None;
    }
    proof {
        lemma_tokens_nonempty(bytes@);
    }
    let hours: u64 = match parse_uint(tokens[0].as_slice(), 255) {
        Some(v) => v,
        None => {
            return None;
        },
    };
    let minutes: u64 = match parse_uint(tokens[1].as_slice(), 255) {
        Some(v) => v,
        None => {
            return None;
        },
    };
    let seconds: u64 = match parse_fixed(tokens[2].as_slice(), 3, SECONDS_INT_CAP) {
        Some(v) => v,
        None => {
            return None;
        },
    };
    let sign_token = tokens[3].as_slice();
    assert(sign_token@.len() > 0);
    let negative = sign_token[0] == 45;
    let magnitude = slice_subrange(sign_token, 1, sign_token.len());
    assert(magnitude@ =~= toks[3].drop_first());
    let base: u64 = match parse_uint(magnitude, 32767) {
        Some(v) => v,
        None => {
            return None;
        },
    };
    let arc_mins: u64 = match parse_uint(tokens[4].as_slice(), 255) {
        Some(v) => v,
        None => {
            return None;
        },
    };
    let arc_secs: u64 = match parse_fixed(tokens[5].as_slice(), 3, SECONDS_INT_CAP) {
        Some(v) => v,
        None => {
            return None;
        },
    };
    proof {
        assert(spec_pow10(0) == 1);
        assert(spec_pow10(1) == 10);
        assert(spec_pow10(2) == 100);
        assert(spec_pow10(3) == 1000);
    }
    let hour_angle = HourAngle::new(hours as u8, minutes as u8, seconds as u32);
    let right_ascension = hour_angle.to_degrees();
    let degree = Degree::new(base as i16, arc_mins as u8, arc_secs as u32);
    let magnitude_uas = degree.to_decimal();
    let declination: i64 = if negative {
        -magnitude_uas
    } else {
        magnitude_uas
    };
    Some(EquatorialCoordinate::new(right_ascension, declination))
}

/// The sign and magnitude of a decimal token with an optional leading plus
/// or minus.
pub open spec fn spec_parse_signed_fixed(t: Seq<u8>, kept: nat, cap: int) -> Option<int> {
    if t.len() > 0 && t[0] == 45 {
        match spec_parse_fixed(t.drop_first(), kept, cap) {
            Some(v) => Some(-v),
            None => None,
        }
    } else if t.len() > 0 && t[0] == 43 {
        spec_parse_fixed(t.drop_first(), kept, cap)
    } else {
        spec_parse_fixed(t, kept, cap)
    }
}

/// Parses an optionally signed fixed-point decimal token.
pub fn parse_signed_fixed(t: &[u8], kept: usize, cap: u64) -> (r: Option<i64>)
    requires
        1 <= kept <= 6,
        cap <= 1_000_000_000_000,
    ensures
        r is Some <==> spec_parse_signed_fixed(t@, kept as nat, cap as int) is Some,
        r matches Some(v) ==> spec_parse_signed_fixed(t@, kept as nat, cap as int) == Some(
            v as int,
        ),
        r matches Some(v) ==> -(cap as int * spec_pow10(kept as nat) + spec_pow10(kept as nat))
            <= v as int <= cap as int * spec_pow10(kept as nat) + spec_pow10(kept as nat),
{
    proof {
        lemma_pow10_le_million(kept as nat);
        assert(cap as int * spec_pow10(kept as nat) <= 1_000_000_000_000 * 1_000_000)
            by (nonlinear_arith)
            requires
                0 <= cap <= 1_000_000_000_000,
                0 <= spec_pow10(kept as nat) <= 1_000_000,
        ;
    }
    if t.len() > 0 && (t[0] == 45 || t[0] == 43) {
        let negative = t[0] == 45;
        let magnitude = slice_subrange(t, 1, t.len());
        assert(magnitude@ =~= t@.drop_first());
        match parse_fixed(magnitude, kept, cap) {
            Some(v) => {
                let signed: i64 = v as i64;
                if negative {
                    Some(-signed)
                } else {
                    Some(signed)
                }
            },
            None => None,
        }
    } else {
        match parse_fixed(t, kept, cap) {
            Some(v) => Some(v as i64),
            None => None,
        }
    }
}

/// The coordinate a two-token decimal-degree column denotes, if any: right
/// ascension and declination in signed decimal degrees. Extra tokens are
/// ignored; fewer than two, or an unparsable token, yields nothing.
pub open spec fn spec_parse_coord4(bytes: Seq<u8>) -> Option<EquatorialCoordinate> {
    let toks = spec_tokens(bytes);
    if toks.len() < 2 {
        None
    } else {
        let ra = spec_parse_signed_fixed(toks[0], 6, DEGREES_INT_CAP as int);
        let dec = spec_parse_signed_fixed(toks[1], 6, DEGREES_INT_CAP as int);
        if ra is Some && dec is Some {
            Some(EquatorialCoordinate::spec_new(ra.unwrap() * 3600, dec.unwrap() * 3600))
        } else {
            None
        }
    }
}

/// Parses a two-token decimal-degree coordinate column (the galactic
/// coordinate dialect).
pub fn parse_coord4(input: &str) -> (r: Option<EquatorialCoordinate>)
    ensures
        r == spec_parse_coord4(vstd::utf8::encode_utf8(input@)),
        r matches Some(c) ==> c.is_normalized(),
{
    let bytes = input.as_bytes();
    assert(bytes@ == vstd::utf8::encode_utf8(input@));
    let tokens = tokenize(bytes);
    if tokens.len() < 2 {
        return None;
    }
    let ra_micro_deg: i64 = match parse_signed_fixed(tokens[0].as_slice(), 6, DEGREES_INT_CAP) {
        Some(v) => v,
        None => {
            return None;
        },
    };
    let dec_micro_deg: i64 = match parse_signed_fixed(tokens[1].as_slice(), 6, DEGREES_INT_CAP) {
        Some(v) => v,
        None => {
            return None;
        },
    };
    proof {
        assert(spec_pow10(0) == 1);
        assert(spec_pow10(1) == 10);
        assert(spec_pow10(2) == 100);
        assert(spec_pow10(3) == 1000);
        assert(spec_pow10(4) == 10000);
        assert(spec_pow10(5) == 100000);
        assert(spec_pow10(6) == 1000000);
    }
    assert(-1_000_000_001_000_000 <= ra_micro_deg <= 1_000_000_001_000_000);
    assert(-1_000_000_001_000_000 <= dec_micro_deg <= 1_000_000_001_000_000);
    Some(EquatorialCoordinate::new(ra_micro_deg * 3600, dec_micro_deg * 3600))
}

} // verus!
