//! Catalog records, resolved stars, and the import pipeline.
//!
//! A record is one raw catalog row, already split into plain fields by the
//! caller; parallaxes and the other scalar columns are held in thousandths
//! of their catalog unit. The pipeline turns each record into a per-row
//! outcome — a resolved star, a silent skip, or a missing-coordinate
//! failure — and an import aborts on the first failing row, discarding the
//! rows already resolved.

use vstd::prelude::*;
use vstd::utf8::encode_utf8;

verus! {

use crate::coord::{spec_average, trunc_div, EquatorialCoordinate};
use crate::coord::{average_coord, lemma_normalize_idempotent};
use crate::parse::{parse_coord, spec_parse_coord};

/// Numerator of the parallax-to-distance rule in fixed point: distance in
/// thousandths is this value over the parallax in thousandths of a
/// milliarcsecond, matching `3.26 / (parallax / 1000)`.
pub const DISTANCE_NUMERATOR: u64 = 3_260_000_000;

/// The import's failure surface: a required coordinate column was absent
/// from a row, or an unspecified internal failure.
#[derive(Clone, Copy, Debug, PartialEq, Eq, Structural)]
pub enum SimbadError {
    CoordNotFound,
    Unspecified,
}

/// A star's spherical position: a distance (in thousandths of the output
/// unit) and a normalized equatorial coordinate.
#[derive(Clone, Copy, Debug, PartialEq, Eq, Structural)]
pub struct StellarPosition {
    pub distance: i64,
    pub coord: EquatorialCoordinate,
}

impl StellarPosition {
    /// Builds a position, routing the coordinate through the normalization
    /// entry point.
    pub fn new(distance: i64, right_ascension: i64, declination: i64) -> (r: Self)
        ensures
            r.distance == distance,
            r.coord == EquatorialCoordinate::spec_new(right_ascension as int, declination as int),
    {
        StellarPosition {
            distance,
            coord: EquatorialCoordinate::new(right_ascension, declination),
        }
    }
}

/// One raw catalog row. String columns keep their raw text; scalar columns
/// are fixed point, in thousandths of the catalog unit; optional columns
/// absent from the row are `None`.
#[derive(Clone, Debug)]
pub struct Record {
    pub id: usize,
    pub identifier: String,
    pub typ: String,
    pub coord1: Option<String>,
    pub coord2: Option<String>,
    pub coord3: Option<String>,
    pub coord4: Option<String>,
    pub pm: Option<String>,
    /// Parallax in thousandths of a milliarcsecond.
    pub plx: Option<i64>,
    pub radvel: Option<i64>,
    pub redshift: Option<i64>,
    pub cz: Option<i64>,
    pub mag_u: Option<i64>,
    pub mag_b: Option<i64>,
    pub mag_v: Option<i64>,
    pub mag_r: Option<i64>,
    pub mag_i: Option<i64>,
    pub spec_type: Option<String>,
    pub morph_type: Option<String>,
    pub ang_size: Option<String>,
    pub pretty_name: Option<String>,
}

/// The fields of a record that the import reads, as mathematical values:
/// coordinate columns and the identifier as their UTF-8 bytes, name columns
/// as character sequences.
pub struct RecordView {
    pub id: int,
    pub identifier: Seq<u8>,
    pub coord1: Option<Seq<u8>>,
    pub coord2: Option<Seq<u8>>,
    pub coord3: Option<Seq<u8>>,
    pub coord4: Option<Seq<u8>>,
    pub plx: Option<int>,
    pub spec_type: Option<Seq<char>>,
    pub pretty_name: Option<Seq<char>>,
}

impl View for Record {
    type V = RecordView;

    open spec fn view(&self) -> RecordView {
        RecordView {
            id: self.id as int,
            identifier: encode_utf8(self.identifier@),
            coord1: match self.coord1 {
                Some(s) => Some(encode_utf8(s@)),
                None => None,
            },
            coord2: match self.coord2 {
                Some(s) => Some(encode_utf8(s@)),
                None => None,
            },
            coord3: match self.coord3 {
                Some(s) => Some(encode_utf8(s@)),
                None => None,
            },
            coord4: match self.coord4 {
                Some(s) => Some(encode_utf8(s@)),
                None => None,
            },
            plx: match self.plx {
                Some(p) => Some(p as int),
                None => None,
            },
            spec_type: match self.spec_type {
                Some(s) => Some(s@),
                None => None,
            },
            pretty_name: match self.pretty_name {
                Some(s) => Some(s@),
                None => None,
            },
        }
    }
}

/// A resolved star: its catalog id, spherical position, display name,
/// spectral class, and a constellation placeholder.
#[derive(Clone, Debug)]
pub struct Star {
    pub id: usize,
    pub pos: StellarPosition,
    pub name: String,
    pub class: String,
    pub constellation: String,
}

/// A star as mathematical values.
pub struct StarView {
    pub id: int,
    pub pos: StellarPosition,
    pub name: Seq<char>,
    pub class: Seq<char>,
    pub constellation: Seq<char>,
}

impl View for Star {
    type V = StarView;

    open spec fn view(&self) -> StarView {
        StarView {
            id: self.id as int,
            pos: self.pos,
            name: self.name@,
            class: self.class@,
            constellation: self.constellation@,
        }
    }
}

/// Distance in thousandths derived from a parallax in thousandths of a
/// milliarcsecond: the fixed-point form of `3.26 / (parallax / 1000)`, the
/// fraction truncated toward zero. A zero parallax, whose quotient has no
/// finite value, yields distance zero.
pub open spec fn spec_distance(plx_milli: int) -> int {
    if plx_milli == 0 {
        0
    } else if plx_milli > 0 {
        (DISTANCE_NUMERATOR as int) / plx_milli
    } else {
        -((DISTANCE_NUMERATOR as int) / (-plx_milli))
    }
}

/// Derives a distance from a parallax, clamping the degenerate zero
/// parallax to distance zero.
pub fn distance_from_parallax(plx_milli: i64) -> (r: i64)
    ensures
        r == spec_distance(plx_milli as int),
{
    if plx_milli == 0 {
        0
    } else if plx_milli > 0 {
        let q: u64 = DISTANCE_NUMERATOR / (plx_milli as u64);
        assert((DISTANCE_NUMERATOR as int) / (plx_milli as int) <= DISTANCE_NUMERATOR as int)
            by (nonlinear_arith)
            requires
                plx_milli >= 1,
        ;
        q as i64
    } else {
        let magnitude: u64 = (-(plx_milli as i128)) as u64;
        let q: u64 = DISTANCE_NUMERATOR / magnitude;
        assert((DISTANCE_NUMERATOR as int) / (magnitude as int) <= DISTANCE_NUMERATOR as int)
            by (nonlinear_arith)
            requires
                magnitude >= 1,
        ;
        -(q as i64)
    }
}

/// Whether a catalog identifier marks a companion star in a binary system:
/// it ends with the letter `B`.
pub open spec fn spec_is_companion(identifier: Seq<u8>) -> bool {
    identifier.len() > 0 && identifier.last() == 66
}

/// Checks the companion-star heuristic on an identifier. The check is on
/// the final byte, which coincides with the final character for UTF-8 text.
pub fn identifier_marks_companion(identifier: &str) -> (r: bool)
    ensures
        r == spec_is_companion(encode_utf8(identifier@)),
{
    let bytes = identifier.as_bytes();
    assert(bytes@ == encode_utf8(identifier@));
    if bytes.len() == 0 {
        false
    } else {
        bytes[bytes.len() - 1] == 66
    }
}

/// The coordinate readings of a record that parse, in column order. Defined
/// for records whose three primary coordinate columns are present.
pub open spec fn spec_parsed_coords(r: RecordView) -> Seq<EquatorialCoordinate> {
    let after1 = match spec_parse_coord(r.coord1.unwrap()) {
        Some(c) => Seq::empty().push(c),
        None => Seq::empty(),
    };
    let after2 = match spec_parse_coord(r.coord2.unwrap()) {
        Some(c) => after1.push(c),
        None => after1,
    };
    match spec_parse_coord(r.coord3.unwrap()) {
        Some(c) => after2.push(c),
        None => after2,
    }
}

/// What the import does with one row.
pub enum RowOutcome {
    /// The row is silently excluded: parallax or spectral type absent, or
    /// the identifier marks a companion star.
    Skipped,
    /// The row is in error, which aborts the whole import.
    Failed(SimbadError),
    /// The row contributes a star.
    Resolved(StarView),
}

/// The outcome of one row: skipped when the parallax is absent; failed when
/// a primary coordinate column is absent or none of the three readings
/// parses; skipped when the spectral type is absent or the identifier marks
/// a companion star; otherwise a star carrying the truncated mean of the
/// parsed readings and the parallax-derived distance.
pub open spec fn spec_row_outcome(r: RecordView) -> RowOutcome {
    if r.plx is None {
        RowOutcome::Skipped
    } else if r.coord1 is None || r.coord2 is None || r.coord3 is None {
        RowOutcome::Failed(SimbadError::CoordNotFound)
    } else if spec_parsed_coords(r).len() == 0 {
        RowOutcome::Failed(SimbadError::CoordNotFound)
    } else if r.spec_type is None {
        RowOutcome::Skipped
    } else if spec_is_companion(r.identifier) {
        RowOutcome::Skipped
    } else {
        RowOutcome::Resolved(
            StarView {
                id: r.id,
                pos: StellarPosition {
                    distance: spec_distance(r.plx.unwrap()) as i64,
                    coord: spec_average(spec_parsed_coords(r)),
                },
                name: match r.pretty_name {
                    Some(n) => n,
                    None => Seq::empty(),
                },
                class: r.spec_type.unwrap(),
                constellation: "?"@,
            },
        )
    }
}

/// The exec-level per-row outcome; its view is [`RowOutcome`].
pub enum RowResult {
    Skipped,
    Failed(SimbadError),
    Resolved(Star),
}

impl View for RowResult {
    type V = RowOutcome;

    open spec fn view(&self) -> RowOutcome {
        match self {
            RowResult::Skipped => RowOutcome::Skipped,
            RowResult::Failed(e) => RowOutcome::Failed(*e),
            RowResult::Resolved(star) => RowOutcome::Resolved(star@),
        }
    }
}

/// Processes one record into its tagged outcome, without touching any other
/// row.
pub fn process_record(record: &Record) -> (r: RowResult)
    ensures
        r@ == spec_row_outcome(record@),
{
    let plx: i64 = match &record.plx {
        Some(p) => *p,
        None => {
            return RowResult::Skipped;
        },
    };
    let dist = distance_from_parallax(plx);
    let column1 = match &record.coord1 {
        Some(s) => s,
        None => {
            return RowResult::Failed(SimbadError::CoordNotFound);
        },
    };
    let column2 = match &record.coord2 {
        Some(s) => s,
        None => {
            return RowResult::Failed(SimbadError::CoordNotFound);
        },
    };
    let column3 = match &record.coord3 {
        Some(s) => s,
        None => {
            return RowResult::Failed(SimbadError::CoordNotFound);
        },
    };
    let mut parsed: Vec<EquatorialCoordinate> = Vec::new();
    match parse_coord(column1.as_str()) {
        Some(c) => parsed.push(c),
        None => (),
    }
    match parse_coord(column2.as_str()) {
        Some(c) => parsed.push(c),
        None => (),
    }
    match parse_coord(column3.as_str()) {
        Some(c) => parsed.push(c),
        None => (),
    }
    assert(parsed@ =~= spec_parsed_coords(record@));
    if parsed.len() == 0 {
        return RowResult::Failed(SimbadError::CoordNotFound);
    }
    let coord = average_coord(&parsed);
    let class = match &record.spec_type {
        Some(s) => s.clone(),
        None => {
            return RowResult::Skipped;
        },
    };
    if identifier_marks_companion(record.identifier.as_str()) {
        return RowResult::Skipped;
    }
    let name = match &record.pretty_name {
        Some(n) => n.clone(),
        None => String::new(),
    };
    let position = StellarPosition::new(dist, coord.right_ascension, coord.declination);
    proof {
        lemma_normalize_idempotent(
            trunc_div(
                crate::coord::sum_right_ascension(spec_parsed_coords(record@)),
                spec_parsed_coords(record@).len() as int,
            ),
            trunc_div(
                crate::coord::sum_declination(spec_parsed_coords(record@)),
                spec_parsed_coords(record@).len() as int,
            ),
        );
    }
    RowResult::Resolved(
        Star {
            id: record.id,
            pos: position,
            name,
            class,
            constellation: "?".to_owned(),
        },
    )
}

/// The stars of a record sequence, or the first row error: rows whose
/// outcome is a skip vanish silently, a resolved row appends its star, and
/// a failed row aborts the whole import.
pub open spec fn spec_import(recs: Seq<RecordView>) -> Result<Seq<StarView>, SimbadError>
    decreases recs.len(),
{
    if recs.len() == 0 {
        Ok(Seq::empty())
    } else {
        match spec_row_outcome(recs[0]) {
            RowOutcome::Failed(e) => Err(e),
            RowOutcome::Skipped => spec_import(recs.drop_first()),
            RowOutcome::Resolved(s) => match spec_import(recs.drop_first()) {
                Ok(rest) => Ok(Seq::empty().push(s) + rest),
                Err(e) => Err(e),
            },
        }
    }
}

/// An import result as mathematical values.
pub open spec fn import_result_view(r: Result<Vec<Star>, SimbadError>) -> Result<
    Seq<StarView>,
    SimbadError,
> {
    match r {
        Ok(stars) => Ok(stars@.map_values(|s: Star| s@)),
        Err(e) => Err(e),
    }
}

/// Imports a batch of records in order: resolves each row, silently drops
/// skipped rows, and aborts with the first row error, discarding the stars
/// already collected.
pub fn import(records: &Vec<Record>) -> (r: Result<Vec<Star>, SimbadError>)
    ensures
        import_result_view(r) == spec_import(records@.map_values(|rec: Record| rec@)),
{
    let ghost recs = records@.map_values(|rec: Record| rec@);
    let mut stars: Vec<Star> = Vec::new();
    let mut i: usize = 0;
    proof {
        assert(recs.skip(0) =~= recs);
        assert(stars@.map_values(|s: Star| s@) =~= Seq::<StarView>::empty());
        match spec_import(recs) {
            Ok(rest) => {
                assert(Seq::<StarView>::empty() + rest =~= rest);
            },
            Err(_) => (),
        }
    }
    while i < records.len()
        invariant
            0 <= i <= records@.len(),
            recs == records@.map_values(|rec: Record| rec@),
            spec_import(recs) == (match spec_import(recs.skip(i as int)) {
                Ok(rest) => Ok(stars@.map_values(|s: Star| s@) + rest),
                Err(e) => Err(e),
            }),
        decreases records@.len() - i,
    {
        proof {
            assert(recs.skip(i as int).drop_first() =~= recs.skip(i + 1));
            assert(recs.skip(i as int)[0] == recs[i as int]);
            assert(recs[i as int] == records@[i as int]@);
        }
        let outcome = process_record(&records[i]);
        match outcome {
            RowResult::Skipped => (),
            RowResult::Failed(e) => {
                return Err(e);
            },
            RowResult::Resolved(star) => {
                let ghost old_map = stars@.map_values(|s: Star| s@);
                let ghost star_view = star@;
                stars.push(star);
                proof {
                    assert(stars@.map_values(|s: Star| s@) =~= old_map.push(star_view));
                    match spec_import(recs.skip(i + 1)) {
                        Ok(rest) => {
                            assert(old_map.push(star_view) + rest =~= old_map + (
                            Seq::empty().push(star_view) + rest));
                        },
                        Err(_) => (),
                    }
                }
            },
        }
        i = i + 1;
    }
    proof {
        assert(recs.skip(records@.len() as int) =~= Seq::<RecordView>::empty());
        assert(stars@.map_values(|s: Star| s@) + Seq::<StarView>::empty() =~= stars@.map_values(
            |s: Star| s@,
        ));
    }
    Ok(stars)
}

} // verus!
